# os_sync

Verified synchronisation bookkeeping of a small teaching kernel.

- `src/banker.rs`: the banker's resource manager. `is_safe` is proved to
  answer exactly whether every thread can finish in some order (a safe
  sequence exists), after refusing a mutex with no free unit.
- `src/banker_laws.rs`: laws over the manager's state (request/grant/release
  round trips, conservation of each resource's units, registration keeps the
  state well formed with every row covering every resource, a state with no
  outstanding need is safe, more need never makes a state safe, the verdict
  does not depend on the order of threads).
- `src/process.rs`, `src/sync_call.rs`: the per-process tables of mutexes,
  semaphores and condition variables, and the decision parts of the
  synchronisation system calls. A blocking call is split into a decision
  (the banker's check) and a completion that records the grant.
- `src/process_call.rs`: what `get_time`, `sbrk`, `sleep` and `trace`
  compute.
- `src/stride.rs`: the first-in, first-out ready queue and the stride order
  of tasks.
- `app/lib.rs`: kernel glue (global managers, blocking, clock, user memory).
