//! Deadlock avoidance and synchronisation bookkeeping of a small teaching
//! kernel: the banker's resource manager, the per-process tables of mutexes,
//! semaphores and condition variables, the decision parts of the
//! synchronisation and process system calls, and the scheduler's first-in,
//! first-out ready queue with the stride order of tasks.
pub mod banker;
pub mod banker_laws;
mod banker_lemmas;
pub mod process;
pub mod sync_call;
pub mod process_call;
pub mod stride;
