use os_sync::stride::{precedes, TaskManager};

#[test]
fn precedes_uses_wrapped_difference() {
    assert!(precedes(3, 5));
    assert!(!precedes(5, 3));
    assert!(!precedes(4, 4));
    // 250 comes before 5 once strides wrap around a byte
    assert!(precedes(250, 5));
    assert!(!precedes(5, 250));
    // only the low byte of the difference counts
    assert!(!precedes(256, 0));
    assert!(precedes(0x1_0000_0003, 0x1_0000_0004));
}

#[test]
fn fetch_from_empty_is_none() {
    let mut m: TaskManager<u32> = TaskManager::new();
    assert_eq!(m.fetch(), None);
}

#[test]
fn single_task_is_fetched_back() {
    let mut m: TaskManager<&str> = TaskManager::new();
    m.add("a", 40);
    assert_eq!(m.fetch(), Some("a"));
    assert_eq!(m.fetch(), None);
}

#[test]
fn fetch_hands_tasks_out_in_the_order_added() {
    let mut m: TaskManager<&str> = TaskManager::new();
    m.add("first", 10);
    m.add("second", 5);
    m.add("third", 30);
    assert_eq!(m.fetch(), Some("first"));
    m.add("fourth", 1);
    assert_eq!(m.fetch(), Some("second"));
    assert_eq!(m.fetch(), Some("third"));
    assert_eq!(m.fetch(), Some("fourth"));
    assert_eq!(m.fetch(), None);
}

#[test]
fn strides_of_distinct_non_half_difference_have_exactly_one_first() {
    for (a, b) in [(0u64, 1u64), (250, 5), (5, 250), (0x1_0000_0000, 0xffff_ffff), (0, 127), (129, 0)] {
        assert!(precedes(a, b) != precedes(b, a));
    }
}

#[test]
fn strides_half_a_byte_apart_precede_each_other() {
    // the one difference the order cannot settle
    assert!(precedes(128, 0));
    assert!(precedes(0, 128));
    // any other pair is settled one way at most
    assert!(precedes(0, 127) && !precedes(127, 0));
}
