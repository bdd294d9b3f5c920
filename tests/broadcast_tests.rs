use ml2::broadcast::LossyQueue;

#[test]
fn overflow_drops_oldest() {
    let mut q = LossyQueue::new(10);
    for i in 1..=12u32 {
        q.push(i);
    }
    assert_eq!(q.len(), 10);
    assert_eq!(q.capacity(), 10);
    let mut seen = Vec::new();
    while let Some(x) = q.pop() {
        seen.push(x);
    }
    assert_eq!(seen, (3..=12).collect::<Vec<u32>>());
    assert_eq!(q.pop(), None);
}

#[test]
fn order_kept_below_capacity() {
    let mut q = LossyQueue::new(3);
    q.push("a");
    q.push("b");
    assert_eq!(q.pop(), Some("a"));
    q.push("c");
    q.push("d");
    q.push("e");
    assert_eq!(q.pop(), Some("c"));
    assert_eq!(q.pop(), Some("d"));
    assert_eq!(q.pop(), Some("e"));
}
