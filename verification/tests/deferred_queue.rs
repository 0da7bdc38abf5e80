use reactio::deferred::{
    is_deferred_current, min_heap_pop, min_heap_push, DeferredKey, DeferredQueue,
};

fn keys(v: &[DeferredKey]) -> Vec<i64> {
    v.iter().map(|k| k.get_key()).collect()
}

#[test]
fn heap_keeps_the_earliest_first() {
    let mut heap: Vec<DeferredKey> = Vec::new();
    for (i, millis) in [50i64, 20, 40, 10, 30, 10].iter().enumerate() {
        heap.push(DeferredKey {
            millis: *millis,
            data: i,
        });
        min_heap_push(&mut heap);
    }
    let mut out = Vec::new();
    while !heap.is_empty() {
        min_heap_pop(&mut heap);
        out.push(heap.pop().unwrap());
    }
    assert_eq!(keys(&out), vec![10, 10, 20, 30, 40, 50]);
    let mut data: Vec<usize> = out.iter().map(|k| k.data).collect();
    data.sort();
    assert_eq!(data, vec![0, 1, 2, 3, 4, 5]);
}

#[test]
fn time_is_current_half_a_millisecond_later() {
    assert!(!is_deferred_current(5, 5_000_000));
    assert!(!is_deferred_current(5, 5_499_999));
    assert!(is_deferred_current(5, 5_500_000));
    assert!(is_deferred_current(-1, -500_000));
}

#[test]
fn commands_leave_in_the_order_of_their_times() {
    let mut queue: DeferredQueue<&str> = DeferredQueue::new();
    assert_eq!(queue.len(), 0);
    assert_eq!(queue.pop_current(i64::MAX), None);
    queue.push(30, "c");
    queue.push(10, "a");
    queue.push(20, "b");
    assert_eq!(queue.len(), 3);
    assert_eq!(queue.pop_current(10_499_999), None);
    assert_eq!(queue.len(), 3);
    assert_eq!(queue.pop_current(20_500_000), Some((10, "a")));
    assert_eq!(queue.pop_current(20_500_000), Some((20, "b")));
    assert_eq!(queue.pop_current(20_500_000), None);
    queue.push(5, "d");
    assert_eq!(queue.pop_current(1_000_000_000), Some((5, "d")));
    assert_eq!(queue.pop_current(1_000_000_000), Some((30, "c")));
    assert_eq!(queue.len(), 0);
}

#[test]
fn pushed_element_changes_places_with_its_parents() {
    let entries = [(2i64, 0usize), (5, 1), (3, 2), (1, 3)];
    let mut heap: Vec<DeferredKey> = entries
        .iter()
        .map(|(millis, data)| DeferredKey {
            millis: *millis,
            data: *data,
        })
        .collect();
    min_heap_push(&mut heap);
    let arranged: Vec<(i64, usize)> = heap.iter().map(|k| (k.millis, k.data)).collect();
    assert_eq!(arranged, vec![(1, 3), (2, 0), (3, 2), (5, 1)]);
    heap.push(DeferredKey { millis: 2, data: 4 });
    min_heap_push(&mut heap);
    let arranged: Vec<(i64, usize)> = heap.iter().map(|k| (k.millis, k.data)).collect();
    assert_eq!(arranged, vec![(1, 3), (2, 0), (3, 2), (5, 1), (2, 4)]);
}
