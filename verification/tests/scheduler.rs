use melin::engine::scheduler::{
    decode_kind, encode_kind, ScheduledTask, ScheduledTaskHeap, ScheduledTaskKind,
};

fn task(fire_ns: u64) -> ScheduledTask {
    ScheduledTask {
        fire_ns,
        kind: ScheduledTaskKind::Reserved,
    }
}

#[test]
fn empty_heap_pops_nothing() {
    let mut heap = ScheduledTaskHeap::new();
    assert!(heap.pop_due(u64::MAX).is_none());
}

#[test]
fn pop_due_fires_only_past_tasks() {
    let mut heap = ScheduledTaskHeap::new();
    heap.push(task(100));
    heap.push(task(50));
    heap.push(task(200));

    assert_eq!(heap.pop_due(40), None, "all tasks still in the future");

    let first = heap.pop_due(150).unwrap();
    assert_eq!(first.fire_ns, 50);
    let second = heap.pop_due(150).unwrap();
    assert_eq!(second.fire_ns, 100);
    assert_eq!(heap.pop_due(150), None, "200 is still in the future");

    let third = heap.pop_due(200).unwrap();
    assert_eq!(third.fire_ns, 200);
    assert!(heap.is_empty());
}

#[test]
fn snapshot_round_trip_preserves_set() {
    let mut heap = ScheduledTaskHeap::new();
    heap.push(task(300));
    heap.push(task(100));
    heap.push(task(200));

    let snap = heap.snapshot();
    assert_eq!(
        snap.iter().map(|t| t.fire_ns).collect::<Vec<_>>(),
        vec![100, 200, 300]
    );

    let restored = ScheduledTaskHeap::restore(snap);
    let mut popped = Vec::new();
    let mut h = restored;
    while let Some(t) = h.pop_due(u64::MAX) {
        popped.push(t.fire_ns);
    }
    assert_eq!(popped, vec![100, 200, 300]);
}

#[test]
fn snapshot_is_deterministic_for_same_set() {
    let mut a = ScheduledTaskHeap::new();
    let mut b = ScheduledTaskHeap::new();
    for f in [200, 100, 300] {
        a.push(task(f));
    }
    for f in [300, 100, 200] {
        b.push(task(f));
    }
    assert_eq!(a.snapshot(), b.snapshot());
}

#[test]
fn kind_round_trip() {
    let reserved = ScheduledTaskKind::Reserved;
    assert_eq!(decode_kind(encode_kind(reserved)), Some(reserved));
    assert!(decode_kind(0xFF).is_none());
}

#[test]
fn many_tasks_fire_in_order() {
    let mut heap = ScheduledTaskHeap::default();
    let mut x: u64 = 12345;
    for _ in 0..500 {
        x = x.wrapping_mul(6364136223846793005).wrapping_add(1442695040888963407);
        heap.push(task(x % 1000));
    }
    assert_eq!(heap.len(), 500);
    let mut last = 0;
    let mut n = 0;
    while let Some(t) = heap.pop_due(998) {
        assert!(t.fire_ns >= last);
        last = t.fire_ns;
        n += 1;
    }
    assert!(last <= 998);
    assert_eq!(heap.len(), 500 - n);
    assert!(heap.pop_due(998).is_none());
}
