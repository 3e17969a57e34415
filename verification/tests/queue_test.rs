use wremind::queue::{PendingShow, ShowQueue};

fn item(i: u32) -> PendingShow {
    PendingShow { message: format!("msg {i}"), character: None, label: format!("r{i}") }
}

#[test]
fn sequential_when_max_one() {
    let mut q = ShowQueue::new(1);
    for i in 0..3 {
        q.push(item(i));
    }
    assert_eq!(q.len(), 3);
    let batch = q.take(1);
    assert_eq!(batch.len(), 1);
    assert_eq!(batch[0].label, "r0");
    let batch2 = q.take(1);
    assert_eq!(batch2[0].label, "r1");
}

#[test]
fn respects_slots() {
    let mut q = ShowQueue::new(2);
    for i in 0..5 {
        q.push(item(i));
    }
    assert_eq!(q.take(2).len(), 2);
    assert_eq!(q.take(0).len(), 0);
    assert_eq!(q.take(9).len(), 3);
    assert!(q.is_empty());
}

#[test]
fn bounded() {
    let mut q = ShowQueue::new(1);
    for i in 0..100 {
        q.push(item(i));
    }
    assert!(q.len() <= 32);
}

#[test]
fn full_queue_drops_oldest() {
    let mut q = ShowQueue::new(1);
    for i in 0..33 {
        q.push(item(i));
    }
    assert_eq!(q.len(), 32);
    let all = q.take(100);
    assert_eq!(all[0].label, "r1");
    assert_eq!(all[31].label, "r32");
}

#[test]
fn capacity_is_clamped() {
    assert_eq!(ShowQueue::new(0).capacity(), 1);
    assert_eq!(ShowQueue::new(3).capacity(), 3);
    assert_eq!(ShowQueue::new(10).capacity(), 4);
}
