use hyperion::uplink::UplinkQueue;

#[test]
fn held_burns_wait_for_contact() {
    let mut q: UplinkQueue<&str> = UplinkQueue::new();
    q.hold(4, vec!["B1", "B2"]);
    q.hold(7, vec!["C1"]);
    assert_eq!(q.len(), 3);
    assert_eq!(q.entries(), &vec![(4, "B1"), (4, "B2"), (7, "C1")]);

    // Nobody in contact: nothing is sent and everything stays.
    let sent = q.release(&vec![], &vec![true, true, true]);
    assert!(sent.is_empty());
    assert_eq!(q.len(), 3);

    // Satellite 4 comes into view: its burns go out in order.
    let sent = q.release(&vec![4], &vec![true, true, true]);
    assert_eq!(sent, vec!["B1", "B2"]);
    assert_eq!(q.entries(), &vec![(7, "C1")]);
}

#[test]
fn burns_whose_time_passed_are_dropped_at_contact() {
    let mut q: UplinkQueue<u32> = UplinkQueue::new();
    q.hold(4, vec![10, 20, 30]);
    let sent = q.release(&vec![9, 4], &vec![true, false, true]);
    assert_eq!(sent, vec![10, 30]);
    assert_eq!(q.len(), 0);
}

#[test]
fn empty_queue_releases_nothing() {
    let mut q: UplinkQueue<u32> = UplinkQueue::new();
    assert!(q.release(&vec![1, 2], &vec![]).is_empty());
    q.hold(3, vec![]);
    assert_eq!(q.len(), 0);
}

#[test]
fn later_holds_go_out_after_earlier_ones() {
    let mut q: UplinkQueue<u32> = UplinkQueue::new();
    q.hold(4, vec![1]);
    q.hold(7, vec![2]);
    q.hold(4, vec![3, 4]);
    let sent = q.release(&vec![4], &vec![true, true, true, true]);
    assert_eq!(sent, vec![1, 3, 4]);
    // Only satellites out of contact keep held burns.
    assert_eq!(q.entries(), &vec![(7, 2)]);
    assert!(q.entries().iter().all(|(sat, _)| *sat != 4));
}
