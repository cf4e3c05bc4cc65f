use buzz::aggregate::Aggregate;
use buzz::supervisor::{Failure, Next, Supervisor};

#[test]
fn new_table_is_all_read() {
    let a = Aggregate::new(3);
    assert_eq!(a.unseen, vec![0, 0, 0]);
    let s = a.status();
    assert_eq!(s.total, 0);
    assert_eq!(s.class, "mail-read");
    assert_eq!(s.tooltip, "You have reached inbox 0!");
    assert_eq!(s.text, "\u{f2b6}");
}

#[test]
fn interleaved_events_keep_last_count() {
    let mut a = Aggregate::new(3);
    let events = vec![(0, 1), (2, 4), (1, 2), (0, 3), (2, 6), (1, 2), (0, 5)];
    for (i, c) in events {
        a.record(i, c);
    }
    assert_eq!(a.unseen, vec![5, 2, 6]);
    assert_eq!(a.total(), 13);
}

#[test]
fn end_of_stream_changes_nothing() {
    let mut a = Aggregate::new(2);
    assert!(a.receive(Some((1, 4))).is_some());
    assert!(a.receive(None).is_none());
    assert_eq!(a.unseen, vec![0, 4]);
}

#[test]
fn two_accounts_after_one_dropped() {
    // Three accounts configured; the third is refused by its server on the
    // first connect and is dropped, so two workers report, with indices 0 and 1.
    let mut third = Supervisor::preflight();
    assert_eq!(third.on_failure(Failure::Protocol), Next::GiveUp);
    assert!(!third.may_attempt());
    let mut a = Aggregate::new(2);
    let s = a.receive(Some((0, 0))).unwrap();
    assert_eq!((s.total, s.class.as_str()), (0, "mail-read"));
    let s = a.receive(Some((1, 0))).unwrap();
    assert_eq!((s.total, s.class.as_str()), (0, "mail-read"));
    let s = a.receive(Some((0, 3))).unwrap();
    assert_eq!(s.total, 3);
    assert_eq!(s.class, "mail-unread");
    assert_eq!(s.tooltip, "You have unread mail!");
    assert_eq!(s.text, "\u{f0e0}");
    let s = a.receive(Some((1, 0))).unwrap();
    assert_eq!((s.total, s.class.as_str()), (3, "mail-unread"));
    let s = a.receive(Some((0, 0))).unwrap();
    assert_eq!((s.total, s.class.as_str()), (0, "mail-read"));
    let s = a.receive(Some((1, 5))).unwrap();
    assert_eq!(a.unseen, vec![0, 5]);
    assert_eq!(s.total, 5);
    assert_eq!(s.class, "mail-unread");
}

#[test]
fn total_of_largest_counts() {
    let mut a = Aggregate::new(2);
    a.record(0, usize::MAX);
    a.record(1, usize::MAX);
    assert_eq!(a.total(), 2 * (usize::MAX as u128));
    assert_eq!(a.len(), 2);
}

#[test]
fn interleavings_agree() {
    let first = vec![(0, 1), (1, 4), (0, 2), (2, 7), (1, 0), (0, 3)];
    let second = vec![(2, 7), (1, 4), (1, 0), (0, 1), (0, 2), (0, 3)];
    let mut a = Aggregate::new(3);
    let mut b = Aggregate::new(3);
    let mut last_a = None;
    let mut last_b = None;
    for e in first {
        last_a = a.receive(Some(e));
    }
    for e in second {
        last_b = b.receive(Some(e));
    }
    assert_eq!(a.unseen, b.unseen);
    assert_eq!(a.unseen, vec![3, 0, 7]);
    let (sa, sb) = (last_a.unwrap(), last_b.unwrap());
    assert_eq!((sa.total, sa.class.clone()), (sb.total, sb.class.clone()));
    assert_eq!(sa.class, "mail-unread");
}
