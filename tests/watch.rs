use buzz::watch::{uid_set, Watcher};


#[test]
fn delta_above_watermark() {
    let mut w = Watcher { watermark: 6 };
    let delta = w.observe(&vec![5, 7, 9]);
    assert_eq!(delta, vec![7, 9]);
    assert_eq!(w.watermark, 9);
}

#[test]
fn fresh_watcher_notifies_all() {
    let mut w = Watcher::new();
    assert_eq!(w.watermark, 0);
    let delta = w.observe(&vec![3, 1, 2]);
    assert_eq!(delta, vec![3, 1, 2]);
    assert_eq!(w.watermark, 3);
}

#[test]
fn empty_unseen_keeps_watermark() {
    let mut w = Watcher { watermark: 12 };
    let delta = w.observe(&vec![]);
    assert!(delta.is_empty());
    assert_eq!(w.watermark, 12);
}

#[test]
fn subset_is_not_renotified() {
    let mut w = Watcher::new();
    assert_eq!(w.observe(&vec![4, 8, 15]), vec![4, 8, 15]);
    assert!(w.observe(&vec![8, 15]).is_empty());
    assert!(w.observe(&vec![4]).is_empty());
    assert_eq!(w.watermark, 15);
}

#[test]
fn watermark_never_decreases() {
    let mut w = Watcher::new();
    let cycles: Vec<Vec<u32>> = vec![vec![2], vec![10, 3], vec![], vec![1], vec![11, 4], vec![5]];
    let mut last = w.watermark;
    for c in &cycles {
        w.observe(c);
        assert!(w.watermark >= last);
        last = w.watermark;
    }
    assert_eq!(w.watermark, 11);
}

#[test]
fn message_set_joins_decimals() {
    assert_eq!(uid_set(&vec![7, 9, 120]), "7,9,120");
    assert_eq!(uid_set(&vec![0]), "0");
    assert_eq!(uid_set(&vec![]), "");
    assert_eq!(uid_set(&vec![4294967295]), "4294967295");
}

#[test]
fn cycle_fetches_only_new_mail() {
    let mut w = Watcher { watermark: 6 };
    let c = w.begin_cycle(&vec![5, 7, 9]);
    assert_eq!(c.delta, vec![7, 9]);
    assert_eq!(c.fetch, Some("7,9".to_string()));
    assert_eq!(c.unseen, 3);
    let c = w.begin_cycle(&vec![5, 9]);
    assert!(c.delta.is_empty());
    assert_eq!(c.fetch, None);
    assert_eq!(c.unseen, 2);
}

#[test]
fn fresh_session_renotifies_after_reconnect() {
    let mut w = Watcher::new();
    w.observe(&vec![3, 8]);
    assert_eq!(w.watermark, 8);
    let mut fresh = Watcher::new();
    let c = fresh.begin_cycle(&vec![3, 8]);
    assert_eq!(c.delta, vec![3, 8]);
    assert_eq!(fresh.watermark, 8);
}
