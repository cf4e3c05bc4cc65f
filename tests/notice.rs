use buzz::notice::{build_notice, find_slot, names_match, notice_now, title};

fn header(subject: &str, date: &str) -> Option<Vec<u8>> {
    Some(format!("Subject: {}\r\nDate: {}\r\n\r\n", subject, date).into_bytes())
}

#[test]
fn unparsable_header_is_skipped() {
    let headers = vec![
        (7, header("older", "Tue, 1 Jul 2003 10:52:37 +0200")),
        (8, Some(b" broken: header starts with a space\r\n\r\n".to_vec())),
        (9, header("newer", "Wed, 2 Jul 2003 10:52:37 +0200")),
    ];
    let n = build_notice("work", 3, &headers, 0);
    assert_eq!(n.lines, vec!["> newer".to_string(), "> older".to_string()]);
    assert_eq!(n.skipped, vec![8]);
    assert!(n.undated.is_empty());
    assert_eq!(n.body, "&gt; newer\n&gt; older");
    assert_eq!(n.title, "@work has new mail (3 unseen)");
    assert!(n.fires());
}

#[test]
fn missing_subject_and_bad_date() {
    let headers = vec![
        (1, Some(b"Date: not a date\r\n\r\n".to_vec())),
        (2, header("dated", "Thu, 3 Jul 2003 00:00:00 +0000")),
    ];
    // The bad date is taken as now, which is later than the dated message.
    let now = 2_000_000_000;
    let n = build_notice("me", 2, &headers, now);
    assert_eq!(n.lines, vec!["> <no subject>".to_string(), "> dated".to_string()]);
    assert_eq!(n.undated, vec![1]);
    assert_eq!(n.body, "&gt; &lt;no subject&gt;\n&gt; dated");
}

#[test]
fn header_names_ignore_case() {
    let headers = vec![(4, Some(b"SUBJECT: Loud\r\ndate: Thu, 3 Jul 2003 00:00:00 +0000\r\n\r\n".to_vec()))];
    let n = build_notice("a", 1, &headers, 0);
    assert_eq!(n.lines, vec!["> Loud".to_string()]);
    assert!(names_match("Subject", "sUBJECT"));
    assert!(!names_match("Subject", "Subjects"));
}

#[test]
fn nothing_parsed_does_not_fire() {
    let headers = vec![(1, None), (2, Some(b" bad\r\n\r\n".to_vec()))];
    let n = build_notice("a", 5, &headers, 0);
    assert!(n.lines.is_empty());
    assert!(!n.fires());
    assert_eq!(n.body, "");
    assert_eq!(n.skipped, vec![2]);
}

#[test]
fn same_date_keeps_order_of_arrival() {
    let d = "Thu, 3 Jul 2003 00:00:00 +0000";
    let headers = vec![(1, header("first", d)), (2, header("second", d))];
    let n = build_notice("a", 2, &headers, 0);
    assert_eq!(n.lines, vec!["> first".to_string(), "> second".to_string()]);
}

#[test]
fn body_is_escaped_as_html() {
    let headers = vec![(1, header("Tom & \"Jerry\" <it's>", "Thu, 3 Jul 2003 00:00:00 +0000"))];
    let n = build_notice("a", 1, &headers, 0);
    assert_eq!(n.body, "&gt; Tom &amp; &quot;Jerry&quot; &lt;it&#x27;s&gt;");
}

#[test]
fn title_counts_unseen() {
    assert_eq!(title("x", 0), "@x has new mail (0 unseen)");
    assert_eq!(title("home", 1234567), "@home has new mail (1234567 unseen)");
}

#[test]
fn slot_after_equal_or_newer() {
    assert_eq!(find_slot(&vec![9, 7, 7, 3], 7), 3);
    assert_eq!(find_slot(&vec![9, 7, 3], 10), 0);
    assert_eq!(find_slot(&vec![9, 7, 3], 1), 3);
    assert_eq!(find_slot(&vec![], 1), 0);
}

#[test]
fn notice_now_dates_undated_messages() {
    let headers = vec![(1, Some(b"Subject: plain\r\n\r\n".to_vec()))];
    let n = notice_now("a", 1, &headers);
    assert_eq!(n.lines, vec!["> plain".to_string()]);
    assert!(n.undated.is_empty());
}

#[test]
fn fetch_order_does_not_change_lines() {
    let a = (1, header("sa", "Wed, 2 Jul 2003 10:52:37 +0200"));
    let b = (2, header("sb", "Tue, 1 Jul 2003 10:52:37 +0200"));
    let c = (3, Some(b" unparsable\r\n\r\n".to_vec()));
    let orders = vec![
        vec![a.clone(), b.clone(), c.clone()],
        vec![c.clone(), b.clone(), a.clone()],
        vec![b.clone(), c.clone(), a.clone()],
    ];
    for headers in orders {
        let n = build_notice("x", 3, &headers, 0);
        assert_eq!(n.lines, vec!["> sa".to_string(), "> sb".to_string()]);
        assert_eq!(n.skipped, vec![3]);
    }
}
