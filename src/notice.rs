//! The notification of one watch cycle, built from the raw headers of the new
//! messages.

use crate::text::{escape_html, html_escaped, join_lines, joined, push_decimal, decimal, views};
use vstd::prelude::*;
use vstd::string::*;

verus! {

/// The header fields, as (name, value) pairs in order, that mailparse reads from
/// a raw header block, or `None` where it cannot parse the block.
pub uninterp spec fn header_fields(raw: Seq<u8>) -> Option<Seq<(Seq<char>, Seq<char>)>>;

/// The instant, in seconds since the Unix epoch, of an RFC 2822 date, or `None`
/// where chrono cannot parse it.
pub uninterp spec fn rfc2822_time(s: Seq<char>) -> Option<i64>;

/// The views of a sequence of (name, value) pairs.
pub open spec fn field_views(v: Seq<(String, String)>) -> Seq<(Seq<char>, Seq<char>)> {
    v.map_values(|p: (String, String)| (p.0@, p.1@))
}

/// Relies on mailparse::parse_headers, with MailHeader::get_key and
/// MailHeader::get_value for each header found.
#[verifier::external_body]
fn parse_header_fields(raw: &Vec<u8>) -> (r: Option<Vec<(String, String)>>)
    ensures
        match r {
            Some(v) => header_fields(raw@) == Some(field_views(v@)),
            None => header_fields(raw@) is None,
        },
{
    match mailparse::parse_headers(raw) {
        Ok((headers, _)) => Some(headers.iter().map(|h| (h.get_key(), h.get_value())).collect()),
        Err(_) => None,
    }
}

/// Relies on chrono::DateTime::parse_from_rfc2822, and on DateTime::timestamp
/// to read the instant it parsed.
#[verifier::external_body]
fn parse_rfc2822(s: &str) -> (r: Option<i64>)
    ensures
        r == rfc2822_time(s@),
{
    chrono::DateTime::parse_from_rfc2822(s).ok().map(|d| d.timestamp())
}

/// Relies on chrono::Utc::now: the current instant, in seconds since the Unix
/// epoch. Nothing is known of its value.
#[verifier::external_body]
fn now_seconds() -> (r: i64) {
    chrono::Utc::now().timestamp()
}

/// `c` with an ASCII capital letter taken to its small letter, as a code point.
pub open spec fn folded(c: char) -> u32 {
    if 'A' <= c && c <= 'Z' {
        (c as u32 + 32) as u32
    } else {
        c as u32
    }
}

/// Header names are compared without regard to ASCII case.
pub open spec fn same_name(a: Seq<char>, b: Seq<char>) -> bool {
    a.len() == b.len() && forall|i: int| 0 <= i < a.len() ==> folded(a[i]) == folded(b[i])
}

/// The value of the first field named `name`.
pub open spec fn first_value(fields: Seq<(Seq<char>, Seq<char>)>, name: Seq<char>) -> Option<
    Seq<char>,
>
    decreases fields.len(),
{
    if fields.len() == 0 {
        None
    } else if same_name(fields[0].0, name) {
        Some(fields[0].1)
    } else {
        first_value(fields.drop_first(), name)
    }
}

/// The subject of a message, with a placeholder where it has none.
pub open spec fn subject_of(fields: Seq<(Seq<char>, Seq<char>)>) -> Seq<char> {
    match first_value(fields, "Subject"@) {
        Some(s) => s,
        None => "<no subject>"@,
    }
}

/// The instant a message was sent, or `now` where its date is absent or unparsable.
pub open spec fn date_of(fields: Seq<(Seq<char>, Seq<char>)>, now: i64) -> i64 {
    match first_value(fields, "Date"@) {
        Some(d) => match rfc2822_time(d) {
            Some(t) => t,
            None => now,
        },
        None => now,
    }
}

/// Whether a message has a date that cannot be parsed.
pub open spec fn bad_date(fields: Seq<(Seq<char>, Seq<char>)>) -> bool {
    match first_value(fields, "Date"@) {
        Some(d) => rfc2822_time(d) is None,
        None => false,
    }
}

/// The position at which an entry dated `date` goes in a list ordered newest
/// first: after every entry at least as new, searching from `from`.
pub open spec fn slot(dates: Seq<i64>, date: i64, from: int) -> int
    decreases dates.len() - from,
{
    if from >= dates.len() || dates[from] < date {
        from
    } else {
        slot(dates, date, from + 1)
    }
}

/// The (date, subject) entries of the messages whose header parses, newest first;
/// of two with the same date, the one listed first comes first.
pub open spec fn entries(headers: Seq<(u32, Option<Vec<u8>>)>, now: i64) -> Seq<(i64, Seq<char>)>
    decreases headers.len(),
{
    if headers.len() == 0 {
        Seq::empty()
    } else {
        let prior = entries(headers.drop_last(), now);
        match headers.last().1 {
            None => prior,
            Some(raw) => match header_fields(raw@) {
                None => prior,
                Some(fields) => {
                    let e = (date_of(fields, now), subject_of(fields));
                    prior.insert(slot(prior.map_values(|p: (i64, Seq<char>)| p.0), e.0, 0), e)
                },
            },
        }
    }
}

/// The identifiers of the messages whose header block does not parse.
pub open spec fn unparsable(headers: Seq<(u32, Option<Vec<u8>>)>) -> Seq<u32>
    decreases headers.len(),
{
    if headers.len() == 0 {
        Seq::empty()
    } else {
        let prior = unparsable(headers.drop_last());
        match headers.last().1 {
            Some(raw) => if header_fields(raw@) is None {
                prior.push(headers.last().0)
            } else {
                prior
            },
            None => prior,
        }
    }
}

/// The identifiers of the messages whose header parses but whose date does not.
pub open spec fn undated(headers: Seq<(u32, Option<Vec<u8>>)>) -> Seq<u32>
    decreases headers.len(),
{
    if headers.len() == 0 {
        Seq::empty()
    } else {
        let prior = undated(headers.drop_last());
        match headers.last().1 {
            Some(raw) => match header_fields(raw@) {
                Some(fields) => if bad_date(fields) {
                    prior.push(headers.last().0)
                } else {
                    prior
                },
                None => prior,
            },
            None => prior,
        }
    }
}

/// The title of the notification for an account.
pub open spec fn title_of(account: Seq<char>, unseen: nat) -> Seq<char> {
    "@"@ + account + " has new mail ("@ + decimal(unseen) + " unseen)"@
}

/// One line of the notification body.
pub open spec fn line_of(subject: Seq<char>) -> Seq<char> {
    "> "@ + subject
}

/// The notification of one cycle and what it leaves out.
pub struct Notice {
    /// The title, which names the account and its number of unseen messages.
    pub title: String,
    /// One line per new message whose header parsed, newest first.
    pub lines: Vec<String>,
    /// The lines joined by newlines, escaped as HTML.
    pub body: String,
    /// The messages skipped because their header block did not parse.
    pub skipped: Vec<u32>,
    /// The messages whose date did not parse, dated now instead.
    pub undated: Vec<u32>,
}

impl Notice {
    /// Whether the notification is to be shown and the trigger command run:
    /// there is at least one line.
    pub fn fires(&self) -> (r: bool)
        ensures
            r == (self.lines@.len() > 0),
    {
        self.lines.len() > 0
    }
}

fn is_upper(c: char) -> (r: bool)
    ensures
        r == ('A' <= c && c <= 'Z'),
{
    'A' <= c && c <= 'Z'
}

fn fold_char(c: char) -> (r: u32)
    ensures
        r == folded(c),
{
    if is_upper(c) {
        c as u32 + 32
    } else {
        c as u32
    }
}

/// Whether two header names are equal without regard to ASCII case.
pub fn names_match(a: &str, b: &str) -> (r: bool)
    ensures
        r == same_name(a@, b@),
{
    let n = a.unicode_len();
    if n != b.unicode_len() {
        return false;
    }
    let mut i: usize = 0;
    while i < n
        invariant
            n == a@.len(),
            n == b@.len(),
            i <= n,
            forall|k: int| 0 <= k < i ==> folded(a@[k]) == folded(b@[k]),
        decreases n - i,
    {
        if fold_char(a.get_char(i)) != fold_char(b.get_char(i)) {
            return false;
        }
        i = i + 1;
    }
    true
}

/// The value of the first field named `name`, without regard to ASCII case.
pub fn find_value(fields: &Vec<(String, String)>, name: &str) -> (r: Option<String>)
    ensures
        match r {
            Some(v) => first_value(field_views(fields@), name@) == Some(v@),
            None => first_value(field_views(fields@), name@) is None,
        },
{
    let ghost all = field_views(fields@);
    assert(all.subrange(0, all.len() as int) =~= all);
    let mut i: usize = 0;
    while i < fields.len()
        invariant
            i <= fields@.len(),
            all == field_views(fields@),
            first_value(all, name@) == first_value(all.subrange(i as int, all.len() as int), name@),
        decreases fields@.len() - i,
    {
        let ghost rest = all.subrange(i as int, all.len() as int);
        assert(rest.drop_first() =~= all.subrange(i + 1, all.len() as int));
        if names_match(fields[i].0.as_str(), name) {
            return Some(fields[i].1.clone());
        }
        i = i + 1;
    }
    assert(all.subrange(i as int, all.len() as int) =~= Seq::<(Seq<char>, Seq<char>)>::empty());
    None
}

/// The position at which an entry dated `date` goes in `dates`, which lists
/// the entries newest first.
pub fn find_slot(dates: &Vec<i64>, date: i64) -> (p: usize)
    ensures
        p as int == slot(dates@, date, 0),
        p <= dates@.len(),
{
    let mut i: usize = 0;
    while i < dates.len() && dates[i] >= date
        invariant
            i <= dates@.len(),
            slot(dates@, date, 0) == slot(dates@, date, i as int),
        decreases dates@.len() - i,
    {
        i = i + 1;
    }
    i
}

/// The title of the notification for `account` with `unseen` unseen messages.
pub fn title(account: &str, unseen: u64) -> (r: String)
    ensures
        r@ == title_of(account@, unseen as nat),
{
    let mut r = String::from_str("@");
    r.append(account);
    r.append(" has new mail (");
    push_decimal(&mut r, unseen);
    r.append(" unseen)");
    r
}

/// Builds the notification of one cycle for `account`, which has `unseen` unseen
/// messages, from the header blocks fetched for its new messages. A message
/// without a header block is passed over; one whose block does not parse is
/// skipped and listed; one without a date, or with one that does not parse, is
/// dated `now`.
pub fn build_notice(account: &str, unseen: u64, headers: &Vec<(u32, Option<Vec<u8>>)>, now: i64) -> (r: Notice)
    ensures
        r.title@ == title_of(account@, unseen as nat),
        views(r.lines@) == entries(headers@, now).map_values(|e: (i64, Seq<char>)| line_of(e.1)),
        r.body@ == html_escaped(joined(views(r.lines@))),
        r.skipped@ == unparsable(headers@),
        r.undated@ == undated(headers@),
{
    let ghost hs = headers@;
    let mut dates: Vec<i64> = Vec::new();
    let mut subjects: Vec<String> = Vec::new();
    let mut skipped: Vec<u32> = Vec::new();
    let mut bad: Vec<u32> = Vec::new();
    let mut i: usize = 0;
    while i < headers.len()
        invariant
            i <= hs.len(),
            hs == headers@,
            entries(hs.subrange(0, i as int), now).len() == dates@.len(),
            dates@.len() == subjects@.len(),
            forall|j: int|
                0 <= j < dates@.len() ==> #[trigger] entries(hs.subrange(0, i as int), now)[j] == (
                dates@[j],
                subjects@[j]@,
            ),
            skipped@ == unparsable(hs.subrange(0, i as int)),
            bad@ == undated(hs.subrange(0, i as int)),
        decreases hs.len() - i,
    {
        let ghost prior = entries(hs.subrange(0, i as int), now);
        assert(hs.subrange(0, i + 1).drop_last() =~= hs.subrange(0, i as int));
        assert(hs.subrange(0, i + 1).last() == hs[i as int]);
        let id = headers[i].0;
        match &headers[i].1 {
            None => {},
            Some(raw) => {
                match parse_header_fields(raw) {
                    None => {
                        skipped.push(id);
                    },
                    Some(fields) => {
                        let subject = match find_value(&fields, "Subject") {
                            Some(s) => s,
                            None => String::from_str("<no subject>"),
                        };
                        let date = match find_value(&fields, "Date") {
                            Some(d) => match parse_rfc2822(d.as_str()) {
                                Some(t) => t,
                                None => {
                                    bad.push(id);
                                    now
                                },
                            },
                            None => now,
                        };
                        assert(prior.map_values(|q: (i64, Seq<char>)| q.0) =~= dates@) by {
                            assert forall|j: int| 0 <= j < dates@.len() implies prior[j].0
                                == dates@[j] by {
                                assert(prior[j] == (dates@[j], subjects@[j]@));
                            }
                        }
                        let p = find_slot(&dates, date);
                        let ghost e = (date, subject@);
                        let ghost old_dates = dates@;
                        let ghost old_subjects = subjects@;
                        dates.insert(p, date);
                        subjects.insert(p, subject);
                        proof {
                            let next = prior.insert(p as int, e);
                            assert(next == entries(hs.subrange(0, i + 1), now));
                            assert forall|j: int| 0 <= j < dates@.len() implies #[trigger] next[j] == (
                                dates@[j],
                                subjects@[j]@,
                            ) by {
                                if j < p {
                                    assert(prior[j] == (old_dates[j], old_subjects[j]@));
                                } else if j > p {
                                    assert(prior[j - 1] == (old_dates[j - 1], old_subjects[j - 1]@));
                                }
                            }
                        }
                    },
                }
            },
        }
        i = i + 1;
    }
    assert(hs.subrange(0, hs.len() as int) =~= hs);
    let ghost ents = entries(hs, now);
    assert forall|j: int| 0 <= j < subjects@.len() implies #[trigger] ents[j].1 == subjects@[j]@ by {
        assert(ents[j] == (dates@[j], subjects@[j]@));
    }
    let mut lines: Vec<String> = Vec::new();
    let mut k: usize = 0;
    while k < subjects.len()
        invariant
            k <= subjects@.len(),
            ents.len() == subjects@.len(),
            forall|j: int| 0 <= j < subjects@.len() ==> #[trigger] ents[j].1 == subjects@[j]@,
            lines@.len() == k,
            forall|j: int| 0 <= j < k ==> #[trigger] lines@[j]@ == line_of(ents[j].1),
        decreases subjects@.len() - k,
    {
        let mut line = String::from_str("> ");
        line.append(subjects[k].as_str());
        lines.push(line);
        assert(ents[k as int].1 == subjects@[k as int]@);
        k = k + 1;
    }
    assert(views(lines@) =~= ents.map_values(|e: (i64, Seq<char>)| line_of(e.1)));
    let joined_lines = join_lines(&lines);
    let body = escape_html(joined_lines.as_str());
    Notice { title: title(account, unseen), lines, body, skipped, undated: bad }
}

/// Builds the notification of one cycle as `build_notice` does, dating a message
/// without a usable date at the current time.
pub fn notice_now(account: &str, unseen: u64, headers: &Vec<(u32, Option<Vec<u8>>)>) -> (r: Notice)
    ensures
        exists|now: i64|
            {
                &&& r.title@ == title_of(account@, unseen as nat)
                &&& views(r.lines@) == entries(headers@, now).map_values(|e: (i64, Seq<char>)| line_of(e.1))
                &&& r.body@ == html_escaped(joined(views(r.lines@)))
                &&& r.skipped@ == unparsable(headers@)
                &&& r.undated@ == undated(headers@)
            },
{
    let now = now_seconds();
    build_notice(account, unseen, headers, now)
}

proof fn lemma_slot(dates: Seq<i64>, date: i64, from: int)
    requires
        0 <= from <= dates.len(),
    ensures
        from <= slot(dates, date, from) <= dates.len(),
        forall|k: int| from <= k < slot(dates, date, from) ==> dates[k] >= date,
        slot(dates, date, from) < dates.len() ==> dates[slot(dates, date, from)] < date,
    decreases dates.len() - from,
{
    if from < dates.len() && dates[from] >= date {
        lemma_slot(dates, date, from + 1);
    }
}

/// The entries of a notification come newest first.
pub proof fn lemma_entries_newest_first(headers: Seq<(u32, Option<Vec<u8>>)>, now: i64)
    ensures
        forall|i: int, j: int|
            0 <= i < j < entries(headers, now).len() ==> entries(headers, now)[i].0 >= entries(
                headers,
                now,
            )[j].0,
    decreases headers.len(),
{
    if headers.len() > 0 {
        let prior = entries(headers.drop_last(), now);
        lemma_entries_newest_first(headers.drop_last(), now);
        if let Some(raw) = headers.last().1 {
            if let Some(fields) = header_fields(raw@) {
                let e = (date_of(fields, now), subject_of(fields));
                let dates = prior.map_values(|q: (i64, Seq<char>)| q.0);
                let p = slot(dates, e.0, 0);
                lemma_slot(dates, e.0, 0);
                let next = prior.insert(p, e);
                assert(next == entries(headers, now));
                assert forall|i: int, j: int| 0 <= i < j < next.len() implies next[i].0
                    >= next[j].0 by {
                    if j < p {
                        assert(next[i] == prior[i] && next[j] == prior[j]);
                    } else if j == p {
                        assert(dates[i] >= e.0);
                    } else if i < p {
                        assert(next[i] == prior[i] && next[j] == prior[j - 1]);
                    } else if i == p {
                        assert(prior[p].0 >= prior[j - 1].0);
                        assert(dates[p] < e.0);
                    } else {
                        assert(next[i] == prior[i - 1] && next[j] == prior[j - 1]);
                    }
                }
            }
        }
    }
}

/// The (date, subject) entries of the messages whose header parses, in the order
/// they were fetched.
pub open spec fn arrivals(headers: Seq<(u32, Option<Vec<u8>>)>, now: i64) -> Seq<(i64, Seq<char>)>
    decreases headers.len(),
{
    if headers.len() == 0 {
        Seq::empty()
    } else {
        let prior = arrivals(headers.drop_last(), now);
        match headers.last().1 {
            None => prior,
            Some(raw) => match header_fields(raw@) {
                None => prior,
                Some(fields) => prior.push((date_of(fields, now), subject_of(fields))),
            },
        }
    }
}

/// Whatever the order in which the headers were fetched, the notification holds
/// exactly one entry for each message whose header parses, and no other: its
/// entries are those of the fetch, reordered.
pub proof fn lemma_entries_one_per_message(headers: Seq<(u32, Option<Vec<u8>>)>, now: i64)
    ensures
        entries(headers, now).len() == arrivals(headers, now).len(),
        entries(headers, now).to_multiset() == arrivals(headers, now).to_multiset(),
    decreases headers.len(),
{
    broadcast use vstd::seq_lib::to_multiset_build, vstd::seq_lib::to_multiset_insert;

    if headers.len() > 0 {
        lemma_entries_one_per_message(headers.drop_last(), now);
        let prior = entries(headers.drop_last(), now);
        if let Some(raw) = headers.last().1 {
            if let Some(fields) = header_fields(raw@) {
                let e = (date_of(fields, now), subject_of(fields));
                let dates = prior.map_values(|q: (i64, Seq<char>)| q.0);
                lemma_slot(dates, e.0, 0);
            }
        }
    }
}

} // verus!
