//! The unseen counts of all watched accounts, folded from the events of their
//! workers into one status.

use vstd::prelude::*;
use vstd::string::*;

verus! {

/// The sum of the counts.
pub open spec fn sum(counts: Seq<usize>) -> int
    decreases counts.len(),
{
    if counts.len() == 0 {
        0
    } else {
        sum(counts.drop_last()) + counts.last()
    }
}

/// The table after the events of `events`, in order, each setting one entry.
pub open spec fn apply_all(table: Seq<usize>, events: Seq<(usize, usize)>) -> Seq<usize>
    decreases events.len(),
{
    if events.len() == 0 {
        table
    } else {
        apply_all(table, events.drop_last()).update(events.last().0 as int, events.last().1)
    }
}

/// The count of the last event for `index`, or `default` where none is for it.
pub open spec fn last_for(events: Seq<(usize, usize)>, index: int, default: usize) -> usize
    decreases events.len(),
{
    if events.len() == 0 {
        default
    } else if events.last().0 == index {
        events.last().1
    } else {
        last_for(events.drop_last(), index, default)
    }
}

/// The class of the status: whether any mail is unread.
pub open spec fn class_of(total: int) -> Seq<char> {
    if total == 0 {
        "mail-read"@
    } else {
        "mail-unread"@
    }
}

/// The tooltip of the status.
pub open spec fn tooltip_of(total: int) -> Seq<char> {
    if total == 0 {
        "You have reached inbox 0!"@
    } else {
        "You have unread mail!"@
    }
}

/// The icon shown in the bar: an open envelope when all is read, a closed one
/// otherwise.
pub open spec fn icon_of(total: int) -> Seq<char> {
    if total == 0 {
        seq!['\u{f2b6}']
    } else {
        seq!['\u{f0e0}']
    }
}

/// The record handed to a status bar.
pub struct Status {
    /// The short text shown in the bar.
    pub text: String,
    /// The text shown on hover.
    pub tooltip: String,
    /// Tells "all read" from "unread present".
    pub class: String,
    /// The unseen messages of all accounts.
    pub total: u128,
}

/// The latest unseen count of each account, by the account's index.
pub struct Aggregate {
    pub unseen: Vec<usize>,
}

impl Aggregate {
    /// The table of `accounts` accounts, each at zero.
    pub fn new(accounts: usize) -> (r: Aggregate)
        ensures
            r.unseen@ == Seq::new(accounts as nat, |i: int| 0usize),
    {
        let mut unseen: Vec<usize> = Vec::new();
        let mut i: usize = 0;
        while i < accounts
            invariant
                i <= accounts,
                unseen@ == Seq::new(i as nat, |k: int| 0usize),
            decreases accounts - i,
        {
            unseen.push(0);
            i = i + 1;
            assert(unseen@ =~= Seq::new(i as nat, |k: int| 0usize));
        }
        Aggregate { unseen }
    }

    /// The number of accounts.
    pub fn len(&self) -> (r: usize)
        ensures
            r == self.unseen@.len(),
    {
        self.unseen.len()
    }

    /// The unseen messages of all accounts.
    pub fn total(&self) -> (r: u128)
        ensures
            r == sum(self.unseen@),
    {
        let ghost all = self.unseen@;
        let mut t: u128 = 0;
        let mut i: usize = 0;
        while i < self.unseen.len()
            invariant
                i <= all.len(),
                all == self.unseen@,
                t == sum(all.subrange(0, i as int)),
                t <= i * (usize::MAX as int),
            decreases all.len() - i,
        {
            let x = self.unseen[i];
            assert(all.subrange(0, i + 1).drop_last() =~= all.subrange(0, i as int));
            proof {
                let m = usize::MAX as int;
                let j = i as int;
                assert(t + x <= (j + 1) * m) by (nonlinear_arith)
                    requires
                        t <= j * m,
                        x <= m,
                ;
                assert((j + 1) * m <= m * m) by (nonlinear_arith)
                    requires
                        j + 1 <= m,
                        0 <= m,
                ;
                assert(m * m < 0x1_0000_0000_0000_0000_0000_0000_0000_0000) by (nonlinear_arith)
                    requires
                        0 <= m < 0x1_0000_0000_0000_0000,
                ;
            }
            t = t + x as u128;
            i = i + 1;
        }
        assert(all.subrange(0, all.len() as int) =~= all);
        t
    }

    /// The status of the table as it stands.
    pub fn status(&self) -> (r: Status)
        ensures
            r.total == sum(self.unseen@),
            r.class@ == class_of(r.total as int),
            r.tooltip@ == tooltip_of(r.total as int),
            r.text@ == icon_of(r.total as int),
    {
        let total = self.total();
        if total == 0 {
            proof {
                reveal_strlit("\u{f2b6}");
            }
            Status {
                text: String::from_str("\u{f2b6}"),
                tooltip: String::from_str("You have reached inbox 0!"),
                class: String::from_str("mail-read"),
                total,
            }
        } else {
            proof {
                reveal_strlit("\u{f0e0}");
            }
            Status {
                text: String::from_str("\u{f0e0}"),
                tooltip: String::from_str("You have unread mail!"),
                class: String::from_str("mail-unread"),
                total,
            }
        }
    }

    /// Records the latest count of the account at `index` and returns the
    /// status that follows.
    pub fn record(&mut self, index: usize, count: usize) -> (r: Status)
        requires
            index < old(self).unseen@.len(),
        ensures
            final(self).unseen@ == old(self).unseen@.update(index as int, count),
            r.total == sum(final(self).unseen@),
            r.class@ == class_of(r.total as int),
            r.tooltip@ == tooltip_of(r.total as int),
            r.text@ == icon_of(r.total as int),
    {
        self.unseen.set(index, count);
        self.status()
    }

    /// Takes one event of the channel: a count, on which the table is updated
    /// and the status returned, or the end of the stream, on which nothing changes
    /// and `None` comes back.
    pub fn receive(&mut self, event: Option<(usize, usize)>) -> (r: Option<Status>)
        requires
            event matches Some(e) ==> e.0 < old(self).unseen@.len(),
        ensures
            match event {
                None => r is None && final(self).unseen@ == old(self).unseen@,
                Some(e) => {
                    &&& final(self).unseen@ == old(self).unseen@.update(e.0 as int, e.1)
                    &&& r matches Some(s) && s.total == sum(final(self).unseen@)
                        && s.class@ == class_of(s.total as int) && s.tooltip@ == tooltip_of(
                        s.total as int,
                    ) && s.text@ == icon_of(s.total as int)
                },
            },
    {
        match event {
            None => None,
            Some((index, count)) => Some(self.record(index, count)),
        }
    }
}

/// Aggregation: whatever the interleaving of the workers' events, each entry of
/// the table ends at the last count reported for its index, or where it started
/// where none was; the total of the table is the sum of its entries.
pub proof fn lemma_aggregation(table: Seq<usize>, events: Seq<(usize, usize)>)
    requires
        forall|k: int| 0 <= k < events.len() ==> (#[trigger] events[k]).0 < table.len(),
    ensures
        apply_all(table, events).len() == table.len(),
        forall|i: int|
            0 <= i < table.len() ==> #[trigger] apply_all(table, events)[i] == last_for(
                events,
                i,
                table[i],
            ),
    decreases events.len(),
{
    if events.len() > 0 {
        let prior = events.drop_last();
        assert forall|k: int| 0 <= k < prior.len() implies (#[trigger] prior[k]).0 < table.len() by {
            assert(prior[k] == events[k]);
        }
        assert(events[events.len() - 1] == events.last());
        lemma_aggregation(table, prior);
    }
}

/// The counts reported for `index`, in the order they came.
pub open spec fn counts_for(events: Seq<(usize, usize)>, index: int) -> Seq<usize>
    decreases events.len(),
{
    if events.len() == 0 {
        Seq::empty()
    } else if events.last().0 == index {
        counts_for(events.drop_last(), index).push(events.last().1)
    } else {
        counts_for(events.drop_last(), index)
    }
}

proof fn lemma_last_for_counts(events: Seq<(usize, usize)>, index: int, default: usize)
    ensures
        last_for(events, index, default) == if counts_for(events, index).len() == 0 {
            default
        } else {
            counts_for(events, index).last()
        },
    decreases events.len(),
{
    if events.len() > 0 {
        lemma_last_for_counts(events.drop_last(), index, default);
    }
}

/// The interleaving does not matter: two streams of events in which each
/// account's counts come in the same order leave the same table, and so the
/// same total and status.
pub proof fn lemma_interleaving(table: Seq<usize>, a: Seq<(usize, usize)>, b: Seq<(usize, usize)>)
    requires
        forall|k: int| 0 <= k < a.len() ==> (#[trigger] a[k]).0 < table.len(),
        forall|k: int| 0 <= k < b.len() ==> (#[trigger] b[k]).0 < table.len(),
        forall|i: int| 0 <= i < table.len() ==> #[trigger] counts_for(a, i) == counts_for(b, i),
    ensures
        apply_all(table, a) == apply_all(table, b),
        sum(apply_all(table, a)) == sum(apply_all(table, b)),
{
    lemma_aggregation(table, a);
    lemma_aggregation(table, b);
    assert forall|i: int| 0 <= i < table.len() implies apply_all(table, a)[i] == apply_all(
        table,
        b,
    )[i] by {
        lemma_last_for_counts(a, i, table[i]);
        lemma_last_for_counts(b, i, table[i]);
        assert(counts_for(a, i) == counts_for(b, i));
    }
    assert(apply_all(table, a) =~= apply_all(table, b));
}

} // verus!
