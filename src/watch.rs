//! The watermark of one watch session and the delta of new identifiers.

use crate::text::{decimal, push_decimal};
use vstd::prelude::*;
use vstd::string::*;

verus! {

/// The highest of `floor` and the identifiers of `ids`.
pub open spec fn max_above(floor: u32, ids: Seq<u32>) -> u32
    decreases ids.len(),
{
    if ids.len() == 0 {
        floor
    } else {
        let m = max_above(floor, ids.drop_last());
        if ids.last() > m {
            ids.last()
        } else {
            m
        }
    }
}

/// The identifiers of `ids` above `watermark`, in the order given.
pub open spec fn delta_of(watermark: u32, ids: Seq<u32>) -> Seq<u32>
    decreases ids.len(),
{
    if ids.len() == 0 {
        Seq::empty()
    } else {
        let d = delta_of(watermark, ids.drop_last());
        if ids.last() > watermark {
            d.push(ids.last())
        } else {
            d
        }
    }
}

/// The watermark after each of a sequence of unseen sets, starting at `start`.
pub open spec fn watermarks(start: u32, cycles: Seq<Seq<u32>>) -> Seq<u32>
    decreases cycles.len(),
{
    if cycles.len() == 0 {
        seq![start]
    } else {
        let prior = watermarks(start, cycles.drop_last());
        prior.push(max_above(prior.last(), cycles.last()))
    }
}

/// What one watch cycle does once its unseen set is known.
pub struct Cycle {
    /// The identifiers above the watermark, in the order given.
    pub delta: Vec<u32>,
    /// The message set whose headers are to be fetched, when the delta is not empty.
    pub fetch: Option<String>,
    /// The unseen count to report for the account.
    pub unseen: usize,
}

/// The state of one watch session: the highest identifier already notified about.
pub struct Watcher {
    pub watermark: u32,
}

impl Watcher {
    /// A fresh session, which has notified about nothing.
    pub fn new() -> (r: Watcher)
        ensures
            r.watermark == 0,
    {
        Watcher { watermark: 0 }
    }

    /// Takes the unseen identifiers of one cycle: returns those above the
    /// watermark and raises the watermark to the highest identifier seen.
    pub fn observe(&mut self, unseen: &Vec<u32>) -> (delta: Vec<u32>)
        ensures
            final(self).watermark == max_above(old(self).watermark, unseen@),
            final(self).watermark >= old(self).watermark,
            delta@ == delta_of(old(self).watermark, unseen@),
            forall|k: int| 0 <= k < delta@.len() ==> delta@[k] > old(self).watermark,
    {
        let ghost ids = unseen@;
        let start = self.watermark;
        let mut top = start;
        let mut delta: Vec<u32> = Vec::new();
        let mut i: usize = 0;
        while i < unseen.len()
            invariant
                i <= ids.len(),
                ids == unseen@,
                top == max_above(start, ids.subrange(0, i as int)),
                top >= start,
                delta@ == delta_of(start, ids.subrange(0, i as int)),
                forall|k: int| 0 <= k < delta@.len() ==> delta@[k] > start,
            decreases ids.len() - i,
        {
            let id = unseen[i];
            assert(ids.subrange(0, i + 1).drop_last() == ids.subrange(0, i as int));
            if id > top {
                top = id;
            }
            if id > start {
                delta.push(id);
            }
            i = i + 1;
        }
        assert(ids.subrange(0, ids.len() as int) == ids);
        self.watermark = top;
        delta
    }
}

/// Every identifier of `ids` is at most `max_above(floor, ids)`, which is at
/// least `floor`.
pub proof fn lemma_max_above_bounds(floor: u32, ids: Seq<u32>)
    ensures
        max_above(floor, ids) >= floor,
        forall|k: int| 0 <= k < ids.len() ==> ids[k] <= max_above(floor, ids),
    decreases ids.len(),
{
    if ids.len() > 0 {
        lemma_max_above_bounds(floor, ids.drop_last());
        assert forall|k: int| 0 <= k < ids.len() implies ids[k] <= max_above(floor, ids) by {
            if k < ids.len() - 1 {
                assert(ids[k] == ids.drop_last()[k]);
            }
        }
    }
}

/// When no identifier of `ids` is above `watermark`, the delta is empty.
pub proof fn lemma_delta_empty(watermark: u32, ids: Seq<u32>)
    requires
        forall|k: int| 0 <= k < ids.len() ==> ids[k] <= watermark,
    ensures
        delta_of(watermark, ids) == Seq::<u32>::empty(),
    decreases ids.len(),
{
    if ids.len() > 0 {
        lemma_delta_empty(watermark, ids.drop_last());
    }
}

/// The watermark never decreases: over any sequence of unseen sets fed into one
/// session, the watermark after a cycle is at least the one after any earlier cycle.
pub proof fn lemma_watermark_monotone(start: u32, cycles: Seq<Seq<u32>>, i: int, j: int)
    requires
        0 <= i <= j <= cycles.len(),
    ensures
        watermarks(start, cycles).len() == cycles.len() + 1,
        watermarks(start, cycles)[i] <= watermarks(start, cycles)[j],
    decreases cycles.len(),
{
    if cycles.len() > 0 {
        let prior = watermarks(start, cycles.drop_last());
        lemma_watermark_monotone(start, cycles.drop_last(), 0, 0);
        lemma_max_above_bounds(prior.last(), cycles.last());
        if j < cycles.len() {
            lemma_watermark_monotone(start, cycles.drop_last(), i, j);
        } else if i < cycles.len() {
            lemma_watermark_monotone(start, cycles.drop_last(), i, cycles.len() - 1);
        }
    }
}

/// No re-notification: when a cycle's unseen set holds no identifier that the
/// previous cycle's set did not hold, the delta of that cycle is empty.
pub proof fn lemma_no_renotification(watermark: u32, previous: Seq<u32>, current: Seq<u32>)
    requires
        forall|k: int| 0 <= k < current.len() ==> previous.contains(#[trigger] current[k]),
    ensures
        delta_of(max_above(watermark, previous), current) == Seq::<u32>::empty(),
{
    lemma_max_above_bounds(watermark, previous);
    assert forall|k: int| 0 <= k < current.len() implies current[k] <= max_above(
        watermark,
        previous,
    ) by {
        assert(previous.contains(current[k]));
    }
    lemma_delta_empty(max_above(watermark, previous), current);
}

/// The identifiers written in decimal and separated by commas, as a message set
/// of the mail protocol.
pub open spec fn id_set(ids: Seq<u32>) -> Seq<char>
    decreases ids.len(),
{
    if ids.len() == 0 {
        Seq::empty()
    } else if ids.len() == 1 {
        decimal(ids[0] as nat)
    } else {
        id_set(ids.drop_last()) + ","@ + decimal(ids.last() as nat)
    }
}

/// The message set that names the identifiers of `ids`.
pub fn uid_set(ids: &Vec<u32>) -> (r: String)
    ensures
        r@ == id_set(ids@),
{
    let ghost all = ids@;
    let mut r = String::new();
    let mut i: usize = 0;
    while i < ids.len()
        invariant
            i <= all.len(),
            all == ids@,
            r@ == id_set(all.subrange(0, i as int)),
        decreases all.len() - i,
    {
        assert(all.subrange(0, i + 1).drop_last() =~= all.subrange(0, i as int));
        if i > 0 {
            r.append(",");
        }
        proof {
            if i == 0 {
                assert(r@ =~= Seq::<char>::empty());
            }
        }
        push_decimal(&mut r, ids[i] as u64);
        proof {
            if i == 0 {
                assert(r@ =~= decimal(all.subrange(0, 1)[0] as nat));
            }
        }
        i = i + 1;
    }
    assert(all.subrange(0, all.len() as int) =~= all);
    r
}

/// A fresh session notifies about every unseen message: from watermark 0, with
/// identifiers above 0 as the mail protocol gives them, the delta is the whole
/// set and the watermark becomes its highest identifier.
pub proof fn lemma_fresh_session_delta(ids: Seq<u32>)
    requires
        forall|k: int| 0 <= k < ids.len() ==> ids[k] > 0,
    ensures
        delta_of(0, ids) == ids,
    decreases ids.len(),
{
    if ids.len() > 0 {
        lemma_fresh_session_delta(ids.drop_last());
        assert(ids.drop_last().push(ids.last()) =~= ids);
    }
}

impl Watcher {
    /// Starts a cycle on the unseen identifiers: takes the delta as `observe`
    /// does, asks for the headers of the delta only where it is not empty, and
    /// reports the number of unseen messages.
    pub fn begin_cycle(&mut self, unseen: &Vec<u32>) -> (r: Cycle)
        ensures
            final(self).watermark == max_above(old(self).watermark, unseen@),
            r.delta@ == delta_of(old(self).watermark, unseen@),
            r.unseen == unseen@.len(),
            match r.fetch {
                Some(set) => r.delta@.len() > 0 && set@ == id_set(r.delta@),
                None => r.delta@.len() == 0,
            },
    {
        let delta = self.observe(unseen);
        let fetch = if delta.len() > 0 {
            Some(uid_set(&delta))
        } else {
            None
        };
        Cycle { delta, fetch, unseen: unseen.len() }
    }
}

} // verus!
