//! The reconnect decisions of one account: how long to wait after a failed
//! connect, and when to give up.

use crate::watch::Watcher;
use vstd::prelude::*;

verus! {

/// How many connects are tried before an account is given up.
pub const MAX_ATTEMPTS: u32 = 5;

/// Why a connect failed.
#[derive(Clone, Copy, Debug, PartialEq, Eq, Structural)]
pub enum Failure {
    /// The network failed: worth another try.
    Transport,
    /// The server refused the login, or lacks push-wait: no retry mends it.
    Protocol,
}

/// What to do after a failed connect.
#[derive(Clone, Copy, Debug, PartialEq, Eq, Structural)]
pub enum Next {
    /// Sleep this many seconds, then try again if an attempt is left.
    Sleep(u64),
    /// Stop trying: the account is dropped.
    GiveUp,
}

/// Two to the power `k`.
pub open spec fn doubling(k: nat) -> nat
    decreases k,
{
    if k == 0 {
        1
    } else {
        2 * doubling((k - 1) as nat)
    }
}

/// The reconnect state of one account.
pub struct Supervisor {
    /// Connects that failed since the last success.
    pub failures: u32,
    /// The seconds to sleep after the next failure.
    pub delay: u64,
    /// Whether this is the check made once before watching starts, which drops
    /// the account at once on a protocol failure.
    pub preflight: bool,
}

/// The state and decision after one failed connect.
pub open spec fn on_failure_spec(s: Supervisor, f: Failure) -> (Supervisor, Next) {
    if s.preflight && f == Failure::Protocol {
        (Supervisor { failures: MAX_ATTEMPTS, ..s }, Next::GiveUp)
    } else {
        (
            Supervisor { failures: (s.failures + 1) as u32, delay: (2 * s.delay) as u64, ..s },
            Next::Sleep(s.delay),
        )
    }
}

/// The state and the decisions after the failures of `fs`, one after the other,
/// for as long as attempts are left.
pub open spec fn replay(s: Supervisor, fs: Seq<Failure>) -> (Supervisor, Seq<Next>)
    decreases fs.len(),
{
    if fs.len() == 0 || s.failures >= MAX_ATTEMPTS {
        (s, Seq::empty())
    } else {
        let (t, n) = on_failure_spec(s, fs[0]);
        let (u, rest) = replay(t, fs.drop_first());
        (u, seq![n] + rest)
    }
}

impl Supervisor {
    /// The state is consistent: the delay doubles with each failure from one second.
    pub open spec fn wf(&self) -> bool {
        &&& self.failures <= MAX_ATTEMPTS
        &&& self.failures < MAX_ATTEMPTS ==> self.delay == doubling(self.failures as nat)
    }

    /// The supervisor of a watch session that failed: any failure is retried.
    pub fn reconnect() -> (r: Supervisor)
        ensures
            r.wf(),
            r.failures == 0,
            r.delay == 1,
            !r.preflight,
    {
        Supervisor { failures: 0, delay: 1, preflight: false }
    }

    /// The supervisor of the first connect of an account: a protocol failure
    /// drops the account at once.
    pub fn preflight() -> (r: Supervisor)
        ensures
            r.wf(),
            r.failures == 0,
            r.delay == 1,
            r.preflight,
    {
        Supervisor { failures: 0, delay: 1, preflight: true }
    }

    /// Whether another connect may be tried.
    pub fn may_attempt(&self) -> (r: bool)
        ensures
            r == (self.failures < MAX_ATTEMPTS),
    {
        self.failures < MAX_ATTEMPTS
    }

    /// Records a failed connect and says what to do next.
    pub fn on_failure(&mut self, f: Failure) -> (r: Next)
        requires
            old(self).wf(),
            old(self).failures < MAX_ATTEMPTS,
        ensures
            final(self).wf(),
            (*final(self), r) == on_failure_spec(*old(self), f),
    {
        if self.preflight && f == Failure::Protocol {
            self.failures = MAX_ATTEMPTS;
            Next::GiveUp
        } else {
            let wait = self.delay;
            assert(wait <= 16) by {
                reveal_with_fuel(doubling, 5);
            }
            self.failures = self.failures + 1;
            self.delay = 2 * wait;
            Next::Sleep(wait)
        }
    }

    /// Records a successful connect: the count of failures starts again, and a
    /// fresh watch session begins.
    pub fn on_success(&mut self) -> (w: Watcher)
        ensures
            final(self).wf(),
            final(self).failures == 0,
            final(self).delay == 1,
            final(self).preflight == old(self).preflight,
            w.watermark == 0,
    {
        self.failures = 0;
        self.delay = 1;
        Watcher::new()
    }
}

/// The backoff schedule: from a fresh supervisor, `n` transport failures in a
/// row, up to five, sleep one second after the first and twice as long after each
/// further one; after five no attempt is left, and any further failure changes
/// nothing and sleeps no more.
pub proof fn lemma_backoff_schedule(preflight: bool, n: nat, further: Seq<Failure>)
    requires
        n <= MAX_ATTEMPTS,
    ensures
        ({
            let s = Supervisor { failures: 0, delay: 1, preflight };
            let (t, sleeps) = replay(s, Seq::new(n, |k: int| Failure::Transport));
            &&& t.failures == n
            &&& sleeps.len() == n
            &&& forall|k: int| 0 <= k < n ==> sleeps[k] == Next::Sleep(doubling(k as nat) as u64)
            &&& (n == MAX_ATTEMPTS ==> replay(t, further) == (t, Seq::<Next>::empty()))
        }),
{
    lemma_backoff_from(preflight, 0, n);
}

proof fn lemma_backoff_from(preflight: bool, start: nat, n: nat)
    requires
        start + n <= MAX_ATTEMPTS,
    ensures
        ({
            let s = Supervisor {
                failures: start as u32,
                delay: doubling(start) as u64,
                preflight,
            };
            let (t, sleeps) = replay(s, Seq::new(n, |k: int| Failure::Transport));
            &&& t.failures == start + n
            &&& t.preflight == preflight
            &&& sleeps.len() == n
            &&& forall|k: int|
                0 <= k < n ==> #[trigger] sleeps[k] == Next::Sleep(doubling((start + k) as nat) as u64)
        }),
    decreases n,
{
    reveal_with_fuel(doubling, 6);
    let s = Supervisor { failures: start as u32, delay: doubling(start) as u64, preflight };
    let fs = Seq::new(n, |k: int| Failure::Transport);
    if n > 0 {
        assert(fs.drop_first() =~= Seq::new((n - 1) as nat, |k: int| Failure::Transport));
        let t = Supervisor {
            failures: (start + 1) as u32,
            delay: doubling(start + 1) as u64,
            preflight,
        };
        assert(on_failure_spec(s, fs[0]) == (t, Next::Sleep(doubling(start) as u64)));
        lemma_backoff_from(preflight, start + 1, (n - 1) as nat);
        let (u, rest) = replay(t, fs.drop_first());
        let all = seq![Next::Sleep(doubling(start) as u64)] + rest;
        assert forall|k: int| 0 <= k < n implies #[trigger] all[k] == Next::Sleep(
            doubling((start + k) as nat) as u64,
        ) by {
            if k > 0 {
                assert(rest[k - 1] == Next::Sleep(doubling((start + 1 + (k - 1)) as nat) as u64));
            }
        }
    }
}

} // verus!
