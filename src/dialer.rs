//! The dialer of one target: its resolved addresses are tried in order, each
//! once, until one connects or all have failed.
use vstd::prelude::*;

verus! {

/// What a dialer asks for next.
#[derive(Clone, Copy, Debug, PartialEq, Eq, Structural)]
pub enum DialStep {
    /// Try to connect to the address at this index, within the timeout.
    Attempt(usize),
    /// The address at this index connected: the dialer holds that connection.
    Connected(usize),
    /// Every address failed (or there was none): the target drops out.
    Unreachable,
}

/// Where a dialer over `n` addresses stands once the first `tried` of them failed.
pub open spec fn step_after_failures(n: nat, tried: nat) -> DialStep {
    if tried < n {
        DialStep::Attempt(tried as usize)
    } else {
        DialStep::Unreachable
    }
}

/// The outcome of dialing addresses whose attempts, in order, would give
/// `results` (`true`: connected), starting at index `from`.
pub open spec fn dial_outcome_from(results: Seq<bool>, from: nat) -> DialStep
    decreases results.len() - from,
{
    if from >= results.len() {
        DialStep::Unreachable
    } else if results[from as int] {
        DialStep::Connected(from as usize)
    } else {
        dial_outcome_from(results, from + 1)
    }
}

/// The outcome of a whole dial over `results`.
pub open spec fn dial_outcome(results: Seq<bool>) -> DialStep {
    dial_outcome_from(results, 0)
}

/// Per-attempt timeout, in seconds, when none is given.
pub const DEFAULT_TIMEOUT_SECS: u64 = 5;

/// The per-attempt timeout in seconds: the one requested, or the default
/// when none (or zero, which no attempt could meet) was requested.
pub fn attempt_timeout_secs(requested: Option<u64>) -> (r: u64)
    ensures
        r == match requested {
            Some(t) => if t > 0 { t } else { DEFAULT_TIMEOUT_SECS },
            None => DEFAULT_TIMEOUT_SECS,
        },
        r > 0,
{
    match requested {
        Some(t) => if t > 0 {
            t
        } else {
            DEFAULT_TIMEOUT_SECS
        },
        None => DEFAULT_TIMEOUT_SECS,
    }
}

pub struct Dialer {
    n_addrs: usize,
    tried: usize,
    finished: bool,
}

impl Dialer {
    /// Number of addresses this dialer was given.
    pub closed spec fn addr_count(&self) -> nat {
        self.n_addrs as nat
    }

    /// Number of addresses that have been tried and failed.
    pub closed spec fn failed_count(&self) -> nat {
        self.tried as nat
    }

    /// Whether the dialer has reached its result.
    pub closed spec fn is_finished(&self) -> bool {
        self.finished
    }

    /// Awaiting the outcome of an attempt at index `failed_count()`.
    pub open spec fn awaiting(&self) -> bool {
        !self.is_finished() && self.failed_count() < self.addr_count()
    }

    pub closed spec fn wf(&self) -> bool {
        self.tried <= self.n_addrs && (!self.finished ==> self.tried < self.n_addrs)
    }

    /// Starts a dialer over `n_addrs` resolved addresses.
    pub fn start(n_addrs: usize) -> (r: (Dialer, DialStep))
        ensures
            r.0.wf(),
            r.0.addr_count() == n_addrs,
            r.0.failed_count() == 0,
            r.1 == step_after_failures(n_addrs as nat, 0),
            r.0.is_finished() == (n_addrs == 0),
    {
        let d = Dialer { n_addrs, tried: 0, finished: n_addrs == 0 };
        if n_addrs == 0 {
            (d, DialStep::Unreachable)
        } else {
            (d, DialStep::Attempt(0))
        }
    }

    /// Reports whether the pending attempt connected. A failed address is
    /// skipped and never tried again.
    pub fn on_attempt(&mut self, connected: bool) -> (r: DialStep)
        requires
            old(self).wf(),
            old(self).awaiting(),
        ensures
            final(self).wf(),
            final(self).addr_count() == old(self).addr_count(),
            connected ==> r == DialStep::Connected(old(self).failed_count() as usize)
                && final(self).failed_count() == old(self).failed_count()
                && final(self).is_finished(),
            !connected ==> final(self).failed_count() == old(self).failed_count() + 1
                && r == step_after_failures(old(self).addr_count(), final(self).failed_count())
                && final(self).is_finished() == (final(self).failed_count()
                == final(self).addr_count()),
    {
        if connected {
            self.finished = true;
            DialStep::Connected(self.tried)
        } else {
            self.tried = self.tried + 1;
            if self.tried < self.n_addrs {
                DialStep::Attempt(self.tried)
            } else {
                self.finished = true;
                DialStep::Unreachable
            }
        }
    }
}

/// A dial ends on the first address that connects, and is unreachable
/// exactly when none does.
pub proof fn lemma_first_success_wins(results: Seq<bool>)
    requires
        results.len() <= usize::MAX,
    ensures
        dial_outcome(results) is Unreachable <==> forall|i: int|
            0 <= i < results.len() ==> !results[i],
        dial_outcome(results) matches DialStep::Connected(k) ==> (k < results.len()
            && results[k as int] && forall|i: int| 0 <= i < k ==> !results[i]),
{
    lemma_outcome_from(results, 0);
}

/// After the first `tried` addresses failed, the rest of the dial decides the
/// outcome alone: the dialer's steps lead to `dial_outcome(results)`.
pub proof fn lemma_failures_skipped(results: Seq<bool>, tried: nat)
    requires
        tried <= results.len(),
        forall|i: int| 0 <= i < tried ==> !results[i],
    ensures
        dial_outcome(results) == dial_outcome_from(results, tried),
        tried == results.len() ==> dial_outcome(results) == step_after_failures(
            results.len(),
            tried,
        ),
    decreases tried,
{
    if tried > 0 {
        lemma_failures_skipped(results, (tried - 1) as nat);
    }
}

proof fn lemma_outcome_from(results: Seq<bool>, from: nat)
    requires
        results.len() <= usize::MAX,
    ensures
        dial_outcome_from(results, from) is Unreachable <==> forall|i: int|
            from <= i < results.len() ==> !results[i],
        dial_outcome_from(results, from) matches DialStep::Connected(k) ==> (from <= k
            < results.len() && results[k as int] && forall|i: int|
            from <= i < k ==> !results[i]),
    decreases results.len() - from,
{
    if from < results.len() && !results[from as int] {
        lemma_outcome_from(results, from + 1);
    }
}

} // verus!
