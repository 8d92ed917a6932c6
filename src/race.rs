//! The race coordinator: one dialer per target, every success routed through
//! the arbitration token as it occurs, and the run's verdict once all are done.
use vstd::prelude::*;
use crate::arbitration::{ArbitrationToken, Claim, claim_result};

verus! {

/// Why a run failed.
#[derive(Clone, Copy, Debug, PartialEq, Eq, Structural)]
pub enum RunError {
    /// The target list was empty: nothing was attempted.
    NoTargets,
    /// Every target was unreachable.
    NoConnection,
    /// The winning connection could not be sent to the peer process.
    HandoffFailure,
    /// A read or write of the byte bridge failed.
    BridgeIOError,
}

/// How one dialer finished.
#[derive(Clone, Copy, Debug, PartialEq, Eq, Structural)]
pub enum DialOutcome {
    Connected,
    Unreachable,
}

/// What the dialer that reported must do next.
#[derive(Clone, Copy, Debug, PartialEq, Eq, Structural)]
pub enum Verdict {
    /// It won: its connection goes to the handoff.
    HandOff,
    /// It lost: it closes its connection and does nothing more.
    Close,
    /// It had no connection: nothing to do.
    Absorb,
}

/// The verdict for a report of `outcome` while the token is `claimed`.
pub open spec fn verdict_for(claimed: bool, outcome: DialOutcome) -> Verdict {
    match outcome {
        DialOutcome::Unreachable => Verdict::Absorb,
        DialOutcome::Connected => if claim_result(claimed) == Claim::Won {
            Verdict::HandOff
        } else {
            Verdict::Close
        },
    }
}

/// The verdict of a finished race, from whether the token was ever claimed.
pub open spec fn conclusion_for(claimed: bool) -> Result<(), RunError> {
    if claimed {
        Ok(())
    } else {
        Err(RunError::NoConnection)
    }
}

/// The shared state of one race.
pub struct Race {
    token: ArbitrationToken,
    pending: usize,
}

impl Race {
    /// Whether a connection has won the race.
    pub closed spec fn claimed(&self) -> bool {
        self.token@
    }

    /// Number of dialers that have not reported yet.
    pub closed spec fn pending(&self) -> nat {
        self.pending as nat
    }

    /// Opens a race over `n_targets` targets. An empty list is a configuration
    /// error and launches no dialer.
    pub fn start(n_targets: usize) -> (r: Result<Race, RunError>)
        ensures
            r is Err <==> n_targets == 0,
            r matches Err(e) ==> e == RunError::NoTargets,
            r matches Ok(race) ==> race.pending() == n_targets && !race.claimed(),
    {
        if n_targets == 0 {
            Err(RunError::NoTargets)
        } else {
            Ok(Race { token: ArbitrationToken::new(), pending: n_targets })
        }
    }

    /// Number of dialers that have not reported yet.
    pub fn remaining(&self) -> (r: usize)
        ensures
            r == self.pending(),
    {
        self.pending
    }

    /// A dialer reports how it finished. A connection claims the token: the
    /// first one wins and is handed off, every later one is closed.
    pub fn report(&mut self, outcome: DialOutcome) -> (v: Verdict)
        requires
            old(self).pending() > 0,
        ensures
            final(self).pending() == old(self).pending() - 1,
            v == verdict_for(old(self).claimed(), outcome),
            final(self).claimed() == (old(self).claimed() || outcome == DialOutcome::Connected),
    {
        self.pending = self.pending - 1;
        match outcome {
            DialOutcome::Unreachable => Verdict::Absorb,
            DialOutcome::Connected => match self.token.attempt_claim() {
                Claim::Won => Verdict::HandOff,
                Claim::Lost => Verdict::Close,
            },
        }
    }

    /// The run's verdict once every dialer has reported; `None` before that.
    pub fn conclusion(&self) -> (r: Option<Result<(), RunError>>)
        ensures
            r is None <==> self.pending() > 0,
            r matches Some(c) ==> c == conclusion_for(self.claimed()),
    {
        if self.pending > 0 {
            None
        } else if self.token.is_claimed() {
            Some(Ok(()))
        } else {
            Some(Err(RunError::NoConnection))
        }
    }
}

/// The verdicts that reports of `outcomes`, in this order, receive from a
/// race whose token starts as `claimed`.
pub open spec fn race_verdicts(claimed: bool, outcomes: Seq<DialOutcome>) -> Seq<Verdict>
    decreases outcomes.len(),
{
    if outcomes.len() == 0 {
        Seq::empty()
    } else {
        seq![verdict_for(claimed, outcomes[0])].add(
            race_verdicts(claimed || outcomes[0] == DialOutcome::Connected, outcomes.drop_first()),
        )
    }
}

/// Whether the token is claimed after reports of `outcomes` on a token that
/// starts as `claimed`.
pub open spec fn claimed_after(claimed: bool, outcomes: Seq<DialOutcome>) -> bool
    decreases outcomes.len(),
{
    if outcomes.len() == 0 {
        claimed
    } else {
        claimed_after(claimed || outcomes[0] == DialOutcome::Connected, outcomes.drop_first())
    }
}

/// Whether some dialer of `outcomes` connected.
pub open spec fn any_connected(outcomes: Seq<DialOutcome>) -> bool {
    exists|i: int| 0 <= i < outcomes.len() && outcomes[i] == DialOutcome::Connected
}

/// How many verdicts of `s` are `HandOff`.
pub open spec fn count_handoffs(s: Seq<Verdict>) -> nat
    decreases s.len(),
{
    if s.len() == 0 {
        0
    } else {
        (if s[0] == Verdict::HandOff { 1nat } else { 0nat }) + count_handoffs(s.drop_first())
    }
}

proof fn lemma_verdicts_from(claimed: bool, outcomes: Seq<DialOutcome>)
    ensures
        race_verdicts(claimed, outcomes).len() == outcomes.len(),
        claimed_after(claimed, outcomes) == (claimed || any_connected(outcomes)),
        count_handoffs(race_verdicts(claimed, outcomes)) == if !claimed && any_connected(
            outcomes,
        ) {
            1nat
        } else {
            0nat
        },
        forall|i: int|
            0 <= i < outcomes.len() ==> (race_verdicts(claimed, outcomes)[i] == Verdict::Absorb
                <==> outcomes[i] == DialOutcome::Unreachable),
    decreases outcomes.len(),
{
    if outcomes.len() > 0 {
        let rest = outcomes.drop_first();
        let c2 = claimed || outcomes[0] == DialOutcome::Connected;
        lemma_verdicts_from(c2, rest);
        let v = race_verdicts(claimed, outcomes);
        assert(v.drop_first() =~= race_verdicts(c2, rest));
        if any_connected(rest) {
            let j = choose|j: int| 0 <= j < rest.len() && rest[j] == DialOutcome::Connected;
            assert(outcomes[j + 1] == DialOutcome::Connected);
        }
        if any_connected(outcomes) && outcomes[0] != DialOutcome::Connected {
            let j = choose|j: int| 0 <= j < outcomes.len() && outcomes[j] == DialOutcome::Connected;
            assert(rest[j - 1] == DialOutcome::Connected);
        }
        assert forall|i: int| 0 <= i < outcomes.len() implies (v[i] == Verdict::Absorb
            <==> outcomes[i] == DialOutcome::Unreachable) by {
            if i > 0 {
                assert(v[i] == race_verdicts(c2, rest)[i - 1]);
                assert(outcomes[i] == rest[i - 1]);
            }
        }
    }
}

/// Whatever order the dialers of a fresh race report in, exactly one
/// connection is handed off when at least one target was reachable, and none
/// otherwise. The race then concludes in success exactly when one was, and in
/// `NoConnection` exactly when none was.
pub proof fn lemma_one_handoff(outcomes: Seq<DialOutcome>)
    ensures
        count_handoffs(race_verdicts(false, outcomes)) == if any_connected(outcomes) {
            1nat
        } else {
            0nat
        },
        conclusion_for(claimed_after(false, outcomes)) == if any_connected(outcomes) {
            Ok::<(), RunError>(())
        } else {
            Err(RunError::NoConnection)
        },
{
    lemma_verdicts_from(false, outcomes);
}

/// Among connections that succeed in one race, the first to reach the token is
/// handed off and every other one is closed; dialers without a connection
/// are absorbed and change nothing.
pub proof fn lemma_losers_close(outcomes: Seq<DialOutcome>, first: int)
    requires
        0 <= first < outcomes.len(),
        outcomes[first] == DialOutcome::Connected,
        forall|i: int| 0 <= i < first ==> outcomes[i] == DialOutcome::Unreachable,
    ensures
        race_verdicts(false, outcomes)[first] == Verdict::HandOff,
        forall|i: int|
            0 <= i < outcomes.len() && i != first ==> race_verdicts(false, outcomes)[i] != Verdict::HandOff,
        forall|i: int|
            first < i < outcomes.len() && outcomes[i] == DialOutcome::Connected
                ==> race_verdicts(false, outcomes)[i] == Verdict::Close,
    decreases outcomes.len(),
{
    lemma_verdicts_from(false, outcomes);
    let v = race_verdicts(false, outcomes);
    let rest = outcomes.drop_first();
    if first == 0 {
        lemma_verdicts_from(true, rest);
        assert(v.drop_first() =~= race_verdicts(true, rest));
        lemma_claimed_all_close(rest);
        assert forall|i: int| 0 < i < outcomes.len() implies v[i] != Verdict::HandOff && (
        outcomes[i] == DialOutcome::Connected ==> v[i] == Verdict::Close) by {
            assert(v[i] == race_verdicts(true, rest)[i - 1]);
            assert(outcomes[i] == rest[i - 1]);
        }
    } else {
        assert(v.drop_first() =~= race_verdicts(false, rest));
        assert forall|i: int| 0 <= i < first - 1 implies rest[i] == DialOutcome::Unreachable by {
            assert(rest[i] == outcomes[i + 1]);
        }
        lemma_losers_close(rest, first - 1);
        assert forall|i: int| 0 < i < outcomes.len() implies v[i] == race_verdicts(false, rest)[i - 1]
            && outcomes[i] == rest[i - 1] by {}
    }
}

/// On a claimed token, no report is handed off and every connection is closed.
proof fn lemma_claimed_all_close(outcomes: Seq<DialOutcome>)
    ensures
        forall|i: int|
            0 <= i < outcomes.len() ==> race_verdicts(true, outcomes)[i] != Verdict::HandOff
                && (outcomes[i] == DialOutcome::Connected ==> race_verdicts(true, outcomes)[i]
                == Verdict::Close),
    decreases outcomes.len(),
{
    if outcomes.len() > 0 {
        let rest = outcomes.drop_first();
        lemma_claimed_all_close(rest);
        lemma_verdicts_from(true, rest);
        let v = race_verdicts(true, outcomes);
        assert(v.drop_first() =~= race_verdicts(true, rest));
        assert forall|i: int| 0 < i < outcomes.len() implies v[i] == race_verdicts(true, rest)[i - 1]
            && outcomes[i] == rest[i - 1] by {}
    }
}

} // verus!
