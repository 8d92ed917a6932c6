//! The arbitration token: a flag that goes from unclaimed to claimed at most once.
use vstd::prelude::*;

verus! {

/// What one attempt to claim the token observed.
#[derive(Clone, Copy, Debug, PartialEq, Eq, Structural)]
pub enum Claim {
    Won,
    Lost,
}

/// The result of one claim on a token that was `claimed` before it.
pub open spec fn claim_result(claimed: bool) -> Claim {
    if claimed {
        Claim::Lost
    } else {
        Claim::Won
    }
}

/// What `k` successive claims observe on a token that starts as `claimed`.
pub open spec fn claim_outcomes(claimed: bool, k: nat) -> Seq<Claim>
    decreases k,
{
    if k == 0 {
        Seq::empty()
    } else {
        seq![claim_result(claimed)].add(claim_outcomes(true, (k - 1) as nat))
    }
}

/// How many entries of `s` are `Won`.
pub open spec fn count_won(s: Seq<Claim>) -> nat
    decreases s.len(),
{
    if s.len() == 0 {
        0
    } else {
        (if s[0] == Claim::Won { 1nat } else { 0nat }) + count_won(s.drop_first())
    }
}

/// The token itself. Concurrent callers share it behind a mutual-exclusion
/// primitive, so their claims take effect one after another.
pub struct ArbitrationToken {
    claimed: bool,
}

impl View for ArbitrationToken {
    type V = bool;

    /// Whether the token has been claimed.
    closed spec fn view(&self) -> bool {
        self.claimed
    }
}

impl ArbitrationToken {
    pub fn new() -> (r: Self)
        ensures
            !r@,
    {
        ArbitrationToken { claimed: false }
    }

    pub fn is_claimed(&self) -> (r: bool)
        ensures
            r == self@,
    {
        self.claimed
    }

    /// Test-and-set: the first claim on an unclaimed token wins, every other loses.
    pub fn attempt_claim(&mut self) -> (r: Claim)
        ensures
            r == claim_result(old(self)@),
            final(self)@,
    {
        if self.claimed {
            Claim::Lost
        } else {
            self.claimed = true;
            Claim::Won
        }
    }
}

/// Once claimed, a token never lets another claim win.
pub proof fn lemma_claimed_never_wins(k: nat)
    ensures
        count_won(claim_outcomes(true, k)) == 0,
    decreases k,
{
    if k > 0 {
        lemma_claimed_never_wins((k - 1) as nat);
        let s = claim_outcomes(true, k);
        assert(s.drop_first() =~= claim_outcomes(true, (k - 1) as nat));
    }
}

/// Of any `k >= 1` claims on a fresh token, exactly one wins: the first to
/// take effect. The other `k - 1` lose.
pub proof fn lemma_exactly_one_winner(k: nat)
    requires
        k >= 1,
    ensures
        count_won(claim_outcomes(false, k)) == 1,
        claim_outcomes(false, k)[0] == Claim::Won,
        forall|i: int| 1 <= i < k ==> claim_outcomes(false, k)[i] == Claim::Lost,
{
    let s = claim_outcomes(false, k);
    let rest = claim_outcomes(true, (k - 1) as nat);
    lemma_claimed_never_wins((k - 1) as nat);
    lemma_all_lost((k - 1) as nat);
    assert(s.drop_first() =~= rest);
}

/// Every claim on a claimed token loses.
proof fn lemma_all_lost(k: nat)
    ensures
        claim_outcomes(true, k).len() == k,
        forall|i: int| 0 <= i < k ==> claim_outcomes(true, k)[i] == Claim::Lost,
    decreases k,
{
    if k > 0 {
        lemma_all_lost((k - 1) as nat);
    }
}

} // verus!
