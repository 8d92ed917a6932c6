use racedial::arbitration::{ArbitrationToken, Claim};

#[test]
fn first_claim_wins_later_claims_lose() {
    let mut token = ArbitrationToken::new();
    assert!(!token.is_claimed());
    assert_eq!(token.attempt_claim(), Claim::Won);
    assert!(token.is_claimed());
    assert_eq!(token.attempt_claim(), Claim::Lost);
    assert_eq!(token.attempt_claim(), Claim::Lost);
    assert!(token.is_claimed());
}

#[test]
fn k_claims_have_one_winner() {
    let mut token = ArbitrationToken::new();
    let claims: Vec<Claim> = (0..16).map(|_| token.attempt_claim()).collect();
    assert_eq!(claims.iter().filter(|c| **c == Claim::Won).count(), 1);
    assert_eq!(claims.iter().filter(|c| **c == Claim::Lost).count(), 15);
    assert_eq!(claims[0], Claim::Won);
}
