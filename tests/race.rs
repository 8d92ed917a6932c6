use racedial::race::{DialOutcome, Race, RunError, Verdict};

#[test]
fn empty_target_list_is_a_configuration_error() {
    let r = Race::start(0);
    assert!(matches!(r, Err(RunError::NoTargets)));
}

#[test]
fn unreachable_then_reachable_hands_off_the_reachable_one() {
    let mut race = Race::start(2).ok().unwrap();
    assert_eq!(race.report(DialOutcome::Unreachable), Verdict::Absorb);
    assert_eq!(race.conclusion(), None);
    assert_eq!(race.report(DialOutcome::Connected), Verdict::HandOff);
    assert_eq!(race.conclusion(), Some(Ok(())));
}

#[test]
fn reachable_finishing_before_unreachable_still_wins() {
    let mut race = Race::start(2).ok().unwrap();
    assert_eq!(race.report(DialOutcome::Connected), Verdict::HandOff);
    assert_eq!(race.report(DialOutcome::Unreachable), Verdict::Absorb);
    assert_eq!(race.conclusion(), Some(Ok(())));
}

#[test]
fn two_reachable_targets_hand_off_exactly_one() {
    let mut race = Race::start(2).ok().unwrap();
    let a = race.report(DialOutcome::Connected);
    let b = race.report(DialOutcome::Connected);
    assert_eq!(a, Verdict::HandOff);
    assert_eq!(b, Verdict::Close);
    assert_eq!(race.conclusion(), Some(Ok(())));
}

#[test]
fn no_reachable_target_ends_in_no_connection() {
    let mut race = Race::start(3).ok().unwrap();
    for _ in 0..3 {
        assert_eq!(race.report(DialOutcome::Unreachable), Verdict::Absorb);
    }
    assert_eq!(race.remaining(), 0);
    assert_eq!(race.conclusion(), Some(Err(RunError::NoConnection)));
}

#[test]
fn many_successes_give_one_handoff() {
    let mut race = Race::start(5).ok().unwrap();
    let outcomes = [
        DialOutcome::Unreachable,
        DialOutcome::Connected,
        DialOutcome::Connected,
        DialOutcome::Unreachable,
        DialOutcome::Connected,
    ];
    let verdicts: Vec<Verdict> = outcomes.iter().map(|o| race.report(*o)).collect();
    let handoffs = verdicts.iter().filter(|v| **v == Verdict::HandOff).count();
    let closes = verdicts.iter().filter(|v| **v == Verdict::Close).count();
    assert_eq!(handoffs, 1);
    assert_eq!(closes, 2);
    assert_eq!(verdicts[1], Verdict::HandOff);
    assert_eq!(race.conclusion(), Some(Ok(())));
}
