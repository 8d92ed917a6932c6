use racedial::dialer::{attempt_timeout_secs, DialStep, Dialer, DEFAULT_TIMEOUT_SECS};

#[test]
fn dialer_without_addresses_is_unreachable() {
    let (_, step) = Dialer::start(0);
    assert_eq!(step, DialStep::Unreachable);
}

#[test]
fn dialer_skips_failed_addresses_in_order() {
    let (mut d, step) = Dialer::start(3);
    assert_eq!(step, DialStep::Attempt(0));
    assert_eq!(d.on_attempt(false), DialStep::Attempt(1));
    assert_eq!(d.on_attempt(true), DialStep::Connected(1));
}

#[test]
fn dialer_first_address_connects() {
    let (mut d, step) = Dialer::start(2);
    assert_eq!(step, DialStep::Attempt(0));
    assert_eq!(d.on_attempt(true), DialStep::Connected(0));
}

#[test]
fn dialer_all_addresses_fail() {
    let (mut d, _) = Dialer::start(2);
    assert_eq!(d.on_attempt(false), DialStep::Attempt(1));
    assert_eq!(d.on_attempt(false), DialStep::Unreachable);
}

#[test]
fn timeout_defaults_when_unset_or_zero() {
    assert_eq!(attempt_timeout_secs(None), DEFAULT_TIMEOUT_SECS);
    assert_eq!(attempt_timeout_secs(Some(0)), DEFAULT_TIMEOUT_SECS);
    assert_eq!(attempt_timeout_secs(Some(12)), 12);
}
