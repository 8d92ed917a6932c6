use racedial::race::RunError;
use racedial::transfer::{transfer_result, ControlMessage, Transfer, SENTINEL};

#[test]
fn one_message_with_one_descriptor_and_one_byte() {
    let mut t = Transfer::new();
    let m = t.message(7);
    assert_eq!(m, Some(ControlMessage { payload: SENTINEL, descriptor: 7 }));
    assert_eq!(t.message(7), None);
    assert_eq!(t.message(9), None);
}

#[test]
fn transfer_succeeds_when_the_byte_went_out() {
    assert_eq!(transfer_result(Ok(1)), Ok(()));
}

#[test]
fn failed_send_is_a_handoff_failure() {
    assert_eq!(transfer_result(Err(())), Err(RunError::HandoffFailure));
    assert_eq!(transfer_result(Ok(0)), Err(RunError::HandoffFailure));
}
