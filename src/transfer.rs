//! Descriptor transfer: the won connection is sent, as one control message,
//! to a peer process over an already connected local channel.
use vstd::prelude::*;
use crate::race::RunError;

verus! {

/// The ordinary payload byte that carries the descriptor. Its value means nothing.
pub const SENTINEL: u8 = 0;

/// The one message written to the channel: a payload byte and a descriptor.
#[derive(Clone, Copy, Debug, PartialEq, Eq, Structural)]
pub struct ControlMessage {
    pub payload: u8,
    pub descriptor: i32,
}

/// Guards the channel so that at most one message is ever written to it.
pub struct Transfer {
    sent: bool,
}

/// What `k` successive requests for a message yield, as `true` where a
/// message was issued, on a transfer that starts as `sent`.
pub open spec fn issued(sent: bool, k: nat) -> Seq<bool>
    decreases k,
{
    if k == 0 {
        Seq::empty()
    } else {
        seq![!sent].add(issued(true, (k - 1) as nat))
    }
}

/// How many entries of `s` are `true`.
pub open spec fn count_true(s: Seq<bool>) -> nat
    decreases s.len(),
{
    if s.len() == 0 {
        0
    } else {
        (if s[0] { 1nat } else { 0nat }) + count_true(s.drop_first())
    }
}

/// The run's verdict once the send returned `res` (the number of payload
/// bytes written, or a failure).
pub open spec fn transfer_result_spec(res: Result<usize, ()>) -> Result<(), RunError> {
    if res == Ok::<usize, ()>(1) {
        Ok(())
    } else {
        Err(RunError::HandoffFailure)
    }
}

impl Transfer {
    /// Whether the message has been issued.
    pub closed spec fn is_sent(&self) -> bool {
        self.sent
    }

    pub fn new() -> (r: Transfer)
        ensures
            !r.is_sent(),
    {
        Transfer { sent: false }
    }

    /// The message that hands over `descriptor`: issued once, `None` after.
    pub fn message(&mut self, descriptor: i32) -> (r: Option<ControlMessage>)
        ensures
            final(self).is_sent(),
            r is Some <==> !old(self).is_sent(),
            r matches Some(m) ==> m.payload == SENTINEL && m.descriptor == descriptor,
    {
        if self.sent {
            None
        } else {
            self.sent = true;
            Some(ControlMessage { payload: SENTINEL, descriptor })
        }
    }
}

/// The run's verdict after the send: success when the single payload byte
/// went out with the descriptor, `HandoffFailure` otherwise.
pub fn transfer_result(res: Result<usize, ()>) -> (r: Result<(), RunError>)
    ensures
        r == transfer_result_spec(res),
{
    match res {
        Ok(n) => if n == 1 {
            Ok(())
        } else {
            Err(RunError::HandoffFailure)
        },
        Err(_) => Err(RunError::HandoffFailure),
    }
}

proof fn lemma_sent_issues_none(k: nat)
    ensures
        count_true(issued(true, k)) == 0,
    decreases k,
{
    if k > 0 {
        lemma_sent_issues_none((k - 1) as nat);
        assert(issued(true, k).drop_first() =~= issued(true, (k - 1) as nat));
    }
}

/// However often a fresh transfer is asked for its message, exactly one is
/// issued, on the first request.
pub proof fn lemma_single_message(k: nat)
    requires
        k >= 1,
    ensures
        count_true(issued(false, k)) == 1,
        issued(false, k)[0],
{
    lemma_sent_issues_none((k - 1) as nat);
    assert(issued(false, k).drop_first() =~= issued(true, (k - 1) as nat));
}

} // verus!
