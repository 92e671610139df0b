//! The endpoint session protocol.
//!
//! One session owns one connection to one destination and performs, in
//! strict order: connect, write the request frame, read the 4-byte response
//! length prefix, read the response body, decode it lossily to text, and
//! half-close the connection. No step is retried; a failure at any step ends
//! the session with that step's error.
//!
//! The protocol is a state machine over plain values. The unverified shell
//! performs each [`SessionAction`] on the socket, reports what happened as a
//! [`SessionEvent`], and calls [`step`]; the machine decides everything
//! else. Every transition strictly advances the protocol — [`step`]'s
//! contract says the state's rank grows — so a session can neither loop nor
//! retry, and it succeeds only by completing the full sequence.

use vstd::prelude::*;

use crate::bytes::u32_of_be;

verus! {

use vstd::utf8::{valid_utf8, decode_utf8};

/// Why a session failed. Each error is scoped to its own destination and
/// never affects another session.
#[derive(Clone, Copy, Debug, PartialEq, Eq, Structural)]
pub enum SessionError {
    /// The connection could not be opened.
    ConnectFailed,
    /// The request frame could not be written in full.
    SendFailed,
    /// The connection closed before a complete response arrived.
    ResponseTruncated,
    /// A step exceeded its time allowance.
    Timeout,
}

/// Where a session stands in the protocol.
pub enum SessionState {
    /// Opening the connection.
    Connecting,
    /// Writing the request frame.
    Sending,
    /// Reading the 4-byte response length prefix.
    AwaitingPrefix,
    /// Reading the response body of the announced length.
    AwaitingBody { expected: u32 },
    /// The exchange completed; the response text is the session's outcome.
    Succeeded { response: String },
    /// A step failed; the error is the session's outcome.
    Failed { error: SessionError },
}

/// What the transport reported about the last action.
pub enum SessionEvent {
    /// The connection is open.
    Connected,
    /// The connection could not be opened.
    ConnectError,
    /// The whole frame was written and flushed.
    Sent,
    /// The write or the flush failed.
    SendError,
    /// Exactly four prefix bytes arrived.
    PrefixRead { prefix: Vec<u8> },
    /// The connection closed before four prefix bytes arrived.
    PrefixTruncated,
    /// Exactly the announced number of body bytes arrived.
    BodyRead { body: Vec<u8> },
    /// The connection closed before the announced body arrived.
    BodyTruncated,
    /// The pending step exceeded its time allowance.
    TimedOut,
}

/// What the shell must do next on the socket.
pub enum SessionAction {
    /// Open a stream connection to the destination.
    OpenConnection,
    /// Write the request frame in full, then flush.
    WriteFrame,
    /// Read exactly `count` bytes.
    ReadBytes { count: u32 },
    /// Half-close the write side; the session is over.
    CloseWrite,
    /// Nothing: the session is over.
    Halt,
}

/// What `String::from_utf8_lossy` returns for the given bytes: the result
/// depends on the bytes alone.
pub uninterp spec fn lossy_utf8(bytes: Seq<u8>) -> Seq<char>;

/// Relies on `String::from_utf8_lossy`: the result is a function of the
/// bytes alone, and valid UTF-8 decodes to exactly its own characters.
#[verifier::external_body]
fn lossy_text(bytes: &[u8]) -> (r: String)
    ensures
        r@ == lossy_utf8(bytes@),
        valid_utf8(bytes@) ==> r@ == decode_utf8(bytes@),
{
    String::from_utf8_lossy(bytes).into_owned()
}

/// Decode a response body to text: invalid byte sequences become
/// replacement characters instead of failing the response, and valid UTF-8
/// comes through unchanged.
pub fn decode_response(bytes: &[u8]) -> (r: String)
    ensures
        r@ == lossy_utf8(bytes@),
        valid_utf8(bytes@) ==> r@ == decode_utf8(bytes@),
{
    lossy_text(bytes)
}

impl SessionState {
    /// The protocol position of a state; every step strictly increases it.
    pub open spec fn rank(self) -> int {
        match self {
            SessionState::Connecting => 0,
            SessionState::Sending => 1,
            SessionState::AwaitingPrefix => 2,
            SessionState::AwaitingBody { .. } => 3,
            SessionState::Succeeded { .. } => 4,
            SessionState::Failed { .. } => 4,
        }
    }

    /// Whether the session is over, one way or the other.
    pub open spec fn is_terminal(self) -> bool {
        self is Succeeded || self is Failed
    }
}

/// Whether `event` can be reported in `state`: each protocol step accepts
/// the outcomes of its own action only, a read must deliver exactly the
/// requested bytes, and nothing happens after the session is over.
pub open spec fn event_fits(state: SessionState, event: SessionEvent) -> bool {
    match event {
        SessionEvent::Connected => state is Connecting,
        SessionEvent::ConnectError => state is Connecting,
        SessionEvent::Sent => state is Sending,
        SessionEvent::SendError => state is Sending,
        SessionEvent::PrefixRead { prefix } => state is AwaitingPrefix && prefix.len() == 4,
        SessionEvent::PrefixTruncated => state is AwaitingPrefix,
        SessionEvent::BodyRead { body } => state matches SessionState::AwaitingBody { expected }
            && body.len() == expected,
        SessionEvent::BodyTruncated => state is AwaitingBody,
        SessionEvent::TimedOut => !state.is_terminal(),
    }
}

/// Advance the session by one protocol step.
///
/// The contract is the full transition table: connect leads to sending the
/// frame, a sent frame to reading the 4-byte prefix, a prefix to reading the
/// body whose length the prefix announces in big-endian, and a body to
/// success with the body's lossy decoding; each failure event leads to the
/// failed state with that step's error and no further action. The rank
/// clause makes the order strict: no transition repeats or goes back, so a
/// success is reached only through the whole sequence.
pub fn step(state: SessionState, event: SessionEvent) -> (r: (SessionState, SessionAction))
    requires
        event_fits(state, event),
    ensures
        r.0.rank() > state.rank(),
        r.0 is Succeeded ==> state is AwaitingBody && event is BodyRead,
        event is Connected ==> r == (SessionState::Sending, SessionAction::WriteFrame),
        event is ConnectError ==> r == (
            SessionState::Failed { error: SessionError::ConnectFailed },
            SessionAction::Halt,
        ),
        event is Sent ==> r == (SessionState::AwaitingPrefix, SessionAction::ReadBytes { count: 4u32 }),
        event is SendError ==> r == (
            SessionState::Failed { error: SessionError::SendFailed },
            SessionAction::Halt,
        ),
        event matches SessionEvent::PrefixRead { prefix } ==> r == (
            SessionState::AwaitingBody { expected: u32_of_be(prefix@) },
            SessionAction::ReadBytes { count: u32_of_be(prefix@) },
        ),
        event is PrefixTruncated || event is BodyTruncated ==> r == (
            SessionState::Failed { error: SessionError::ResponseTruncated },
            SessionAction::Halt,
        ),
        event matches SessionEvent::BodyRead { body } ==> r.0 matches SessionState::Succeeded {
            response,
        } && response@ == lossy_utf8(body@) && r.1 == SessionAction::CloseWrite,
        event is TimedOut ==> r == (
            SessionState::Failed { error: SessionError::Timeout },
            SessionAction::Halt,
        ),
{
    match event {
        SessionEvent::Connected => (SessionState::Sending, SessionAction::WriteFrame),
        SessionEvent::ConnectError => (
            SessionState::Failed { error: SessionError::ConnectFailed },
            SessionAction::Halt,
        ),
        SessionEvent::Sent => (SessionState::AwaitingPrefix, SessionAction::ReadBytes { count: 4 }),
        SessionEvent::SendError => (
            SessionState::Failed { error: SessionError::SendFailed },
            SessionAction::Halt,
        ),
        SessionEvent::PrefixRead { prefix } => {
            let expected = crate::bytes::u32_from_be(prefix.as_slice());
            (
                SessionState::AwaitingBody { expected },
                SessionAction::ReadBytes { count: expected },
            )
        },
        SessionEvent::PrefixTruncated => (
            SessionState::Failed { error: SessionError::ResponseTruncated },
            SessionAction::Halt,
        ),
        SessionEvent::BodyRead { body } => {
            let response = decode_response(body.as_slice());
            (SessionState::Succeeded { response }, SessionAction::CloseWrite)
        },
        SessionEvent::BodyTruncated => (
            SessionState::Failed { error: SessionError::ResponseTruncated },
            SessionAction::Halt,
        ),
        SessionEvent::TimedOut => (
            SessionState::Failed { error: SessionError::Timeout },
            SessionAction::Halt,
        ),
    }
}

} // verus!
