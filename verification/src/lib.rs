//! A point-to-multipoint command/file dispatcher library.
//!
//! A caller submits either a file payload (to be written to a named path on
//! the peer) or a command line (to be executed by the peer) to one or more
//! destinations, over a length-prefixed binary protocol on a reliable stream
//! transport. This crate holds the verified core: the address validator, the
//! message codec and framing, the per-destination session protocol, and the
//! dispatch bookkeeping. The unverified shell around it performs the actual
//! socket I/O and drives the session state machine with the events it
//! observes.

pub mod bytes;
pub mod codec;
pub mod dispatch;
pub mod session;
pub mod validator;
