//! The message codec and framing.
//!
//! A request is a [`Message`]: a binary payload together with a [`Command`]
//! telling the peer what to do with it. The codec lays a message out as
//! bytes in a fixed, self-describing format, and this module proves that the
//! layout is deterministic and invertible: decoding an encoded message gives
//! the message back, and decoding succeeds on exactly the buffers that some
//! well-formed message encodes to.
//!
//! Encoded layout (all length prefixes are 32-bit big-endian):
//!
//! - tag byte `0` (copy): path length, path bytes (UTF-8), payload length,
//!   payload bytes;
//! - tag byte `1` (run): command-line length, command-line bytes (UTF-8).
//!
//! A frame, the on-wire unit, is a 4-byte big-endian length prefix followed
//! by exactly that many bytes of body.

use vstd::prelude::*;

use crate::bytes::{be32_bytes, lemma_be32_round_trip, u32_of_be, u32_from_be, u32_to_be};

verus! {

use vstd::slice::{slice_subrange, slice_to_vec};
use vstd::utf8::{valid_utf8, decode_utf8, encode_utf8};

/// Tag byte of a copy request on the wire.
pub const COPY_TAG: u8 = 0;

/// Tag byte of a run request on the wire.
pub const RUN_TAG: u8 = 1;

/// What the peer is asked to do.
#[derive(Debug)]
pub enum Command {
    /// Write the accompanying payload at `target_path` on the peer.
    Copy { target_path: String },
    /// Execute `command_line` on the peer; no payload accompanies it.
    Run { command_line: String },
}

/// The unit of request data sent over the wire: a payload plus the command
/// that gives it meaning. A run request always carries an empty payload.
#[derive(Debug)]
pub struct Message {
    pub payload: Vec<u8>,
    pub command: Command,
}

/// Mathematical model of a [`Command`].
pub enum CommandView {
    Copy { target_path: Seq<char> },
    Run { command_line: Seq<char> },
}

/// Mathematical model of a [`Message`].
pub struct MessageView {
    pub payload: Seq<u8>,
    pub command: CommandView,
}

impl View for Command {
    type V = CommandView;

    open spec fn view(&self) -> CommandView {
        match self {
            Command::Copy { target_path } => CommandView::Copy { target_path: target_path@ },
            Command::Run { command_line } => CommandView::Run { command_line: command_line@ },
        }
    }
}

impl View for Message {
    type V = MessageView;

    open spec fn view(&self) -> MessageView {
        MessageView { payload: self.payload@, command: self.command@ }
    }
}

impl PartialEq for Command {
    /// Two commands are equal when they are the same variant with the same
    /// text.
    fn eq(&self, other: &Command) -> (r: bool) {
        match (self, other) {
            (Command::Copy { target_path: a }, Command::Copy { target_path: b }) => *a == *b,
            (Command::Run { command_line: a }, Command::Run { command_line: b }) => *a == *b,
            _ => false,
        }
    }
}

impl vstd::std_specs::cmp::PartialEqSpecImpl for Command {
    open spec fn obeys_eq_spec() -> bool {
        true
    }

    open spec fn eq_spec(&self, other: &Command) -> bool {
        self@ == other@
    }
}

impl PartialEq for Message {
    /// Two messages are equal when their payloads and commands are.
    fn eq(&self, other: &Message) -> (r: bool) {
        let payload_eq = self.payload == other.payload;
        proof {
            if payload_eq {
                assert(self.payload@ =~= other.payload@);
            }
        }
        payload_eq && self.command == other.command
    }
}

impl vstd::std_specs::cmp::PartialEqSpecImpl for Message {
    open spec fn obeys_eq_spec() -> bool {
        true
    }

    open spec fn eq_spec(&self, other: &Message) -> bool {
        self@ == other@
    }
}

impl MessageView {
    /// A message is well formed when a run request carries no payload.
    pub open spec fn wf(self) -> bool {
        self.command is Run ==> self.payload.len() == 0
    }

    /// The UTF-8 bytes of the message's string field.
    pub open spec fn text_bytes(self) -> Seq<u8> {
        match self.command {
            CommandView::Copy { target_path } => encode_utf8(target_path),
            CommandView::Run { command_line } => encode_utf8(command_line),
        }
    }

    /// Whether the message fits the wire format: it is well formed and its
    /// variable-length parts each fit a 32-bit length prefix.
    pub open spec fn encodable(self) -> bool {
        &&& self.wf()
        &&& self.text_bytes().len() < 0x1_0000_0000
        &&& self.payload.len() < 0x1_0000_0000
    }
}

/// The byte layout of a message.
pub open spec fn spec_encode(m: MessageView) -> Seq<u8>
    recommends
        m.encodable(),
{
    match m.command {
        CommandView::Copy { target_path } => {
            let path_bytes = encode_utf8(target_path);
            seq![COPY_TAG] + be32_bytes(path_bytes.len() as u32) + path_bytes + be32_bytes(
                m.payload.len() as u32,
            ) + m.payload
        },
        CommandView::Run { command_line } => {
            let cmd_bytes = encode_utf8(command_line);
            seq![RUN_TAG] + be32_bytes(cmd_bytes.len() as u32) + cmd_bytes
        },
    }
}

/// The message a byte buffer denotes, if any. Decoding is strict: the
/// buffer must hold exactly one encoded message, with a known tag, complete
/// length-prefixed parts, no trailing bytes, and valid UTF-8 text.
pub open spec fn spec_decode(b: Seq<u8>) -> Option<MessageView> {
    if b.len() < 5 {
        None
    } else if b[0] == COPY_TAG {
        let path_len = u32_of_be(b.subrange(1, 5)) as int;
        if b.len() < 9 + path_len {
            None
        } else {
            let path_bytes = b.subrange(5, 5 + path_len);
            let payload_len = u32_of_be(b.subrange(5 + path_len, 9 + path_len)) as int;
            if b.len() != 9 + path_len + payload_len {
                None
            } else if !valid_utf8(path_bytes) {
                None
            } else {
                Some(
                    MessageView {
                        payload: b.subrange(9 + path_len, b.len() as int),
                        command: CommandView::Copy { target_path: decode_utf8(path_bytes) },
                    },
                )
            }
        }
    } else if b[0] == RUN_TAG {
        let cmd_len = u32_of_be(b.subrange(1, 5)) as int;
        if b.len() != 5 + cmd_len {
            None
        } else {
            let cmd_bytes = b.subrange(5, 5 + cmd_len);
            if !valid_utf8(cmd_bytes) {
                None
            } else {
                Some(
                    MessageView {
                        payload: Seq::empty(),
                        command: CommandView::Run { command_line: decode_utf8(cmd_bytes) },
                    },
                )
            }
        }
    } else {
        None
    }
}

/// Why a byte buffer failed to decode.
#[derive(Clone, Copy, Debug, PartialEq, Eq, Structural)]
pub enum DecodeError {
    /// The buffer is shorter than the variant requires, its tag is
    /// unrecognized, its lengths do not add up, or its text is not UTF-8.
    CorruptMessage,
}

/// Law: decoding an encoded message gives the message back.
pub proof fn lemma_round_trip(m: MessageView)
    requires
        m.encodable(),
    ensures
        spec_decode(spec_encode(m)) == Some(m),
{
    broadcast use vstd::utf8::encode_utf8_valid_utf8;
    broadcast use vstd::utf8::encode_utf8_decode_utf8;

    let b = spec_encode(m);
    match m.command {
        CommandView::Copy { target_path } => {
            let path_bytes = encode_utf8(target_path);
            let pl = path_bytes.len() as int;
            lemma_be32_round_trip(path_bytes.len() as u32);
            lemma_be32_round_trip(m.payload.len() as u32);
            assert(b.len() == 9 + pl + m.payload.len());
            assert(b[0] == COPY_TAG);
            assert(b.subrange(1, 5) =~= be32_bytes(path_bytes.len() as u32));
            assert(b.subrange(5, 5 + pl) =~= path_bytes);
            assert(b.subrange(5 + pl, 9 + pl) =~= be32_bytes(m.payload.len() as u32));
            assert(b.subrange(9 + pl, b.len() as int) =~= m.payload);
            assert(spec_decode(b) == Some(m));
        },
        CommandView::Run { command_line } => {
            let cmd_bytes = encode_utf8(command_line);
            let cl = cmd_bytes.len() as int;
            lemma_be32_round_trip(cmd_bytes.len() as u32);
            assert(b.len() == 5 + cl);
            assert(b[0] == RUN_TAG);
            assert(b.subrange(1, 5) =~= be32_bytes(cmd_bytes.len() as u32));
            assert(b.subrange(5, 5 + cl) =~= cmd_bytes);
            assert(m.payload =~= Seq::<u8>::empty());
            assert(spec_decode(b) == Some(m));
        },
    }
}

/// Law: the encoding is canonical. A buffer decodes to `m` only when it is
/// exactly the byte layout of `m`; together with the round trip this makes
/// decoding a bijection between encodable messages and their encodings.
pub proof fn lemma_decode_canonical(b: Seq<u8>, m: MessageView)
    requires
        spec_decode(b) == Some(m),
    ensures
        m.encodable(),
        spec_encode(m) == b,
{
    broadcast use vstd::utf8::decode_utf8_encode_utf8;

    crate::bytes::lemma_u32_of_be_round_trip(b.subrange(1, 5));
    if b[0] == COPY_TAG {
        let path_len = u32_of_be(b.subrange(1, 5)) as int;
        let path_bytes = b.subrange(5, 5 + path_len);
        assert(encode_utf8(decode_utf8(path_bytes)) == path_bytes);
        crate::bytes::lemma_u32_of_be_round_trip(b.subrange(5 + path_len, 9 + path_len));
        assert(b.subrange(9 + path_len, b.len() as int).len() == u32_of_be(
            b.subrange(5 + path_len, 9 + path_len),
        ));
        assert(spec_encode(m) =~= b);
    } else {
        let cmd_len = u32_of_be(b.subrange(1, 5)) as int;
        let cmd_bytes = b.subrange(5, 5 + cmd_len);
        assert(encode_utf8(decode_utf8(cmd_bytes)) == cmd_bytes);
        assert(spec_encode(m) =~= b);
    }
}

impl Message {
    /// Build a copy request: write `payload` at `target_path` on the peer.
    pub fn copy(payload: Vec<u8>, target_path: String) -> (r: Message)
        ensures
            r@ == (MessageView {
                payload: payload@,
                command: CommandView::Copy { target_path: target_path@ },
            }),
            r@.wf(),
    {
        Message { payload, command: Command::Copy { target_path } }
    }

    /// Build a run request: execute `command_line` on the peer.
    pub fn run(command_line: String) -> (r: Message)
        ensures
            r@ == (MessageView {
                payload: Seq::empty(),
                command: CommandView::Run { command_line: command_line@ },
            }),
            r@.wf(),
    {
        let payload: Vec<u8> = Vec::new();
        Message { payload, command: Command::Run { command_line } }
    }
}

/// Serialize a message to its byte layout.
pub fn encode(m: &Message) -> (r: Vec<u8>)
    requires
        m@.encodable(),
        spec_encode(m@).len() <= usize::MAX,
    ensures
        r@ == spec_encode(m@),
{
    let mut r: Vec<u8> = Vec::new();
    match &m.command {
        Command::Copy { target_path } => {
            let path_bytes = target_path.as_str().as_bytes();
            r.push(COPY_TAG);
            let mut len1 = u32_to_be(path_bytes.len() as u32);
            r.append(&mut len1);
            r.extend_from_slice(path_bytes);
            let mut len2 = u32_to_be(m.payload.len() as u32);
            r.append(&mut len2);
            r.extend_from_slice(m.payload.as_slice());
            proof {
                assert(r@ =~= spec_encode(m@));
            }
        },
        Command::Run { command_line } => {
            let cmd_bytes = command_line.as_str().as_bytes();
            r.push(RUN_TAG);
            let mut len1 = u32_to_be(cmd_bytes.len() as u32);
            r.append(&mut len1);
            r.extend_from_slice(cmd_bytes);
            proof {
                assert(r@ =~= spec_encode(m@));
            }
        },
    }
    r
}

/// Relies on `String::from_utf8`: it returns `Ok` exactly when the bytes are
/// valid UTF-8, and the returned string's characters are the decoding of
/// those bytes.
#[verifier::external_body]
fn bytes_to_string(v: Vec<u8>) -> (r: Option<String>)
    ensures
        r is Some <==> valid_utf8(v@),
        r matches Some(s) ==> s@ == decode_utf8(v@),
{
    match String::from_utf8(v) {
        Ok(s) => Some(s),
        Err(_) => None,
    }
}

/// Deserialize a byte buffer back to the message it encodes, or report
/// corruption: the result is `Ok(m)` exactly when the buffer is the byte
/// layout of `m`, and `CorruptMessage` otherwise.
pub fn decode(b: &[u8]) -> (r: Result<Message, DecodeError>)
    ensures
        match r {
            Ok(m) => spec_decode(b@) == Some(m@),
            Err(e) => spec_decode(b@) is None && e == DecodeError::CorruptMessage,
        },
{
    if b.len() < 5 {
        return Err(DecodeError::CorruptMessage);
    }
    let tag = b[0];
    if tag == COPY_TAG {
        let path_len = u32_from_be(slice_subrange(b, 1, 5)) as usize;
        if b.len() - 5 < 4 || b.len() - 9 < path_len {
            return Err(DecodeError::CorruptMessage);
        }
        let path_bytes = slice_to_vec(slice_subrange(b, 5, 5 + path_len));
        let payload_len = u32_from_be(slice_subrange(b, 5 + path_len, 9 + path_len)) as usize;
        if b.len() - 9 - path_len != payload_len {
            return Err(DecodeError::CorruptMessage);
        }
        match bytes_to_string(path_bytes) {
            Some(target_path) => {
                let payload = slice_to_vec(slice_subrange(b, 9 + path_len, b.len()));
                let m = Message { payload, command: Command::Copy { target_path } };
                proof {
                    assert(spec_decode(b@) == Some(m@));
                }
                Ok(m)
            },
            None => Err(DecodeError::CorruptMessage),
        }
    } else if tag == RUN_TAG {
        let cmd_len = u32_from_be(slice_subrange(b, 1, 5)) as usize;
        if b.len() - 5 != cmd_len {
            return Err(DecodeError::CorruptMessage);
        }
        let cmd_bytes = slice_to_vec(slice_subrange(b, 5, 5 + cmd_len));
        match bytes_to_string(cmd_bytes) {
            Some(command_line) => {
                let payload: Vec<u8> = Vec::new();
                let m = Message { payload, command: Command::Run { command_line } };
                proof {
                    assert(m@.payload =~= Seq::<u8>::empty());
                    assert(spec_decode(b@) == Some(m@));
                }
                Ok(m)
            },
            None => Err(DecodeError::CorruptMessage),
        }
    } else {
        Err(DecodeError::CorruptMessage)
    }
}

/// The frame that carries a body on the wire: the body's length as four
/// big-endian bytes, then the body itself.
pub open spec fn spec_frame(body: Seq<u8>) -> Seq<u8>
    recommends
        body.len() < 0x1_0000_0000,
{
    be32_bytes(body.len() as u32) + body
}

/// Prepend the 4-byte big-endian length prefix to a frame body.
///
/// The contract states frame integrity directly: the first four bytes of the
/// result, read as a big-endian 32-bit integer, are the body's length, and
/// the remaining bytes are the body, unchanged.
pub fn frame(body: &[u8]) -> (r: Vec<u8>)
    requires
        body@.len() < 0x1_0000_0000,
        body@.len() + 4 <= usize::MAX,
    ensures
        r@ == spec_frame(body@),
        r@.len() == 4 + body@.len(),
        u32_of_be(r@.subrange(0, 4)) == body@.len(),
        r@.subrange(4, r@.len() as int) == body@,
{
    let mut r = u32_to_be(body.len() as u32);
    r.extend_from_slice(body);
    proof {
        lemma_be32_round_trip(body@.len() as u32);
        assert(r@ =~= spec_frame(body@));
        assert(r@.subrange(0, 4) =~= be32_bytes(body@.len() as u32));
        assert(r@.subrange(4, r@.len() as int) =~= body@);
    }
    r
}

} // verus!
