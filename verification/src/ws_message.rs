use vstd::prelude::*;
use vstd::slice::slice_to_vec;
use vstd::string::StringSliceAdditionalSpecFns;

verus! {

/// The opcode of a WebSocket frame.
#[derive(Clone, Copy, Debug, PartialEq, Eq, Structural)]
pub enum Opcode {
    Continuation,
    Text,
    Binary,
    Close,
    Ping,
    Pong,
}

/// A message exchanged with a WebSocket peer.
///
/// `Fragmented(payload, opcode, chunk_size)` is an outgoing data message that is
/// sent as a sequence of frames of at most `chunk_size` bytes each.
#[derive(Clone, Debug)]
pub enum WsMessage {
    Message(Vec<u8>, Opcode),
    Fragmented(Vec<u8>, Opcode, usize),
    Ping(Option<Vec<u8>>),
    Pong(Option<Vec<u8>>),
    Close(i32, Option<String>),
}

impl WsMessage {
    /// A data message (whole or to be fragmented).
    pub open spec fn spec_is_msg(&self) -> bool {
        self is Message || self is Fragmented
    }

    pub fn is_msg(&self) -> (r: bool)
        ensures
            r == self.spec_is_msg(),
    {
        match self {
            WsMessage::Message(_, _) => true,
            WsMessage::Fragmented(_, _, _) => true,
            WsMessage::Ping(_) => false,
            WsMessage::Pong(_) => false,
            WsMessage::Close(_, _) => false,
        }
    }

    pub fn is_ping(&self) -> (r: bool)
        ensures
            r == (self is Ping),
    {
        match self {
            WsMessage::Message(_, _) => false,
            WsMessage::Fragmented(_, _, _) => false,
            WsMessage::Ping(_) => true,
            WsMessage::Pong(_) => false,
            WsMessage::Close(_, _) => false,
        }
    }

    pub fn is_pong(&self) -> (r: bool)
        ensures
            r == (self is Pong),
    {
        match self {
            WsMessage::Message(_, _) => false,
            WsMessage::Fragmented(_, _, _) => false,
            WsMessage::Ping(_) => false,
            WsMessage::Pong(_) => true,
            WsMessage::Close(_, _) => false,
        }
    }

    pub fn is_close(&self) -> (r: bool)
        ensures
            r == (self is Close),
    {
        match self {
            WsMessage::Message(_, _) => false,
            WsMessage::Fragmented(_, _, _) => false,
            WsMessage::Ping(_) => false,
            WsMessage::Pong(_) => false,
            WsMessage::Close(_, _) => true,
        }
    }
}

/// Every message is of exactly one kind: data, ping, pong or close.
pub proof fn lemma_message_kind_exclusive(m: WsMessage)
    ensures
        (m.spec_is_msg() as int) + ((m is Ping) as int) + ((m is Pong) as int) + ((m is Close)
            as int) == 1,
{
}

/// A text message carrying the UTF-8 bytes of `text`.
pub open spec fn is_text_message(m: WsMessage, text: Seq<char>) -> bool {
    m matches WsMessage::Message(payload, opcode) && opcode == Opcode::Text && payload@
        == vstd::utf8::encode_utf8(text)
}

/// A binary message carrying exactly `bytes`.
pub open spec fn is_binary_message(m: WsMessage, bytes: Seq<u8>) -> bool {
    m matches WsMessage::Message(payload, opcode) && opcode == Opcode::Binary && payload@ == bytes
}

impl From<Vec<u8>> for WsMessage {
    fn from(value: Vec<u8>) -> (r: Self)
        ensures
            r matches WsMessage::Message(bytes, op) && op == Opcode::Binary && bytes@ == value@,
    {
        WsMessage::Message(value, Opcode::Binary)
    }
}

impl vstd::std_specs::convert::FromSpecImpl<Vec<u8>> for WsMessage {
    open spec fn obeys_from_spec() -> bool {
        true
    }

    open spec fn from_spec(v: Vec<u8>) -> Self {
        WsMessage::Message(v, Opcode::Binary)
    }
}

impl From<String> for WsMessage {
    fn from(value: String) -> (r: Self)
        ensures
            is_text_message(r, value@),
            r matches WsMessage::Message(bytes, op) && op == Opcode::Text && bytes@
                == vstd::utf8::encode_utf8(value@),
    {
        let bytes = slice_to_vec(value.as_str().as_bytes());
        WsMessage::Message(bytes, Opcode::Text)
    }
}

impl vstd::std_specs::convert::FromSpecImpl<String> for WsMessage {
    open spec fn obeys_from_spec() -> bool {
        false
    }

    open spec fn from_spec(v: String) -> Self {
        choose|m: WsMessage| is_text_message(m, v@)
    }
}

impl<'a> From<&'a str> for WsMessage {
    fn from(value: &'a str) -> (r: Self)
        ensures
            is_text_message(r, value@),
            r matches WsMessage::Message(bytes, op) && op == Opcode::Text && bytes@
                == vstd::utf8::encode_utf8(value@),
    {
        let bytes = slice_to_vec(value.as_bytes());
        WsMessage::Message(bytes, Opcode::Text)
    }
}

impl<'a> vstd::std_specs::convert::FromSpecImpl<&'a str> for WsMessage {
    open spec fn obeys_from_spec() -> bool {
        false
    }

    open spec fn from_spec(v: &'a str) -> Self {
        choose|m: WsMessage| is_text_message(m, v@)
    }
}

impl<'a> From<&'a [u8]> for WsMessage {
    fn from(value: &'a [u8]) -> (r: Self)
        ensures
            is_binary_message(r, value@),
            r matches WsMessage::Message(bytes, op) && op == Opcode::Binary && bytes@ == value@,
    {
        WsMessage::Message(slice_to_vec(value), Opcode::Binary)
    }
}

impl<'a> vstd::std_specs::convert::FromSpecImpl<&'a [u8]> for WsMessage {
    open spec fn obeys_from_spec() -> bool {
        false
    }

    open spec fn from_spec(v: &'a [u8]) -> Self {
        choose|m: WsMessage| is_binary_message(m, v@)
    }
}

/// Every conversion of bytes gives a binary message carrying exactly those bytes,
/// whatever the bytes are.
pub proof fn lemma_bytes_convert_to_binary(v: Vec<u8>)
    ensures
        <WsMessage as vstd::std_specs::convert::FromSpec<Vec<u8>>>::obeys_from_spec(),
        <WsMessage as vstd::std_specs::convert::FromSpec<Vec<u8>>>::from_spec(v) matches WsMessage::Message(
            bytes,
            op,
        ) && op == Opcode::Binary && bytes@ == v@,
{
}

} // verus!
