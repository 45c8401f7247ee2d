use vstd::prelude::*;
use vstd::slice::slice_to_vec;

use crate::ws_message::{Opcode, WsMessage};

verus! {

/// uWebSockets' `SHARED_COMPRESSOR` compression option.
pub const SHARED_COMPRESSOR: u32 = 1;

/// uWebSockets' `SHARED_DECOMPRESSOR` compression option.
pub const SHARED_DECOMPRESSOR: u32 = 256;

/// Per-route WebSocket settings; an unset field takes the zero value of its type.
#[derive(Debug, Clone)]
pub struct WsRouteSettings {
    pub compression: Option<u32>,
    pub max_payload_length: Option<u32>,
    pub idle_timeout: Option<u16>,
    pub max_backpressure: Option<u32>,
    pub close_on_backpressure_limit: Option<bool>,
    pub reset_idle_timeout_on_send: Option<bool>,
    pub send_pings_automatically: Option<bool>,
    pub max_lifetime: Option<u16>,
}

impl Default for WsRouteSettings {
    fn default() -> (r: Self)
        ensures
            r.compression == Some(SHARED_COMPRESSOR | SHARED_DECOMPRESSOR),
            r.compression == Some(257u32),
            r.max_payload_length == Some(1024u32),
            r.idle_timeout == Some(800u16),
            r.max_backpressure == Some(10u32),
            r.close_on_backpressure_limit == Some(false),
            r.reset_idle_timeout_on_send == Some(true),
            r.send_pings_automatically == Some(true),
            r.max_lifetime == Some(111u16),
    {
        assert(SHARED_COMPRESSOR | SHARED_DECOMPRESSOR == 257u32) by (bit_vector);
        WsRouteSettings {
            compression: Some(SHARED_COMPRESSOR | SHARED_DECOMPRESSOR),
            max_payload_length: Some(1024),
            idle_timeout: Some(800),
            max_backpressure: Some(10),
            close_on_backpressure_limit: Some(false),
            reset_idle_timeout_on_send: Some(true),
            send_pings_automatically: Some(true),
            max_lifetime: Some(111),
        }
    }
}

/// The settings a WebSocket route is registered with, every field decided.
#[derive(Debug, Clone, Copy, PartialEq, Eq, Structural)]
pub struct WsBehaviorSettings {
    pub compression: u32,
    pub max_payload_length: u32,
    pub idle_timeout: u16,
    pub max_backpressure: u32,
    pub close_on_backpressure_limit: bool,
    pub reset_idle_timeout_on_send: bool,
    pub send_pings_automatically: bool,
    pub max_lifetime: u16,
}

/// The value of an optional setting, or `default` when it is unset.
pub open spec fn setting_or<T>(value: Option<T>, default: T) -> T {
    match value {
        Some(v) => v,
        None => default,
    }
}

/// A set value is kept as given; an unset one takes the default.
pub proof fn lemma_setting_or<T>(v: T, default: T)
    ensures
        setting_or(Some(v), default) == v,
        setting_or(None::<T>, default) == default,
{
}

fn u32_or_zero(value: Option<u32>) -> (r: u32)
    ensures
        r == setting_or(value, 0u32),
{
    match value {
        Some(v) => v,
        None => 0,
    }
}

fn u16_or_zero(value: Option<u16>) -> (r: u16)
    ensures
        r == setting_or(value, 0u16),
{
    match value {
        Some(v) => v,
        None => 0,
    }
}

fn bool_or_false(value: Option<bool>) -> (r: bool)
    ensures
        r == setting_or(value, false),
{
    match value {
        Some(v) => v,
        None => false,
    }
}

impl WsRouteSettings {
    /// The settings to register: each set field as given, each unset one as zero or false.
    pub fn resolve(&self) -> (r: WsBehaviorSettings)
        ensures
            r.compression == setting_or(self.compression, 0u32),
            r.max_payload_length == setting_or(self.max_payload_length, 0u32),
            r.idle_timeout == setting_or(self.idle_timeout, 0u16),
            r.max_backpressure == setting_or(self.max_backpressure, 0u32),
            r.close_on_backpressure_limit == setting_or(self.close_on_backpressure_limit, false),
            r.reset_idle_timeout_on_send == setting_or(self.reset_idle_timeout_on_send, false),
            r.send_pings_automatically == setting_or(self.send_pings_automatically, false),
            r.max_lifetime == setting_or(self.max_lifetime, 0u16),
    {
        WsBehaviorSettings {
            compression: u32_or_zero(self.compression),
            max_payload_length: u32_or_zero(self.max_payload_length),
            idle_timeout: u16_or_zero(self.idle_timeout),
            max_backpressure: u32_or_zero(self.max_backpressure),
            close_on_backpressure_limit: bool_or_false(self.close_on_backpressure_limit),
            reset_idle_timeout_on_send: bool_or_false(self.reset_idle_timeout_on_send),
            send_pings_automatically: bool_or_false(self.send_pings_automatically),
            max_lifetime: u16_or_zero(self.max_lifetime),
        }
    }
}

/// The bytes of an optional payload, copied.
pub open spec fn optional_bytes(v: Option<Vec<u8>>) -> Option<Seq<u8>> {
    match v {
        Some(b) => Some(b@),
        None => None,
    }
}

/// A payload that is present is carried with exactly its bytes; an absent one stays absent.
pub proof fn lemma_optional_bytes(v: Option<Vec<u8>>)
    ensures
        v matches Some(b) ==> optional_bytes(v) == Some(b@),
        v is None ==> optional_bytes(v) is None,
{
}

fn copy_optional(payload: Option<&[u8]>) -> (r: Option<Vec<u8>>)
    ensures
        optional_bytes(r) == match payload {
            Some(p) => Some(p@),
            None => None::<Seq<u8>>,
        },
{
    match payload {
        Some(p) => Some(slice_to_vec(p)),
        None => None,
    }
}

/// The message a received data frame is forwarded as.
pub fn message(payload: &[u8], opcode: Opcode) -> (r: WsMessage)
    ensures
        r matches WsMessage::Message(bytes, op) && bytes@ == payload@ && op == opcode,
{
    WsMessage::Message(slice_to_vec(payload), opcode)
}

/// The message a received close is forwarded as.
pub fn close(code: i32, reason: Option<&str>) -> (r: WsMessage)
    ensures
        r matches WsMessage::Close(c, text) && c == code && match (text, reason) {
            (Some(t), Some(s)) => t@ == s@,
            (None, None) => true,
            _ => false,
        },
{
    let text = match reason {
        Some(s) => Some(s.to_owned()),
        None => None,
    };
    WsMessage::Close(code, text)
}

/// The message a received ping is forwarded as.
pub fn ping(payload: Option<&[u8]>) -> (r: WsMessage)
    ensures
        r matches WsMessage::Ping(p) && optional_bytes(p) == match payload {
            Some(s) => Some(s@),
            None => None::<Seq<u8>>,
        },
{
    WsMessage::Ping(copy_optional(payload))
}

/// The message a received pong is forwarded as.
pub fn pong(payload: Option<&[u8]>) -> (r: WsMessage)
    ensures
        r matches WsMessage::Pong(p) && optional_bytes(p) == match payload {
            Some(s) => Some(s@),
            None => None::<Seq<u8>>,
        },
{
    WsMessage::Pong(copy_optional(payload))
}

} // verus!
