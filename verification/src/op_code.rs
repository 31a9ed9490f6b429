//! Frame operation codes and close codes of RFC 6455.

use vstd::prelude::*;

verus! {

/// Payload length ceiling of every control frame.
pub const MAX_CONTROL_PAYLOAD_LEN: usize = 125;

/// The operation code of a frame, stored in the low nibble of its first
/// header byte.
#[derive(Clone, Copy, Debug, PartialEq, Eq, Structural)]
pub enum OpCode {
    /// A subsequent fragment of a fragmented message.
    Continuation,
    /// A message whose payload is UTF-8 text.
    Text,
    /// A message whose payload is opaque bytes.
    Binary,
    /// Terminates the connection.
    Close,
    /// Requests a `Pong` reply.
    Ping,
    /// Answers a `Ping`.
    Pong,
}

/// The wire nibble of each operation code.
pub open spec fn op_code_nibble(op: OpCode) -> u8 {
    match op {
        OpCode::Continuation => 0,
        OpCode::Text => 1,
        OpCode::Binary => 2,
        OpCode::Close => 8,
        OpCode::Ping => 9,
        OpCode::Pong => 10,
    }
}

/// The operation code encoded by a nibble, if the nibble is assigned.
pub open spec fn spec_op_code_from_nibble(nibble: u8) -> Option<OpCode> {
    if nibble == 0 {
        Some(OpCode::Continuation)
    } else if nibble == 1 {
        Some(OpCode::Text)
    } else if nibble == 2 {
        Some(OpCode::Binary)
    } else if nibble == 8 {
        Some(OpCode::Close)
    } else if nibble == 9 {
        Some(OpCode::Ping)
    } else if nibble == 10 {
        Some(OpCode::Pong)
    } else {
        None
    }
}

impl OpCode {
    /// Decodes a nibble; unassigned nibbles are refused.
    pub fn from_nibble(nibble: u8) -> (r: Option<Self>)
        ensures
            r == spec_op_code_from_nibble(nibble),
    {
        match nibble {
            0 => Some(OpCode::Continuation),
            1 => Some(OpCode::Text),
            2 => Some(OpCode::Binary),
            8 => Some(OpCode::Close),
            9 => Some(OpCode::Ping),
            10 => Some(OpCode::Pong),
            _ => None,
        }
    }

    /// The wire nibble of this operation code.
    pub fn nibble(self) -> (r: u8)
        ensures
            r == op_code_nibble(self),
    {
        match self {
            OpCode::Continuation => 0,
            OpCode::Text => 1,
            OpCode::Binary => 2,
            OpCode::Close => 8,
            OpCode::Ping => 9,
            OpCode::Pong => 10,
        }
    }

    /// Control frames terminate or probe the connection; they are never
    /// fragmented and carry at most 125 payload bytes.
    pub fn is_control(self) -> (r: bool)
        ensures
            r == spec_is_control(self),
    {
        match self {
            OpCode::Close | OpCode::Ping | OpCode::Pong => true,
            OpCode::Continuation | OpCode::Text | OpCode::Binary => false,
        }
    }

    /// True only of `Text`.
    pub fn is_text(self) -> (r: bool)
        ensures
            r == (self == OpCode::Text),
    {
        matches!(self, OpCode::Text)
    }

    /// True only of `Continuation`.
    pub fn is_continuation(self) -> (r: bool)
        ensures
            r == (self == OpCode::Continuation),
    {
        matches!(self, OpCode::Continuation)
    }
}

/// True of the codes that terminate or probe the connection.
pub open spec fn spec_is_control(op: OpCode) -> bool {
    op == OpCode::Close || op == OpCode::Ping || op == OpCode::Pong
}

/// True of the close codes a peer may legitimately put on the wire:
/// the assigned codes of RFC 6455 plus the registered and private ranges.
pub open spec fn spec_close_code_is_allowed(code: u16) -> bool {
    (1000 <= code <= 1003) || (1007 <= code <= 1011) || (3000 <= code <= 4999)
}

/// A 16-bit close code carried in the first two payload bytes of a close
/// frame.
#[derive(Clone, Copy, Debug, PartialEq, Eq, Structural)]
pub struct CloseCode {
    code: u16,
}

impl View for CloseCode {
    type V = u16;

    closed spec fn view(&self) -> u16 {
        self.code
    }
}

impl CloseCode {
    /// Close code 1000: a normal closure.
    pub fn normal() -> (r: Self)
        ensures
            r@ == 1000,
    {
        CloseCode { code: 1000 }
    }

    /// Close code 1002: the peer violated the protocol.
    pub fn protocol() -> (r: Self)
        ensures
            r@ == 1002,
    {
        CloseCode { code: 1002 }
    }

    /// Wraps a raw 16-bit code without judging it.
    pub fn from_u16(code: u16) -> (r: Self)
        ensures
            r@ == code,
    {
        CloseCode { code }
    }

    /// The raw 16-bit code.
    pub fn to_u16(self) -> (r: u16)
        ensures
            r == self@,
    {
        self.code
    }

    /// Whether the code lies in the ranges a close frame may carry.
    pub fn is_allowed(self) -> (r: bool)
        ensures
            r == spec_close_code_is_allowed(self@),
    {
        (1000 <= self.code && self.code <= 1003) || (1007 <= self.code && self.code <= 1011)
            || (3000 <= self.code && self.code <= 4999)
    }
}

} // verus!
