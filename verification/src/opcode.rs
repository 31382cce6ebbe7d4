//! The operation code carried in the low four bits of a frame's first byte.

use vstd::prelude::*;
use vstd::std_specs::convert::FromSpecImpl;

verus! {

/// What a frame is for. `Unknown` stands for every code that RFC 6455 leaves
/// unassigned; it can be observed on receipt but never sent.
#[derive(Debug, Clone, Copy, PartialEq, Eq, Structural)]
pub enum OpCode {
    ContinuationFrame,
    Text,
    Binary,
    ConnectionClose,
    Ping,
    Pong,
    Unknown,
}

/// The opcode that a numeric code denotes.
pub open spec fn opcode_of(value: u8) -> OpCode {
    if value == 0 {
        OpCode::ContinuationFrame
    } else if value == 1 {
        OpCode::Text
    } else if value == 2 {
        OpCode::Binary
    } else if value == 8 {
        OpCode::ConnectionClose
    } else if value == 9 {
        OpCode::Ping
    } else if value == 10 {
        OpCode::Pong
    } else {
        OpCode::Unknown
    }
}

/// The numeric code of an opcode; `Unknown` is written as 255.
pub open spec fn code_of(op: OpCode) -> u8 {
    match op {
        OpCode::ContinuationFrame => 0,
        OpCode::Text => 1,
        OpCode::Binary => 2,
        OpCode::ConnectionClose => 8,
        OpCode::Ping => 9,
        OpCode::Pong => 10,
        OpCode::Unknown => 255,
    }
}

impl OpCode {
    /// Whether the opcode may be put on the wire.
    pub open spec fn spec_is_valid(&self) -> bool {
        *self != OpCode::Unknown
    }

    /// Whether the opcode may be put on the wire: every opcode but `Unknown`.
    #[verifier::when_used_as_spec(spec_is_valid)]
    pub fn is_valid(&self) -> (valid: bool)
        ensures
            valid == self.spec_is_valid(),
    {
        match self {
            OpCode::Unknown => false,
            _ => true,
        }
    }
}

impl FromSpecImpl<u8> for OpCode {
    open spec fn obeys_from_spec() -> bool {
        true
    }

    open spec fn from_spec(value: u8) -> OpCode {
        opcode_of(value)
    }
}

impl From<u8> for OpCode {
    fn from(value: u8) -> (op: OpCode) {
        match value {
            0 => OpCode::ContinuationFrame,
            1 => OpCode::Text,
            2 => OpCode::Binary,
            8 => OpCode::ConnectionClose,
            9 => OpCode::Ping,
            10 => OpCode::Pong,
            _ => OpCode::Unknown,
        }
    }
}

impl FromSpecImpl<OpCode> for u8 {
    open spec fn obeys_from_spec() -> bool {
        true
    }

    open spec fn from_spec(op: OpCode) -> u8 {
        code_of(op)
    }
}

impl From<OpCode> for u8 {
    fn from(op: OpCode) -> (value: u8) {
        match op {
            OpCode::ContinuationFrame => 0,
            OpCode::Text => 1,
            OpCode::Binary => 2,
            OpCode::ConnectionClose => 8,
            OpCode::Ping => 9,
            OpCode::Pong => 10,
            OpCode::Unknown => 255,
        }
    }
}

/// Turning an opcode into its code and back gives the opcode again, for
/// every opcode.
pub proof fn lemma_opcode_code_roundtrip(op: OpCode)
    ensures
        opcode_of(code_of(op)) == op,
{
}

/// A code names a sendable opcode exactly when it is one of the six assigned
/// codes, and then the opcode's code is that number.
pub proof fn lemma_code_opcode_roundtrip(value: u8)
    ensures
        opcode_of(value).spec_is_valid() <==> (value == 0 || value == 1 || value == 2 || value == 8
            || value == 9 || value == 10),
        opcode_of(value).spec_is_valid() ==> code_of(opcode_of(value)) == value,
        !opcode_of(value).spec_is_valid() ==> code_of(opcode_of(value)) == 255,
{
}

} // verus!
