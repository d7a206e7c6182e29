use vstd::prelude::*;

use crate::frame::{spec_is_control, OpCode};

verus! {

/// A control frame handed to the caller while a message is being read.
#[derive(Debug)]
pub enum ControlFrame {
    Ping(Vec<u8>),
    Pong(Vec<u8>),
    Close(Vec<u8>),
}

impl ControlFrame {
    /// The opcode of the frame this came from.
    pub open spec fn kind(self) -> OpCode {
        match self {
            ControlFrame::Ping(_) => OpCode::Ping,
            ControlFrame::Pong(_) => OpCode::Pong,
            ControlFrame::Close(_) => OpCode::Close,
        }
    }

    /// The payload of the frame this came from.
    pub open spec fn payload_view(self) -> Seq<u8> {
        match self {
            ControlFrame::Ping(p) => p@,
            ControlFrame::Pong(p) => p@,
            ControlFrame::Close(p) => p@,
        }
    }

    /// The control frame of a Ping, Pong or Close opcode with this payload.
    pub fn new(op_code: OpCode, payload: Vec<u8>) -> (r: ControlFrame)
        requires
            spec_is_control(op_code),
        ensures
            r.kind() == op_code,
            r.payload_view() == payload@,
    {
        match op_code {
            OpCode::Ping => ControlFrame::Ping(payload),
            OpCode::Pong => ControlFrame::Pong(payload),
            _ => ControlFrame::Close(payload),
        }
    }
}

} // verus!
