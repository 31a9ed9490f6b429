//! Frames as the engine hands them to the application and takes them back.

use vstd::prelude::*;
use crate::op_code::OpCode;

verus! {

/// Where the payload of a surfaced frame was assembled.
#[derive(Clone, Copy, Debug, PartialEq, Eq, Structural)]
pub enum PayloadTy {
    /// Final, single-fragment, uncompressed: straight out of the network
    /// buffer.
    Network,
    /// Reassembled or decompressed once: out of the first reader buffer.
    FirstReader,
    /// Decompressed after reassembly: out of the second reader buffer.
    SecondReader,
}

/// A data, control or reassembled message frame.
#[derive(Debug)]
pub struct Frame {
    /// Whether this frame terminates a message.
    pub fin: bool,
    /// The operation code.
    pub op_code: OpCode,
    /// First reserved bit: the payload is compressed on the wire.
    pub rsv1: bool,
    /// The payload bytes.
    pub payload: Vec<u8>,
}

impl Frame {
    /// A frame with explicit flags.
    pub fn new(fin: bool, op_code: OpCode, payload: Vec<u8>, rsv1: bool) -> (r: Self)
        ensures
            r.fin == fin,
            r.op_code == op_code,
            r.rsv1 == rsv1,
            r.payload@ == payload@,
    {
        Frame { fin, op_code, rsv1, payload }
    }

    /// A final, uncompressed frame.
    pub fn new_fin(op_code: OpCode, payload: Vec<u8>) -> (r: Self)
        ensures
            r.fin,
            r.op_code == op_code,
            !r.rsv1,
            r.payload@ == payload@,
    {
        Frame { fin: true, op_code, rsv1: false, payload }
    }
}

} // verus!
