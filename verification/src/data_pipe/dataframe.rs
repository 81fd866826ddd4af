//! Header of a data frame.

use vstd::prelude::*;

use crate::bytes::{numbers_are_little_endian, put_u32, u32_le, u32_of, u32_round_trip};

verus! {

/// What a data frame is for.
#[derive(Debug, Clone, Copy, PartialEq, Eq, Structural)]
pub enum FrameType {
    Data,
    Fin,
    Rst,
}

impl FrameType {
    /// The number that stands for this type.
    pub open spec fn code(self) -> u32 {
        match self {
            FrameType::Data => 0,
            FrameType::Fin => 1,
            FrameType::Rst => 2,
        }
    }

    /// The number that stands for this type.
    pub fn as_u32(self) -> (v: u32)
        ensures
            v == self.code(),
    {
        match self {
            FrameType::Data => 0,
            FrameType::Fin => 1,
            FrameType::Rst => 2,
        }
    }

    /// The type that `v` stands for.
    pub fn from_u32(v: u32) -> (t: Option<Self>)
        ensures
            match t {
                Some(t) => t.code() == v,
                None => v > 2,
            },
    {
        match v {
            0 => Some(FrameType::Data),
            1 => Some(FrameType::Fin),
            2 => Some(FrameType::Rst),
            _ => None,
        }
    }
}

/// A number stands for at most one frame type.
pub proof fn frame_type_round_trip(a: FrameType, b: FrameType)
    requires
        a.code() == b.code(),
    ensures
        a == b,
{
}

/// Header of a data frame: its type and the length of its payload.
#[derive(Debug, Clone, Copy, PartialEq, Eq, Structural)]
pub struct DataFrameHeader {
    pub frame_type: FrameType,
    pub payload_len: u32,
}

impl DataFrameHeader {
    /// The bytes of the header: type, then payload length, both little-endian.
    pub open spec fn bytes(self) -> Seq<u8> {
        u32_le(self.frame_type.code()) + u32_le(self.payload_len)
    }

    pub fn new(frame_type: FrameType, payload_len: u32) -> (header: Self)
        ensures
            header == (DataFrameHeader { frame_type, payload_len }),
    {
        DataFrameHeader { frame_type, payload_len }
    }

    /// The bytes of the header.
    pub fn as_bytes(&self) -> (bytes: [u8; 8])
        ensures
            bytes@ == self.bytes(),
    {
        let mut out: [u8; 8] = [0u8; 8];
        put_u32(&mut out, 0, self.frame_type.as_u32());
        put_u32(&mut out, 4, self.payload_len);
        assert(out@ =~= self.bytes());
        out
    }
}

/// The bytes of a header say what the header says.
pub proof fn data_header_round_trip(header: DataFrameHeader)
    ensures
        header.bytes().len() == 8,
        u32_of(header.bytes().subrange(0, 4)) == header.frame_type.code(),
        u32_of(header.bytes().subrange(4, 8)) == header.payload_len,
{
    u32_round_trip(header.frame_type.code());
    u32_round_trip(header.payload_len);
    assert(header.bytes().subrange(0, 4) =~= u32_le(header.frame_type.code()));
    assert(header.bytes().subrange(4, 8) =~= u32_le(header.payload_len));
}

/// The header on the wire, byte by byte: 0, 1 or 2 for data, the end and a reset, in four
/// bytes, and the length of the payload in four more, least significant first.
pub proof fn data_header_layout(header: DataFrameHeader)
    ensures
        ({
            let s = header.bytes();
            &&& s.len() == 8
            &&& s[0] == match header.frame_type {
                FrameType::Data => 0u8,
                FrameType::Fin => 1,
                FrameType::Rst => 2,
            }
            &&& s[1] == 0 && s[2] == 0 && s[3] == 0
            &&& s[4] + 0x100 * s[5] + 0x1_0000 * s[6] + 0x100_0000 * s[7] == header.payload_len
        }),
        header.frame_type.code() == match header.frame_type {
            FrameType::Data => 0u32,
            FrameType::Fin => 1,
            FrameType::Rst => 2,
        },
{
    numbers_are_little_endian(0, header.frame_type.code(), 0);
    numbers_are_little_endian(0, header.payload_len, 0);
}

} // verus!
