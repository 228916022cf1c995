//! Value types.

use vstd::prelude::*;

verus! {

/// The type of one lane of a value.
#[derive(Clone, Copy, Debug, PartialEq, Eq, Structural)]
pub enum LaneType {
    /// No value at all.
    Void,
    /// A boolean of 1 bit.
    B1,
    /// A boolean of 8 bits.
    B8,
    /// A boolean of 16 bits.
    B16,
    /// A boolean of 32 bits.
    B32,
    /// A boolean of 64 bits.
    B64,
    /// An integer of 8 bits.
    I8,
    /// An integer of 16 bits.
    I16,
    /// An integer of 32 bits.
    I32,
    /// An integer of 64 bits.
    I64,
    /// An IEEE binary32 number.
    F32,
    /// An IEEE binary64 number.
    F64,
}

impl LaneType {
    /// The size of a lane in bits.
    pub open spec fn bit_size(self) -> nat {
        match self {
            LaneType::Void => 0,
            LaneType::B1 => 1,
            LaneType::B8 | LaneType::I8 => 8,
            LaneType::B16 | LaneType::I16 => 16,
            LaneType::B32 | LaneType::I32 | LaneType::F32 => 32,
            LaneType::B64 | LaneType::I64 | LaneType::F64 => 64,
        }
    }

    /// Get the number of bits in a lane.
    pub fn bits(self) -> (bits: u32)
        ensures
            bits == self.bit_size(),
    {
        match self {
            LaneType::Void => 0,
            LaneType::B1 => 1,
            LaneType::B8 | LaneType::I8 => 8,
            LaneType::B16 | LaneType::I16 => 16,
            LaneType::B32 | LaneType::I32 | LaneType::F32 => 32,
            LaneType::B64 | LaneType::I64 | LaneType::F64 => 64,
        }
    }
}

/// The type of a value: one lane, or the lanes of a vector.
#[derive(Clone, Copy, Debug, PartialEq, Eq, Structural)]
pub struct Type {
    /// The type of each lane.
    pub lane: LaneType,
    /// The number of lanes.
    pub lanes: u16,
}

impl Type {
    /// The type with a single lane.
    pub open spec fn of_lane(lane: LaneType) -> Type {
        Type { lane, lanes: 1 }
    }

    /// Get the type with a single lane of type `lane`.
    pub fn scalar(lane: LaneType) -> (ty: Type)
        ensures
            ty == Type::of_lane(lane),
    {
        Type { lane, lanes: 1 }
    }

    /// The number of bytes that hold a value of this type, the last of which may be partly used.
    pub open spec fn byte_size(self) -> nat {
        (self.lane.bit_size() * self.lanes as nat + 7) / 8
    }

    /// Get the number of bytes used to store a value of this type.
    pub fn bytes(self) -> (bytes: u32)
        ensures
            bytes == self.byte_size(),
            bytes <= 0x8_0000,
    {
        let bits: u32 = self.lane.bits();
        let lanes: u32 = self.lanes as u32;
        assert(bits * lanes <= 64 * 0xffff) by (nonlinear_arith)
            requires
                bits <= 64,
                lanes <= 0xffff,
        ;
        (bits * lanes + 7) / 8
    }
}

/// The size of a lane is what its name says: booleans, integers and floating point numbers of the
/// same width have the same size, and twice the width is twice the size.
pub proof fn law_lane_sizes()
    ensures
        LaneType::Void.bit_size() == 0,
        LaneType::B1.bit_size() == 1,
        LaneType::B8.bit_size() == LaneType::I8.bit_size() == 8,
        LaneType::B16.bit_size() == LaneType::I16.bit_size() == 2 * LaneType::I8.bit_size(),
        LaneType::B32.bit_size() == LaneType::I32.bit_size() == 2 * LaneType::I16.bit_size(),
        LaneType::B64.bit_size() == LaneType::I64.bit_size() == 2 * LaneType::I32.bit_size(),
        LaneType::F32.bit_size() == LaneType::I32.bit_size(),
        LaneType::F64.bit_size() == LaneType::I64.bit_size(),
{
}

/// The bytes of a value hold the bits of all its lanes, and one byte less would not.
pub proof fn law_bytes_hold_the_lanes(ty: Type)
    ensures
        8 * ty.byte_size() >= ty.lane.bit_size() * ty.lanes,
        8 * ty.byte_size() < ty.lane.bit_size() * ty.lanes + 8,
{
}

/// The type with a single lane has that lane, and one.
pub proof fn law_scalar_has_one_lane(lane: LaneType)
    ensures
        Type::of_lane(lane).lane == lane,
        Type::of_lane(lane).lanes == 1,
{
}

} // verus!
