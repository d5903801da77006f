use vstd::prelude::*;

verus! {

/// One of the sixteen general-purpose 8-bit registers.
///
/// `VF` (index 15) doubles as the carry/borrow/collision flag: several
/// instructions overwrite it as their final step.
#[derive(Copy, Clone, Debug, PartialEq, Eq, Structural)]
pub enum Register {
    V0,
    V1,
    V2,
    V3,
    V4,
    V5,
    V6,
    V7,
    V8,
    V9,
    VA,
    VB,
    VC,
    VD,
    VE,
    VF,
}

impl Register {
    /// The position of this register in the register file, from 0 for `V0` to 15 for `VF`.
    pub open spec fn spec_index(self) -> int {
        match self {
            Register::V0 => 0,
            Register::V1 => 1,
            Register::V2 => 2,
            Register::V3 => 3,
            Register::V4 => 4,
            Register::V5 => 5,
            Register::V6 => 6,
            Register::V7 => 7,
            Register::V8 => 8,
            Register::V9 => 9,
            Register::VA => 10,
            Register::VB => 11,
            Register::VC => 12,
            Register::VD => 13,
            Register::VE => 14,
            Register::VF => 15,
        }
    }

    /// The register whose position in the register file is `v`.
    pub open spec fn spec_from_index(v: int) -> Register {
        if v == 0 {
            Register::V0
        } else if v == 1 {
            Register::V1
        } else if v == 2 {
            Register::V2
        } else if v == 3 {
            Register::V3
        } else if v == 4 {
            Register::V4
        } else if v == 5 {
            Register::V5
        } else if v == 6 {
            Register::V6
        } else if v == 7 {
            Register::V7
        } else if v == 8 {
            Register::V8
        } else if v == 9 {
            Register::V9
        } else if v == 10 {
            Register::VA
        } else if v == 11 {
            Register::VB
        } else if v == 12 {
            Register::VC
        } else if v == 13 {
            Register::VD
        } else if v == 14 {
            Register::VE
        } else {
            Register::VF
        }
    }

    /// The position of this register in the register file, as a byte.
    pub fn index(self) -> (i: u8)
        ensures
            i as int == self.spec_index(),
            i < 16,
    {
        match self {
            Register::V0 => 0,
            Register::V1 => 1,
            Register::V2 => 2,
            Register::V3 => 3,
            Register::V4 => 4,
            Register::V5 => 5,
            Register::V6 => 6,
            Register::V7 => 7,
            Register::V8 => 8,
            Register::V9 => 9,
            Register::VA => 10,
            Register::VB => 11,
            Register::VC => 12,
            Register::VD => 13,
            Register::VE => 14,
            Register::VF => 15,
        }
    }

    /// The register at position `v` of the register file.
    pub fn from_index(v: u8) -> (r: Register)
        requires
            v < 16,
        ensures
            r == Register::spec_from_index(v as int),
            r.spec_index() == v as int,
    {
        match v {
            0 => Register::V0,
            1 => Register::V1,
            2 => Register::V2,
            3 => Register::V3,
            4 => Register::V4,
            5 => Register::V5,
            6 => Register::V6,
            7 => Register::V7,
            8 => Register::V8,
            9 => Register::V9,
            10 => Register::VA,
            11 => Register::VB,
            12 => Register::VC,
            13 => Register::VD,
            14 => Register::VE,
            _ => Register::VF,
        }
    }
}

/// Positions of the register file round-trip with the registers that sit at them.
pub proof fn lemma_register_index_round_trip(r: Register, v: int)
    ensures
        Register::spec_from_index(r.spec_index()) == r,
        0 <= v < 16 ==> Register::spec_from_index(v).spec_index() == v,
{
}

} // verus!
