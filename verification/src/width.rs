use vstd::prelude::*;

verus! {

/// Operand width of an x86 operation.
#[derive(Clone, Copy, Debug, PartialEq, Eq, Structural)]
pub enum Width {
    U8,
    U16,
    U32,
    U64,
}

impl Width {
    /// Number of bits of the width.
    pub open spec fn spec_bits(self) -> nat {
        match self {
            Width::U8 => 8,
            Width::U16 => 16,
            Width::U32 => 32,
            Width::U64 => 64,
        }
    }

    /// The all-ones mask of the width.
    pub open spec fn spec_mask(self) -> u64 {
        match self {
            Width::U8 => 0xff,
            Width::U16 => 0xffff,
            Width::U32 => 0xffff_ffff,
            Width::U64 => 0xffff_ffff_ffff_ffff,
        }
    }

    /// Number of distinct values of the width, `2^bits`.
    pub open spec fn modulus(self) -> int {
        self.spec_mask() as int + 1
    }

    /// The most significant bit of the width.
    pub open spec fn spec_sign_bit(self) -> u64 {
        match self {
            Width::U8 => 0x80,
            Width::U16 => 0x8000,
            Width::U32 => 0x8000_0000,
            Width::U64 => 0x8000_0000_0000_0000,
        }
    }

    /// `value` cut down to the width.
    pub open spec fn spec_truncate(self, value: u64) -> u64 {
        value & self.spec_mask()
    }

    pub fn bits(self) -> (r: u8)
        ensures
            r == self.spec_bits(),
    {
        match self {
            Width::U8 => 8,
            Width::U16 => 16,
            Width::U32 => 32,
            Width::U64 => 64,
        }
    }

    pub fn bytes(self) -> (r: u8)
        ensures
            r == self.spec_bits() / 8,
    {
        self.bits() / 8
    }

    pub fn mask(self) -> (r: u64)
        ensures
            r == self.spec_mask(),
            r as int == self.modulus() - 1,
    {
        match self {
            Width::U8 => 0xff,
            Width::U16 => 0xffff,
            Width::U32 => 0xffff_ffff,
            Width::U64 => u64::MAX,
        }
    }

    pub fn sign_bit(self) -> (r: u64)
        ensures
            r == self.spec_sign_bit(),
            r as int * 2 == self.modulus(),
    {
        match self {
            Width::U8 => 0x80,
            Width::U16 => 0x8000,
            Width::U32 => 0x8000_0000,
            Width::U64 => 0x8000_0000_0000_0000,
        }
    }

    pub fn truncate(self, value: u64) -> (r: u64)
        ensures
            r == self.spec_truncate(value),
            r as int == value as int % self.modulus(),
    {
        proof {
            lemma_truncate_is_mod(self, value);
        }
        value & self.mask()
    }
}

/// Masking with a width's mask is reduction modulo `2^bits`.
pub proof fn lemma_truncate_is_mod(width: Width, value: u64)
    ensures
        width.spec_truncate(value) as int == value as int % width.modulus(),
        width.spec_truncate(value) <= width.spec_mask(),
{
    let m = width.spec_mask();
    assert(m == width.spec_mask());
    match width {
        Width::U8 => {
            assert(value & 0xff == value % 0x100) by (bit_vector);
            assert(width.modulus() == 0x100);
        },
        Width::U16 => {
            assert(value & 0xffff == value % 0x10000) by (bit_vector);
            assert(width.modulus() == 0x10000);
        },
        Width::U32 => {
            assert(value & 0xffff_ffff == value % 0x1_0000_0000) by (bit_vector);
            assert(width.modulus() == 0x1_0000_0000);
        },
        Width::U64 => {
            assert(value & 0xffff_ffff_ffff_ffff == value) by (bit_vector);
            assert(width.modulus() == 0x1_0000_0000_0000_0000);
            assert(value as int % 0x1_0000_0000_0000_0000 == value as int);
        },
    }
}

} // verus!
