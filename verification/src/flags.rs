use vstd::prelude::*;
use crate::width::Width;

verus! {

/// Bit 1 of RFLAGS, which always reads as one.
pub const RESERVED_ALWAYS_ONE: u64 = 2;

/// The status and control bits of RFLAGS that the runtime models.
#[derive(Clone, Copy, Debug, PartialEq, Eq, Structural)]
pub enum Flag {
    Carry,
    Parity,
    AuxiliaryCarry,
    Zero,
    Sign,
    Trap,
    InterruptEnable,
    Direction,
    Overflow,
}

impl Flag {
    /// Position of the flag in RFLAGS.
    pub open spec fn spec_bit(self) -> u64 {
        match self {
            Flag::Carry => 0,
            Flag::Parity => 2,
            Flag::AuxiliaryCarry => 4,
            Flag::Zero => 6,
            Flag::Sign => 7,
            Flag::Trap => 8,
            Flag::InterruptEnable => 9,
            Flag::Direction => 10,
            Flag::Overflow => 11,
        }
    }

    /// The single RFLAGS bit of the flag.
    pub open spec fn spec_mask(self) -> u64 {
        1u64 << self.spec_bit()
    }

    fn bit(self) -> (r: u8)
        ensures
            r as u64 == self.spec_bit(),
    {
        match self {
            Flag::Carry => 0,
            Flag::Parity => 2,
            Flag::AuxiliaryCarry => 4,
            Flag::Zero => 6,
            Flag::Sign => 7,
            Flag::Trap => 8,
            Flag::InterruptEnable => 9,
            Flag::Direction => 10,
            Flag::Overflow => 11,
        }
    }

    fn mask(self) -> (r: u64)
        ensures
            r == self.spec_mask(),
    {
        let b = self.bit() as u64;
        1u64 << b
    }
}

/// Whether `flag` is set in the RFLAGS value `bits`.
pub open spec fn flag_value(bits: u64, flag: Flag) -> bool {
    bits & flag.spec_mask() != 0
}

/// `bits` with `flag` set to `enabled` and the reserved bit set.
pub open spec fn with_flag(bits: u64, flag: Flag, enabled: bool) -> u64 {
    (if enabled {
        bits | flag.spec_mask()
    } else {
        bits & !flag.spec_mask()
    }) | RESERVED_ALWAYS_ONE
}

/// Number of one bits of a byte.
pub open spec fn popcount8(x: u8) -> nat
    decreases x,
{
    if x == 0 {
        0
    } else {
        (x % 2) as nat + popcount8(x / 2)
    }
}

/// Whether the low byte of `value` has an even number of one bits.
pub open spec fn even_parity(value: u64) -> bool {
    popcount8((value % 256) as u8) % 2 == 0
}

/// Flags after a logic operation: CF and OF clear, SF, ZF and PF from the result.
pub open spec fn logic_flags(bits: u64, width: Width, result: u64) -> u64 {
    let r = width.spec_truncate(result);
    with_flag(
        with_flag(
            with_flag(
                with_flag(
                    with_flag(bits, Flag::Carry, false),
                    Flag::Overflow,
                    false,
                ),
                Flag::Sign,
                r & width.spec_sign_bit() != 0,
            ),
            Flag::Zero,
            r == 0,
        ),
        Flag::Parity,
        even_parity(r),
    )
}

/// Signed overflow of `lhs + rhs = result` at the width's sign bit: both operands
/// have one sign and the result the other.
pub open spec fn add_overflow(lhs: u64, rhs: u64, result: u64, sign: u64) -> bool {
    ((!(lhs ^ rhs) & (lhs ^ result)) & sign) != 0
}

/// Signed overflow of `lhs - rhs = result` at the width's sign bit: the operands
/// have different signs and the result's sign differs from `lhs`.
pub open spec fn sub_overflow(lhs: u64, rhs: u64, result: u64, sign: u64) -> bool {
    (((lhs ^ rhs) & (lhs ^ result)) & sign) != 0
}

/// Auxiliary carry: a carry or borrow out of bit 3.
pub open spec fn aux_carry(lhs: u64, rhs: u64, result: u64) -> bool {
    ((lhs ^ rhs ^ result) & 0x10) != 0
}

/// Flags after an addition `lhs + rhs = result` at `width`.
pub open spec fn add_flags(bits: u64, width: Width, lhs: u64, rhs: u64, result: u64) -> u64 {
    let l = width.spec_truncate(lhs);
    let r = width.spec_truncate(rhs);
    let s = width.spec_truncate(result);
    let sign = width.spec_sign_bit();
    with_flag(
        with_flag(
            with_flag(
                with_flag(
                    with_flag(
                        with_flag(bits, Flag::Carry, l as int + r as int > width.spec_mask() as int),
                        Flag::AuxiliaryCarry,
                        aux_carry(l, r, s),
                    ),
                    Flag::Overflow,
                    add_overflow(l, r, s, sign),
                ),
                Flag::Sign,
                s & sign != 0,
            ),
            Flag::Zero,
            s == 0,
        ),
        Flag::Parity,
        even_parity(s),
    )
}

/// Flags after a subtraction `lhs - rhs = result` at `width`.
pub open spec fn sub_flags(bits: u64, width: Width, lhs: u64, rhs: u64, result: u64) -> u64 {
    let l = width.spec_truncate(lhs);
    let r = width.spec_truncate(rhs);
    let s = width.spec_truncate(result);
    let sign = width.spec_sign_bit();
    with_flag(
        with_flag(
            with_flag(
                with_flag(
                    with_flag(with_flag(bits, Flag::Carry, l < r), Flag::AuxiliaryCarry, aux_carry(l, r, s)),
                    Flag::Overflow,
                    sub_overflow(l, r, s, sign),
                ),
                Flag::Sign,
                s & sign != 0,
            ),
            Flag::Zero,
            s == 0,
        ),
        Flag::Parity,
        even_parity(s),
    )
}

/// The RFLAGS register.
#[derive(Clone, Copy, Debug, PartialEq, Eq)]
pub struct RFlags {
    bits: u64,
}

impl View for RFlags {
    /// The RFLAGS value, reserved bit included.
    type V = u64;

    closed spec fn view(&self) -> u64 {
        self.bits | RESERVED_ALWAYS_ONE
    }
}

impl Default for RFlags {
    fn default() -> (r: RFlags)
        ensures
            r@ == RESERVED_ALWAYS_ONE,
    {
        RFlags::new()
    }
}

proof fn lemma_reserved_or(b: u64)
    ensures
        (b | RESERVED_ALWAYS_ONE) | RESERVED_ALWAYS_ONE == b | RESERVED_ALWAYS_ONE,
        (b | RESERVED_ALWAYS_ONE) & RESERVED_ALWAYS_ONE == RESERVED_ALWAYS_ONE,
{
    assert((b | 2u64) | 2u64 == b | 2u64 && (b | 2u64) & 2u64 == 2u64) by (bit_vector);
}

impl RFlags {
    pub fn new() -> (r: RFlags)
        ensures
            r@ == RESERVED_ALWAYS_ONE,
    {
        proof {
            assert(2u64 | 2u64 == 2u64) by (bit_vector);
        }
        RFlags { bits: RESERVED_ALWAYS_ONE }
    }

    pub fn from_bits(bits: u64) -> (r: RFlags)
        ensures
            r@ == bits | RESERVED_ALWAYS_ONE,
    {
        proof {
            lemma_reserved_or(bits);
        }
        RFlags { bits: bits | RESERVED_ALWAYS_ONE }
    }

    /// The RFLAGS value; the reserved bit 1 is always set.
    pub fn bits(self) -> (r: u64)
        ensures
            r == self@,
            r & RESERVED_ALWAYS_ONE == RESERVED_ALWAYS_ONE,
    {
        proof {
            lemma_reserved_or(self.bits);
        }
        self.bits | RESERVED_ALWAYS_ONE
    }

    pub fn get(self, flag: Flag) -> (r: bool)
        ensures
            r == flag_value(self@, flag),
    {
        (self.bits() & flag.mask()) != 0
    }

    pub fn set(&mut self, flag: Flag, enabled: bool)
        ensures
            final(self)@ == with_flag(old(self)@, flag, enabled),
    {
        let m = flag.mask();
        let ghost b = self.bits;
        if enabled {
            self.bits = self.bits | m;
        } else {
            self.bits = self.bits & !m;
        }
        self.bits = self.bits | RESERVED_ALWAYS_ONE;
        proof {
            lemma_flag_mask_facts(flag, flag);
            let r = RESERVED_ALWAYS_ONE;
            if enabled {
                assert(((b | r) | m) | r == ((b | m) | r) | r) by (bit_vector);
            } else {
                assert(m & r == 0 ==> ((b | r) & !m) | r == ((b & !m) | r) | r) by (bit_vector);
            }
            lemma_reserved_or((if enabled { b | m } else { b & !m }));
        }
    }

    pub fn update_logic_result(&mut self, width: Width, result: u64)
        ensures
            final(self)@ == logic_flags(old(self)@, width, result),
    {
        let result = width.truncate(result);
        self.set(Flag::Carry, false);
        self.set(Flag::Overflow, false);
        self.set(Flag::Sign, (result & width.sign_bit()) != 0);
        self.set(Flag::Zero, result == 0);
        self.set(Flag::Parity, even_low_byte_parity(result));
    }

    pub fn update_add(&mut self, width: Width, lhs: u64, rhs: u64, result: u64)
        ensures
            final(self)@ == add_flags(old(self)@, width, lhs, rhs, result),
    {
        let mask = width.mask();
        let sign = width.sign_bit();
        proof {
            lemma_truncate_le_mask(width, rhs);
        }
        let lhs = lhs & mask;
        let rhs = rhs & mask;
        let result = result & mask;
        self.set(Flag::Carry, lhs > mask - rhs);
        self.set(Flag::AuxiliaryCarry, ((lhs ^ rhs ^ result) & 0x10) != 0);
        self.set(Flag::Overflow, ((!(lhs ^ rhs) & (lhs ^ result)) & sign) != 0);
        self.set(Flag::Sign, (result & sign) != 0);
        self.set(Flag::Zero, result == 0);
        self.set(Flag::Parity, even_low_byte_parity(result));
    }

    pub fn update_sub(&mut self, width: Width, lhs: u64, rhs: u64, result: u64)
        ensures
            final(self)@ == sub_flags(old(self)@, width, lhs, rhs, result),
    {
        let mask = width.mask();
        let sign = width.sign_bit();
        let lhs = lhs & mask;
        let rhs = rhs & mask;
        let result = result & mask;
        self.set(Flag::Carry, lhs < rhs);
        self.set(Flag::AuxiliaryCarry, ((lhs ^ rhs ^ result) & 0x10) != 0);
        self.set(Flag::Overflow, (((lhs ^ rhs) & (lhs ^ result)) & sign) != 0);
        self.set(Flag::Sign, (result & sign) != 0);
        self.set(Flag::Zero, result == 0);
        self.set(Flag::Parity, even_low_byte_parity(result));
    }
}

proof fn lemma_truncate_le_mask(width: Width, v: u64)
    ensures
        v & width.spec_mask() <= width.spec_mask(),
{
    let m = width.spec_mask();
    assert(v & m <= m) by (bit_vector);
}

/// Facts about two flag masks: each is one bit other than the reserved bit, and
/// masks of different flags share no bit.
pub proof fn lemma_flag_mask_facts(f: Flag, g: Flag)
    ensures
        f.spec_mask() != 0,
        f.spec_mask() & RESERVED_ALWAYS_ONE == 0,
        f != g ==> f.spec_mask() & g.spec_mask() == 0,
{
    let i = f.spec_bit();
    let j = g.spec_bit();
    assert((i < 64 && i != 1 ==> (1u64 << i) != 0 && (1u64 << i) & 2u64 == 0) && (i < 64 && j < 64
        && i != j ==> (1u64 << i) & (1u64 << j) == 0)) by (bit_vector);
    if f != g {
        assert(i != j);
    }
}

/// Setting a flag makes it read back as set, and leaves every other flag as it was.
pub proof fn lemma_with_flag(bits: u64, f: Flag, enabled: bool, g: Flag)
    ensures
        flag_value(with_flag(bits, f, enabled), f) == enabled,
        f != g ==> flag_value(with_flag(bits, f, enabled), g) == flag_value(bits, g),
        with_flag(bits, f, enabled) & RESERVED_ALWAYS_ONE == RESERVED_ALWAYS_ONE,
{
    lemma_flag_mask_facts(f, g);
    lemma_flag_mask_facts(g, f);
    let m = f.spec_mask();
    let n = g.spec_mask();
    let r = RESERVED_ALWAYS_ONE;
    assert(m != 0 && m & r == 0 ==> (((bits | m) | r) & m != 0) && (((bits & !m) | r) & m == 0))
        by (bit_vector);
    assert(m & n == 0 && n & r == 0 ==> ((((bits | m) | r) & n != 0) == (bits & n != 0)))
        by (bit_vector);
    assert(n & r == 0 ==> ((((bits & !m) | r) & n != 0) == (bits & n != 0) || m & n != 0))
        by (bit_vector);
    assert(((bits | m) | r) & r == r && ((bits & !m) | r) & r == r) by (bit_vector);
}

proof fn lemma_popcount8_le(x: u8)
    ensures
        popcount8(x) <= x,
    decreases x,
{
    if x != 0 {
        lemma_popcount8_le(x / 2);
    }
}

/// `lemma_with_flag` for every flag at once.
pub proof fn lemma_with_flag_all(bits: u64, f: Flag, enabled: bool)
    ensures
        forall|g: Flag|
            #[trigger] flag_value(with_flag(bits, f, enabled), g) == if g == f {
                enabled
            } else {
                flag_value(bits, g)
            },
{
    assert forall|g: Flag| #[trigger]
        flag_value(with_flag(bits, f, enabled), g) == if g == f {
            enabled
        } else {
            flag_value(bits, g)
        } by {
        lemma_with_flag(bits, f, enabled, g);
    }
}

/// What an addition leaves in each flag: CF is the unsigned carry out of the width,
/// OF the signed overflow, SF the result's sign bit, ZF a zero result, PF the parity
/// of its low byte, AF the carry out of bit 3; TF, IF and DF keep their values.
pub proof fn lemma_add_flags(bits: u64, width: Width, lhs: u64, rhs: u64, result: u64)
    ensures
        ({
            let after = add_flags(bits, width, lhs, rhs, result);
            let l = width.spec_truncate(lhs);
            let r = width.spec_truncate(rhs);
            let s = width.spec_truncate(result);
            &&& flag_value(after, Flag::Carry) == (l as int + r as int > width.spec_mask() as int)
            &&& flag_value(after, Flag::AuxiliaryCarry) == aux_carry(l, r, s)
            &&& flag_value(after, Flag::Overflow) == add_overflow(l, r, s, width.spec_sign_bit())
            &&& flag_value(after, Flag::Sign) == (s & width.spec_sign_bit() != 0)
            &&& flag_value(after, Flag::Zero) == (s == 0)
            &&& flag_value(after, Flag::Parity) == even_parity(s)
            &&& flag_value(after, Flag::Trap) == flag_value(bits, Flag::Trap)
            &&& flag_value(after, Flag::InterruptEnable) == flag_value(bits, Flag::InterruptEnable)
            &&& flag_value(after, Flag::Direction) == flag_value(bits, Flag::Direction)
        }),
{
    let l = width.spec_truncate(lhs);
    let r = width.spec_truncate(rhs);
    let s = width.spec_truncate(result);
    let sign = width.spec_sign_bit();
    let b1 = with_flag(bits, Flag::Carry, l as int + r as int > width.spec_mask() as int);
    let b2 = with_flag(b1, Flag::AuxiliaryCarry, aux_carry(l, r, s));
    let b3 = with_flag(b2, Flag::Overflow, add_overflow(l, r, s, sign));
    let b4 = with_flag(b3, Flag::Sign, s & sign != 0);
    let b5 = with_flag(b4, Flag::Zero, s == 0);
    lemma_with_flag_all(bits, Flag::Carry, l as int + r as int > width.spec_mask() as int);
    lemma_with_flag_all(b1, Flag::AuxiliaryCarry, aux_carry(l, r, s));
    lemma_with_flag_all(b2, Flag::Overflow, add_overflow(l, r, s, sign));
    lemma_with_flag_all(b3, Flag::Sign, s & sign != 0);
    lemma_with_flag_all(b4, Flag::Zero, s == 0);
    lemma_with_flag_all(b5, Flag::Parity, even_parity(s));
}

/// What a subtraction leaves in each flag: CF is the unsigned borrow, OF the signed
/// overflow, SF, ZF and PF come from the result; TF, IF and DF keep their values.
pub proof fn lemma_sub_flags(bits: u64, width: Width, lhs: u64, rhs: u64, result: u64)
    ensures
        ({
            let after = sub_flags(bits, width, lhs, rhs, result);
            let l = width.spec_truncate(lhs);
            let r = width.spec_truncate(rhs);
            let s = width.spec_truncate(result);
            &&& flag_value(after, Flag::Carry) == (l < r)
            &&& flag_value(after, Flag::AuxiliaryCarry) == aux_carry(l, r, s)
            &&& flag_value(after, Flag::Overflow) == sub_overflow(l, r, s, width.spec_sign_bit())
            &&& flag_value(after, Flag::Sign) == (s & width.spec_sign_bit() != 0)
            &&& flag_value(after, Flag::Zero) == (s == 0)
            &&& flag_value(after, Flag::Parity) == even_parity(s)
            &&& flag_value(after, Flag::Trap) == flag_value(bits, Flag::Trap)
            &&& flag_value(after, Flag::InterruptEnable) == flag_value(bits, Flag::InterruptEnable)
            &&& flag_value(after, Flag::Direction) == flag_value(bits, Flag::Direction)
        }),
{
    let l = width.spec_truncate(lhs);
    let r = width.spec_truncate(rhs);
    let s = width.spec_truncate(result);
    let sign = width.spec_sign_bit();
    let b1 = with_flag(bits, Flag::Carry, l < r);
    let b2 = with_flag(b1, Flag::AuxiliaryCarry, aux_carry(l, r, s));
    let b3 = with_flag(b2, Flag::Overflow, sub_overflow(l, r, s, sign));
    let b4 = with_flag(b3, Flag::Sign, s & sign != 0);
    let b5 = with_flag(b4, Flag::Zero, s == 0);
    lemma_with_flag_all(bits, Flag::Carry, l < r);
    lemma_with_flag_all(b1, Flag::AuxiliaryCarry, aux_carry(l, r, s));
    lemma_with_flag_all(b2, Flag::Overflow, sub_overflow(l, r, s, sign));
    lemma_with_flag_all(b3, Flag::Sign, s & sign != 0);
    lemma_with_flag_all(b4, Flag::Zero, s == 0);
    lemma_with_flag_all(b5, Flag::Parity, even_parity(s));
}

/// What a logic operation leaves in each flag: CF and OF clear, SF, ZF and PF from
/// the result; AF, TF, IF and DF keep their values.
pub proof fn lemma_logic_flags(bits: u64, width: Width, result: u64)
    ensures
        ({
            let after = logic_flags(bits, width, result);
            let s = width.spec_truncate(result);
            &&& !flag_value(after, Flag::Carry)
            &&& !flag_value(after, Flag::Overflow)
            &&& flag_value(after, Flag::Sign) == (s & width.spec_sign_bit() != 0)
            &&& flag_value(after, Flag::Zero) == (s == 0)
            &&& flag_value(after, Flag::Parity) == even_parity(s)
            &&& flag_value(after, Flag::AuxiliaryCarry) == flag_value(bits, Flag::AuxiliaryCarry)
            &&& flag_value(after, Flag::Trap) == flag_value(bits, Flag::Trap)
            &&& flag_value(after, Flag::InterruptEnable) == flag_value(bits, Flag::InterruptEnable)
            &&& flag_value(after, Flag::Direction) == flag_value(bits, Flag::Direction)
        }),
{
    let s = width.spec_truncate(result);
    let b1 = with_flag(bits, Flag::Carry, false);
    let b2 = with_flag(b1, Flag::Overflow, false);
    let b3 = with_flag(b2, Flag::Sign, s & width.spec_sign_bit() != 0);
    let b4 = with_flag(b3, Flag::Zero, s == 0);
    lemma_with_flag_all(bits, Flag::Carry, false);
    lemma_with_flag_all(b1, Flag::Overflow, false);
    lemma_with_flag_all(b2, Flag::Sign, s & width.spec_sign_bit() != 0);
    lemma_with_flag_all(b3, Flag::Zero, s == 0);
    lemma_with_flag_all(b4, Flag::Parity, even_parity(s));
}

fn even_low_byte_parity(value: u64) -> (r: bool)
    ensures
        r == even_parity(value),
{
    proof {
        assert(value & 0xff == value % 256) by (bit_vector);
    }
    let mut x: u8 = (value & 0xff) as u8;
    proof {
        lemma_popcount8_le(x);
    }
    let mut count: u8 = 0;
    while x != 0
        invariant
            count as nat + popcount8(x) == popcount8((value % 256) as u8),
            popcount8((value % 256) as u8) <= 255,
        decreases x,
    {
        proof {
            assert(x & 1 == x % 2) by (bit_vector);
            assert(x >> 1 == x / 2) by (bit_vector);
        }
        count = count + (x & 1);
        x = x >> 1;
    }
    count % 2 == 0
}

} // verus!
