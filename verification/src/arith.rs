use vstd::prelude::*;

verus! {

/// `2^64`, the number of values of a `u64`.
pub open spec fn pow64() -> int {
    0x1_0000_0000_0000_0000
}

/// `a + b` reduced modulo `2^64`: the result of a wrapping 64-bit addition.
pub open spec fn add_mod64(a: int, b: int) -> u64 {
    ((a + b) % pow64()) as u64
}

/// Wrapping 64-bit addition, with its result stated modulo `2^64`.
pub fn wrapping_add_u64(a: u64, b: u64) -> (r: u64)
    ensures
        r == add_mod64(a as int, b as int),
{
    let r = a.wrapping_add(b);
    proof {
        if a as int + b as int > u64::MAX as int {
            assert((a as int + b as int) % pow64() == a as int + b as int - pow64());
        } else {
            assert((a as int + b as int) % pow64() == a as int + b as int);
        }
    }
    r
}

/// Wrapping 64-bit subtraction, with its result stated modulo `2^64`.
pub fn wrapping_sub_u64(a: u64, b: u64) -> (r: u64)
    ensures
        r == add_mod64(a as int, -(b as int)),
{
    let r = a.wrapping_sub(b);
    proof {
        if (a as int) < (b as int) {
            assert((a as int - b as int) % pow64() == a as int - b as int + pow64());
        } else {
            assert((a as int - b as int) % pow64() == a as int - b as int);
        }
    }
    r
}

/// Wrapping addition of a signed offset to a 64-bit value.
pub fn wrapping_add_signed_u64(a: u64, b: i64) -> (r: u64)
    ensures
        r == add_mod64(a as int, b as int),
{
    let r = a.wrapping_add_signed(b);
    proof {
        if a as int + b as int > u64::MAX as int {
            assert((a as int + b as int) % pow64() == a as int + b as int - pow64());
        } else if (a as int + b as int) < 0 {
            assert((a as int + b as int) % pow64() == a as int + b as int + pow64());
        } else {
            assert((a as int + b as int) % pow64() == a as int + b as int);
        }
    }
    r
}

/// The little-endian 64-bit value of the eight bytes of `s` at `o`.
pub open spec fn le_u64_at(s: Seq<u8>, o: int) -> u64 {
    (s[o] as int + s[o + 1] as int * 0x100 + s[o + 2] as int * 0x1_0000 + s[o + 3] as int
        * 0x100_0000 + s[o + 4] as int * 0x1_0000_0000 + s[o + 5] as int * 0x100_0000_0000 + s[o
        + 6] as int * 0x1_0000_0000_0000 + s[o + 7] as int * 0x100_0000_0000_0000) as u64
}

/// Byte `i` (0 for the least significant) of `v`.
pub open spec fn byte_of(v: u64, i: u64) -> u8 {
    ((v >> (8 * i)) & 0xff) as u8
}

/// The eight little-endian bytes of `v`.
pub open spec fn le_bytes_u64(v: u64) -> Seq<u8> {
    seq![
        byte_of(v, 0),
        byte_of(v, 1),
        byte_of(v, 2),
        byte_of(v, 3),
        byte_of(v, 4),
        byte_of(v, 5),
        byte_of(v, 6),
        byte_of(v, 7),
    ]
}

/// The little-endian bytes of a value read back as that value.
pub proof fn lemma_le_u64_round_trip(v: u64)
    ensures
        le_u64_at(le_bytes_u64(v), 0) == v,
        le_bytes_u64(v).len() == 8,
{
    let s = le_bytes_u64(v);
    assert(((v >> 0u64) & 0xff) + ((v >> 8u64) & 0xff) * 0x100 + ((v >> 16u64) & 0xff) * 0x1_0000
        + ((v >> 24u64) & 0xff) * 0x100_0000 + ((v >> 32u64) & 0xff) * 0x1_0000_0000 + ((v
        >> 40u64) & 0xff) * 0x100_0000_0000 + ((v >> 48u64) & 0xff) * 0x1_0000_0000_0000 + ((v
        >> 56u64) & 0xff) * 0x100_0000_0000_0000 == v) by (bit_vector);
    lemma_bytes_fit(v);
    assert(s[0] as int == ((v >> 0u64) & 0xff) as int);
    assert(s[1] as int == ((v >> 8u64) & 0xff) as int);
    assert(s[2] as int == ((v >> 16u64) & 0xff) as int);
    assert(s[3] as int == ((v >> 24u64) & 0xff) as int);
    assert(s[4] as int == ((v >> 32u64) & 0xff) as int);
    assert(s[5] as int == ((v >> 40u64) & 0xff) as int);
    assert(s[6] as int == ((v >> 48u64) & 0xff) as int);
    assert(s[7] as int == ((v >> 56u64) & 0xff) as int);
}

proof fn lemma_low_byte(v: u64, k: u64)
    ensures
        (v >> k) & 0xff <= 0xff,
{
    assert((v >> k) & 0xff <= 0xff) by (bit_vector);
}

proof fn lemma_bytes_fit(v: u64)
    ensures
        (v >> 0u64) & 0xff <= 0xff,
        (v >> 8u64) & 0xff <= 0xff,
        (v >> 16u64) & 0xff <= 0xff,
        (v >> 24u64) & 0xff <= 0xff,
        (v >> 32u64) & 0xff <= 0xff,
        (v >> 40u64) & 0xff <= 0xff,
        (v >> 48u64) & 0xff <= 0xff,
        (v >> 56u64) & 0xff <= 0xff,
{
    lemma_low_byte(v, 0);
    lemma_low_byte(v, 8);
    lemma_low_byte(v, 16);
    lemma_low_byte(v, 24);
    lemma_low_byte(v, 32);
    lemma_low_byte(v, 40);
    lemma_low_byte(v, 48);
    lemma_low_byte(v, 56);
}

/// The eight little-endian bytes of `v`.
pub fn u64_to_le_bytes(v: u64) -> (r: [u8; 8])
    ensures
        r@ == le_bytes_u64(v),
{
    proof {
        lemma_bytes_fit(v);
    }
    let r = [
        ((v >> 0u64) & 0xff) as u8,
        ((v >> 8u64) & 0xff) as u8,
        ((v >> 16u64) & 0xff) as u8,
        ((v >> 24u64) & 0xff) as u8,
        ((v >> 32u64) & 0xff) as u8,
        ((v >> 40u64) & 0xff) as u8,
        ((v >> 48u64) & 0xff) as u8,
        ((v >> 56u64) & 0xff) as u8,
    ];
    assert(r@ =~= le_bytes_u64(v));
    r
}

/// The 64-bit value of eight little-endian bytes.
pub fn u64_from_le_bytes(b: [u8; 8]) -> (r: u64)
    ensures
        r == le_u64_at(b@, 0),
{
    let (b0, b1, b2, b3, b4, b5, b6, b7) = (b[0], b[1], b[2], b[3], b[4], b[5], b[6], b[7]);
    let r: u64 = (b0 as u64) | ((b1 as u64) << 8) | ((b2 as u64) << 16) | ((b3 as u64) << 24) | ((
    b4 as u64) << 32) | ((b5 as u64) << 40) | ((b6 as u64) << 48) | ((b7 as u64) << 56);
    proof {
        assert((b0 as u64) | ((b1 as u64) << 8) | ((b2 as u64) << 16) | ((b3 as u64) << 24) | ((
        b4 as u64) << 32) | ((b5 as u64) << 40) | ((b6 as u64) << 48) | ((b7 as u64) << 56) == b0
            as u64 + (b1 as u64) * 0x100 + (b2 as u64) * 0x1_0000 + (b3 as u64) * 0x100_0000 + (
        b4 as u64) * 0x1_0000_0000 + (b5 as u64) * 0x100_0000_0000 + (b6 as u64)
            * 0x1_0000_0000_0000 + (b7 as u64) * 0x100_0000_0000_0000) by (bit_vector);
    }
    r
}

} // verus!
