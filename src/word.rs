//! Words as four little-endian bytes, 16-bit limb pairs, and addition with carries.
use vstd::prelude::*;

verus! {

/// Width of an instruction in bytes, by which the program counter advances.
pub const WORD_SIZE: u16 = 4;

/// A 32-bit value as four little-endian bytes.
pub type Word = [u8; 4];

pub open spec fn word_value(w: Word) -> int {
    w[0] as int + w[1] as int * 0x100 + w[2] as int * 0x1_0000 + w[3] as int * 0x100_0000
}

pub open spec fn limbs_value(l: [u16; 2]) -> int {
    l[0] as int + l[1] as int * 0x1_0000
}

pub open spec fn bit(b: bool) -> int {
    if b { 1 } else { 0 }
}

/// Splits a 32-bit value into its little-endian bytes.
pub fn u32_to_word(x: u32) -> (r: Word)
    ensures
        word_value(r) == x,
        r[0] == x % 0x100,
        r[1] == (x / 0x100) % 0x100,
        r[2] == (x / 0x1_0000) % 0x100,
        r[3] == x / 0x100_0000,
{
    let r: Word = [
        (x & 0xff) as u8,
        ((x >> 8) & 0xff) as u8,
        ((x >> 16) & 0xff) as u8,
        (x >> 24) as u8,
    ];
    assert(((x & 0xff) as u8) as int + (((x >> 8) & 0xff) as u8) as int * 0x100
        + (((x >> 16) & 0xff) as u8) as int * 0x1_0000 + ((x >> 24) as u8) as int * 0x100_0000
        == x) by (bit_vector);
    assert((x & 0xff) as u8 == x % 0x100 && ((x >> 8) & 0xff) as u8 == (x / 0x100) % 0x100 && ((x
        >> 16) & 0xff) as u8 == (x / 0x1_0000) % 0x100 && (x >> 24) as u8 == x / 0x100_0000)
        by (bit_vector);
    r
}

/// Joins four little-endian bytes into a 32-bit value.
pub fn word_to_u32(w: Word) -> (r: u32)
    ensures
        r == word_value(w),
{
    w[0] as u32 + w[1] as u32 * 0x100 + w[2] as u32 * 0x1_0000 + w[3] as u32 * 0x100_0000
}

/// Splits a 32-bit value into its low and high 16-bit halves.
pub fn u32_to_16bit_parts_le(x: u32) -> (r: [u16; 2])
    ensures
        limbs_value(r) == x,
{
    let r: [u16; 2] = [(x & 0xffff) as u16, (x >> 16) as u16];
    assert(((x & 0xffff) as u16) as int + ((x >> 16) as u16) as int * 0x1_0000 == x)
        by (bit_vector);
    r
}

/// Adds a 16-bit increment to a value held as two 16-bit limbs, keeping the carry out of
/// each limb.
pub fn add_16bit_with_carry(x: [u16; 2], y: u16) -> (r: ([u16; 2], [bool; 2]))
    ensures
        r.0[0] as int + bit(r.1[0]) * 0x1_0000 == x[0] as int + y as int,
        r.0[1] as int + bit(r.1[1]) * 0x1_0000 == x[1] as int + bit(r.1[0]),
        limbs_value(r.0) + bit(r.1[1]) * 0x1_0000_0000 == limbs_value(x) + y,
{
    let s0: u32 = x[0] as u32 + y as u32;
    let c0: bool = s0 >= 0x1_0000;
    let low: u16 = if c0 { (s0 - 0x1_0000) as u16 } else { s0 as u16 };
    let s1: u32 = x[1] as u32 + if c0 { 1u32 } else { 0u32 };
    let c1: bool = s1 >= 0x1_0000;
    let high: u16 = if c1 { (s1 - 0x1_0000) as u16 } else { s1 as u16 };
    ([low, high], [c0, c1])
}

/// Adds two words byte by byte, keeping the carry out of each byte.
pub fn add_with_carries(a: Word, b: Word) -> (r: (Word, [bool; 4]))
    ensures
        r.0[0] as int + bit(r.1[0]) * 0x100 == a[0] as int + b[0] as int,
        r.0[1] as int + bit(r.1[1]) * 0x100 == a[1] as int + b[1] as int + bit(r.1[0]),
        r.0[2] as int + bit(r.1[2]) * 0x100 == a[2] as int + b[2] as int + bit(r.1[1]),
        r.0[3] as int + bit(r.1[3]) * 0x100 == a[3] as int + b[3] as int + bit(r.1[2]),
        word_value(r.0) + bit(r.1[3]) * 0x1_0000_0000 == word_value(a) + word_value(b),
{
    let mut sum: Word = [0u8; 4];
    let mut carries: [bool; 4] = [false; 4];
    let mut carry: bool = false;
    let mut i: usize = 0;
    while i < 4
        invariant
            0 <= i <= 4,
            carry == (i > 0 && carries[i - 1]),
            forall|j: int|
                0 <= j < i ==> #[trigger] sum[j] as int + bit(carries[j]) * 0x100 == a[j] as int
                    + b[j] as int + (if j == 0 {
                    0
                } else {
                    bit(carries[j - 1])
                }),
        decreases 4 - i,
    {
        let s: u16 = a[i] as u16 + b[i] as u16 + if carry { 1u16 } else { 0u16 };
        let c: bool = s >= 0x100;
        sum[i] = if c { (s - 0x100) as u8 } else { s as u8 };
        carries[i] = c;
        carry = c;
        i = i + 1;
    }
    (sum, carries)
}

/// The carry bits produced at the two 16-bit boundaries of `x + y` are bits, and the sum
/// bytes reassemble `(x + y) mod 2^32`.
pub proof fn lemma_carry_correctness(x: u32, y: u32, a: Word, b: Word, s: Word, c: [bool; 4])
    requires
        word_value(a) == x,
        word_value(b) == y,
        s[0] as int + bit(c[0]) * 0x100 == a[0] as int + b[0] as int,
        s[1] as int + bit(c[1]) * 0x100 == a[1] as int + b[1] as int + bit(c[0]),
        s[2] as int + bit(c[2]) * 0x100 == a[2] as int + b[2] as int + bit(c[1]),
        s[3] as int + bit(c[3]) * 0x100 == a[3] as int + b[3] as int + bit(c[2]),
    ensures
        word_value(s) == (x + y) % 0x1_0000_0000,
        0 <= bit(c[1]) <= 1,
        0 <= bit(c[3]) <= 1,
        s[0] as int + s[1] as int * 0x100 + bit(c[1]) * 0x1_0000 == a[0] as int + a[1] as int
            * 0x100 + b[0] as int + b[1] as int * 0x100,
        s[2] as int + s[3] as int * 0x100 + bit(c[3]) * 0x1_0000 == a[2] as int + a[3] as int
            * 0x100 + b[2] as int + b[3] as int * 0x100 + bit(c[1]),
{
    let total = word_value(s) + bit(c[3]) * 0x1_0000_0000;
    assert(total == x + y);
    vstd::arithmetic::div_mod::lemma_fundamental_div_mod_converse(
        x + y, 0x1_0000_0000, bit(c[3]), word_value(s));
}

} // verus!
