//! The Mersenne-31 prime field in which every trace value and constraint lives.
use vstd::arithmetic::div_mod::{lemma_add_mod_noop, lemma_mul_mod_noop, lemma_sub_mod_noop};
use vstd::prelude::*;

verus! {

/// The field modulus `2^31 - 1`.
pub const MODULUS: u32 = 0x7fff_ffff;

pub open spec fn modulus() -> int {
    0x7fff_ffff
}

/// The canonical representative of an integer in the field.
pub open spec fn fe(x: int) -> int {
    x % modulus()
}

/// An element of the base field, held as its canonical representative.
#[derive(Clone, Copy, Debug, PartialEq, Eq, Structural)]
pub struct BaseField {
    pub v: u32,
}

impl BaseField {
    /// The value is canonical: below the modulus.
    pub open spec fn wf(self) -> bool {
        self.v < MODULUS
    }

    pub open spec fn val(self) -> int {
        self.v as int
    }

    pub fn zero() -> (r: BaseField)
        ensures
            r.wf(),
            r.v == 0,
    {
        BaseField { v: 0 }
    }

    pub fn one() -> (r: BaseField)
        ensures
            r.wf(),
            r.v == 1,
    {
        BaseField { v: 1 }
    }

    /// Reduces an unsigned integer into the field.
    pub fn from_u32(x: u32) -> (r: BaseField)
        ensures
            r.wf(),
            r.val() == fe(x as int),
    {
        BaseField { v: x % MODULUS }
    }

    /// Reduces a signed integer into the field.
    pub fn from_i64(x: i64) -> (r: BaseField)
        ensures
            r.wf(),
            r.val() == fe(x as int),
    {
        let shifted: i128 = x as i128 + (MODULUS as i128) * 0x2_0000_0000;
        let v: i128 = shifted % (MODULUS as i128);
        proof {
            vstd::arithmetic::div_mod::lemma_mod_multiples_vanish(
                0x2_0000_0000, x as int, modulus());
        }
        BaseField { v: v as u32 }
    }

    pub fn is_zero(&self) -> (r: bool)
        ensures
            r == (self.v == 0),
    {
        self.v == 0
    }

    pub fn add(self, o: BaseField) -> (r: BaseField)
        requires
            self.wf(),
            o.wf(),
        ensures
            r.wf(),
            r.val() == fe(self.val() + o.val()),
    {
        let s: u32 = self.v + o.v;
        let v: u32 = if s >= MODULUS { s - MODULUS } else { s };
        proof {
            if s >= MODULUS {
                vstd::arithmetic::div_mod::lemma_fundamental_div_mod_converse(
                    s as int, modulus(), 1, v as int);
            } else {
                vstd::arithmetic::div_mod::lemma_small_mod(s as nat, modulus() as nat);
            }
        }
        BaseField { v }
    }

    pub fn neg(self) -> (r: BaseField)
        requires
            self.wf(),
        ensures
            r.wf(),
            r.val() == fe(-self.val()),
    {
        let v: u32 = if self.v == 0 { 0 } else { MODULUS - self.v };
        proof {
            vstd::arithmetic::div_mod::lemma_fundamental_div_mod_converse(
                -self.val(), modulus(), if self.v == 0 { 0 } else { -1 }, v as int);
        }
        BaseField { v }
    }

    pub fn sub(self, o: BaseField) -> (r: BaseField)
        requires
            self.wf(),
            o.wf(),
        ensures
            r.wf(),
            r.val() == fe(self.val() - o.val()),
    {
        let v: u32 = if self.v >= o.v { self.v - o.v } else { self.v + (MODULUS - o.v) };
        proof {
            vstd::arithmetic::div_mod::lemma_fundamental_div_mod_converse(
                self.val() - o.val(), modulus(), if self.v >= o.v { 0 } else { -1 }, v as int);
        }
        BaseField { v }
    }

    pub fn mul(self, o: BaseField) -> (r: BaseField)
        requires
            self.wf(),
            o.wf(),
        ensures
            r.wf(),
            r.val() == fe(self.val() * o.val()),
    {
        proof {
            vstd::arithmetic::mul::lemma_mul_upper_bound(
                self.v as int, 0x7fff_ffff, o.v as int, 0x7fff_ffff);
        }
        let p: u64 = (self.v as u64) * (o.v as u64);
        let v: u64 = p % (MODULUS as u64);
        BaseField { v: v as u32 }
    }
}

/// Reduction commutes with addition, subtraction and multiplication.
pub proof fn lemma_fe_ops(x: int, y: int)
    ensures
        fe(fe(x) + fe(y)) == fe(x + y),
        fe(fe(x) - fe(y)) == fe(x - y),
        fe(fe(x) * fe(y)) == fe(x * y),
        0 <= fe(x) < modulus(),
        fe(fe(x)) == fe(x),
{
    lemma_add_mod_noop(x, y, modulus());
    lemma_sub_mod_noop(x, y, modulus());
    lemma_mul_mod_noop(x, y, modulus());
    vstd::arithmetic::div_mod::lemma_mod_bound(x, modulus());
    vstd::arithmetic::div_mod::lemma_mod_twice(x, modulus());
}

/// An integer whose magnitude is below the modulus reduces to zero only when it is zero.
pub proof fn lemma_fe_zero_small(x: int)
    requires
        -modulus() < x < modulus(),
    ensures
        fe(x) == 0 <==> x == 0,
{
    if x >= 0 {
        vstd::arithmetic::div_mod::lemma_small_mod(x as nat, modulus() as nat);
    } else {
        vstd::arithmetic::div_mod::lemma_fundamental_div_mod_converse(
            x, modulus(), -1, x + modulus());
    }
}

} // verus!
