//! `FLQuire<N, ES, SIZE>`: a floating-scale accumulator, a 128-bit
//! two's-complement magnitude tracked to `SIZE` significant bits together with
//! a signed scale factor that grows as sums overflow.
use vstd::prelude::*;
use vstd::wrapping::i32_specs;
use vstd::wrapping::u128_specs;
use crate::codec::{
    assemble_narrow, leading_zeros128, lz128, neg128, params_ok, round_narrow,
    sar128, shift_right_arith128, to_word, twos_neg128, word_of,
};
use crate::posit::{negate_word, scaled_value, signed_result, word_ok, Posit};

verus! {

/// Widths for which conversions keep every posit fraction and the 32-bit
/// rounding probe covers the register's significant bits and holds the
/// exponent field (`es >= 1`).
pub open spec fn flquire_ok(n: u8, es: u8, size: u8) -> bool {
    params_ok(n, es) && 1 <= es && n <= 15 && n - es <= size <= 33
}

/// `(register, scale)` of a posit word: the fraction placed with its leading
/// one at bit `size - 3`, negated for a negative posit; the scale is the
/// posit's `regime * 2^es + exponent`. Zero and NaR give `(0, 0)`.
pub open spec fn flquire_of(x: u32, n: u8, es: u8, size: u8) -> (u128, i32) {
    match scaled_value(x, n, es) {
        Some((sig, exp)) => {
            if sig == 0 {
                (0u128, 0i32)
            } else {
                let mag = (if sig < 0 { -sig } else { sig as int }) as u128;
                let q = mag << (size - 2 - (n - es - 2)) as u32;
                (if sig < 0 { neg128(q) } else { q }, (exp + (n - es - 3)) as i32)
            }
        },
        None => (0u128, 0i32),
    }
}

/// Posit word nearest to `(register, scale)`; a nonzero register never rounds
/// to zero.
pub open spec fn posit_of_flquire(q: u128, sf: i32, n: u8, es: u8, size: u8) -> u32 {
    if q == 0 {
        0
    } else {
        let s = q & (1u128 << 127u32) != 0;
        let m = if s { neg128(q) } else { q };
        let lod: int = size - (128 - lz128(m));
        let f = if lod >= 0 { m << lod as u32 } else { m >> (-lod) as u32 };
        let e = to_word(sf - lod + 2);
        let frac = ((f << (33 - size) as u32) & 0xffff_ffffu128) as u32;
        let p = assemble_narrow(e, frac, n, es);
        if p == 0 {
            if s { negate_word(1, n) } else { 1 }
        } else {
            signed_result(s, p, n)
        }
    }
}

/// One-bit renormalization: when the sign bit (`size - 1`) and the guard bit
/// (`size - 2`) differ, shift the register down and raise the scale.
pub open spec fn renormalize(q: u128, sf: i32, size: u8) -> (u128, i32) {
    let s = q & (1u128 << (size - 1) as u32) != 0;
    let g = q & (1u128 << (size - 2) as u32) != 0;
    if s != g { (sar128(q, 1), i32_specs::wrapping_add(sf, 1)) } else { (q, sf) }
}

/// Sum: the operand with the smaller scale is shifted (sign-filling) onto the
/// larger, then the register is renormalized.
pub open spec fn flquire_add(a: (u128, i32), b: (u128, i32), size: u8) -> (u128, i32) {
    if a.0 == 0 {
        b
    } else if b.0 == 0 {
        a
    } else {
        let hi = if a.1 > b.1 { a } else { b };
        let lo = if a.1 > b.1 { b } else { a };
        let gap = hi.1 - lo.1;
        let sh = if gap < 127 { gap } else { 127 };
        renormalize(u128_specs::wrapping_add(hi.0, sar128(lo.0, sh as u32)), hi.1, size)
    }
}

/// The register of the multiplicative identity: a leading one at bit
/// `size - 3` and scale zero, as converting the posit one gives.
pub open spec fn flquire_one(size: u8) -> (u128, i32) {
    (1u128 << (size - 3) as u32, 0i32)
}

/// Product: the wrapped register product shifted down by `size - 3`, then
/// renormalized; the scales add.
pub open spec fn flquire_mul(a: (u128, i32), b: (u128, i32), size: u8) -> (u128, i32) {
    if a.0 == 0 || b.0 == 0 {
        (0u128, 0i32)
    } else if a == flquire_one(size) {
        b
    } else if b == flquire_one(size) {
        a
    } else {
        renormalize(
            sar128(u128_specs::wrapping_mul(a.0, b.0), (size - 3) as u32),
            i32_specs::wrapping_add(a.1, b.1),
            size,
        )
    }
}

/// A floating-scale accumulator.
#[derive(Clone, Copy, PartialEq, Eq, Debug, Hash, Default)]
pub struct FLQuire<const N: u8, const ES: u8, const SIZE: u8> {
    pub quire: u128,
    pub sf: i32,
}

impl<const N: u8, const ES: u8, const SIZE: u8> FLQuire<N, ES, SIZE> {
    pub open spec fn view(self) -> (u128, i32) {
        (self.quire, self.sf)
    }

    pub fn new(quire: u128, sf: i32) -> (r: Self)
        ensures
            r.quire == quire,
            r.sf == sf,
    {
        FLQuire { quire, sf }
    }

    /// The accumulator of a posit. NaR has no accumulator form and, like
    /// zero, gives the zero accumulator; callers that must keep NaR test
    /// `is_nar` first.
    pub fn from_posit(item: Posit<N, ES>) -> (r: Self)
        requires
            flquire_ok(N, ES, SIZE),
            word_ok(item.0, N),
        ensures
            r.view() == flquire_of(item.0, N, ES, SIZE),
    {
        match item.to_scaled() {
            Some((sig, exp)) => {
                if sig == 0 {
                    FLQuire { quire: 0, sf: 0 }
                } else {
                    let mag: u128 = if sig < 0 { (-sig) as u128 } else { sig as u128 };
                    let q = mag << (SIZE - 2 - (N - ES - 2)) as u32;
                    let q = if sig < 0 { twos_neg128(q) } else { q };
                    proof {
                        let esw = ES as u32;
                        let u = 1u32 << esw;
                        assert(u <= 8192) by (bit_vector)
                            requires u == 1u32 << esw, 1 <= esw <= 13;
                        assert((N - 1) * (u as int) <= 14 * 8192) by (nonlinear_arith)
                            requires u <= 8192, N <= 15;
                    }
                    FLQuire { quire: q, sf: exp + (N - ES - 3) as i32 }
                }
            },
            None => FLQuire { quire: 0, sf: 0 },
        }
    }

    pub fn to_posit(self) -> (r: Posit<N, ES>)
        requires
            flquire_ok(N, ES, SIZE),
        ensures
            r.0 == posit_of_flquire(self.quire, self.sf, N, ES, SIZE),
    {
        if self.quire == 0 {
            return Posit::zero();
        }
        let s = self.quire & (1u128 << 127) != 0;
        let quire = if s { twos_neg128(self.quire) } else { self.quire };
        let lz = leading_zeros128(quire);
        let lod: i32 = SIZE as i32 - (128 - lz as i32);
        let f = if lod >= 0 { quire << (lod as u32) } else { quire >> ((-lod) as u32) };
        let e = word_of(self.sf as i64 - lod as i64 + 2);
        let frac = ((f << (33 - SIZE) as u32) & 0xffff_ffffu128) as u32;
        let p = round_narrow(e, frac, N, ES);
        if p == 0 {
            if s { Posit::minpos().neg() } else { Posit::minpos() }
        } else {
            Posit(Posit::<N, ES>::apply_sign(s, p))
        }
    }

    fn renormalized(q: u128, sf: i32) -> (r: Self)
        requires
            flquire_ok(N, ES, SIZE),
        ensures
            r.view() == renormalize(q, sf, SIZE),
    {
        let s = q & (1u128 << (SIZE - 1)) != 0;
        let g = q & (1u128 << (SIZE - 2)) != 0;
        if s != g {
            FLQuire { quire: shift_right_arith128(q, 1), sf: sf.wrapping_add(1) }
        } else {
            FLQuire { quire: q, sf }
        }
    }

    pub fn neg(self) -> (r: Self)
        ensures
            r.view() == (neg128(self.quire), self.sf),
    {
        FLQuire { quire: twos_neg128(self.quire), sf: self.sf }
    }

    pub fn add(self, other: Self) -> (r: Self)
        requires
            flquire_ok(N, ES, SIZE),
        ensures
            r.view() == flquire_add(self.view(), other.view(), SIZE),
    {
        if self.is_zero() {
            return other;
        }
        if other.is_zero() {
            return self;
        }
        let (a, b) = if self.sf > other.sf { (self, other) } else { (other, self) };
        let gap: i64 = a.sf as i64 - b.sf as i64;
        let sh: u32 = if gap < 127 { gap as u32 } else { 127 };
        let q = a.quire.wrapping_add(shift_right_arith128(b.quire, sh));
        Self::renormalized(q, a.sf)
    }

    pub fn add_assign(&mut self, other: Self)
        requires
            flquire_ok(N, ES, SIZE),
        ensures
            final(self).view() == flquire_add(old(self).view(), other.view(), SIZE),
    {
        *self = self.add(other);
    }

    pub fn sub(self, other: Self) -> (r: Self)
        requires
            flquire_ok(N, ES, SIZE),
        ensures
            r.view() == flquire_add(self.view(), (neg128(other.quire), other.sf), SIZE),
    {
        self.add(other.neg())
    }

    pub fn mul(self, other: Self) -> (r: Self)
        requires
            flquire_ok(N, ES, SIZE),
        ensures
            r.view() == flquire_mul(self.view(), other.view(), SIZE),
    {
        if self.is_zero() || other.is_zero() {
            Self::zero()
        } else if self.is_one() {
            other
        } else if other.is_one() {
            self
        } else {
            let q = shift_right_arith128(self.quire.wrapping_mul(other.quire), (SIZE - 3) as u32);
            Self::renormalized(q, self.sf.wrapping_add(other.sf))
        }
    }

    /// Division is not implemented: the result is always the zero accumulator.
    pub fn div(self, other: Self) -> (r: Self)
        ensures
            r.view() == (0u128, 0i32),
    {
        Self::zero()
    }

    pub fn zero() -> (r: Self)
        ensures
            r.view() == (0u128, 0i32),
    {
        FLQuire { quire: 0, sf: 0 }
    }

    pub fn is_zero(&self) -> (r: bool)
        ensures
            r == (self.quire == 0),
    {
        self.quire == 0
    }

    pub fn one() -> (r: Self)
        requires
            flquire_ok(N, ES, SIZE),
        ensures
            r.view() == flquire_one(SIZE),
    {
        FLQuire { quire: 1u128 << (SIZE - 3), sf: 0 }
    }

    pub fn is_one(&self) -> (r: bool)
        requires
            flquire_ok(N, ES, SIZE),
        ensures
            r == (self.view() == flquire_one(SIZE)),
    {
        self.quire == 1u128 << (SIZE - 3) && self.sf == 0
    }
}

} // verus!
