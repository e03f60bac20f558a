//! `Quire<N, ES>`: a fixed-scale 128-bit two's-complement accumulator in which
//! sums of posit values are exact until the final conversion back.
use vstd::prelude::*;
use crate::codec::{
    assemble_narrow, lz128, neg128, params_ok, round_narrow, sar128, sub32,
    leading_zeros128, mul_shift_signed, shift_right_arith128, signed128, twos_neg128, wide_shift,
};
use crate::posit::{negate_word, scaled_value, signed_result, word_ok, Posit};

verus! {

/// The fixed scale offset `2^(es + 1) * (n - 2)`.
pub open spec fn quire_bias(n: u8, es: u8) -> int {
    ((1u32 << (es + 1) as u32) as int) * (n - 2)
}

/// Widths for which every single posit fits the 128-bit register and the
/// 32-bit rounding probe holds sign, regime and exponent (`es >= 1`).
pub open spec fn quire_ok(n: u8, es: u8) -> bool {
    &&& params_ok(n, es)
    &&& 1 <= es
    &&& es + 4 <= n <= 15
    &&& quire_bias(n, es) + (n - 1) * ((1u32 << es as u32) as int) <= 128
}

/// Register of a posit word: the fraction placed at `bias + scale`, negated for
/// a negative posit, then shifted down by `n - es - 4`. Zero and NaR give zero.
pub open spec fn quire_of(x: u32, n: u8, es: u8) -> u128 {
    match scaled_value(x, n, es) {
        Some((sig, exp)) => {
            if sig == 0 {
                0
            } else {
                let at = quire_bias(n, es) + exp + (n - es - 3);
                let shift = if at > 0 { at } else { 0 };
                let mag = (if sig < 0 { -sig } else { sig as int }) as u128;
                let q = mag << shift as u32;
                sar128(if sig < 0 { neg128(q) } else { q }, (n - es - 4) as u32)
            }
        },
        None => 0,
    }
}

/// Posit word nearest to a register: its leading one gives the scale
/// `126 - leading_zeros - bias`; a nonzero register never rounds to zero.
pub open spec fn posit_of_quire(q: u128, n: u8, es: u8) -> u32 {
    if q == 0 {
        0
    } else {
        let s = q & (1u128 << 127u32) != 0;
        let m = if s { neg128(q) } else { q };
        let lz = lz128(m);
        let f = m << lz;
        let e = sub32(sub32(126, lz), quire_bias(n, es) as u32);
        let p = assemble_narrow(e, ((f << 1u32) >> 96u32) as u32, n, es);
        if p == 0 {
            if s { negate_word(1, n) } else { 1 }
        } else {
            signed_result(s, p, n)
        }
    }
}

/// The register of the multiplicative identity.
pub open spec fn quire_one(n: u8, es: u8) -> u128 {
    1u128 << (quire_bias(n, es) + 1) as u32
}

/// Product of two registers: the full signed product of the two registers,
/// shifted down (sign-filling) by `bias + 1` and kept to 128 bits. It is an
/// approximation kept for completeness: sums of posit products are best built
/// with `from_posit` and `add`.
pub open spec fn quire_mul(a: u128, b: u128, n: u8, es: u8) -> u128 {
    if a == 0 || b == 0 {
        0
    } else if a == quire_one(n, es) {
        b
    } else if b == quire_one(n, es) {
        a
    } else {
        wide_shift(signed128(a) * signed128(b), (quire_bias(n, es) + 1) as nat)
    }
}

/// A fixed-scale accumulator register.
#[derive(Clone, Copy, PartialEq, Eq, Debug, Hash, Default)]
pub struct Quire<const N: u8, const ES: u8>(pub u128);

impl<const N: u8, const ES: u8> Quire<N, ES> {
    pub fn new(i: u128) -> (r: Self)
        ensures
            r.0 == i,
    {
        Quire(i)
    }

    pub fn bias() -> (r: i32)
        requires
            quire_ok(N, ES),
        ensures
            r == quire_bias(N, ES),
            0 <= r <= 120,
    {
        let unit = 1u32 << (ES + 1);
        proof {
            let esw = ES as u32;
            let u = 1u32 << esw;
            assert(2 <= u) by (bit_vector)
                requires u == 1u32 << esw, 1 <= esw <= 13;
            assert((N - 1) * (u as int) >= 8) by (nonlinear_arith)
                requires u >= 2, N >= 5;
            let k = (ES + 1) as u32;
            assert(unit <= 0x4000) by (bit_vector)
                requires unit == 1u32 << k, 2 <= k <= 14;
            assert(unit * (N - 2) <= 0x4000 * 14) by (nonlinear_arith)
                requires unit <= 0x4000, 0 <= N - 2 <= 14;
        }
        (unit as i32) * (N as i32 - 2)
    }

    /// The register of a posit. NaR has no register form and, like zero,
    /// gives the zero register; callers that must keep NaR test `is_nar`
    /// first.
    pub fn from_posit(item: Posit<N, ES>) -> (r: Self)
        requires
            quire_ok(N, ES),
            word_ok(item.0, N),
        ensures
            r.0 == quire_of(item.0, N, ES),
    {
        match item.to_scaled() {
            Some((sig, exp)) => {
                if sig == 0 {
                    Quire(0)
                } else {
                    let at = Self::bias() + exp + (N - ES - 3) as i32;
                    let shift: i32 = if at > 0 { at } else { 0 };
                    let mag: u128 = if sig < 0 { (-sig) as u128 } else { sig as u128 };
                    let q = mag << (shift as u32);
                    let q = if sig < 0 { twos_neg128(q) } else { q };
                    Quire(shift_right_arith128(q, (N - ES - 4) as u32))
                }
            },
            None => Quire(0),
        }
    }

    pub fn to_posit(self) -> (r: Posit<N, ES>)
        requires
            quire_ok(N, ES),
        ensures
            r.0 == posit_of_quire(self.0, N, ES),
    {
        if self.0 == 0 {
            return Posit::zero();
        }
        let s = self.0 & (1u128 << 127) != 0;
        let quire = if s { twos_neg128(self.0) } else { self.0 };
        proof {
            assert(self.0 != 0 ==> (self.0 & (1u128 << 127u32) != 0 ==> neg128(self.0) != 0));
        }
        let lz = leading_zeros128(quire);
        let f = quire << lz;
        let e = 126u32.wrapping_sub(lz).wrapping_sub(Self::bias() as u32);
        let p = round_narrow(e, ((f << 1) >> 96) as u32, N, ES);
        if p == 0 {
            if s { Posit::minpos().neg() } else { Posit::minpos() }
        } else {
            Posit(Posit::<N, ES>::apply_sign(s, p))
        }
    }

    pub fn neg(self) -> (r: Self)
        ensures
            r.0 == neg128(self.0),
    {
        Quire(twos_neg128(self.0))
    }

    /// Exact (wrapping) sum of two registers.
    pub fn add(self, other: Self) -> (r: Self)
        ensures
            r.0 == vstd::wrapping::u128_specs::wrapping_add(self.0, other.0),
    {
        if self.is_zero() {
            other
        } else if other.is_zero() {
            self
        } else {
            Quire(self.0.wrapping_add(other.0))
        }
    }

    pub fn sub(self, other: Self) -> (r: Self)
        ensures
            r.0 == vstd::wrapping::u128_specs::wrapping_add(self.0, neg128(other.0)),
    {
        self.add(other.neg())
    }

    pub fn mul(self, other: Self) -> (r: Self)
        requires
            quire_ok(N, ES),
        ensures
            r.0 == quire_mul(self.0, other.0, N, ES),
    {
        if self.is_zero() || other.is_zero() {
            Self::zero()
        } else if self.is_one() {
            other
        } else if other.is_one() {
            self
        } else {
            Quire(mul_shift_signed(self.0, other.0, (Self::bias() + 1) as u32))
        }
    }

    /// Division is not implemented: the result is always the zero register.
    pub fn div(self, other: Self) -> (r: Self)
        ensures
            r.0 == 0,
    {
        Quire(0)
    }

    pub fn zero() -> (r: Self)
        ensures
            r.0 == 0,
    {
        Quire(0)
    }

    pub fn is_zero(&self) -> (r: bool)
        ensures
            r == (self.0 == 0),
    {
        self.0 == 0
    }

    pub fn one() -> (r: Self)
        requires
            quire_ok(N, ES),
        ensures
            r.0 == quire_one(N, ES),
    {
        Quire(1u128 << ((Self::bias() + 1) as u32))
    }

    pub fn is_one(&self) -> (r: bool)
        requires
            quire_ok(N, ES),
        ensures
            r == (self.0 == quire_one(N, ES)),
    {
        self.0 == 1u128 << ((Self::bias() + 1) as u32)
    }
}

} // verus!
