//! The posit value type `Posit<N, ES>`: an `N`-bit word with an `ES`-bit
//! exponent field, held in the low bits of a `u32`.
use vstd::prelude::*;
use vstd::std_specs::bits::{u32_leading_ones, u32_leading_zeros};
use crate::codec::{
    add32, assemble, decode, lemma_assemble_range, min32, neg32, params_ok, sub32, twos_neg32,
};
use std::cmp::Ordering;

verus! {

broadcast use vstd::std_specs::bits::group_bits_axioms;

/// The sign bit of an `n`-bit word; also the NaR pattern.
pub open spec fn sign_bit_of(n: u8) -> u32 {
    1u32 << (n - 1) as u32
}

/// All `n` bits of the word.
pub open spec fn mask_of(n: u8) -> u32 {
    0xffffffffu32 >> (32 - n) as u32
}

/// The `n - 1` bits below the sign.
pub open spec fn body_mask_of(n: u8) -> u32 {
    0xffffffffu32 >> (33 - n) as u32
}

/// The pattern of the multiplicative identity.
pub open spec fn one_of(n: u8) -> u32 {
    1u32 << (n - 2) as u32
}

/// The word fits in `n` bits.
pub open spec fn word_ok(x: u32, n: u8) -> bool {
    x <= mask_of(n)
}

/// A word that is neither zero nor NaR.
pub open spec fn is_regular(x: u32, n: u8) -> bool {
    word_ok(x, n) && x != 0 && x != sign_bit_of(n)
}

/// Two's-complement negation within `n` bits.
pub open spec fn negate_word(x: u32, n: u8) -> u32 {
    neg32(x) & mask_of(n)
}

/// Applies a negative sign to an `n - 1`-bit magnitude.
pub open spec fn with_sign(p: u32, n: u8) -> u32 {
    (neg32(p) & body_mask_of(n)) | sign_bit_of(n)
}

/// The word read as a signed `n`-bit two's-complement integer.
pub open spec fn signed_value(x: u32, n: u8) -> int {
    if x & sign_bit_of(n) != 0 {
        x - 2 * sign_bit_of(n)
    } else {
        x as int
    }
}

/// The magnitude's body, left-justified just below bit 32 (the sign is dropped).
pub open spec fn body_bits(x: u32, n: u8) -> u32 {
    (if x & sign_bit_of(n) != 0 { neg32(x) } else { x }) << (33 - n) as u32
}

/// Regime length: the run of equal bits after the sign (a run of ones counts
/// one less, mirroring the asymmetry of the format).
pub open spec fn regime_run(xin: u32) -> u32 {
    if xin & 0x8000_0000 == 0 {
        u32_leading_zeros(xin)
    } else {
        (u32_leading_ones(xin) - 1) as u32
    }
}

/// Fields of a regular word: `(body, sign, regime_sign, regime_length,
/// exponent, fraction)`. `regime_sign` holds for a run of zeros; the fraction
/// carries its implicit leading one at bit 31.
pub open spec fn fields(x: u32, n: u8, es: u8) -> (u32, bool, bool, u32, u32, u32) {
    let s = x & sign_bit_of(n) != 0;
    let xin = body_bits(x, n);
    let rc = xin & 0x8000_0000 == 0;
    let r = regime_run(xin);
    let sh = if rc { r + 1 } else { r + 2 };
    let rest = if sh < 32 { xin << sh as u32 } else { 0u32 };
    let e = if es == 0 { 0u32 } else { (rest & !(0xffffffffu32 >> es as u32)) >> (32 - es) as u32 };
    let frac = ((rest << es as u32) >> 1u32) | 0x8000_0000u32;
    (xin, s, rc, r, e, frac)
}

/// Signed regime value as a 32-bit two's-complement word.
pub open spec fn regime_value(rc: bool, r: u32) -> u32 {
    if rc { neg32(r) } else { r }
}

/// Combined scale `regime * 2^es + exponent` as a 32-bit two's-complement word.
pub open spec fn scale_word(rc: bool, r: u32, e: u32, es: u8) -> u32 {
    (regime_value(rc, r) << es as u32) | e
}

/// Applies a sign to an assembled magnitude.
pub open spec fn signed_result(s: bool, p: u32, n: u8) -> u32 {
    if s { with_sign(p, n) } else { p }
}

/// Sum of two fractions once the major operand (sign `s1`, scale `sc1`,
/// fraction `f1`) is known: align, add or subtract, normalize, round, sign.
pub open spec fn add_aligned(s1: bool, s2: bool, sc1: u32, sc2: u32, f1: u32, f2: u32, n: u8, es: u8) -> u32 {
    let diff = min32(sub32(sc1, sc2), (n - 1) as u32);
    let right_out = f2 >> diff;
    let add_m = if s1 != s2 {
        sub32(f1 >> 1u32, right_out >> 1u32)
    } else {
        add32(f1 >> 1u32, right_out >> 1u32)
    };
    let movf = (add_m & 0x8000_0000u32) >> 31u32;
    let m1 = if movf == 0 { add_m << 1u32 } else { add_m };
    let nshift = u32_leading_zeros(m1);
    let m2 = if m1 == 0 { 0u32 } else { m1 << nshift };
    let le_o = sub32(add32(sc1, movf), nshift);
    signed_result(s1, assemble(le_o, m2, n, es), n)
}

/// Sum of two regular words that are not each other's negation; the operand
/// with the larger body is the major one.
pub open spec fn add_core(x: u32, y: u32, n: u8, es: u8) -> u32 {
    let (xin1, s1, rc1, r1, e1, f1) = fields(x, n, es);
    let (xin2, s2, rc2, r2, e2, f2) = fields(y, n, es);
    let sc1 = scale_word(rc1, r1, e1, es);
    let sc2 = scale_word(rc2, r2, e2, es);
    if xin1 < xin2 {
        add_aligned(s2, s1, sc2, sc1, f2, f1, n, es)
    } else {
        add_aligned(s1, s2, sc1, sc2, f1, f2, n, es)
    }
}

/// Posit addition.
pub open spec fn posit_add(x: u32, y: u32, n: u8, es: u8) -> u32 {
    if x == sign_bit_of(n) || y == sign_bit_of(n) {
        sign_bit_of(n)
    } else if x == 0 {
        y
    } else if y == 0 {
        x
    } else if x == negate_word(y, n) {
        0
    } else {
        add_core(x, y, n, es)
    }
}

/// Posit subtraction.
pub open spec fn posit_sub(x: u32, y: u32, n: u8, es: u8) -> u32 {
    if x == sign_bit_of(n) || y == sign_bit_of(n) {
        sign_bit_of(n)
    } else if x == 0 {
        negate_word(y, n)
    } else if y == 0 {
        x
    } else if x == y {
        0
    } else {
        posit_add(x, negate_word(y, n), n, es)
    }
}

/// Width of the truncated fraction fields that enter a product.
pub open spec fn mul_width(n: u8, es: u8) -> u32 {
    (n - es - 2) as u32
}

/// Product of two regular words that are not the identity.
pub open spec fn mul_core(x: u32, y: u32, n: u8, es: u8) -> u32 {
    let (xin1, s1, rc1, r1, e1, f1) = fields(x, n, es);
    let (xin2, s2, rc2, r2, e2, f2) = fields(y, n, es);
    let s = s1 != s2;
    let d = mul_width(n, es);
    let f = (((f1 >> (32 - d) as u32) * (f2 >> (32 - d) as u32)) as u32) << (32 - 2 * d) as u32;
    let movf = (f & 0x8000_0000u32) >> 31u32;
    let fm = if movf == 0 { f << 1u32 } else { f };
    let e = add32(add32(scale_word(rc1, r1, e1, es), scale_word(rc2, r2, e2, es)), movf);
    let p = assemble(e, fm, n, es);
    if p == 0 {
        if s { negate_word(1, n) } else { 1 }
    } else {
        signed_result(s, p, n)
    }
}

/// Posit multiplication.
pub open spec fn posit_mul(x: u32, y: u32, n: u8, es: u8) -> u32 {
    if x == sign_bit_of(n) || y == sign_bit_of(n) {
        sign_bit_of(n)
    } else if x == 0 || y == 0 {
        0
    } else if x == one_of(n) {
        y
    } else if y == one_of(n) {
        x
    } else {
        mul_core(x, y, n, es)
    }
}

/// Quotient: division is not implemented, so every quotient of two non-NaR
/// words is the additive identity; NaR stays absorbing.
pub open spec fn posit_div(x: u32, y: u32, n: u8) -> u32 {
    if x == sign_bit_of(n) || y == sign_bit_of(n) {
        sign_bit_of(n)
    } else {
        0
    }
}

/// Sign of a word: NaR for NaR, zero for zero, the identity for a positive
/// word and minus the identity for a negative one.
pub open spec fn signum_word(x: u32, n: u8) -> u32 {
    if x == sign_bit_of(n) {
        sign_bit_of(n)
    } else if x == 0 {
        0
    } else if x < sign_bit_of(n) {
        one_of(n)
    } else {
        negate_word(one_of(n), n)
    }
}

/// Order of two integers.
pub open spec fn compare(a: int, b: int) -> Ordering {
    if a < b {
        Ordering::Less
    } else if a > b {
        Ordering::Greater
    } else {
        Ordering::Equal
    }
}

/// Ordering of posits: none when either is NaR, else the order of their
/// signed two's-complement readings.
pub open spec fn posit_cmp(x: u32, y: u32, n: u8) -> Option<Ordering> {
    if x == sign_bit_of(n) || y == sign_bit_of(n) {
        None
    } else {
        Some(compare(signed_value(x, n), signed_value(y, n)))
    }
}

/// The value of a word as `significand * 2^exponent`: `None` for NaR.
pub open spec fn scaled_value(x: u32, n: u8, es: u8) -> Option<(i32, i32)> {
    if x == 0 {
        Some((0i32, 0i32))
    } else if x == sign_bit_of(n) {
        None
    } else {
        let (xin, s, rc, r, e, f) = fields(x, n, es);
        let rg: int = if rc { -(r as int) } else { r as int };
        let exp = rg * ((1u32 << es as u32) as int) + e - (n - es - 3);
        let frac = f >> (32 - (n - es - 2)) as u32;
        let sig: int = if s { -(frac as int) } else { frac as int };
        Some((sig as i32, exp as i32))
    }
}

/// Nearest posit to a 32-bit IEEE-754 pattern: zero for a zero, NaR for an
/// infinity or NaN, and never zero for any other input.
pub open spec fn posit_of_f32_bits(bits: u32, n: u8, es: u8) -> u32 {
    if bits & 0x7fff_ffff == 0 {
        0
    } else if (bits >> 23u32) & 0xff == 0xff {
        sign_bit_of(n)
    } else {
        let s = bits & 0x8000_0000 != 0;
        let e = sub32((bits >> 23u32) & 0xff, 127);
        let f = 0x8000_0000u32 | (bits << 8u32);
        let p = assemble(e, f, n, es);
        if p == 0 {
            if s { negate_word(1, n) } else { 1 }
        } else {
            signed_result(s, p, n)
        }
    }
}

proof fn lemma_word_constants(n: u8)
    requires
        3 <= n <= 32,
    ensures
        sign_bit_of(n) != 0,
        one_of(n) != 0,
        one_of(n) != sign_bit_of(n),
        word_ok(one_of(n), n),
        negate_word(1, n) != 0,
        forall|p: u32| #[trigger] with_sign(p, n) != 0,
{
    let k = n as u32;
    let k1 = (n - 1) as u32;
    let k2 = (n - 2) as u32;
    let k32 = (32 - n) as u32;
    let k33 = (33 - n) as u32;
    assert(1u32 << k1 != 0 && 1u32 << k2 != 0 && 1u32 << k2 != 1u32 << k1
        && 1u32 << k2 <= 0xffffffffu32 >> k32)
        by (bit_vector)
        requires 3 <= k <= 32, k1 == k - 1u32, k2 == k - 2u32, k32 == 32u32 - k;
    assert(0xffff_ffffu32 & (0xffffffffu32 >> k32) != 0) by (bit_vector)
        requires k32 <= 29;
    assert forall|p: u32| #[trigger] with_sign(p, n) != 0 by {
        let q = neg32(p) & body_mask_of(n);
        assert(q | (1u32 << k1) != 0) by (bit_vector)
            requires 2 <= k1 <= 31;
    }
}

proof fn lemma_negate_word(x: u32, n: u8)
    requires
        3 <= n <= 32,
        word_ok(x, n),
        x != sign_bit_of(n),
    ensures
        negate_word(x, n) != sign_bit_of(n),
        negate_word(x, n) == 0 ==> x == 0,
        negate_word(negate_word(x, n), n) == x,
{
    let k = n as u32;
    let k1 = (n - 1) as u32;
    let k32 = (32 - n) as u32;
    let y = negate_word(x, n);
    let z = negate_word(y, n);
    assert(y != 1u32 << k1 && (y == 0 ==> x == 0) && z == x) by (bit_vector)
        requires
            3 <= k <= 32,
            k1 == k - 1u32,
            k32 == 32u32 - k,
            x <= 0xffffffffu32 >> k32,
            x != 1u32 << k1,
            y == (if x == 0 { 0u32 } else { (0x1_0000_0000 - x) as u32 }) & (0xffffffffu32 >> k32),
            z == (if y == 0 { 0u32 } else { (0x1_0000_0000 - y) as u32 }) & (0xffffffffu32 >> k32),
    ;
}

/// Identities of the arithmetic: for every non-NaR `x`, `x + 0 = x`,
/// `x * 1 = x`, `x * 0 = 0`, `x + (-x) = 0` and `x - x = 0`.
pub proof fn lemma_identities(x: u32, n: u8, es: u8)
    requires
        params_ok(n, es),
        word_ok(x, n),
        x != sign_bit_of(n),
    ensures
        posit_add(x, 0, n, es) == x,
        posit_mul(x, one_of(n), n, es) == x,
        posit_mul(x, 0, n, es) == 0,
        posit_add(x, negate_word(x, n), n, es) == 0,
        posit_sub(x, x, n, es) == 0,
{
    lemma_word_constants(n);
    lemma_negate_word(x, n);
    assert(negate_word(0, n) == 0) by (bit_vector);
}

/// Division is not implemented: the quotient of any two non-NaR posits is
/// the additive identity.
pub proof fn lemma_division_is_zero(x: u32, y: u32, n: u8)
    requires
        x != sign_bit_of(n),
        y != sign_bit_of(n),
    ensures
        posit_div(x, y, n) == 0,
{
}

/// Saturation of products: a product of two nonzero, non-NaR posits is
/// never zero and never NaR, and its sign is the exclusive or of the operands'
/// signs; an underflowing product becomes the smallest magnitude of that sign.
pub proof fn lemma_product_saturates(x: u32, y: u32, n: u8, es: u8)
    requires
        params_ok(n, es),
        x != 0,
        y != 0,
        x != sign_bit_of(n),
        y != sign_bit_of(n),
    ensures
        posit_mul(x, y, n, es) != 0,
        posit_mul(x, y, n, es) != sign_bit_of(n),
        (posit_mul(x, y, n, es) & sign_bit_of(n) != 0) == ((x & sign_bit_of(n) != 0) != (y & sign_bit_of(n) != 0)),
{
    lemma_word_constants(n);
    let k1 = (n - 1) as u32;
    let k33 = (33 - n) as u32;
    let k32 = (32 - n) as u32;
    let sb = sign_bit_of(n);
    let one = one_of(n);
    let k2 = (n - 2) as u32;
    assert(one & sb == 0) by (bit_vector)
        requires sb == 1u32 << k1, one == 1u32 << k2, k2 + 1u32 == k1, 1 <= k2 <= 30;
    assert(1u32 & sb == 0 && 1u32 != sb) by (bit_vector)
        requires sb == 1u32 << k1, 2 <= k1 <= 31;
    let m = negate_word(1, n);
    assert(m & sb != 0 && m != sb) by (bit_vector)
        requires
            sb == 1u32 << k1, k1 + 1u32 + k32 == 32u32, 2 <= k1 <= 31,
            m == (0xffff_ffffu32 & (0xffffffffu32 >> k32));
    if x != one_of(n) && y != one_of(n) {
        let (xin1, s1, rc1, r1, e1, f1) = fields(x, n, es);
        let (xin2, s2, rc2, r2, e2, f2) = fields(y, n, es);
        let d = mul_width(n, es);
        let f = (((f1 >> (32 - d) as u32) * (f2 >> (32 - d) as u32)) as u32) << (32 - 2 * d) as u32;
        let movf = (f & 0x8000_0000u32) >> 31u32;
        let fm = if movf == 0 { f << 1u32 } else { f };
        let e = add32(add32(scale_word(rc1, r1, e1, es), scale_word(rc2, r2, e2, es)), movf);
        let p = assemble(e, fm, n, es);
        lemma_assemble_range(e, fm, n, es);
        if p != 0 {
            let w = with_sign(p, n);
            assert(p & sb == 0 && p != sb && w & sb != 0 && w != sb) by (bit_vector)
                requires
                    sb == 1u32 << k1, 2 <= k1 <= 31, k1 + k33 == 32u32, p != 0, p < sb,
                    w == ((if p == 0 { 0u32 } else { (0x1_0000_0000 - p) as u32 }) & (0xffffffffu32 >> k33)) | sb;
        }
    }
}

proof fn lemma_body_bits(x: u32, n: u8)
    requires
        3 <= n <= 32,
        is_regular(x, n),
    ensures
        body_bits(x, n) != 0,
        (body_bits(x, n) >> (33 - n) as u32) << (33 - n) as u32 == body_bits(x, n),
{
    let k = n as u32;
    let k1 = (n - 1) as u32;
    let k32 = (32 - n) as u32;
    let k33 = (33 - n) as u32;
    let xin = body_bits(x, n);
    assert(xin != 0 && (xin >> k33) << k33 == xin) by (bit_vector)
        requires
            3 <= k <= 32,
            k1 == k - 1u32,
            k32 == 32u32 - k,
            k33 == 33u32 - k,
            x <= 0xffffffffu32 >> k32,
            x != 0,
            x != 1u32 << k1,
            xin == (if x & (1u32 << k1) != 0 {
                if x == 0 { 0u32 } else { (0x1_0000_0000 - x) as u32 }
            } else {
                x
            }) << k33,
    ;
}

proof fn lemma_regime_bound(xin: u32, n: u8)
    requires
        3 <= n <= 32,
        xin != 0,
        (xin >> (33 - n) as u32) << (33 - n) as u32 == xin,
    ensures
        regime_run(xin) <= n - 2,
        xin & 0x8000_0000 != 0 ==> 1 <= u32_leading_ones(xin) <= n - 1,
{
    let k = (33 - n) as u32;
    if xin & 0x8000_0000 == 0 {
        let lz = u32_leading_zeros(xin);
        if lz > n - 2 {
            let j = (31 - lz) as u32;
            assert((xin >> j) & 1u32 == 0u32) by (bit_vector)
                requires (xin >> k) << k == xin, j < k, k <= 30;
        }
    } else {
        let lo = u32_leading_ones(xin);
        assert((xin >> 31u32) & 1u32 != 0u32) by (bit_vector)
            requires xin & 0x8000_0000 != 0;
        assert(xin != 0xffff_ffffu32) by (bit_vector)
            requires (xin >> k) << k == xin, 1 <= k <= 30;
        if lo == 0 {
            assert((xin >> 31u32) & 1u32 == 0u32);
        }
        if lo >= n {
            let j = (32 - n) as u32;
            assert((xin >> j) & 1u32 == 1u32);
            assert((xin >> j) & 1u32 == 0u32) by (bit_vector)
                requires (xin >> k) << k == xin, j < k, k <= 30;
        }
    }
}

/// A posit word; the value occupies the low `N` bits.
#[derive(Clone, Copy, PartialEq, Eq, Debug, Hash, Default)]
pub struct Posit<const N: u8, const ES: u8>(pub u32);

impl<const N: u8, const ES: u8> Posit<N, ES> {
    /// Wraps a raw bit pattern.
    pub fn new(i: u32) -> (r: Self)
        ensures
            r.0 == i,
    {
        Posit(i)
    }

    pub fn sign_bit() -> (r: u32)
        requires
            params_ok(N, ES),
        ensures
            r == sign_bit_of(N),
    {
        1u32 << (N - 1)
    }

    pub fn mask() -> (r: u32)
        requires
            params_ok(N, ES),
        ensures
            r == mask_of(N),
    {
        0xffffffffu32 >> (32 - N)
    }

    pub fn body_mask() -> (r: u32)
        requires
            params_ok(N, ES),
        ensures
            r == body_mask_of(N),
    {
        0xffffffffu32 >> (32 - (N - 1))
    }

    /// The unified non-real value.
    pub fn nar() -> (r: Self)
        requires
            params_ok(N, ES),
        ensures
            r.0 == sign_bit_of(N),
    {
        Posit(Self::sign_bit())
    }

    /// The smallest positive value.
    pub fn minpos() -> (r: Self)
        ensures
            r.0 == 1,
    {
        Posit(1)
    }

    /// The largest positive value.
    pub fn maxpos() -> (r: Self)
        requires
            params_ok(N, ES),
        ensures
            r.0 == body_mask_of(N),
    {
        Posit(Self::body_mask())
    }

    pub fn zero() -> (r: Self)
        ensures
            r.0 == 0,
    {
        Posit(0)
    }

    pub fn is_zero(&self) -> (r: bool)
        ensures
            r == (self.0 == 0),
    {
        self.0 == 0
    }

    pub fn one() -> (r: Self)
        requires
            params_ok(N, ES),
        ensures
            r.0 == one_of(N),
    {
        Posit(1u32 << (N - 2))
    }

    pub fn is_one(&self) -> (r: bool)
        requires
            params_ok(N, ES),
        ensures
            r == (self.0 == one_of(N)),
    {
        self.0 == 1u32 << (N - 2)
    }

    pub fn is_nar(self) -> (r: bool)
        requires
            params_ok(N, ES),
        ensures
            r == (self.0 == sign_bit_of(N)),
    {
        self.0 == Self::sign_bit()
    }

    pub fn is_positive(&self) -> (r: bool)
        requires
            params_ok(N, ES),
        ensures
            r == (self.0 & sign_bit_of(N) == 0),
    {
        self.0 & Self::sign_bit() == 0
    }

    pub fn is_negative(&self) -> (r: bool)
        requires
            params_ok(N, ES),
        ensures
            r == (self.0 & sign_bit_of(N) != 0),
    {
        self.0 & Self::sign_bit() != 0
    }

    /// Splits a regular word into `(body, sign, regime_sign, regime_length,
    /// exponent, fraction)`.
    pub fn encode(self) -> (r: (u32, bool, bool, u32, u32, u32))
        requires
            params_ok(N, ES),
            is_regular(self.0, N),
        ensures
            r == fields(self.0, N, ES),
            r.3 <= N - 2,
            r.4 < 1u32 << ES as u32,
    {
        let s = self.0 & Self::sign_bit() != 0;
        let xin = (if s { twos_neg32(self.0) } else { self.0 }) << (32 - N + 1);
        proof {
            lemma_body_bits(self.0, N);
            lemma_regime_bound(xin, N);
        }
        let rc = (xin & 0x8000_0000u32) == 0;
        let r = if rc { xin.leading_zeros() } else { xin.leading_ones() - 1 };
        let sh = if rc { r + 1 } else { r + 2 };
        let xin_tmp = if sh < 32 { xin << sh } else { 0 };
        let e = if ES == 0 { 0 } else { (xin_tmp & !(0xffffffffu32 >> ES)) >> (32 - ES) };
        let frac = ((xin_tmp << ES) >> 1) | 0x8000_0000u32;
        proof {
            let esw = ES as u32;
            let k = (32 - ES) as u32;
            let m = xin_tmp & !(0xffffffffu32 >> esw);
            if ES == 0 {
                assert(1u32 << esw == 1) by (bit_vector)
                    requires esw == 0;
            } else {
                assert(m >> k < (1u32 << esw)) by (bit_vector)
                    requires 16 <= k < 32, k == 32u32 - esw;
            }
        }
        (xin, s, rc, r, e, frac)
    }

    pub(crate) fn apply_sign(s: bool, p: u32) -> (r: u32)
        requires
            params_ok(N, ES),
        ensures
            r == signed_result(s, p, N),
    {
        if s { (twos_neg32(p) & Self::body_mask()) | Self::sign_bit() } else { p }
    }

    /// Two's-complement negation within `N` bits (NaR and zero map to themselves).
    pub fn neg(self) -> (r: Self)
        requires
            params_ok(N, ES),
        ensures
            r.0 == negate_word(self.0, N),
    {
        Posit(twos_neg32(self.0) & Self::mask())
    }

    pub fn add(self, other: Self) -> (r: Self)
        requires
            params_ok(N, ES),
            word_ok(self.0, N),
            word_ok(other.0, N),
        ensures
            r.0 == posit_add(self.0, other.0, N, ES),
    {
        if self.is_nar() || other.is_nar() {
            Self::nar()
        } else if self.is_zero() {
            other
        } else if other.is_zero() {
            self
        } else if self.0 == other.neg().0 {
            Self::zero()
        } else {
            let (xin1, s1, rc1, r1, e1, f1) = self.encode();
            let (xin2, s2, rc2, r2, e2, f2) = other.encode();
            let sc1 = Self::scale(rc1, r1, e1);
            let sc2 = Self::scale(rc2, r2, e2);
            if xin1 < xin2 {
                Posit(Self::add_fractions(s2, s1, sc2, sc1, f2, f1))
            } else {
                Posit(Self::add_fractions(s1, s2, sc1, sc2, f1, f2))
            }
        }
    }

    fn scale(rc: bool, r: u32, e: u32) -> (sc: u32)
        requires
            params_ok(N, ES),
        ensures
            sc == scale_word(rc, r, e, ES),
    {
        let rv = if rc { twos_neg32(r) } else { r };
        (rv << ES) | e
    }

    fn add_fractions(s1: bool, s2: bool, sc1: u32, sc2: u32, frac1: u32, frac2: u32) -> (r: u32)
        requires
            params_ok(N, ES),
        ensures
            r == add_aligned(s1, s2, sc1, sc2, frac1, frac2, N, ES),
    {
        let gap = sc1.wrapping_sub(sc2);
        let diff = if gap < (N - 1) as u32 { gap } else { (N - 1) as u32 };
        let right_out = frac2 >> diff;
        let add_m = if s1 != s2 {
            (frac1 >> 1).wrapping_sub(right_out >> 1)
        } else {
            (frac1 >> 1).wrapping_add(right_out >> 1)
        };
        let movf = (add_m & 0x8000_0000u32) >> 31;
        let add_m = if movf == 0 { add_m << 1 } else { add_m };
        let nshift = add_m.leading_zeros();
        let add_m = if add_m == 0 { 0 } else { add_m << nshift };
        let le_o = sc1.wrapping_add(movf).wrapping_sub(nshift);
        let p = decode(le_o, add_m, N, ES);
        Self::apply_sign(s1, p)
    }

    pub fn add_assign(&mut self, other: Self)
        requires
            params_ok(N, ES),
            word_ok(old(self).0, N),
            word_ok(other.0, N),
        ensures
            final(self).0 == posit_add(old(self).0, other.0, N, ES),
    {
        *self = self.add(other);
    }

    pub fn sub(self, other: Self) -> (r: Self)
        requires
            params_ok(N, ES),
            word_ok(self.0, N),
            word_ok(other.0, N),
        ensures
            r.0 == posit_sub(self.0, other.0, N, ES),
    {
        if self.is_nar() || other.is_nar() {
            Self::nar()
        } else if self.is_zero() {
            other.neg()
        } else if other.is_zero() {
            self
        } else if self.0 == other.0 {
            Self::zero()
        } else {
            let m = other.neg();
            proof {
                lemma_negate_word_ok(other.0, N);
            }
            self.add(m)
        }
    }

    /// Product; the truncated fractions (`N - ES - 2` bits each) must
    /// multiply within 32 bits.
    pub fn mul(self, other: Self) -> (r: Self)
        requires
            params_ok(N, ES),
            mul_width(N, ES) <= 16,
            word_ok(self.0, N),
            word_ok(other.0, N),
        ensures
            r.0 == posit_mul(self.0, other.0, N, ES),
    {
        if self.is_nar() || other.is_nar() {
            Self::nar()
        } else if self.is_zero() || other.is_zero() {
            Self::zero()
        } else if self.is_one() {
            other
        } else if other.is_one() {
            self
        } else {
            let (_, s1, rc1, r1, e1, frac1) = self.encode();
            let (_, s2, rc2, r2, e2, frac2) = other.encode();
            let s = s1 != s2;
            let d: u32 = (N - ES - 2) as u32;
            let a1 = frac1 >> (32 - d);
            let a2 = frac2 >> (32 - d);
            proof {
                let k = (32 - d) as u32;
                assert(frac1 >> k < 0x1_0000 && frac2 >> k < 0x1_0000) by (bit_vector)
                    requires 16 <= k < 32;
                assert(a1 * a2 < 0x1_0000_0000) by (nonlinear_arith)
                    requires a1 < 0x1_0000, a2 < 0x1_0000;
            }
            let f: u32 = (a1 * a2) << (32 - 2 * d);
            let movf = (f & 0x8000_0000u32) >> 31;
            let f = if movf == 0 { f << 1 } else { f };
            let rg1 = if rc1 { twos_neg32(r1) } else { r1 };
            let rg2 = if rc2 { twos_neg32(r2) } else { r2 };
            let e = ((rg1 << ES) | e1).wrapping_add((rg2 << ES) | e2).wrapping_add(movf);
            let p = decode(e, f, N, ES);
            if p == 0 {
                if s { Self::minpos().neg() } else { Self::minpos() }
            } else {
                Posit(Self::apply_sign(s, p))
            }
        }
    }

    /// Division is not implemented: the quotient of two non-NaR posits is the
    /// additive identity; a NaR operand gives NaR.
    pub fn div(self, other: Self) -> (r: Self)
        requires
            params_ok(N, ES),
        ensures
            r.0 == posit_div(self.0, other.0, N),
    {
        if self.is_nar() || other.is_nar() {
            Self::nar()
        } else {
            Self::zero()
        }
    }

    /// Remainder is not implemented: the result is always the additive identity.
    pub fn rem(self, other: Self) -> (r: Self)
        ensures
            r.0 == 0,
    {
        Self::zero()
    }

    pub fn abs(&self) -> (r: Self)
        requires
            params_ok(N, ES),
        ensures
            r.0 == (if self.0 & sign_bit_of(N) != 0 { negate_word(self.0, N) } else { self.0 }),
    {
        if self.is_negative() { self.neg() } else { *self }
    }

    pub fn signum(&self) -> (r: Self)
        requires
            params_ok(N, ES),
        ensures
            r.0 == signum_word(self.0, N),
    {
        let n = self.0;
        if n == Self::sign_bit() {
            Self::nar()
        } else if n == 0 {
            Self::zero()
        } else if n < Self::sign_bit() {
            Self::one()
        } else {
            Self::one().neg()
        }
    }

    /// Order of two posits; `None` when either is NaR.
    pub fn partial_cmp(&self, other: &Self) -> (r: Option<Ordering>)
        requires
            params_ok(N, ES),
            word_ok(self.0, N),
            word_ok(other.0, N),
        ensures
            r == posit_cmp(self.0, other.0, N),
    {
        if self.is_nar() || other.is_nar() {
            None
        } else {
            let span = 2 * (Self::sign_bit() as i64);
            let a: i64 = if self.is_negative() { self.0 as i64 - span } else { self.0 as i64 };
            let b: i64 = if other.is_negative() { other.0 as i64 - span } else { other.0 as i64 };
            if a < b {
                Some(Ordering::Less)
            } else if a > b {
                Some(Ordering::Greater)
            } else {
                Some(Ordering::Equal)
            }
        }
    }

    /// Zero when `self` is not above `other`, else their difference.
    pub fn abs_sub(&self, other: &Self) -> (r: Self)
        requires
            params_ok(N, ES),
            word_ok(self.0, N),
            word_ok(other.0, N),
        ensures
            r.0 == (match posit_cmp(self.0, other.0, N) {
                Some(Ordering::Greater) | None => posit_sub(self.0, other.0, N, ES),
                _ => 0,
            }),
    {
        match self.partial_cmp(other) {
            Some(Ordering::Less) | Some(Ordering::Equal) => Self::zero(),
            _ => self.sub(*other),
        }
    }

    /// `self` as `significand * 2^exponent`; `None` for NaR.
    pub fn to_scaled(self) -> (r: Option<(i32, i32)>)
        requires
            params_ok(N, ES),
            word_ok(self.0, N),
        ensures
            r == scaled_value(self.0, N, ES),
            r matches Some((sig, exp)) ==> {
                &&& -0x4000_0000 < sig < 0x4000_0000
                &&& self.0 != 0 ==> sig != 0
                &&& exp + (N - ES - 3) < (N - 1) * ((1u32 << ES as u32) as int)
                &&& exp + (N - ES - 3) > -((N - 1) * ((1u32 << ES as u32) as int))
            },
    {
        proof {
            let esw = ES as u32;
            let u = 1u32 << esw;
            assert(1 <= u <= 0x1_0000) by (bit_vector)
                requires u == 1u32 << esw, esw <= 16;
            assert((N - 1) * (u as int) >= N - 1) by (nonlinear_arith)
                requires u >= 1, N >= 3;
        }
        if self.is_zero() {
            return Some((0, 0));
        }
        if self.is_nar() {
            return None;
        }
        let (_, s, rc, r, e, f) = self.encode();
        let rg: i32 = if rc { -(r as i32) } else { r as i32 };
        let unit = 1u32 << (ES as u32);
        proof {
            let esw = ES as u32;
            let k = (32 - ES) as u32;
            let kf = (32 - (N - ES - 2)) as u32;
            let x = fields(self.0, N, ES);
            let sh = if x.2 { x.3 + 1 } else { x.3 + 2 };
            let rest = if sh < 32 { x.0 << sh as u32 } else { 0u32 };
            let m = rest & !(0xffffffffu32 >> esw);
            let low = (rest << esw) >> 1u32;
            assert(1 <= unit <= 0x1_0000) by (bit_vector)
                requires unit == 1u32 << esw, esw <= 16;
            if ES != 0 {
                assert(m >> k < (1u32 << esw)) by (bit_vector)
                    requires 16 <= k < 32, k == 32u32 - esw;
            }
            assert((low | 0x8000_0000u32) & 0x8000_0000u32 != 0) by (bit_vector);
            assert(f >> kf < 0x4000_0000 && f >> kf != 0) by (bit_vector)
                requires 2 <= kf < 32, f & 0x8000_0000u32 != 0;
            let b = N - 2;
            assert(rg * (unit as int) <= b * (unit as int) && rg * (unit as int) >= -(b * (unit as int))
                && -b * (unit as int) == -(b * (unit as int)))
                by (nonlinear_arith)
                requires -b <= rg <= b, unit >= 0;
            assert(b * (unit as int) <= 30 * 0x1_0000 && b * (unit as int) + unit == (b + 1) * (unit as int))
                by (nonlinear_arith)
                requires 0 <= b <= 30, unit <= 0x1_0000;
            assert(e < unit);
        }
        let exp = rg * (unit as i32) + (e as i32) - ((N - ES - 3) as i32);
        let frac = f >> (32 - (N - ES - 2));
        let sig: i32 = if s { -(frac as i32) } else { frac as i32 };
        Some((sig, exp))
    }

    /// Rounds a 32-bit IEEE-754 pattern to the nearest posit.
    pub fn from_f32_bits(bits: u32) -> (r: Self)
        requires
            params_ok(N, ES),
        ensures
            r.0 == posit_of_f32_bits(bits, N, ES),
    {
        if bits & 0x7fff_ffff == 0 {
            return Self::zero();
        }
        if (bits >> 23) & 0xff == 0xff {
            return Self::nar();
        }
        let s = bits & 0x8000_0000u32 != 0;
        let e = ((bits >> 23) & 0xff).wrapping_sub(127);
        let f = 0x8000_0000u32 | (bits << 8);
        let p = decode(e, f, N, ES);
        if p == 0 {
            if s { Self::minpos().neg() } else { Self::minpos() }
        } else {
            Posit(Self::apply_sign(s, p))
        }
    }
}

proof fn lemma_negate_word_ok(x: u32, n: u8)
    ensures
        word_ok(negate_word(x, n), n),
{
    let y = neg32(x);
    let m = mask_of(n);
    assert(y & m <= m) by (bit_vector);
}

} // verus!
