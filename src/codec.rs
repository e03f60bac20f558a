//! Bit-level helpers shared by the value type and both accumulators:
//! two's-complement helpers, a 128-bit leading-zero count, and the rounding
//! step that packs a scale and a fraction into a posit body.
use vstd::prelude::*;
use vstd::std_specs::bits::u64_leading_zeros;

verus! {

broadcast use vstd::std_specs::bits::group_bits_axioms;

/// Widths that the posit codec supports: room for sign, regime and exponent
/// in a word of at most 32 bits, and an exponent field of at most 16 bits, so
/// that the combined scale of a product fits a 32-bit word.
pub open spec fn params_ok(n: u8, es: u8) -> bool {
    es + 3 <= n <= 32 && es <= 16
}

/// The exponent bits of a two's-complement scale (none when `es` is zero).
pub open spec fn exponent_bits(e: u32, es: u8) -> u32 {
    if es == 0 { 0 } else { e & (0xffffffffu32 >> (32 - es) as u32) }
}

proof fn lemma_run_bounds(e: u32, es: u8)
    requires
        es <= 16,
    ensures
        e & 0x8000_0000u32 == 0 ==> e >> (es as u32) < 0x8000_0000,
        e & 0x8000_0000u32 != 0 ==> !e >> (es as u32) < 0x8000_0000,
{
    let esw = es as u32;
    assert((e & 0x8000_0000u32 == 0 ==> e >> esw < 0x8000_0000) && (e & 0x8000_0000u32 != 0 ==> !e >> esw < 0x8000_0000))
        by (bit_vector)
        requires esw <= 16;
}

/// Two's-complement negation of a 32-bit word.
pub open spec fn neg32(x: u32) -> u32 {
    if x == 0 { 0 } else { (0x1_0000_0000 - x) as u32 }
}

/// Two's-complement negation of a 128-bit word.
pub open spec fn neg128(x: u128) -> u128 {
    if x == 0 { 0 } else { (0x1_0000_0000_0000_0000_0000_0000_0000_0000 - x) as u128 }
}

/// 32-bit wrapping addition.
pub open spec fn add32(x: u32, y: u32) -> u32 {
    if x + y > u32::MAX { (x + y - 0x1_0000_0000) as u32 } else { (x + y) as u32 }
}

/// 32-bit wrapping subtraction.
pub open spec fn sub32(x: u32, y: u32) -> u32 {
    if x < y { (x - y + 0x1_0000_0000) as u32 } else { (x - y) as u32 }
}

pub open spec fn min32(x: u32, y: u32) -> u32 {
    if x < y { x } else { y }
}

/// Round half to even: increment when the guard bit is set and the round,
/// sticky or last kept bit is set.
pub open spec fn round_up(last: bool, guard: bool, round: bool, sticky: bool) -> bool {
    guard && (round || sticky || last)
}

/// Leading zeros of a 128-bit word.
pub open spec fn lz128(x: u128) -> u32 {
    if (x >> 64u32) as u64 != 0 {
        u64_leading_zeros((x >> 64u32) as u64) as u32
    } else {
        (64 + u64_leading_zeros(x as u64)) as u32
    }
}

pub fn twos_neg32(x: u32) -> (r: u32)
    ensures
        r == neg32(x),
{
    0u32.wrapping_sub(x)
}

pub fn twos_neg128(x: u128) -> (r: u128)
    ensures
        r == neg128(x),
{
    0u128.wrapping_sub(x)
}

pub fn leading_zeros128(x: u128) -> (r: u32)
    ensures
        r == lz128(x),
        r <= 128,
        x != 0 ==> r < 128,
{
    let hi = (x >> 64u32) as u64;
    if hi != 0 {
        hi.leading_zeros()
    } else {
        proof {
            assert(x != 0 ==> x as u64 != 0) by (bit_vector)
                requires (x >> 64u32) as u64 == 0;
        }
        64 + (x as u64).leading_zeros()
    }
}

/// The combined scale is negative (two's complement).
pub open spec fn scale_negative(e: u32) -> bool {
    e & 0x8000_0000u32 != 0
}

/// Regime length for a combined scale, clamped to `n - 1` bits.
pub open spec fn regime_len(e: u32, n: u8, es: u8) -> u32 {
    min32(
        if scale_negative(e) {
            add32(!e >> es as u32, 1)
        } else {
            ((e >> es as u32) + 1) as u32
        },
        (n - 1) as u32,
    )
}

/// The unrounded probe: sign-free regime run, its terminator, the exponent
/// field and the fraction, placed from bit 127 and shifted down past the word.
pub open spec fn probe(e: u32, f: u32, n: u8, es: u8) -> u128 {
    let neg = scale_negative(e);
    let e_o = exponent_bits(e, es);
    let rem0 = ((f << 1u32) as u128) << 96u32;
    let rem1 = if es == 0 { rem0 } else { ((e_o as u128) << (128 - es) as u32) | (rem0 >> es as u32) };
    let rem2 = (if neg { 1u128 << 127u32 } else { 0u128 }) | (rem1 >> 1u32);
    let rem3 = rem2 >> n as u32;
    let rem4 = if neg { rem3 } else { (!0u128 << (128 - n) as u32) | rem3 };
    rem4 >> regime_len(e, n, es)
}

/// Rounded `n - 1`-bit body for combined scale `e` (two's complement) and
/// fraction `f` (leading one at bit 31). No rounding once the regime fills the
/// body.
pub open spec fn assemble(e: u32, f: u32, n: u8, es: u8) -> u32 {
    let rem = probe(e, f, n, es);
    let p = ((rem << n as u32) >> (128 - n + 1) as u32) as u32;
    let l = (1u128 << 127u32) >> (2 * n - 2) as u32 & rem != 0;
    let g = (1u128 << 127u32) >> (2 * n - 1) as u32 & rem != 0;
    let r = (1u128 << 127u32) >> (2 * n) as u32 & rem != 0;
    let st = rem << (2 * n) as u32 != 0;
    if regime_len(e, n, es) < n - 1 && round_up(l, g, r, st) {
        (p + 1) as u32
    } else {
        p
    }
}

/// Shape of the wide probe: a positive scale puts a run of `ro` ones and a zero
/// at the top of the body; a negative scale leaves its top bit clear.
proof fn lemma_probe_body(rem1: u128, n: u8, ro: u32, neg: bool)
    requires
        3 <= n <= 32,
        1 <= ro <= n - 1,
    ensures
        ({
            let a = n as u32;
            let top: u128 = if neg { 1u128 << 127u32 } else { 0u128 };
            let rem3 = (top | (rem1 >> 1u32)) >> a;
            let rem4 = if neg { rem3 } else { (!0u128 << (128 - n) as u32) | rem3 };
            let p = (((rem4 >> ro) << a) >> (128 - n + 1) as u32) as u32;
            &&& p < 1u32 << (n - 1) as u32
            &&& ro < n - 1 ==> p + 1 < 1u32 << (n - 1) as u32
            &&& !neg && ro == n - 1 ==> p == (1u32 << (n - 1) as u32) - 1
        }),
{
    let a = n as u32;
    let b = (128 - n) as u32;
    let c = (128 - n + 1) as u32;
    let h = (n - 1) as u32;
    let g = (n - 2) as u32;
    let top: u128 = if neg { 1u128 << 127u32 } else { 0u128 };
    let rem3 = (top | (rem1 >> 1u32)) >> a;
    let rem4 = if neg { rem3 } else { (!0u128 << b) | rem3 };
    let p = (((rem4 >> ro) << a) >> c) as u32;
    assert(neg ==> p < 1u32 << g) by (bit_vector)
        requires
            3 <= a <= 32, 1 <= ro, ro <= a - 1u32, g == a - 2u32, c == 129u32 - a,
            rem3 == (top | (rem1 >> 1u32)) >> a, neg ==> top == 1u128 << 127u32,
            neg ==> rem4 == rem3, p == (((rem4 >> ro) << a) >> c) as u32;
    assert(!neg ==> (ro < a - 1u32 ==> p < (1u32 << h) - 1u32) && (ro == a - 1u32 ==> p == (1u32 << h) - 1u32))
        by (bit_vector)
        requires
            3 <= a <= 32, 1 <= ro, ro <= a - 1u32, h == a - 1u32, b == 128u32 - a,
            c == 129u32 - a, !neg ==> top == 0u128, rem3 == (top | (rem1 >> 1u32)) >> a,
            !neg ==> rem4 == (!0u128 << b) | rem3, p == (((rem4 >> ro) << a) >> c) as u32;
    assert((1u32 << g) + 1 < (1u32 << h) && (1u32 << h) - 1 < (1u32 << h)) by (bit_vector)
        requires 3 <= a <= 32, g == a - 2u32, h == a - 1u32;
}

/// Shape of the 32-bit probe, as for the wide one.
proof fn lemma_narrow_body(rem1: u32, n: u8, ro: u32, neg: bool)
    requires
        3 <= n <= 15,
        1 <= ro <= n - 1,
    ensures
        ({
            let a = n as u32;
            let top: u32 = if neg { 0x8000_0000u32 } else { 0u32 };
            let rem3 = (top | (rem1 >> 1u32)) >> a;
            let rem4 = if neg { rem3 } else { (0xffffffffu32 << (32 - n) as u32) | rem3 };
            let p = ((rem4 >> ro) << a) >> (32 - n + 1) as u32;
            &&& p < 1u32 << (n - 1) as u32
            &&& ro < n - 1 ==> p + 1 < 1u32 << (n - 1) as u32
            &&& !neg && ro == n - 1 ==> p == (1u32 << (n - 1) as u32) - 1
        }),
{
    let a = n as u32;
    let b = (32 - n) as u32;
    let c = (32 - n + 1) as u32;
    let h = (n - 1) as u32;
    let g = (n - 2) as u32;
    let top: u32 = if neg { 0x8000_0000u32 } else { 0u32 };
    let rem3 = (top | (rem1 >> 1u32)) >> a;
    let rem4 = if neg { rem3 } else { (0xffffffffu32 << b) | rem3 };
    let p = ((rem4 >> ro) << a) >> c;
    assert(neg ==> p < 1u32 << g) by (bit_vector)
        requires
            3 <= a <= 15, 1 <= ro, ro <= a - 1u32, g == a - 2u32, c == 33u32 - a,
            rem3 == (top | (rem1 >> 1u32)) >> a, neg ==> top == 0x8000_0000u32,
            neg ==> rem4 == rem3, p == ((rem4 >> ro) << a) >> c;
    assert(!neg ==> (ro < a - 1u32 ==> p < (1u32 << h) - 1u32) && (ro == a - 1u32 ==> p == (1u32 << h) - 1u32))
        by (bit_vector)
        requires
            3 <= a <= 15, 1 <= ro, ro <= a - 1u32, h == a - 1u32, b == 32u32 - a,
            c == 33u32 - a, !neg ==> top == 0u32, rem3 == (top | (rem1 >> 1u32)) >> a,
            !neg ==> rem4 == (0xffffffffu32 << b) | rem3, p == ((rem4 >> ro) << a) >> c;
    assert((1u32 << g) + 1 < (1u32 << h) && (1u32 << h) - 1 < (1u32 << h)) by (bit_vector)
        requires 3 <= a <= 15, g == a - 2u32, h == a - 1u32;
}

/// The rounded body never reaches the sign bit (so it is never NaR once a
/// sign is applied), and a scale at or above `(n - 2) * 2^es` saturates to the
/// all-ones body, the largest magnitude.
pub proof fn lemma_assemble_range(e: u32, f: u32, n: u8, es: u8)
    requires
        params_ok(n, es),
    ensures
        assemble(e, f, n, es) < 1u32 << (n - 1) as u32,
        !scale_negative(e) && e >> es as u32 >= n - 2 ==> assemble(e, f, n, es) == (1u32 << (n - 1) as u32) - 1,
{
    lemma_run_bounds(e, es);
    let neg = scale_negative(e);
    let e_o = exponent_bits(e, es);
    let rem0 = ((f << 1u32) as u128) << 96u32;
    let rem1 = if es == 0 { rem0 } else { ((e_o as u128) << (128 - es) as u32) | (rem0 >> es as u32) };
    lemma_probe_body(rem1, n, regime_len(e, n, es), neg);
}

/// Packs combined scale `e` and fraction `f` into a rounded posit body of
/// `n - 1` bits (the sign is applied by the caller).
pub fn decode(e: u32, f: u32, n: u8, es: u8) -> (r: u32)
    requires
        params_ok(n, es),
    ensures
        r == assemble(e, f, n, es),
        r < 1u32 << (n - 1) as u32,
        !scale_negative(e) && e >> es as u32 >= n - 2 ==> r == (1u32 << (n - 1) as u32) - 1,
{
    let e_sign = e & 0x8000_0000u32 != 0;
    let e_o = if es == 0 { 0 } else { e & (0xffffffffu32 >> (32 - es)) };
    proof {
        lemma_run_bounds(e, es);
    }
    let run = if e_sign { (!e >> es).wrapping_add(1) } else { (e >> es) + 1 };
    let r_o = if run < (n - 1) as u32 { run } else { (n - 1) as u32 };

    let rem0: u128 = ((f << 1) as u128) << (128 - 32);
    let rem1 = if es == 0 { rem0 } else { ((e_o as u128) << (128 - es)) | (rem0 >> es) };
    let rem3 = ((if e_sign { 1u128 << 127u32 } else { 0u128 }) | (rem1 >> 1u32)) >> n as u32;
    let rem4 = if e_sign { rem3 } else { (!0u128 << (128 - n) as u32) | rem3 };
    let rem = rem4 >> r_o;
    assert(rem == probe(e, f, n, es));

    let p: u32 = ((rem << n as u32) >> (128 - n + 1) as u32) as u32;
    proof {
        lemma_probe_body(rem1, n, r_o, e_sign);
        lemma_assemble_range(e, f, n, es);
    }

    let l = ((1u128 << 127) >> (2 * n - 2)) & rem != 0;
    let g = ((1u128 << 127) >> (2 * n - 1)) & rem != 0;
    let r = ((1u128 << 127) >> (2 * n)) & rem != 0;
    let st = (rem << (2 * n)) != 0;

    let ulp: u32 = if (g && (r || st)) || (l && g && !(r || st)) { 1 } else { 0 };

    if r_o < (n - 1) as u32 { p + ulp } else { p }
}

/// The 32-bit probe used by the accumulators: `frac` holds the 32 fraction
/// bits below the leading one.
pub open spec fn narrow_probe(e: u32, frac: u32, n: u8, es: u8) -> u32 {
    let e_o = e & (0xffffffffu32 >> (32 - es) as u32);
    let e_msb = e & 0x8000_0000u32;
    let rem1 = (e_o << (32 - es) as u32) | (frac >> es as u32);
    let rem2 = e_msb | (rem1 >> 1u32);
    let rem3 = rem2 >> n as u32;
    let rem4 = if e_msb == 0 { (0xffffffffu32 << (32 - n) as u32) | rem3 } else { rem3 };
    rem4 >> regime_len(e, n, es)
}

/// Rounded `n - 1`-bit body from the 32-bit probe (bits shifted out of the
/// probe do not reach the sticky bit).
pub open spec fn assemble_narrow(e: u32, frac: u32, n: u8, es: u8) -> u32 {
    let rem = narrow_probe(e, frac, n, es);
    let p = (rem << n as u32) >> (32 - n + 1) as u32;
    let l = (0x8000_0000u32 >> (2 * n - 2) as u32) & rem != 0;
    let g = (0x8000_0000u32 >> (2 * n - 1) as u32) & rem != 0;
    let r = (0x8000_0000u32 >> (2 * n) as u32) & rem != 0;
    let st = rem << (2 * n) as u32 != 0;
    if regime_len(e, n, es) < n - 1 && round_up(l, g, r, st) {
        (p + 1) as u32
    } else {
        p
    }
}

/// Packs combined scale `e` and the 32 fraction bits `frac` into a rounded
/// posit body of `n - 1` bits, within one 32-bit register.
pub fn round_narrow(e: u32, frac: u32, n: u8, es: u8) -> (r: u32)
    requires
        params_ok(n, es),
        1 <= es,
        n <= 15,
    ensures
        r == assemble_narrow(e, frac, n, es),
        r < 1u32 << (n - 1) as u32,
        !scale_negative(e) && e >> es as u32 >= n - 2 ==> r == (1u32 << (n - 1) as u32) - 1,
{
    let e_o = e & (0xffffffffu32 >> (32 - es));
    proof {
        lemma_run_bounds(e, es);
    }
    let run = if e & 0x8000_0000u32 == 0 { (e >> es) + 1 } else { (!e >> es).wrapping_add(1) };
    let r_o = if run < (n - 1) as u32 { run } else { (n - 1) as u32 };
    let e_msb = e & 0x8000_0000u32;
    let rem1 = (e_o << (32 - es)) | (frac >> es);
    let rem3 = (e_msb | (rem1 >> 1u32)) >> n as u32;
    let rem4 = if e_msb == 0 { (0xffffffffu32 << (32 - n) as u32) | rem3 } else { rem3 };
    let rem = rem4 >> r_o;
    assert(rem == narrow_probe(e, frac, n, es));
    let p: u32 = (rem << n as u32) >> (32 - n + 1) as u32;
    proof {
        lemma_narrow_body(rem1, n, r_o, e_msb != 0);
        assert(e_msb != 0 ==> e_msb == 0x8000_0000u32) by (bit_vector)
            requires e_msb == e & 0x8000_0000u32;
    }
    let l = (0x8000_0000u32 >> (2 * n - 2)) & rem != 0;
    let g = (0x8000_0000u32 >> (2 * n - 1)) & rem != 0;
    let r = (0x8000_0000u32 >> (2 * n)) & rem != 0;
    let st = (rem << (2 * n)) != 0;
    let ulp: u32 = if (g && (r || st)) || (l && g && !(r || st)) { 1 } else { 0 };
    if r_o < (n - 1) as u32 { p + ulp } else { p }
}

/// Arithmetic (sign-filling) right shift of a 128-bit two's-complement word.
pub open spec fn sar128(x: u128, k: u32) -> u128 {
    if x & (1u128 << 127u32) != 0 { !((!x) >> k) } else { x >> k }
}

pub fn shift_right_arith128(x: u128, k: u32) -> (r: u128)
    requires
        k < 128,
    ensures
        r == sar128(x, k),
{
    if x & (1u128 << 127) != 0 { !((!x) >> k) } else { x >> k }
}

/// A signed integer as a 32-bit two's-complement word.
pub open spec fn to_word(v: int) -> u32 {
    if v >= 0 { v as u32 } else { (v + 0x1_0000_0000) as u32 }
}

pub fn word_of(v: i64) -> (r: u32)
    requires
        -0x1_0000_0000 < v < 0x1_0000_0000,
    ensures
        r == to_word(v as int),
{
    if v >= 0 { v as u32 } else { (v + 0x1_0000_0000) as u32 }
}

/// `2^128`, the span of a 128-bit word.
pub open spec fn word_span() -> int {
    2 * 0x8000_0000_0000_0000_0000_0000_0000_0000int
}

/// `2^k`.
pub open spec fn two_pow(k: nat) -> int
    decreases k,
{
    if k == 0 { 1 } else { 2 * two_pow((k - 1) as nat) }
}

/// A 128-bit word read as a signed two's-complement integer.
pub open spec fn signed128(x: u128) -> int {
    if x < 0x8000_0000_0000_0000_0000_0000_0000_0000 {
        x as int
    } else {
        x - word_span()
    }
}

/// The low 128 bits of `floor(v / 2^k)`: an arithmetic right shift of the
/// (wide) integer `v`.
pub open spec fn wide_shift(v: int, k: nat) -> u128 {
    ((v / two_pow(k)) % word_span()) as u128
}

proof fn lemma_two_pow_adds(a: nat, b: nat)
    ensures
        two_pow(a + b) == two_pow(a) * two_pow(b),
    decreases a,
{
    if a > 0 {
        lemma_two_pow_adds((a - 1) as nat, b);
        assert(two_pow(a + b) == 2 * two_pow((a - 1 + b) as nat));
        assert(2 * (two_pow((a - 1) as nat) * two_pow(b)) == (2 * two_pow((a - 1) as nat)) * two_pow(b))
            by (nonlinear_arith);
    }
}

proof fn lemma_shl_one(k: u32)
    requires
        k < 128,
    ensures
        (1u128 << k) as int == two_pow(k as nat),
        two_pow(k as nat) > 0,
    decreases k,
{
    if k == 0 {
        assert(1u128 << 0u32 == 1) by (bit_vector);
    } else {
        lemma_shl_one((k - 1) as u32);
        let j = (k - 1) as u32;
        assert((1u128 << k) == 2 * (1u128 << j)) by (bit_vector)
            requires 0 < k < 128, j == k - 1u32;
    }
}

proof fn lemma_limb_product(x: int, y: int, bx: int, by: int)
    requires
        0 <= x < bx,
        0 <= y < by,
    ensures
        x * y <= (bx - 1) * (by - 1),
{
    assert(x * y <= (bx - 1) * (by - 1)) by (nonlinear_arith)
        requires 0 <= x <= bx - 1, 0 <= y <= by - 1;
}

/// `a * b` for magnitudes below or at `2^127`, as a high and a low word.
fn mul_wide(ma: u128, mb: u128) -> (r: (u128, u128))
    requires
        ma <= 0x8000_0000_0000_0000_0000_0000_0000_0000,
        mb <= 0x8000_0000_0000_0000_0000_0000_0000_0000,
    ensures
        ma * mb == r.0 * word_span() + r.1,
{
    let a1 = ma / 0x1_0000_0000_0000_0000;
    let a0 = ma % 0x1_0000_0000_0000_0000;
    let b1 = mb / 0x1_0000_0000_0000_0000;
    let b0 = mb % 0x1_0000_0000_0000_0000;
    proof {
        assert(a1 <= 0x8000_0000_0000_0000 && b1 <= 0x8000_0000_0000_0000);
        lemma_limb_product(a0 as int, b0 as int, 0x1_0000_0000_0000_0000, 0x1_0000_0000_0000_0000);
        lemma_limb_product(a0 as int, b1 as int, 0x1_0000_0000_0000_0000, 0x8000_0000_0000_0001);
        lemma_limb_product(a1 as int, b0 as int, 0x8000_0000_0000_0001, 0x1_0000_0000_0000_0000);
        lemma_limb_product(a1 as int, b1 as int, 0x8000_0000_0000_0001, 0x8000_0000_0000_0001);
    }
    let p00 = a0 * b0;
    let p01 = a0 * b1;
    let p10 = a1 * b0;
    let p11 = a1 * b1;
    let mid = p01 + p10;
    let t = p00 / 0x1_0000_0000_0000_0000 + mid % 0x1_0000_0000_0000_0000;
    let lo = p00 % 0x1_0000_0000_0000_0000 + (t % 0x1_0000_0000_0000_0000) * 0x1_0000_0000_0000_0000;
    let hi = p11 + mid / 0x1_0000_0000_0000_0000 + t / 0x1_0000_0000_0000_0000;
    proof {
        let bb: int = 0x1_0000_0000_0000_0000;
        assert(ma * mb == p11 * (bb * bb) + mid * bb + p00) by (nonlinear_arith)
            requires ma == a1 * bb + a0, mb == b1 * bb + b0, p00 == a0 * b0, p01 == a0 * b1,
                p10 == a1 * b0, p11 == a1 * b1, mid == p01 + p10;
        assert(word_span() == bb * bb);
        vstd::arithmetic::div_mod::lemma_fundamental_div_mod(p00 as int, 0x1_0000_0000_0000_0000);
        vstd::arithmetic::div_mod::lemma_fundamental_div_mod(mid as int, 0x1_0000_0000_0000_0000);
        vstd::arithmetic::div_mod::lemma_fundamental_div_mod(t as int, 0x1_0000_0000_0000_0000);
        let q0 = p00 / 0x1_0000_0000_0000_0000;
        let r0 = p00 % 0x1_0000_0000_0000_0000;
        let q1 = mid / 0x1_0000_0000_0000_0000;
        let r1 = mid % 0x1_0000_0000_0000_0000;
        let q2 = t / 0x1_0000_0000_0000_0000;
        let r2 = t % 0x1_0000_0000_0000_0000;
        assert(ma * mb == hi * (bb * bb) + lo) by (nonlinear_arith)
            requires
                ma * mb == p11 * (bb * bb) + mid * bb + p00,
                p00 == bb * q0 + r0, mid == bb * q1 + r1, t == bb * q2 + r2,
                t == q0 + r1, lo == r0 + r2 * bb, hi == p11 + q1 + q2;
    }
    (hi, lo)
}

/// The low 128 bits of `floor(signed128(a) * signed128(b) / 2^k)`, computed
/// through the full 256-bit product.
pub fn mul_shift_signed(a: u128, b: u128, k: u32) -> (r: u128)
    requires
        1 <= k <= 127,
    ensures
        r == wide_shift(signed128(a) * signed128(b), k as nat),
{
    let big: u128 = 0x8000_0000_0000_0000_0000_0000_0000_0000;
    let na = a >= big;
    let nb = b >= big;
    let ma = if na { 0u128.wrapping_sub(a) } else { a };
    let mb = if nb { 0u128.wrapping_sub(b) } else { b };
    let (hi, lo) = mul_wide(ma, mb);
    let pk: u128 = 1u128 << k;
    proof {
        lemma_shl_one(k);
        lemma_shl_one(127);
        assert(2 <= pk <= 0x8000_0000_0000_0000_0000_0000_0000_0000u128) by (bit_vector)
            requires pk == 1u128 << k, 1 <= k <= 127;
        assert((1u128 << 127u32) == 0x8000_0000_0000_0000_0000_0000_0000_0000u128) by (bit_vector);
        lemma_two_pow_adds(k as nat, (128 - k) as nat);
        assert(two_pow(128) == 2 * two_pow(127));
        assert(word_span() == two_pow(128));
    }
    proof {
        let cc = two_pow((128 - k) as nat);
        let m = word_span();
        assert(m - 1 == (cc - 1) * pk + (pk - 1) && cc >= 1 && cc <= m / 2) by (nonlinear_arith)
            requires m == pk * cc, pk >= 2, m > 0;
        vstd::arithmetic::div_mod::lemma_fundamental_div_mod_converse_div(m - 1, pk as int, cc - 1, pk - 1);
    }
    let c: u128 = u128::MAX / pk + 1;
    proof {
        let m = word_span();
        vstd::arithmetic::div_mod::lemma_fundamental_div_mod(lo as int, pk as int);
        vstd::arithmetic::div_mod::lemma_fundamental_div_mod(hi as int, pk as int);
        assert(lo / pk < c && (hi % pk) * c <= (pk - 1) * c && (pk - 1) * c + c == m) by (nonlinear_arith)
            requires lo == (lo / pk) * pk + lo % pk, lo % pk >= 0, lo < m, m == pk * c,
                0 <= hi % pk <= pk - 1, c >= 1;
    }
    let qm = (hi % pk) * c + lo / pk;
    let rem = lo % pk;
    let neg = na != nb;
    proof {
        let m = word_span();
        let pp = ma * mb;
        let q = pp / (pk as int);
        // pp == q * pk + rem with q == (hi / pk) * m + qm
        assert(pp == ((hi / pk) * m + qm) * pk + rem) by (nonlinear_arith)
            requires pp == hi * m + lo, hi == (hi / pk) * pk + hi % pk, lo == (lo / pk) * pk + lo % pk,
                m == pk * c, qm == (hi % pk) * c + lo / pk, rem == lo % pk;
        vstd::arithmetic::div_mod::lemma_fundamental_div_mod_converse(pp, pk as int, (hi / pk) * m + qm, rem as int);
        vstd::arithmetic::div_mod::lemma_fundamental_div_mod_converse(q, m, (hi / pk) as int, qm as int);
        let sa = signed128(a);
        let sb = signed128(b);
        assert(sa == if na { -(ma as int) } else { ma as int });
        assert(sb == if nb { -(mb as int) } else { mb as int });
        assert(sa * sb == if neg { -pp } else { pp }) by (nonlinear_arith)
            requires sa == (if na { -(ma as int) } else { ma as int }), sb == (if nb { -(mb as int) } else { mb as int }),
                pp == ma * mb, neg == (na != nb);
        assert(pp == q * pk + rem);
        if neg {
            let e: int = if rem != 0 { 1 } else { 0 };
            assert(-pp == (-q - 1) * pk + (pk - rem) && -pp == (-q) * pk - rem) by (nonlinear_arith)
                requires pp == q * pk + rem;
            if rem != 0 {
                vstd::arithmetic::div_mod::lemma_fundamental_div_mod_converse_div(-pp, pk as int, -q - 1, pk - rem);
            } else {
                vstd::arithmetic::div_mod::lemma_fundamental_div_mod_converse_div(-pp, pk as int, -q, 0);
            }
            let w = qm + e;
            if w == m {
                vstd::arithmetic::div_mod::lemma_fundamental_div_mod_converse_mod(-q - e, m, -(hi / pk) - 1, 0);
            } else if w == 0 {
                vstd::arithmetic::div_mod::lemma_fundamental_div_mod_converse_mod(-q - e, m, -(hi / pk), 0);
            } else {
                vstd::arithmetic::div_mod::lemma_fundamental_div_mod_converse_mod(-q - e, m, -(hi / pk) - 1, m - w);
            }
        }
    }
    if !neg {
        qm
    } else {
        twos_neg128(if rem != 0 { qm.wrapping_add(1) } else { qm })
    }
}

} // verus!
