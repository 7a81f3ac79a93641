//! Numbers of a document, and the arithmetic on binary64 bit patterns that the
//! numeric checks need: classification, ordering and closeness.
//!
//! A floating-point number is held by its IEEE-754 binary64 bit pattern. Every
//! operation here is integer arithmetic on that pattern, specified against the
//! exact value that the pattern stands for.

use vstd::arithmetic::power2::*;
use vstd::prelude::*;

verus! {

/// A number as a document parser classifies it.
#[derive(Debug, Clone)]
pub enum Number {
    /// A non-negative integer.
    PosInt(u64),
    /// An integer written with a sign.
    NegInt(i64),
    /// A floating-point number: its binary64 bit pattern; the decimal text that
    /// diagnostics show for it as a value; and the text with which YAML writes
    /// it, shown where a diagnostic lists values of the schema. Both texts are
    /// as whoever built the value rendered them.
    Float { bits: u64, text: String, written: String },
}

/// The sign bit of a pattern.
pub const SIGN_BIT: u64 = 0x8000_0000_0000_0000;

/// The bit above the fraction field: the hidden bit of a normal significand, and
/// the unit of the exponent field.
pub const HIDDEN_BIT: u64 = 0x0010_0000_0000_0000;

/// The pattern of positive infinity: exponent field all ones, fraction zero.
pub const INFINITY_BITS: u64 = 0x7FF0_0000_0000_0000;

/// The pattern without its sign bit.
pub open spec fn magnitude_bits(bits: u64) -> nat {
    (bits % SIGN_BIT) as nat
}

/// Whether the sign bit is set.
pub open spec fn is_negative(bits: u64) -> bool {
    bits >= SIGN_BIT
}

/// The biased exponent field, 0 to 2047.
pub open spec fn exponent_field(bits: u64) -> nat {
    magnitude_bits(bits) / (HIDDEN_BIT as nat)
}

/// The 52 fraction bits.
pub open spec fn fraction_field(bits: u64) -> nat {
    magnitude_bits(bits) % (HIDDEN_BIT as nat)
}

/// Not a number: exponent field all ones, fraction not zero.
pub open spec fn is_nan(bits: u64) -> bool {
    magnitude_bits(bits) > INFINITY_BITS
}

/// Positive or negative infinity.
pub open spec fn is_infinite(bits: u64) -> bool {
    magnitude_bits(bits) == INFINITY_BITS
}

/// Neither infinite nor not-a-number.
pub open spec fn is_finite(bits: u64) -> bool {
    magnitude_bits(bits) < INFINITY_BITS
}

/// The integer significand of a finite pattern, with the hidden bit of a normal number.
pub open spec fn significand(bits: u64) -> nat {
    if exponent_field(bits) == 0 {
        fraction_field(bits)
    } else {
        HIDDEN_BIT as nat + fraction_field(bits)
    }
}

/// The power of two by which the significand of a finite pattern is scaled, where
/// the unit is 2^-1074, the smallest positive binary64 value.
pub open spec fn scale(bits: u64) -> nat {
    if exponent_field(bits) == 0 {
        0
    } else {
        (exponent_field(bits) - 1) as nat
    }
}

/// The exact value of a finite pattern, counted in units of 2^-1074.
pub open spec fn scaled_value(bits: u64) -> int {
    let m = (significand(bits) * pow2(scale(bits))) as int;
    if is_negative(bits) {
        -m
    } else {
        m
    }
}

/// The integer by which patterns other than not-a-number are ordered: the
/// magnitude bits, negated under a sign bit. Both zeros get 0, and the infinities
/// lie beyond every finite value.
pub open spec fn order_key(bits: u64) -> int {
    if is_negative(bits) {
        -(magnitude_bits(bits) as int)
    } else {
        magnitude_bits(bits) as int
    }
}

/// IEEE-754 `<`: false as soon as one side is not a number.
pub open spec fn float_lt(a: u64, b: u64) -> bool {
    !is_nan(a) && !is_nan(b) && order_key(a) < order_key(b)
}

/// The largest exact distance, in units of 2^-1074, that still rounds to at most
/// 2^-52 (the binary64 machine epsilon) when a difference is rounded to nearest,
/// ties to even: 2^-52 + 2^-105.
pub open spec fn tolerance() -> int {
    (pow2(1022) + pow2(969)) as int
}

/// Whether two patterns are finite and their difference, rounded as binary64
/// subtraction rounds it, is at most the machine epsilon in absolute value.
pub open spec fn float_near(a: u64, b: u64) -> bool {
    &&& is_finite(a)
    &&& is_finite(b)
    &&& vstd::math::abs(scaled_value(a) - scaled_value(b)) <= tolerance()
}

/// Whether a pattern is not a number.
pub fn bits_is_nan(bits: u64) -> (r: bool)
    ensures
        r == is_nan(bits),
{
    bits % SIGN_BIT > INFINITY_BITS
}

/// Whether a pattern is an infinity.
pub fn bits_is_infinite(bits: u64) -> (r: bool)
    ensures
        r == is_infinite(bits),
{
    bits % SIGN_BIT == INFINITY_BITS
}

/// Whether a pattern is a finite number.
pub fn bits_is_finite(bits: u64) -> (r: bool)
    ensures
        r == is_finite(bits),
{
    bits % SIGN_BIT < INFINITY_BITS
}

/// Whether a pattern carries the sign bit.
pub fn bits_is_negative(bits: u64) -> (r: bool)
    ensures
        r == is_negative(bits),
{
    bits >= SIGN_BIT
}

/// `a < b` as binary64 comparison decides it.
pub fn bits_lt(a: u64, b: u64) -> (r: bool)
    ensures
        r == float_lt(a, b),
{
    if bits_is_nan(a) || bits_is_nan(b) {
        return false;
    }
    let ma = a % SIGN_BIT;
    let mb = b % SIGN_BIT;
    if a >= SIGN_BIT {
        if b >= SIGN_BIT {
            mb < ma
        } else {
            ma > 0 || mb > 0
        }
    } else {
        if b >= SIGN_BIT {
            false
        } else {
            ma < mb
        }
    }
}

/// `m * 2^k` regrouped around a smaller power `2^u`.
proof fn lemma_regroup(m: nat, k: nat, u: nat)
    requires
        u <= k,
    ensures
        m * pow2(k) == (m * pow2((k - u) as nat)) * pow2(u),
{
    lemma_pow2_adds((k - u) as nat, u);
    assert(m * (pow2((k - u) as nat) * pow2(u)) == (m * pow2((k - u) as nat)) * pow2(u))
        by (nonlinear_arith);
}

/// A significand below 2^53 scaled by `2^k` stays below `2^(k + 53)`.
proof fn lemma_scaled_below(m: nat, k: nat)
    requires
        m < 0x20_0000_0000_0000,
    ensures
        m * pow2(k) < pow2(k + 53),
{
    lemma2_to64_rest();
    lemma_pow2_adds(k, 53);
    lemma_pow2_pos(k);
    assert(m * pow2(k) < pow2(k) * pow2(53)) by (nonlinear_arith)
        requires
            m < pow2(53),
            pow2(k) > 0,
    ;
}

/// A normal significand scaled by `2^k` is at least `2^(k + 52)`.
proof fn lemma_scaled_above(m: nat, k: nat)
    requires
        m >= 0x10_0000_0000_0000,
    ensures
        m * pow2(k) >= pow2(k + 52),
{
    lemma2_to64_rest();
    lemma_pow2_adds(k, 52);
    lemma_pow2_pos(k);
    assert(m * pow2(k) >= pow2(k) * pow2(52)) by (nonlinear_arith)
        requires
            m >= pow2(52),
            pow2(k) > 0,
    ;
}

/// Powers of two grow with the exponent.
proof fn lemma_pow2_monotone(a: nat, b: nat)
    requires
        a <= b,
    ensures
        pow2(a) <= pow2(b),
{
    if a < b {
        lemma_pow2_strictly_increases(a, b);
    }
}

/// Comparing multiples of `p` with a bound that lies between two of them.
proof fn lemma_compare_multiples(n: int, rest: int, t: int, c: int, p: int)
    requires
        p > 0,
        0 <= rest < p,
        0 <= c < p,
        rest == 0 || c == 0,
    ensures
        (n * p + rest <= t * p + c) <==> (n + (if rest > 0 { 1int } else { 0int }) <= t),
{
    if rest == 0 {
        assert((n * p <= t * p + c) <==> (n <= t)) by (nonlinear_arith)
            requires
                p > 0,
                0 <= c < p,
        ;
    } else {
        assert((n * p + rest <= t * p) <==> (n + 1 <= t)) by (nonlinear_arith)
            requires
                p > 0,
                0 < rest < p,
        ;
    }
}

/// `2^k` for an exponent that fits.
fn two_to(k: u64) -> (r: u64)
    requires
        k <= 62,
    ensures
        r == pow2(k as nat),
{
    let mut r: u64 = 1;
    let mut i: u64 = 0;
    proof {
        lemma2_to64();
        lemma2_to64_rest();
    }
    while i < k
        invariant
            i <= k <= 62,
            r == pow2(i as nat),
            r <= pow2(62),
        decreases k - i,
    {
        proof {
            lemma_pow2_unfold((i + 1) as nat);
            lemma_pow2_monotone((i + 1) as nat, 62);
            lemma2_to64_rest();
        }
        r = r * 2;
        i = i + 1;
    }
    r
}

/// The significand and the scale of a finite pattern.
fn decode(bits: u64) -> (r: (u64, u64))
    requires
        is_finite(bits),
    ensures
        r.0 == significand(bits),
        r.1 == scale(bits),
        r.0 < 0x20_0000_0000_0000,
        r.1 <= 2045,
        r.1 >= 1 ==> r.0 >= 0x10_0000_0000_0000,
{
    let magnitude = bits % SIGN_BIT;
    let exponent = magnitude / HIDDEN_BIT;
    let fraction = magnitude % HIDDEN_BIT;
    if exponent == 0 {
        (fraction, 0)
    } else {
        (HIDDEN_BIT + fraction, exponent - 1)
    }
}

/// The exact distance between two magnitudes `mh * 2^kh` and `ml * 2^kl` that carry
/// the same sign, or opposite signs.
pub open spec fn distance(mh: nat, kh: nat, ml: nat, kl: nat, same_sign: bool) -> int {
    if same_sign {
        vstd::math::abs(mh * pow2(kh) - ml * pow2(kl)) as int
    } else {
        (mh * pow2(kh) + ml * pow2(kl)) as int
    }
}

/// Decides closeness of two magnitudes, the first with the larger scale.
fn near_ordered(mh: u64, kh: u64, ml: u64, kl: u64, same_sign: bool) -> (r: bool)
    requires
        mh < 0x20_0000_0000_0000,
        ml < 0x20_0000_0000_0000,
        kl <= kh <= 2045,
        kh >= 1 ==> mh >= 0x10_0000_0000_0000,
    ensures
        r == (distance(mh as nat, kh as nat, ml as nat, kl as nat, same_sign) <= tolerance()),
{
    let ghost vh: int = (mh as nat * pow2(kh as nat)) as int;
    let ghost vl: int = (ml as nat * pow2(kl as nat)) as int;
    if kh <= 968 {
        proof {
            lemma_scaled_below(mh as nat, kh as nat);
            lemma_scaled_below(ml as nat, kl as nat);
            lemma_pow2_monotone((kh + 53) as nat, 1021);
            lemma_pow2_monotone((kl + 53) as nat, 1021);
            lemma_pow2_unfold(1022);
            lemma_pow2_pos(969);
        }
        return true;
    }
    let u: u64 = if kl >= 969 {
        kl
    } else {
        969
    };
    let d: u64 = kh - u;
    let ghost p: int = pow2(u as nat) as int;
    proof {
        lemma_pow2_pos(u as nat);
    }
    if d >= 3 {
        proof {
            lemma_scaled_above(mh as nat, kh as nat);
            lemma_scaled_below(ml as nat, kl as nat);
            lemma_pow2_monotone((u + 55) as nat, (kh + 52) as nat);
            lemma_pow2_monotone((kl + 53) as nat, (u + 53) as nat);
            lemma_pow2_monotone(1022, (u + 53) as nat);
            lemma_pow2_monotone(969, (u + 53) as nat);
            lemma_pow2_unfold((u + 55) as nat);
            lemma_pow2_unfold((u + 54) as nat);
            assert(vh >= 4 * pow2((u + 53) as nat));
            assert(vl < pow2((u + 53) as nat));
            assert(tolerance() <= 2 * pow2((u + 53) as nat));
        }
        return false;
    }
    let hi: u64 = if d == 0 {
        mh
    } else if d == 1 {
        mh * 2
    } else {
        mh * 4
    };
    proof {
        lemma2_to64();
        lemma_regroup(mh as nat, kh as nat, u as nat);
        assert(pow2(d as nat) == (if d == 0 { 1nat } else if d == 1 { 2nat } else { 4nat }));
        assert(vh == hi * p);
    }
    let mut q: u64 = ml;
    let mut sticky: bool = false;
    let ghost rest: int = 0;
    if kl < 969 {
        let s: u64 = 969 - kl;
        proof {
            lemma_pow2_adds(s as nat, kl as nat);
            lemma_pow2_pos(kl as nat);
        }
        if s >= 53 {
            q = 0;
            sticky = ml != 0;
            proof {
                rest = vl;
                lemma2_to64_rest();
                lemma_pow2_monotone(53, s as nat);
                assert(ml * pow2(kl as nat) < pow2(s as nat) * pow2(kl as nat))
                    by (nonlinear_arith)
                    requires
                        ml < pow2(s as nat),
                        pow2(kl as nat) > 0,
                ;
                assert(ml != 0 ==> ml * pow2(kl as nat) > 0) by (nonlinear_arith)
                    requires
                        pow2(kl as nat) > 0,
                ;
                assert(ml == 0 ==> ml * pow2(kl as nat) == 0) by (nonlinear_arith);
            }
        } else {
            let unit = two_to(s);
            proof {
                lemma_pow2_pos(s as nat);
                vstd::arithmetic::div_mod::lemma_fundamental_div_mod(ml as int, unit as int);
            }
            q = ml / unit;
            let r = ml % unit;
            sticky = r != 0;
            proof {
                rest = r * pow2(kl as nat);
                assert(ml * pow2(kl as nat) == q * (unit * pow2(kl as nat)) + r * pow2(
                    kl as nat,
                )) by (nonlinear_arith)
                    requires
                        ml == unit * q + r,
                ;
                assert(r * pow2(kl as nat) < unit * pow2(kl as nat)) by (nonlinear_arith)
                    requires
                        r < unit,
                        pow2(kl as nat) > 0,
                ;
                assert(r != 0 ==> r * pow2(kl as nat) > 0) by (nonlinear_arith)
                    requires
                        pow2(kl as nat) > 0,
                        r >= 0,
                ;
                assert(r == 0 ==> r * pow2(kl as nat) == 0) by (nonlinear_arith);
                lemma2_to64();
                lemma_pow2_monotone(1, s as nat);
                vstd::arithmetic::div_mod::lemma_div_is_ordered_by_denominator(
                    ml as int,
                    2,
                    unit as int,
                );
            }
        }
    }
    assert(vl == q * p + rest);
    assert(0 <= rest < p);
    assert(sticky == (rest > 0));
    assert(rest > 0 ==> q < 0x10_0000_0000_0000 && u == 969);
    let t: u64 = if u == 969 {
        0x20_0000_0000_0001
    } else if u <= 1022 {
        two_to(1022 - u)
    } else {
        0
    };
    let ghost c: int = if u == 969 {
        0
    } else if u <= 1022 {
        pow2(969) as int
    } else {
        tolerance()
    };
    proof {
        lemma2_to64_rest();
        lemma_pow2_pos(969);
        if u == 969 {
            lemma_pow2_adds(53, 969);
            assert(tolerance() == t * p + c) by (nonlinear_arith)
                requires
                    tolerance() == pow2(53) * p + p,
                    t == pow2(53) + 1,
                    c == 0,
            ;
        } else if u <= 1022 {
            lemma_pow2_adds((1022 - u) as nat, u as nat);
            lemma_pow2_strictly_increases(969, u as nat);
        } else {
            lemma_pow2_unfold(1023);
            lemma_pow2_strictly_increases(969, 1022);
            lemma_pow2_monotone(1023, u as nat);
        }
        assert(tolerance() == t * p + c);
        assert(0 <= c < p);
        assert(rest == 0 || c == 0);
    }
    if same_sign {
        if hi >= q {
            proof {
                if rest == 0 {
                    lemma_compare_multiples(hi - q, 0, t as int, c, p);
                    assert(vh - vl == (hi - q) * p) by (nonlinear_arith)
                        requires
                            vh == hi * p,
                            vl == q * p,
                    ;
                    assert((hi - q) * p >= 0) by (nonlinear_arith)
                        requires
                            hi >= q,
                            p > 0,
                    ;
                } else {
                    assert(hi > q);
                    lemma_compare_multiples(hi - q - 1, p - rest, t as int, 0, p);
                    assert(vh - vl == (hi - q - 1) * p + (p - rest)) by (nonlinear_arith)
                        requires
                            vh == hi * p,
                            vl == q * p + rest,
                    ;
                    assert((hi - q - 1) * p >= 0) by (nonlinear_arith)
                        requires
                            hi > q,
                            p > 0,
                    ;
                }
            }
            hi - q <= t
        } else {
            proof {
                assert(rest == 0);
                lemma_compare_multiples(q - hi, 0, t as int, c, p);
                assert(vl - vh == (q - hi) * p) by (nonlinear_arith)
                    requires
                        vh == hi * p,
                        vl == q * p,
                ;
                assert((q - hi) * p >= 0) by (nonlinear_arith)
                    requires
                        q >= hi,
                        p > 0,
                ;
            }
            q - hi <= t
        }
    } else {
        let extra: u64 = if sticky {
            1
        } else {
            0
        };
        proof {
            lemma_compare_multiples(hi + q, rest, t as int, c, p);
            assert(vh + vl == (hi + q) * p + rest) by (nonlinear_arith)
                requires
                    vh == hi * p,
                    vl == q * p + rest,
            ;
        }
        hi + q + extra <= t
    }
}

/// Whether two patterns are finite and differ by at most the machine epsilon, as
/// `(a - b).abs() <= EPSILON` decides it in binary64 arithmetic.
pub fn bits_near(a: u64, b: u64) -> (r: bool)
    ensures
        r == float_near(a, b),
{
    if !bits_is_finite(a) || !bits_is_finite(b) {
        return false;
    }
    let (ma, ka) = decode(a);
    let (mb, kb) = decode(b);
    let same_sign = (a >= SIGN_BIT) == (b >= SIGN_BIT);
    if ka >= kb {
        near_ordered(ma, ka, mb, kb, same_sign)
    } else {
        near_ordered(mb, kb, ma, ka, same_sign)
    }
}

/// The number of binary digits of a natural number; 0 has none.
pub open spec fn bit_length(n: nat) -> nat
    decreases n,
{
    if n == 0 {
        0
    } else {
        1 + bit_length(n / 2)
    }
}

/// The 53-bit significand that an integer gets when it is rounded to binary64:
/// the integer itself, shifted up, where it has at most 53 digits; else its leading
/// 53 digits, rounded to nearest on the digits dropped, ties to even. The result
/// lies between 2^52 and 2^53, both included.
pub open spec fn rounded_significand(n: nat) -> nat {
    let len = bit_length(n);
    if len <= 53 {
        n * pow2((53 - len) as nat)
    } else {
        let unit = pow2((len - 53) as nat);
        let q = n / unit;
        let r = n % unit;
        if 2 * r > unit || (2 * r == unit && q % 2 == 1) {
            q + 1
        } else {
            q
        }
    }
}

/// The binary64 pattern of an integer of magnitude `n`, as a conversion to binary64
/// rounds it. A significand that rounds up to 2^53 carries into the exponent field.
pub open spec fn integer_bits(n: nat, negative: bool) -> u64 {
    let sign: nat = if negative {
        SIGN_BIT as nat
    } else {
        0
    };
    if n == 0 {
        sign as u64
    } else {
        (sign + (1022 + bit_length(n)) * (HIDDEN_BIT as nat) + (rounded_significand(n)
            - HIDDEN_BIT)) as u64
    }
}

/// A positive integer lies between the powers of two that its digits span.
proof fn lemma_bit_length_bounds(n: nat)
    requires
        n > 0,
    ensures
        pow2((bit_length(n) - 1) as nat) <= n < pow2(bit_length(n)),
    decreases n,
{
    lemma2_to64();
    if n == 1 {
        assert(bit_length(1) == 1 + bit_length(0));
    } else {
        lemma_bit_length_bounds(n / 2);
        lemma_pow2_unfold(bit_length(n));
        lemma_pow2_unfold((bit_length(n) - 1) as nat);
    }
}

/// An integer between two neighbouring powers of two has as many digits as the
/// larger one's exponent.
proof fn lemma_bit_length_unique(n: nat, len: nat)
    requires
        len >= 1,
        pow2((len - 1) as nat) <= n < pow2(len),
    ensures
        bit_length(n) == len,
{
    lemma_pow2_pos((len - 1) as nat);
    lemma_bit_length_bounds(n);
    let actual = bit_length(n);
    if actual < len {
        lemma_pow2_monotone(actual, (len - 1) as nat);
    } else if actual > len {
        lemma_pow2_monotone(len, (actual - 1) as nat);
    }
}

/// The number of binary digits of a positive integer.
fn count_bits(n: u64) -> (len: u64)
    requires
        n > 0,
    ensures
        len == bit_length(n as nat),
        1 <= len <= 64,
{
    let mut len: u64 = 1;
    let mut top: u64 = 1;
    proof {
        lemma2_to64();
    }
    while len < 64 && n / 2 >= top
        invariant
            1 <= len <= 64,
            top == pow2((len - 1) as nat),
            top <= n,
        decreases 64 - len,
    {
        proof {
            lemma_pow2_unfold(len as nat);
        }
        top = top * 2;
        len = len + 1;
    }
    proof {
        lemma2_to64();
        if len < 64 {
            lemma_pow2_unfold(len as nat);
        }
        lemma_bit_length_unique(n as nat, len as nat);
    }
    len
}

/// The binary64 pattern that an integer of the given magnitude and sign converts to.
pub fn integer_to_bits(magnitude: u64, negative: bool) -> (bits: u64)
    ensures
        bits == integer_bits(magnitude as nat, negative),
{
    let sign: u64 = if negative {
        SIGN_BIT
    } else {
        0
    };
    if magnitude == 0 {
        return sign;
    }
    let len = count_bits(magnitude);
    proof {
        lemma_bit_length_bounds(magnitude as nat);
        lemma2_to64_rest();
    }
    let m: u64 = if len <= 53 {
        let up = two_to(53 - len);
        proof {
            lemma_pow2_pos((53 - len) as nat);
            lemma_pow2_adds((53 - len) as nat, len as nat);
            assert(magnitude * up < pow2((53 - len) as nat) * pow2(len as nat))
                by (nonlinear_arith)
                requires
                    magnitude < pow2(len as nat),
                    up == pow2((53 - len) as nat),
                    up > 0,
            ;
            lemma_pow2_adds((53 - len) as nat, (len - 1) as nat);
            assert(magnitude * up >= pow2((53 - len) as nat) * pow2((len - 1) as nat))
                by (nonlinear_arith)
                requires
                    magnitude >= pow2((len - 1) as nat),
                    up == pow2((53 - len) as nat),
            ;
        }
        magnitude * up
    } else {
        let unit = two_to(len - 53);
        proof {
            lemma_pow2_pos((len - 53) as nat);
            lemma_pow2_adds((len - 53) as nat, 53);
            lemma_pow2_adds((len - 53) as nat, 52);
            vstd::arithmetic::div_mod::lemma_fundamental_div_mod(magnitude as int, unit as int);
            assert(magnitude / unit < pow2(53)) by (nonlinear_arith)
                requires
                    magnitude == unit * (magnitude / unit) + magnitude % unit,
                    magnitude < unit * pow2(53),
                    magnitude % unit >= 0,
                    unit > 0,
            ;
            assert(magnitude / unit >= pow2(52)) by (nonlinear_arith)
                requires
                    magnitude == unit * (magnitude / unit) + magnitude % unit,
                    magnitude >= unit * pow2(52),
                    magnitude % unit < unit,
                    unit > 0,
            ;
        }
        let q = magnitude / unit;
        let r = magnitude % unit;
        let half = unit / 2;
        proof {
            lemma_pow2_unfold((len - 53) as nat);
        }
        if r > half || (r == half && q % 2 == 1) {
            q + 1
        } else {
            q
        }
    };
    assert(m == rounded_significand(magnitude as nat));
    assert(HIDDEN_BIT <= m <= 2 * HIDDEN_BIT);
    sign + (1022 + len) * HIDDEN_BIT + (m - HIDDEN_BIT)
}

/// The pattern of a converted integer is finite, carries the integer's sign, and
/// stands for the rounded significand at the integer's own magnitude: counted in
/// units of 2^-1074, its value is the rounded significand times
/// 2^(1021 + digits of the integer).
pub proof fn lemma_integer_bits_value(n: nat, negative: bool)
    requires
        0 < n < 0x1_0000_0000_0000_0000,
    ensures
        is_finite(integer_bits(n, negative)),
        is_negative(integer_bits(n, negative)) == negative,
        HIDDEN_BIT <= rounded_significand(n) <= 2 * HIDDEN_BIT,
        significand(integer_bits(n, negative)) * pow2(scale(integer_bits(n, negative)))
            == rounded_significand(n) * pow2(1021 + bit_length(n)),
{
    let len = bit_length(n);
    let m = rounded_significand(n);
    lemma_bit_length_bounds(n);
    lemma2_to64();
    lemma2_to64_rest();
    if len > 64 {
        lemma_pow2_monotone(64, (len - 1) as nat);
    }
    assert(1 <= len <= 64);
    if len <= 53 {
        let up = pow2((53 - len) as nat);
        lemma_pow2_pos((53 - len) as nat);
        lemma_pow2_adds((53 - len) as nat, len);
        lemma_pow2_adds((53 - len) as nat, (len - 1) as nat);
        assert(n * up < up * pow2(len)) by (nonlinear_arith)
            requires
                n < pow2(len),
                up > 0,
        ;
        assert(n * up >= up * pow2((len - 1) as nat)) by (nonlinear_arith)
            requires
                n >= pow2((len - 1) as nat),
                up > 0,
        ;
    } else {
        let unit = pow2((len - 53) as nat);
        lemma_pow2_pos((len - 53) as nat);
        lemma_pow2_adds((len - 53) as nat, 53);
        lemma_pow2_adds((len - 53) as nat, 52);
        vstd::arithmetic::div_mod::lemma_fundamental_div_mod(n as int, unit as int);
        assert(n / unit < pow2(53)) by (nonlinear_arith)
            requires
                n == unit * (n / unit) + n % unit,
                n < unit * pow2(53),
                n % unit >= 0,
                unit > 0,
        ;
        assert(n / unit >= pow2(52)) by (nonlinear_arith)
            requires
                n == unit * (n / unit) + n % unit,
                n >= unit * pow2(52),
                n % unit < unit,
                unit > 0,
        ;
    }
    assert(HIDDEN_BIT <= m <= 2 * HIDDEN_BIT);
    let bits = integer_bits(n, negative);
    let field: nat = 1022 + len;
    assert(magnitude_bits(bits) == field * HIDDEN_BIT + (m - HIDDEN_BIT));
    if m == 2 * HIDDEN_BIT {
        assert(exponent_field(bits) == field + 1);
        assert(fraction_field(bits) == 0);
        lemma_pow2_unfold(field);
        assert(HIDDEN_BIT * pow2(field) == (2 * HIDDEN_BIT) * pow2((field - 1) as nat))
            by (nonlinear_arith)
            requires
                pow2(field) == 2 * pow2((field - 1) as nat),
        ;
    } else {
        assert(exponent_field(bits) == field);
        assert(fraction_field(bits) == m - HIDDEN_BIT);
    }
}

/// The magnitude of the exact value of a finite pattern, in units of 2^-1074.
pub open spec fn scaled_magnitude(bits: u64) -> nat {
    significand(bits) * pow2(scale(bits))
}

/// Among finite patterns, a smaller magnitude field stands for a smaller magnitude.
proof fn lemma_magnitude_is_monotone(a: u64, b: u64)
    requires
        is_finite(a),
        is_finite(b),
        magnitude_bits(a) < magnitude_bits(b),
    ensures
        scaled_magnitude(a) < scaled_magnitude(b),
{
    let ea = exponent_field(a);
    let eb = exponent_field(b);
    lemma2_to64_rest();
    lemma2_to64();
    if ea == eb {
        lemma_pow2_pos(scale(a));
        assert(significand(a) * pow2(scale(a)) < significand(b) * pow2(scale(a)))
            by (nonlinear_arith)
            requires
                significand(a) < significand(b),
                pow2(scale(a)) > 0,
        ;
    } else {
        assert(ea < eb);
        lemma_scaled_above(significand(b), scale(b));
        if ea == 0 {
            lemma_pow2_monotone(52, scale(b) + 52);
            assert(significand(a) * pow2(0) == significand(a)) by (nonlinear_arith)
                requires
                    pow2(0) == 1,
            ;
        } else {
            lemma_scaled_below(significand(a), scale(a));
            lemma_pow2_monotone(scale(a) + 53, scale(b) + 52);
        }
    }
}

/// The integer by which finite patterns are ordered orders them as their exact
/// values do, and gives equal keys exactly to equal values: binary64 `<` on
/// finite numbers is `<` on the numbers that the patterns stand for.
pub proof fn lemma_order_key_orders_values(a: u64, b: u64)
    requires
        is_finite(a),
        is_finite(b),
    ensures
        order_key(a) < order_key(b) <==> scaled_value(a) < scaled_value(b),
        order_key(a) == order_key(b) <==> scaled_value(a) == scaled_value(b),
        float_lt(a, b) <==> scaled_value(a) < scaled_value(b),
{
    if magnitude_bits(a) < magnitude_bits(b) {
        lemma_magnitude_is_monotone(a, b);
    } else if magnitude_bits(b) < magnitude_bits(a) {
        lemma_magnitude_is_monotone(b, a);
    } else {
        assert(exponent_field(a) == exponent_field(b));
        assert(fraction_field(a) == fraction_field(b));
    }
    lemma_zero_magnitude(a);
    lemma_zero_magnitude(b);
}

/// Only the two zeros have magnitude zero.
proof fn lemma_zero_magnitude(a: u64)
    requires
        is_finite(a),
    ensures
        scaled_magnitude(a) == 0 <==> magnitude_bits(a) == 0,
{
    lemma_pow2_pos(scale(a));
    if magnitude_bits(a) == 0 {
        assert(significand(a) == 0);
        assert(0 * pow2(scale(a)) == 0) by (nonlinear_arith);
    } else {
        assert(significand(a) > 0);
        assert(significand(a) * pow2(scale(a)) > 0) by (nonlinear_arith)
            requires
                significand(a) > 0,
                pow2(scale(a)) > 0,
        ;
    }
}

} // verus!
