//! The binary64 layout of a floating-point value, read from its raw bits: the conversion
//! of such a value to a 64-bit integer, and the widening of a 64-bit integer to the
//! nearest such value. Everything here is integer arithmetic on the encoding.
use vstd::arithmetic::div_mod::{lemma_div_denominator, lemma_div_is_ordered, lemma_div_multiples_vanish, lemma_fundamental_div_mod, lemma_fundamental_div_mod_converse, lemma_mod_mod};
use vstd::arithmetic::mul::lemma_mul_equality_converse;
use vstd::arithmetic::power2::{lemma2_to64, lemma_pow2_adds, lemma_pow2_pos, lemma_pow2_strictly_increases, lemma_pow2_unfold, pow2};
use vstd::prelude::*;

verus! {

/// The sign bit.
pub const SIGN_BIT: u64 = 0x8000_0000_0000_0000;

/// One unit of the biased exponent field: the fraction occupies the bits below it.
pub const FRACTION_SPAN: u64 = 0x10_0000_0000_0000;

/// The all-ones exponent field, shared by infinities and NaNs.
pub const EXPONENT_MAX: u64 = 2047;

pub open spec fn is_negative(bits: u64) -> bool {
    bits >= SIGN_BIT
}

pub open spec fn exponent_field(bits: u64) -> nat {
    ((bits % SIGN_BIT) / FRACTION_SPAN) as nat
}

pub open spec fn fraction_field(bits: u64) -> nat {
    (bits % FRACTION_SPAN) as nat
}

pub open spec fn is_nan(bits: u64) -> bool {
    exponent_field(bits) == EXPONENT_MAX && fraction_field(bits) != 0
}

pub open spec fn is_infinite(bits: u64) -> bool {
    exponent_field(bits) == EXPONENT_MAX && fraction_field(bits) == 0
}

/// The integer significand: the fraction, with the hidden leading one of a normal number.
pub open spec fn significand(bits: u64) -> nat {
    if exponent_field(bits) == 0 {
        fraction_field(bits)
    } else {
        fraction_field(bits) + FRACTION_SPAN as nat
    }
}

/// The power of two that the significand is scaled by.
pub open spec fn scale(bits: u64) -> int {
    if exponent_field(bits) == 0 {
        -1074
    } else {
        exponent_field(bits) - 1075
    }
}

/// Whether the absolute value of a finite float is larger than `bound`.
pub open spec fn magnitude_exceeds(bits: u64, bound: nat) -> bool {
    if scale(bits) >= 0 {
        significand(bits) * pow2(scale(bits) as nat) > bound
    } else {
        significand(bits) > bound * pow2((-scale(bits)) as nat)
    }
}

/// The absolute value of a finite float, rounded to the nearest integer, halves away from zero.
pub open spec fn rounded_magnitude(bits: u64) -> nat {
    if scale(bits) >= 0 {
        significand(bits) * pow2(scale(bits) as nat)
    } else {
        let k = (-scale(bits)) as nat;
        ((2 * significand(bits) + pow2(k)) / pow2(k + 1)) as nat
    }
}

/// A float is a number (not a NaN, not an infinity) within `[-2^63, 2^63]`, the bounds of
/// `i64` compared as floats.
pub open spec fn fits_signed(bits: u64) -> bool {
    exponent_field(bits) != EXPONENT_MAX && !magnitude_exceeds(bits, pow2(63))
}

/// A float is a number (not a NaN, not an infinity) within `[0, 2^64]`, the bounds of `u64`
/// compared as floats; `-0.0` lies within them.
pub open spec fn fits_unsigned(bits: u64) -> bool {
    exponent_field(bits) != EXPONENT_MAX && (if is_negative(bits) {
        significand(bits) == 0
    } else {
        !magnitude_exceeds(bits, pow2(64))
    })
}

/// The value of a float that fits, rounded to the nearest integer (halves away from zero) and
/// cast to `i64`: `2^63` saturates to `i64::MAX`.
pub open spec fn rounded_signed(bits: u64) -> int {
    if is_negative(bits) {
        -rounded_magnitude(bits)
    } else if rounded_magnitude(bits) > i64::MAX {
        i64::MAX as int
    } else {
        rounded_magnitude(bits) as int
    }
}

/// The value of a float that fits, rounded to the nearest integer (halves away from zero) and
/// cast to `u64`: `2^64` saturates to `u64::MAX`, and `-0.0` becomes 0.
pub open spec fn rounded_unsigned(bits: u64) -> int {
    if is_negative(bits) {
        0
    } else if rounded_magnitude(bits) > u64::MAX {
        u64::MAX as int
    } else {
        rounded_magnitude(bits) as int
    }
}

/// `2^n` for an `n` below 64.
fn pow2_u64(n: u64) -> (r: u64)
    requires
        n < 64,
    ensures
        r == pow2(n as nat),
{
    proof {
        lemma2_to64();
        lemma_pow2_pos(0);
    }
    let mut r: u64 = 1;
    let mut i: u64 = 0;
    while i < n
        invariant
            i <= n < 64,
            r == pow2(i as nat),
        decreases n - i,
    {
        proof {
            lemma2_to64();
            lemma_pow2_unfold((i + 1) as nat);
            if i + 1 < 64 {
                lemma_pow2_strictly_increases((i + 1) as nat, 64);
            }
        }
        r = r * 2;
        i = i + 1;
    }
    r
}

/// The three fields of a float: sign, biased exponent and fraction.
fn fields(bits: u64) -> (r: (bool, u64, u64))
    ensures
        r.0 == is_negative(bits),
        r.1 == exponent_field(bits),
        r.2 == fraction_field(bits),
        r.1 <= EXPONENT_MAX,
        r.2 < FRACTION_SPAN,
{
    let e = (bits % SIGN_BIT) / FRACTION_SPAN;
    assert(e <= EXPONENT_MAX) by (nonlinear_arith)
        requires
            e == (bits % SIGN_BIT) / FRACTION_SPAN,
            bits % SIGN_BIT < SIGN_BIT,
    ;
    (bits >= SIGN_BIT, e, bits % FRACTION_SPAN)
}

/// The magnitude of a finite float, rounded to the nearest integer, if it is at most
/// `2^64`; `None` if the magnitude is larger.
fn magnitude_up_to_2_64(bits: u64) -> (r: Option<u128>)
    requires
        exponent_field(bits) != EXPONENT_MAX,
    ensures
        r is Some <==> !magnitude_exceeds(bits, pow2(64)),
        r is Some ==> r->Some_0 == rounded_magnitude(bits),
        r is Some ==> r->Some_0 <= pow2(64),
        r is Some ==> (r->Some_0 > pow2(63) ==> magnitude_exceeds(bits, pow2(63))),
        r is None ==> magnitude_exceeds(bits, pow2(63)),
        !magnitude_exceeds(bits, pow2(63)) ==> !magnitude_exceeds(bits, pow2(64)),
{
    let (_, e, frac) = fields(bits);
    let sig: u64 = if e == 0 { frac } else { frac + FRACTION_SPAN };
    assert(sig == significand(bits));
    assert(sig < 0x20_0000_0000_0000);
    proof {
        lemma2_to64();
        lemma_pow2_adds(32, 31);
        lemma_pow2_strictly_increases(63, 64);
    }
    if e >= 1075 {
        let s: u64 = e - 1075;
        assert(scale(bits) == s);
        if s > 12 {
            proof {
                lemma_pow2_adds(13, (s - 13) as nat);
                lemma_pow2_pos((s - 13) as nat);
                assert(sig >= FRACTION_SPAN);
                assert(sig * pow2(s as nat) >= FRACTION_SPAN * pow2(13)) by (nonlinear_arith)
                    requires
                        sig >= FRACTION_SPAN,
                        pow2(s as nat) == pow2(13) * pow2((s - 13) as nat),
                        pow2((s - 13) as nat) >= 1,
                        pow2(13) > 0,
                ;
                assert(FRACTION_SPAN * pow2(13) > pow2(64));
            }
            None
        } else {
            let p = pow2_u64(s);
            proof {
                if s < 13 {
                    lemma_pow2_strictly_increases(s as nat, 13);
                }
            }
            assert(sig * p <= 0x20_0000_0000_0000 * 8192) by (nonlinear_arith)
                requires
                    sig < 0x20_0000_0000_0000,
                    p < 8192,
            ;
            let m: u128 = sig as u128 * p as u128;
            if m > 0x1_0000_0000_0000_0000u128 {
                None
            } else {
                Some(m)
            }
        }
    } else {
        let k: u64 = if e == 0 { 1074 } else { 1075 - e };
        assert(scale(bits) == -k);
        proof {
            lemma_pow2_adds(64, k as nat);
            lemma_pow2_pos(k as nat);
            assert(sig <= pow2(64) * pow2(k as nat)) by (nonlinear_arith)
                requires
                    sig < pow2(64),
                    pow2(k as nat) >= 1,
            ;
            lemma_pow2_adds(63, k as nat);
            assert(sig <= pow2(63) * pow2(k as nat)) by (nonlinear_arith)
                requires
                    sig < pow2(63),
                    pow2(k as nat) >= 1,
            ;
        }
        if k >= 55 {
            proof {
                lemma_pow2_strictly_increases(54, k as nat);
                lemma_pow2_unfold(54);
                lemma_pow2_unfold((k + 1) as nat);
                lemma_pow2_adds(32, 21);
                let num: int = 2 * sig + pow2(k as nat);
                assert(0 <= num < pow2((k + 1) as nat));
                assert(num / (pow2((k + 1) as nat) as int) == 0) by (nonlinear_arith)
                    requires
                        0 <= num < pow2((k + 1) as nat),
                ;
            }
            Some(0)
        } else {
            let p = pow2_u64(k);
            let q = pow2_u64(k + 1);
            proof {
                lemma_pow2_unfold((k + 1) as nat);
                lemma_pow2_strictly_increases((k + 1) as nat, 64);
                lemma_pow2_strictly_increases(k as nat, 55);
                lemma_pow2_adds(32, 23);
            }
            let m = (2 * sig as u128 + p as u128) / q as u128;
            proof {
                assert(m as int <= 2 * sig + p) by (nonlinear_arith)
                    requires
                        m == (2 * sig + p) / (q as int),
                        q >= 1,
                ;
            }
            Some(m)
        }
    }
}


/// Converts a float to `i64`: `None` if it is a NaN or lies outside `[-2^63, 2^63]`, else
/// its value rounded to the nearest integer, halves away from zero.
pub fn float_to_signed(bits: u64) -> (r: Option<i64>)
    ensures
        r is Some <==> fits_signed(bits),
        r is Some ==> r->Some_0 == rounded_signed(bits),
{
    let (negative, e, _) = fields(bits);
    if e == EXPONENT_MAX {
        None
    } else {
        proof {
            lemma2_to64();
            lemma_pow2_adds(32, 31);
        }
        match magnitude_up_to_2_64(bits) {
            None => None,
            Some(m) => {
                if m > 0x8000_0000_0000_0000u128 {
                    None
                } else if negative {
                    Some((0 - m as i128) as i64)
                } else if m == 0x8000_0000_0000_0000u128 {
                    Some(i64::MAX)
                } else {
                    Some(m as i64)
                }
            }
        }
    }
}

/// Converts a float to `u64`: `None` if it is a NaN or lies outside `[0, 2^64]`, else its
/// value rounded to the nearest integer, halves away from zero.
pub fn float_to_unsigned(bits: u64) -> (r: Option<u64>)
    ensures
        r is Some <==> fits_unsigned(bits),
        r is Some ==> r->Some_0 == rounded_unsigned(bits),
{
    let (negative, e, frac) = fields(bits);
    if e == EXPONENT_MAX {
        None
    } else if negative {
        if e == 0 && frac == 0 {
            Some(0)
        } else {
            None
        }
    } else {
        proof {
            lemma2_to64();
        }
        match magnitude_up_to_2_64(bits) {
            None => None,
            Some(m) => {
                if m == 0x1_0000_0000_0000_0000u128 {
                    Some(u64::MAX)
                } else {
                    Some(m as u64)
                }
            }
        }
    }
}


/// The number of binary digits of `n`.
pub open spec fn bit_length(n: nat) -> nat
    decreases n,
{
    if n == 0 {
        0
    } else {
        1 + bit_length(n / 2)
    }
}

/// `n` rounded to the 53 significant bits of a binary64 float: to the nearest such number,
/// and on a tie to the one whose last significant bit is 0.
pub open spec fn round_to_precision(n: nat) -> nat {
    if bit_length(n) <= 53 {
        n
    } else {
        let s = (bit_length(n) - 53) as nat;
        let q = n / pow2(s);
        let r = n % pow2(s);
        let half = pow2((s - 1) as nat);
        if r > half || (r == half && q % 2 == 1) {
            ((q + 1) * pow2(s)) as nat
        } else {
            (q * pow2(s)) as nat
        }
    }
}

/// A finite float whose absolute value is the integer `m`.
pub open spec fn has_magnitude(bits: u64, m: nat) -> bool {
    &&& exponent_field(bits) != EXPONENT_MAX
    &&& if scale(bits) >= 0 {
        significand(bits) * pow2(scale(bits) as nat) == m
    } else {
        significand(bits) == m * pow2((-scale(bits)) as nat)
    }
}

/// A float whose value is the integer `v` rounded to 53 significant bits: the float nearest
/// to `v`, the one that the 64-bit-to-float widening gives.
pub open spec fn is_widening_of(bits: u64, v: int) -> bool {
    &&& is_negative(bits) == (v < 0)
    &&& has_magnitude(bits, round_to_precision(if v < 0 { (-v) as nat } else { v as nat }))
}

proof fn lemma_bit_length_bounds(n: nat)
    requires
        n > 0,
    ensures
        bit_length(n) >= 1,
        pow2((bit_length(n) - 1) as nat) <= n < pow2(bit_length(n)),
    decreases n,
{
    reveal_with_fuel(bit_length, 2);
    if n == 1 {
        lemma2_to64();
    } else {
        lemma_bit_length_bounds(n / 2);
        let k = bit_length(n / 2);
        lemma_pow2_unfold(k);
        lemma_pow2_unfold(k + 1);
    }
}

/// Assembles a nonnegative normal float from its biased exponent and its significand.
proof fn lemma_assemble(e: nat, sig: nat)
    requires
        1 <= e < EXPONENT_MAX,
        FRACTION_SPAN <= sig < 2 * FRACTION_SPAN,
    ensures
        ({
            let bits = (e * FRACTION_SPAN + (sig - FRACTION_SPAN)) as int;
            &&& 0 <= bits < SIGN_BIT
            &&& exponent_field(bits as u64) == e
            &&& fraction_field(bits as u64) == sig - FRACTION_SPAN
            &&& significand(bits as u64) == sig
            &&& scale(bits as u64) == e - 1075
        }),
{
    let f = sig - FRACTION_SPAN;
    let bits = e * FRACTION_SPAN + f;
    assert(bits < SIGN_BIT) by (nonlinear_arith)
        requires
            e < 2047,
            f < FRACTION_SPAN,
            bits == e * FRACTION_SPAN + f,
            SIGN_BIT == 2048 * FRACTION_SPAN,
    ;
    lemma_fundamental_div_mod_converse(bits, SIGN_BIT as int, 0, bits);
    lemma_fundamental_div_mod_converse(bits, FRACTION_SPAN as int, e as int, f);
}

/// The binary64 encoding of `n`, a number of `len` binary digits with `len <= 53`: exact.
fn widen_exact(n: u64, len: u64) -> (bits: u64)
    requires
        1 <= len <= 53,
        bit_length(n as nat) == len,
        pow2((len - 1) as nat) <= n < pow2(len as nat),
    ensures
        is_widening_of(bits, n as int),
{
    proof {
        lemma2_to64();
        lemma_pow2_adds(32, 20);
        lemma_pow2_adds(32, 21);
    }
    let k: u64 = 53 - len;
    let p = pow2_u64(k);
    proof {
        lemma_pow2_pos(k as nat);
        lemma_pow2_adds((len - 1) as nat, k as nat);
        lemma_pow2_adds(len as nat, k as nat);
        assert(FRACTION_SPAN <= n * p < 2 * FRACTION_SPAN) by (nonlinear_arith)
            requires
                pow2((len - 1) as nat) <= n < pow2(len as nat),
                pow2((len - 1 + k) as nat) == pow2((len - 1) as nat) * p,
                pow2((len + k) as nat) == pow2(len as nat) * p,
                len + k == 53,
                pow2(52) == FRACTION_SPAN,
                pow2(53) == 2 * FRACTION_SPAN,
                p > 0,
        ;
    }
    let sig: u64 = n * p;
    let e: u64 = 1022 + len;
    let bits = e * FRACTION_SPAN + (sig - FRACTION_SPAN);
    proof {
        lemma_assemble(e as nat, sig as nat);
        assert(significand(bits) == sig);
        assert(scale(bits) == len - 53);
        assert(round_to_precision(n as nat) == n);
        if len == 53 {
            assert(sig == n) by (nonlinear_arith)
                requires
                    sig == n * p,
                    p == 1,
            ;
            assert(significand(bits) * pow2(0) == n);
        } else {
            assert(significand(bits) == n * pow2((-scale(bits)) as nat));
        }
        assert(!is_negative(bits));
        assert(has_magnitude(bits, round_to_precision(n as nat)));
    }
    bits
}

/// The binary64 encoding of the float nearest to `n`, a number of `len` binary digits with
/// `len > 53`: rounded to 53 significant bits, ties to even.
fn widen_rounded(n: u64, len: u64) -> (bits: u64)
    requires
        53 < len <= 64,
        bit_length(n as nat) == len,
        pow2((len - 1) as nat) <= n < pow2(len as nat),
    ensures
        is_widening_of(bits, n as int),
{
    proof {
        lemma2_to64();
        lemma_pow2_adds(32, 20);
        lemma_pow2_adds(32, 21);
        lemma_pow2_unfold(53);
    }
    let s: u64 = len - 53;
    let p = pow2_u64(s);
    let half = pow2_u64(s - 1);
    let q = n / p;
    let r = n % p;
    proof {
        lemma_pow2_unfold(s as nat);
        lemma_pow2_adds(52, s as nat);
        lemma_pow2_adds(53, s as nat);
        lemma_fundamental_div_mod(n as int, p as int);
        assert(FRACTION_SPAN <= q < 2 * FRACTION_SPAN) by (nonlinear_arith)
            requires
                n == p * q + r,
                0 <= r < p,
                pow2((len - 1) as nat) <= n < pow2(len as nat),
                pow2((len - 1) as nat) == FRACTION_SPAN * p,
                pow2(len as nat) == 2 * FRACTION_SPAN * p,
                p > 0,
        ;
    }
    let up = r > half || (r == half && q % 2 == 1);
    let q2: u64 = if up {
        q + 1
    } else {
        q
    };
    assert(q2 * p == round_to_precision(n as nat));
    if q2 == 2 * FRACTION_SPAN {
        let e: u64 = 1023 + len;
        proof {
            lemma_assemble(e as nat, FRACTION_SPAN as nat);
            lemma_pow2_unfold((s + 1) as nat);
        }
        let bits = e * FRACTION_SPAN;
        assert(!is_negative(bits));
        assert(has_magnitude(bits, round_to_precision(n as nat)));
        assert(is_widening_of(bits, n as int));
        bits
    } else {
        let e: u64 = 1022 + len;
        proof {
            lemma_assemble(e as nat, q2 as nat);
        }
        let bits = e * FRACTION_SPAN + (q2 - FRACTION_SPAN);
        assert(!is_negative(bits));
        assert(has_magnitude(bits, round_to_precision(n as nat)));
        assert(is_widening_of(bits, n as int));
        bits
    }
}

/// The binary64 encoding of the float nearest to `n`: no sign, and the magnitude rounded to
/// 53 significant bits.
pub fn widen_unsigned(n: u64) -> (bits: u64)
    ensures
        is_widening_of(bits, n as int),
{
    proof {
        lemma2_to64();
        lemma_pow2_pos(0);
    }
    if n == 0 {
        assert(exponent_field(0) == 0 && fraction_field(0) == 0);
        assert(significand(0) == 0);
        proof {
            lemma_pow2_pos(1074);
            assert(bit_length(0) == 0);
            assert(round_to_precision(0) == 0);
            assert(has_magnitude(0, 0));
        }
        return 0;
    }
    let mut len: u64 = 0;
    let mut t: u64 = n;
    while t > 0
        invariant
            len <= 64,
            t == n as nat / pow2(len as nat),
            bit_length(n as nat) == len + bit_length(t as nat),
            pow2(64) == 0x1_0000_0000_0000_0000,
        decreases t,
    {
        proof {
            if len == 64 {
                lemma_pow2_pos(64);
                assert(n as nat / pow2(64) == 0) by (nonlinear_arith)
                    requires
                        n < pow2(64),
                ;
            }
            lemma_pow2_pos(len as nat);
            lemma_div_denominator(n as int, pow2(len as nat) as int, 2);
            lemma_pow2_unfold((len + 1) as nat);
            assert(pow2(len as nat) * 2 == pow2((len + 1) as nat));
        }
        t = t / 2;
        len = len + 1;
    }
    proof {
        lemma_bit_length_bounds(n as nat);
    }
    if len <= 53 {
        widen_exact(n, len)
    } else {
        widen_rounded(n, len)
    }
}

/// The binary64 encoding of the float nearest to `v`.
pub fn widen_signed(v: i64) -> (bits: u64)
    ensures
        is_widening_of(bits, v as int),
{
    if v >= 0 {
        widen_unsigned(v as u64)
    } else {
        let m: u64 = (0 - (v as i128)) as u64;
        let b = widen_unsigned(m);
        let bits = b + SIGN_BIT;
        proof {
            lemma_fundamental_div_mod(b as int, SIGN_BIT as int);
            lemma_fundamental_div_mod_converse(bits as int, SIGN_BIT as int, 1, b as int);
            lemma_fundamental_div_mod(b as int, FRACTION_SPAN as int);
            let q = b as int / FRACTION_SPAN as int;
            let r = b as int % FRACTION_SPAN as int;
            assert(bits == (q + 2048) * FRACTION_SPAN + r) by (nonlinear_arith)
                requires
                    b == FRACTION_SPAN * q + r,
                    bits == b + SIGN_BIT,
                    SIGN_BIT == 2048 * FRACTION_SPAN,
            ;
            lemma_fundamental_div_mod_converse(bits as int, FRACTION_SPAN as int, q + 2048, r);
            assert(exponent_field(bits) == exponent_field(b));
            assert(fraction_field(bits) == fraction_field(b));
        }
        bits
    }
}

proof fn lemma_significand_bounds(b: u64)
    ensures
        fraction_field(b) < FRACTION_SPAN,
        exponent_field(b) < 2048,
        exponent_field(b) == 0 ==> significand(b) < FRACTION_SPAN,
        exponent_field(b) != 0 ==> FRACTION_SPAN <= significand(b) < 2 * FRACTION_SPAN,
        scale(b) >= 0 ==> exponent_field(b) != 0,
{
    let r = b % SIGN_BIT;
    assert(r / FRACTION_SPAN < 2048) by (nonlinear_arith)
        requires
            0 <= r < SIGN_BIT,
            SIGN_BIT == 2048 * FRACTION_SPAN,
    ;
}

/// A number is put together from its sign, exponent and fraction fields.
proof fn lemma_fields_determine(b1: u64, b2: u64)
    requires
        is_negative(b1) == is_negative(b2),
        exponent_field(b1) == exponent_field(b2),
        fraction_field(b1) == fraction_field(b2),
    ensures
        b1 == b2,
{
    lemma_fundamental_div_mod(b1 as int, SIGN_BIT as int);
    lemma_fundamental_div_mod(b2 as int, SIGN_BIT as int);
    let r1 = b1 as int % SIGN_BIT as int;
    let r2 = b2 as int % SIGN_BIT as int;
    lemma_fundamental_div_mod(r1, FRACTION_SPAN as int);
    lemma_fundamental_div_mod(r2, FRACTION_SPAN as int);
    lemma_mod_mod(b1 as int, FRACTION_SPAN as int, 2048);
    lemma_mod_mod(b2 as int, FRACTION_SPAN as int, 2048);
    assert(r1 == r2);
    let q1 = b1 as int / SIGN_BIT as int;
    let q2 = b2 as int / SIGN_BIT as int;
    assert(q1 == (if is_negative(b1) { 1int } else { 0 })) by (nonlinear_arith)
        requires
            b1 == SIGN_BIT * q1 + r1,
            0 <= r1 < SIGN_BIT,
            0 <= b1 < 2 * SIGN_BIT,
            is_negative(b1) == (b1 >= SIGN_BIT),
    ;
    assert(q2 == (if is_negative(b2) { 1int } else { 0 })) by (nonlinear_arith)
        requires
            b2 == SIGN_BIT * q2 + r2,
            0 <= r2 < SIGN_BIT,
            0 <= b2 < 2 * SIGN_BIT,
            is_negative(b2) == (b2 >= SIGN_BIT),
    ;
}

/// Of two normal floats of the same integer magnitude, neither has the smaller scale.
proof fn lemma_no_smaller_scale(b1: u64, b2: u64, m: nat)
    requires
        has_magnitude(b1, m),
        has_magnitude(b2, m),
        exponent_field(b1) != 0,
        exponent_field(b2) != 0,
    ensures
        scale(b1) >= scale(b2),
{
    if scale(b1) < scale(b2) {
        lemma_scales_differ(b1, b2, m);
    }
}

proof fn lemma_scales_differ(b1: u64, b2: u64, m: nat)
    requires
        has_magnitude(b1, m),
        has_magnitude(b2, m),
        exponent_field(b1) != 0,
        exponent_field(b2) != 0,
        scale(b1) < scale(b2),
    ensures
        significand(b1) >= 2 * FRACTION_SPAN,
{
    lemma_significand_bounds(b1);
    lemma_significand_bounds(b2);
    let g1 = significand(b1);
    let g2 = significand(b2);
    let s1 = scale(b1);
    let s2 = scale(b2);
    let d = (s2 - s1) as nat;
    lemma_pow2_pos(d);
    lemma_pow2_strictly_increases(0, d);
    lemma2_to64();
    if s2 < 0 {
        let k1 = (-s1) as nat;
        let k2 = (-s2) as nat;
        lemma_pow2_adds(k2, d);
        assert(g1 == g2 * pow2(d)) by (nonlinear_arith)
            requires
                g1 == m * pow2(k1),
                g2 == m * pow2(k2),
                pow2(k1) == pow2(k2) * pow2(d),
                k1 == k2 + d,
        ;
    } else if s1 < 0 {
        let k1 = (-s1) as nat;
        lemma_pow2_pos(s2 as nat);
        lemma_pow2_strictly_increases(0, k1);
        assert(m >= g2) by (nonlinear_arith)
            requires
                g2 * pow2(s2 as nat) == m,
                pow2(s2 as nat) >= 1,
                g2 >= 0,
        ;
        assert(g1 >= 2 * m) by (nonlinear_arith)
            requires
                g1 == m * pow2(k1),
                pow2(k1) >= 2,
                m >= 0,
        ;
    } else {
        lemma_pow2_adds(s1 as nat, d);
        lemma_pow2_pos(s1 as nat);
        assert(pow2(s1 as nat) * g1 == pow2(s1 as nat) * (g2 * pow2(d))) by (nonlinear_arith)
            requires
                g1 * pow2(s1 as nat) == m,
                g2 * pow2(s2 as nat) == m,
                pow2(s2 as nat) == pow2(s1 as nat) * pow2(d),
        ;
        lemma_mul_equality_converse(pow2(s1 as nat) as int, g1 as int, (g2 * pow2(d)) as int);
    }
    assert(g2 * pow2(d) >= 2 * g2) by (nonlinear_arith)
        requires
            pow2(d) >= 2,
            g2 >= 0,
    ;
}

/// The widening of an integer is a single float: there is only one encoding whose sign and
/// magnitude are those that the widening asks for.
pub proof fn lemma_widening_is_unique(b1: u64, b2: u64, v: int)
    requires
        is_widening_of(b1, v),
        is_widening_of(b2, v),
    ensures
        b1 == b2,
{
    let m = round_to_precision(if v < 0 { (-v) as nat } else { v as nat });
    lemma_significand_bounds(b1);
    lemma_significand_bounds(b2);
    lemma2_to64();
    if scale(b1) >= 0 {
        lemma_pow2_pos(scale(b1) as nat);
    }
    if scale(b2) >= 0 {
        lemma_pow2_pos(scale(b2) as nat);
    }
    if m == 0 {
        assert(significand(b1) == 0 && significand(b2) == 0 ==> exponent_field(b1) == 0
            && exponent_field(b2) == 0);
        if scale(b1) >= 0 {
            assert(significand(b1) * pow2(scale(b1) as nat) > 0) by (nonlinear_arith)
                requires
                    significand(b1) > 0,
                    pow2(scale(b1) as nat) > 0,
            ;
        }
        if scale(b2) >= 0 {
            assert(significand(b2) * pow2(scale(b2) as nat) > 0) by (nonlinear_arith)
                requires
                    significand(b2) > 0,
                    pow2(scale(b2) as nat) > 0,
            ;
        }
        assert(has_magnitude(b1, m) && has_magnitude(b2, m));
        if scale(b1) < 0 {
            assert(significand(b1) == m * pow2((-scale(b1)) as nat));
            assert(m * pow2((-scale(b1)) as nat) == 0) by (nonlinear_arith)
                requires
                    m == 0,
            ;
        }
        if scale(b2) < 0 {
            assert(significand(b2) == m * pow2((-scale(b2)) as nat));
            assert(m * pow2((-scale(b2)) as nat) == 0) by (nonlinear_arith)
                requires
                    m == 0,
            ;
        }
        assert(significand(b1) == 0);
        assert(significand(b2) == 0);
    } else {
        lemma_pow2_strictly_increases(52, 1074);
        lemma_pow2_adds(32, 20);
        if exponent_field(b1) == 0 {
            assert(significand(b1) >= pow2(1074)) by (nonlinear_arith)
                requires
                    significand(b1) == m * pow2(1074),
                    m >= 1,
            ;
        }
        if exponent_field(b2) == 0 {
            assert(significand(b2) >= pow2(1074)) by (nonlinear_arith)
                requires
                    significand(b2) == m * pow2(1074),
                    m >= 1,
            ;
        }
        lemma_no_smaller_scale(b1, b2, m);
        lemma_no_smaller_scale(b2, b1, m);
        assert(scale(b1) == scale(b2));
        if scale(b1) >= 0 {
            assert(pow2(scale(b1) as nat) * significand(b1) == pow2(scale(b1) as nat) * significand(
                b2,
            )) by (nonlinear_arith)
                requires
                    significand(b1) * pow2(scale(b1) as nat) == m,
                    significand(b2) * pow2(scale(b2) as nat) == m,
                    scale(b1) == scale(b2),
            ;
            lemma_mul_equality_converse(
                pow2(scale(b1) as nat) as int,
                significand(b1) as int,
                significand(b2) as int,
            );
        }
        assert(significand(b1) == significand(b2));
        assert(exponent_field(b1) == exponent_field(b2));
    }
    assert(is_negative(b1) == is_negative(b2));
    assert(exponent_field(b1) == exponent_field(b2));
    assert(fraction_field(b1) == fraction_field(b2));
    lemma_fields_determine(b1, b2);
}

/// Whether the absolute value of a finite float is smaller than `bound`.
pub open spec fn magnitude_below(bits: u64, bound: nat) -> bool {
    if scale(bits) >= 0 {
        significand(bits) * pow2(scale(bits) as nat) < bound
    } else {
        significand(bits) < bound * pow2((-scale(bits)) as nat)
    }
}

/// A finite float of magnitude below a bound of at least `2^53` rounds to an integer below
/// that bound: rounding never reaches the bound itself.
pub proof fn lemma_rounded_below(bits: u64, bound: nat)
    requires
        exponent_field(bits) != EXPONENT_MAX,
        magnitude_below(bits, bound),
        bound >= pow2(53),
    ensures
        rounded_magnitude(bits) < bound,
        !magnitude_exceeds(bits, bound),
{
    lemma_significand_bounds(bits);
    lemma2_to64();
    lemma_pow2_adds(32, 21);
    if scale(bits) < 0 {
        let k = (-scale(bits)) as nat;
        let sig = significand(bits);
        lemma_pow2_pos(k);
        lemma_pow2_unfold(k + 1);
        lemma_pow2_strictly_increases(0, k);
        lemma_pow2_unfold(54);
        let q: int = pow2(k + 1) as int;
        let num: int = 2 * sig + pow2(k) as int;
        let c: int = pow2(53) as int;
        assert(num < q * c) by (nonlinear_arith)
            requires
                sig < c,
                num == 2 * sig + pow2(k),
                q == 2 * pow2(k),
                pow2(k) >= 2,
                c >= 2,
        ;
        lemma_fundamental_div_mod(num, q);
        assert(num / q < c) by (nonlinear_arith)
            requires
                num == q * (num / q) + num % q,
                0 <= num % q,
                num < q * c,
                q > 0,
        ;
    }
}

/// The magnitude of a finite float in units of `2^-1074`, the smallest step between floats:
/// an exact integer, so that magnitudes at different scales compare directly.
pub open spec fn magnitude_units(bits: u64) -> nat {
    significand(bits) * pow2((scale(bits) + 1074) as nat)
}

/// Rounding, stated over the magnitude in units: add one half and drop the fraction.
proof fn lemma_rounded_in_units(bits: u64)
    requires
        exponent_field(bits) != EXPONENT_MAX,
    ensures
        rounded_magnitude(bits) == (2 * magnitude_units(bits) + pow2(1074)) as int / (pow2(1075) as int),
{
    lemma_significand_bounds(bits);
    let sig = significand(bits);
    let c = pow2(1074);
    lemma_pow2_pos(1074);
    lemma_pow2_unfold(1075);
    let num: int = 2 * magnitude_units(bits) + c as int;
    if scale(bits) >= 0 {
        let sc = scale(bits) as nat;
        let r = sig * pow2(sc);
        lemma_pow2_adds(sc, 1074);
        assert(num == c * (2 * r + 1)) by (nonlinear_arith)
            requires
                num == 2 * (sig * pow2((sc + 1074) as nat)) + c,
                pow2((sc + 1074) as nat) == pow2(sc) * c,
                r == sig * pow2(sc),
        ;
        lemma_div_multiples_vanish((2 * r + 1) as int, c as int);
        lemma_div_denominator(num, c as int, 2);
        assert(c * 2 == pow2(1075));
    } else {
        let k = (-scale(bits)) as nat;
        let t = (1074 - k) as nat;
        let a: int = 2 * sig + pow2(k) as int;
        lemma_pow2_adds(t, k);
        lemma_pow2_adds(t, k + 1);
        lemma_pow2_pos(t);
        lemma_pow2_pos(k + 1);
        assert(num == pow2(t) * a) by (nonlinear_arith)
            requires
                num == 2 * (sig * pow2(t)) + c,
                c == pow2(t) * pow2(k),
                a == 2 * sig + pow2(k),
        ;
        lemma_div_multiples_vanish(a, pow2(t) as int);
        lemma_div_denominator(num, pow2(t) as int, pow2(k + 1) as int);
    }
}

/// Rounding keeps order: of two finite floats, the larger magnitude never rounds to the
/// smaller integer.
pub proof fn lemma_rounding_is_monotone(b1: u64, b2: u64)
    requires
        exponent_field(b1) != EXPONENT_MAX,
        exponent_field(b2) != EXPONENT_MAX,
        magnitude_units(b1) <= magnitude_units(b2),
    ensures
        rounded_magnitude(b1) <= rounded_magnitude(b2),
{
    lemma_rounded_in_units(b1);
    lemma_rounded_in_units(b2);
    lemma_pow2_pos(1075);
    lemma_div_is_ordered(
        (2 * magnitude_units(b1) + pow2(1074)) as int,
        (2 * magnitude_units(b2) + pow2(1074)) as int,
        pow2(1075) as int,
    );
}

} // verus!
