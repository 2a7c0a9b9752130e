//! Numbers of documents are IEEE-754 binary64 values. The library keeps them as
//! their 64-bit encodings and compares them as binary64 values compare: the
//! sign bit, then the magnitude (exponent and fraction bits read as one
//! unsigned integer, which orders finite values and infinities by size).

use vstd::prelude::*;

use std::cmp::Ordering;

verus! {

/// The sign bit of a binary64 encoding.
pub const SIGN_BIT: u64 = 0x8000_0000_0000_0000;

/// The encoding of positive infinity; magnitudes above it are NaNs.
pub const INFINITY_BITS: u64 = 0x7ff0_0000_0000_0000;

/// 2 to the 52nd: the scale of the fraction field.
pub const FRACTION_SCALE: u64 = 0x0010_0000_0000_0000;

pub open spec fn f64_negative(b: u64) -> bool {
    b >= SIGN_BIT
}

/// The encoding without its sign bit.
pub open spec fn f64_magnitude(b: u64) -> u64 {
    if b >= SIGN_BIT {
        (b - SIGN_BIT) as u64
    } else {
        b
    }
}

pub open spec fn f64_is_nan(b: u64) -> bool {
    f64_magnitude(b) > INFINITY_BITS
}

/// An integer that orders non-NaN encodings as their values are ordered;
/// both zeros get 0.
pub open spec fn f64_order_key(b: u64) -> int {
    if f64_negative(b) {
        -(f64_magnitude(b) as int)
    } else {
        f64_magnitude(b) as int
    }
}

/// `f64::partial_cmp` on the values that the encodings stand for.
pub open spec fn f64_partial_cmp(a: u64, b: u64) -> Option<Ordering> {
    if f64_is_nan(a) || f64_is_nan(b) {
        None
    } else if f64_order_key(a) < f64_order_key(b) {
        Some(Ordering::Less)
    } else if f64_order_key(a) == f64_order_key(b) {
        Some(Ordering::Equal)
    } else {
        Some(Ordering::Greater)
    }
}

/// `==` on the values that the encodings stand for (NaN equals nothing,
/// the two zeros are equal).
pub open spec fn f64_eq(a: u64, b: u64) -> bool {
    !f64_is_nan(a) && !f64_is_nan(b) && f64_order_key(a) == f64_order_key(b)
}

pub open spec fn two_pow(e: nat) -> nat
    decreases e,
{
    if e == 0 {
        1
    } else {
        2 * two_pow((e - 1) as nat)
    }
}

/// `b` encodes the positive integer `n` exactly: with exponent field `e` and
/// fraction field `f`, the value `(2^52 + f) * 2^(e - 1075)` equals `n`.
pub open spec fn f64_encodes_int(b: u64, n: nat) -> bool {
    let e = b / FRACTION_SCALE;
    let f = b % FRACTION_SCALE;
    &&& 1023 <= e <= 1075
    &&& FRACTION_SCALE + f == n * two_pow((1075 - e) as nat)
}

/// Compares two encoded numbers as `f64::partial_cmp` does.
pub fn number_partial_cmp(a: u64, b: u64) -> (r: Option<Ordering>)
    ensures
        r == f64_partial_cmp(a, b),
{
    let am = if a >= SIGN_BIT { a - SIGN_BIT } else { a };
    let bm = if b >= SIGN_BIT { b - SIGN_BIT } else { b };
    if am > INFINITY_BITS || bm > INFINITY_BITS {
        return None;
    }
    let an = a >= SIGN_BIT;
    let bn = b >= SIGN_BIT;
    if !an && !bn {
        if am < bm {
            Some(Ordering::Less)
        } else if am == bm {
            Some(Ordering::Equal)
        } else {
            Some(Ordering::Greater)
        }
    } else if an && bn {
        if bm < am {
            Some(Ordering::Less)
        } else if am == bm {
            Some(Ordering::Equal)
        } else {
            Some(Ordering::Greater)
        }
    } else if am == 0 && bm == 0 {
        Some(Ordering::Equal)
    } else if an {
        Some(Ordering::Less)
    } else {
        Some(Ordering::Greater)
    }
}

/// Whether two encoded numbers are equal as `f64` values.
pub fn number_eq(a: u64, b: u64) -> (r: bool)
    ensures
        r == f64_eq(a, b),
{
    match number_partial_cmp(a, b) {
        Some(Ordering::Equal) => true,
        _ => false,
    }
}

proof fn lemma_two_pow_52()
    ensures
        two_pow(52) == FRACTION_SCALE,
{
    reveal_with_fuel(two_pow, 53);
}

/// How many low bits of `n` are cut off when `n` is brought below 2^53 by
/// halving.
pub open spec fn dropped_bits(n: nat) -> nat
    decreases n,
{
    if n < 2 * FRACTION_SCALE {
        0
    } else {
        1 + dropped_bits(n / 2)
    }
}

/// Whether keeping `n / 2^k` of `n` rounds up: the part cut off is more than
/// half a unit of the kept part, or exactly half and the kept part is odd
/// (round to nearest, ties to even).
pub open spec fn rounds_up(n: nat, k: nat) -> bool {
    let r = n % two_pow(k);
    2 * r > two_pow(k) || (2 * r == two_pow(k) && (n / two_pow(k)) % 2 == 1)
}

/// The binary64 encoding of an integer `n >= 2^53`: `n` rounded to the
/// nearest value with 53 significant bits, ties to even. The rounded
/// significand `m` stands for `m * 2^k`; when rounding carries it to 2^53 the
/// exponent grows by one.
pub open spec fn f64_bits_of_large(n: nat) -> nat {
    let k = dropped_bits(n);
    let q = n / two_pow(k);
    let m = if rounds_up(n, k) { q + 1 } else { q };
    if m == 2 * FRACTION_SCALE {
        ((1076 + k) * FRACTION_SCALE) as nat
    } else {
        ((1075 + k) * FRACTION_SCALE + (m - FRACTION_SCALE)) as nat
    }
}

proof fn lemma_two_pow_positive(k: nat)
    ensures
        two_pow(k) > 0,
    decreases k,
{
    if k > 0 {
        lemma_two_pow_positive((k - 1) as nat);
    }
}

/// One more halving: the quotient halves, and the remainder is non-zero when
/// the dropped bit or a lower one is set.
proof fn lemma_halving_step(n: nat, j: nat)
    ensures
        n / two_pow(j + 1) == (n / two_pow(j)) / 2,
        (n % two_pow(j + 1) != 0) == ((n / two_pow(j)) % 2 == 1 || n % two_pow(j) != 0),
        n % two_pow(j + 1) == two_pow(j) * ((n / two_pow(j)) % 2) + n % two_pow(j),
{
    lemma_two_pow_positive(j);
    assert(two_pow(j + 1) == two_pow(j) * 2);
    vstd::arithmetic::div_mod::lemma_div_denominator(n as int, two_pow(j) as int, 2);
    vstd::arithmetic::div_mod::lemma_mod_breakdown(n as int, two_pow(j) as int, 2);
    let p = two_pow(j);
    let bit = (n / p) % 2;
    if bit == 0 {
        assert(p * bit == 0) by (nonlinear_arith)
            requires
                bit == 0,
        ;
    } else {
        assert(p * bit == p) by (nonlinear_arith)
            requires
                bit == 1,
        ;
    }
}

/// The rounding decision read from the last dropped bit and the bits below it.
proof fn lemma_rounding_bits(n: nat, k: nat)
    requires
        k > 0,
    ensures
        rounds_up(n, k) == ((n / two_pow((k - 1) as nat)) % 2 == 1 && (n % two_pow((k - 1) as nat) != 0
            || (n / two_pow(k)) % 2 == 1)),
{
    let j = (k - 1) as nat;
    lemma_halving_step(n, j);
    lemma_two_pow_positive(j);
    assert(j + 1 == k);
    vstd::arithmetic::div_mod::lemma_mod_pos_bound(n as int, two_pow(j) as int);
    let p = two_pow(j);
    let bit = (n / p) % 2;
    if bit == 0 {
        assert(p * bit == 0) by (nonlinear_arith)
            requires
                bit == 0,
        ;
    } else {
        assert(p * bit == p) by (nonlinear_arith)
            requires
                bit == 1,
        ;
    }
}

/// `k` halvings bring `n` below 2^53 and `k - 1` do not: `k` is the number of
/// dropped bits.
proof fn lemma_dropped_bits(n: nat, k: nat)
    requires
        n / two_pow(k) < 2 * FRACTION_SCALE,
        k > 0 ==> n / two_pow((k - 1) as nat) >= 2 * FRACTION_SCALE,
    ensures
        dropped_bits(n) == k,
    decreases k,
{
    if k == 0 {
        assert(two_pow(0) == 1);
    } else {
        let j = (k - 1) as nat;
        lemma_two_pow_positive(j);
        vstd::arithmetic::div_mod::lemma_div_is_ordered_by_denominator(n as int, 1, two_pow(j) as int);
        assert(n / 1 == n);
        assert(n >= 2 * FRACTION_SCALE);
        if j > 0 {
            lemma_halving_step(n, (j - 1) as nat);
            lemma_halving_step(n / 2, 0);
        }
        lemma_halving_step(n, j);
        lemma_div_pow_shift(n, j);
        if j > 0 {
            lemma_div_pow_shift(n, (j - 1) as nat);
        }
        lemma_dropped_bits(n / 2, j);
    }
}

/// Halving first and then dividing by 2^j is dividing by 2^(j+1).
proof fn lemma_div_pow_shift(n: nat, j: nat)
    ensures
        (n / 2) / two_pow(j) == n / two_pow(j + 1),
{
    lemma_two_pow_positive(j);
    assert(two_pow(j + 1) == 2 * two_pow(j));
    vstd::arithmetic::div_mod::lemma_div_denominator(n as int, 2, two_pow(j) as int);
}

/// The encoding of the negation of the number that `b` encodes (for `b`
/// without its sign bit).
pub open spec fn with_sign_bit(b: u64) -> u64 {
    (b + SIGN_BIT) as u64
}

proof fn lemma_two_pow_add(a: nat, b: nat)
    ensures
        two_pow(a + b) == two_pow(a) * two_pow(b),
    decreases b,
{
    if b > 0 {
        lemma_two_pow_add(a, (b - 1) as nat);
        assert(two_pow(a + b) == 2 * two_pow((a + b - 1) as nat));
        assert(two_pow(b) == 2 * two_pow((b - 1) as nat));
        let p = two_pow(a);
        let q = two_pow((b - 1) as nat);
        assert(p * (2 * q) == 2 * (p * q)) by (nonlinear_arith);
    } else {
        assert(two_pow(a) * 1 == two_pow(a));
    }
}

/// With `e` the exponent field of an encoding of the whole number `n`, and
/// `e2` that of the whole number `m`: a larger exponent means a larger number.
proof fn lemma_encodes_int_exponent(b: u64, c: u64, n: nat, m: nat)
    requires
        f64_encodes_int(b, n),
        f64_encodes_int(c, m),
        b / FRACTION_SCALE < c / FRACTION_SCALE,
    ensures
        n < m,
{
    let k = (1075 - b / FRACTION_SCALE) as nat;
    let k2 = (1075 - c / FRACTION_SCALE) as nat;
    let d = (k - k2) as nat;
    lemma_two_pow_add(k2, d);
    assert(k2 + d == k);
    lemma_two_pow_monotone(1, d);
    assert(two_pow(1) == 2) by {
        reveal_with_fuel(two_pow, 2);
    }
    lemma_two_pow_positive(k2);
    lemma_two_pow_52();
    let p = two_pow(k2);
    let t = two_pow(d);
    assert(n * two_pow(k) < 2 * FRACTION_SCALE);
    assert(m * p >= FRACTION_SCALE);
    assert(n * (p * t) < 2 * FRACTION_SCALE);
    assert(n < m) by (nonlinear_arith)
        requires
            n * (p * t) < 2 * FRACTION_SCALE,
            m * p >= FRACTION_SCALE,
            t >= 2,
            p > 0,
    ;
}

/// Encodings of whole numbers below 2^53 are ordered as the numbers are, and
/// each number has one encoding; none has the sign bit.
pub proof fn lemma_encodes_int_order(b: u64, c: u64, n: nat, m: nat)
    requires
        f64_encodes_int(b, n),
        f64_encodes_int(c, m),
    ensures
        n < m ==> b < c,
        n == m ==> b == c,
        b < SIGN_BIT,
        c < SIGN_BIT,
{
    let e = b / FRACTION_SCALE;
    let e2 = c / FRACTION_SCALE;
    let f = b % FRACTION_SCALE;
    let f2 = c % FRACTION_SCALE;
    assert(b == e * FRACTION_SCALE + f);
    assert(c == e2 * FRACTION_SCALE + f2);
    if e > e2 {
        lemma_encodes_int_exponent(c, b, m, n);
    } else if e < e2 {
        lemma_encodes_int_exponent(b, c, n, m);
    } else {
        let k = (1075 - e) as nat;
        lemma_two_pow_positive(k);
        let p = two_pow(k);
        if n < m {
            assert(n * p < m * p) by (nonlinear_arith)
                requires
                    n < m,
                    p > 0,
            ;
        }
        if m < n {
            assert(m * p < n * p) by (nonlinear_arith)
                requires
                    m < n,
                    p > 0,
            ;
        }
    }
}

/// `b` is the binary64 encoding of the whole number `n`, as `n as f64` gives
/// it: exact below 2^53, rounded to nearest (ties to even) above.
pub open spec fn f64_encodes_count(b: u64, n: u64) -> bool {
    if n == 0 {
        b == 0
    } else if n < 2 * FRACTION_SCALE {
        f64_encodes_int(b, n as nat)
    } else {
        b == f64_bits_of_large(n as nat)
    }
}

/// `b` encodes a whole number of the `u64` range (such as a count of
/// milliseconds).
pub open spec fn f64_is_count(b: u64) -> bool {
    exists|n: u64| #[trigger] f64_encodes_count(b, n)
}

/// The binary64 encoding of a count of milliseconds, as `n as f64` gives it:
/// counts below 2^53 are encoded exactly, larger ones are rounded to the
/// nearest value with 53 significant bits, ties to even.
pub fn f64_bits_from_u64(n: u64) -> (b: u64)
    ensures
        n == 0 ==> b == 0,
        0 < n < 2 * FRACTION_SCALE ==> f64_encodes_int(b, n as nat),
        n >= 2 * FRACTION_SCALE ==> b == f64_bits_of_large(n as nat),
        f64_encodes_count(b, n),
        n > 0 ==> 0 < b < INFINITY_BITS,
        !f64_is_nan(b),
        !f64_negative(b),
{
    if n == 0 {
        return 0;
    }
    proof {
        lemma_two_pow_52();
        assert(two_pow(0) == 1);
        assert(n * two_pow(0) == n) by (nonlinear_arith)
            requires
                two_pow(0) == 1,
        ;
    }
    let mut m: u64 = n;
    let mut e: u64 = 1075;
    if n >= 2 * FRACTION_SCALE {
        // Drops low bits and rounds to nearest, ties to even, as `as f64` does.
        let mut round_bit = false;
        let mut sticky = false;
        proof {
            assert((n as nat) / two_pow(0) == n);
        }
        while m >= 2 * FRACTION_SCALE
            invariant
                1075 <= e,
                e - 1075 < 64,
                m >= FRACTION_SCALE,
                m * two_pow((e - 1075) as nat) <= n,
                m == (n as nat) / two_pow((e - 1075) as nat),
                e == 1075 ==> !round_bit && !sticky,
                e > 1075 ==> round_bit == (((n as nat) / two_pow((e - 1076) as nat)) % 2 == 1),
                e > 1075 ==> sticky == ((n as nat) % two_pow((e - 1076) as nat) != 0),
                e > 1075 ==> (n as nat) / two_pow((e - 1076) as nat) >= 2 * FRACTION_SCALE,
            decreases m,
        {
            proof {
                let k = (e - 1075) as nat;
                lemma_two_pow_bound(k, m, n);
                assert(two_pow((e + 1 - 1075) as nat) == 2 * two_pow((e - 1075) as nat));
                assert((m / 2) * (2 * two_pow((e - 1075) as nat)) <= m * two_pow((e - 1075) as nat)) by (nonlinear_arith)
                    requires
                        m > 0,
                ;
                lemma_halving_step(n as nat, k);
                assert(k + 1 == (e + 1 - 1075) as nat);
                if k > 0 {
                    lemma_halving_step(n as nat, (k - 1) as nat);
                    assert((k - 1) as nat + 1 == k);
                } else {
                    assert((n as nat) % two_pow(0) == 0);
                }
            }
            sticky = sticky || round_bit;
            round_bit = m % 2 == 1;
            m = m / 2;
            e = e + 1;
        }
        proof {
            let k = (e - 1075) as nat;
            lemma_two_pow_bound_small(k, m, n);
            if e == 1075 {
                assert((n as nat) / two_pow(0) == n);
            }
            assert(e > 1075);
            assert((k - 1) as nat == (e - 1076) as nat);
            lemma_dropped_bits(n as nat, k);
            lemma_rounding_bits(n as nat, k);
        }
        let ghost q = m;
        let ghost k = (e - 1075) as nat;
        if round_bit && (sticky || m % 2 == 1) {
            m = m + 1;
            if m == 2 * FRACTION_SCALE {
                m = FRACTION_SCALE;
                e = e + 1;
            }
        }
        proof {
            assert(e * FRACTION_SCALE + (m - FRACTION_SCALE) == f64_bits_of_large(n as nat));
        }
    } else {
        while m < FRACTION_SCALE
            invariant
                0 < m < 2 * FRACTION_SCALE,
                1023 <= e <= 1075,
                m == n * two_pow((1075 - e) as nat),
                two_pow((1075 - e) as nat) <= m,
            decreases 2 * FRACTION_SCALE - m,
        {
            proof {
                lemma_two_pow_52();
                if e == 1023 {
                    assert(two_pow(52) <= m);
                }
                assert(two_pow((1075 - (e - 1)) as nat) == 2 * two_pow((1075 - e) as nat));
                assert(2 * (n * two_pow((1075 - e) as nat)) == n * (2 * two_pow((1075 - e) as nat))) by (nonlinear_arith);
            }
            m = m * 2;
            e = e - 1;
        }
    }
    let b = e * FRACTION_SCALE + (m - FRACTION_SCALE);
    proof {
        assert(b / FRACTION_SCALE == e && b % FRACTION_SCALE == m - FRACTION_SCALE) by (nonlinear_arith)
            requires
                b == e * FRACTION_SCALE + (m - FRACTION_SCALE),
                FRACTION_SCALE <= m < 2 * FRACTION_SCALE,
        ;
    }
    b
}

proof fn lemma_two_pow_bound(k: nat, m: u64, n: u64)
    requires
        m * two_pow(k) <= n,
        m >= 2 * FRACTION_SCALE,
    ensures
        k < 11,
{
    lemma_two_pow_52();
    if k >= 11 {
        lemma_two_pow_monotone(11, k);
        assert(two_pow(11) == 2048) by {
            reveal_with_fuel(two_pow, 12);
        }
        assert(m * two_pow(k) >= 2 * FRACTION_SCALE * 2048) by (nonlinear_arith)
            requires
                m >= 2 * FRACTION_SCALE,
                two_pow(k) >= 2048,
        ;
    }
}

proof fn lemma_two_pow_bound_small(k: nat, m: u64, n: u64)
    requires
        m * two_pow(k) <= n,
        m >= FRACTION_SCALE,
    ensures
        k <= 12,
{
    lemma_two_pow_52();
    if k > 12 {
        lemma_two_pow_monotone(13, k);
        assert(two_pow(13) == 8192) by {
            reveal_with_fuel(two_pow, 14);
        }
        assert(m * two_pow(k) >= FRACTION_SCALE * 8192) by (nonlinear_arith)
            requires
                m >= FRACTION_SCALE,
                two_pow(k) >= 8192,
        ;
    }
}

proof fn lemma_two_pow_monotone(a: nat, b: nat)
    requires
        a <= b,
    ensures
        two_pow(a) <= two_pow(b),
    decreases b,
{
    if a < b {
        lemma_two_pow_monotone(a, (b - 1) as nat);
    }
}

} // verus!
