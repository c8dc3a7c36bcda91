//! The ITU-T G.191 basic operators: the 16/32-bit saturating
//! fixed-point operator set that Appendix IV (packet-loss concealment)
//! is specified against.
//!
//! Conventions:
//!
//! - 16-bit values travel as `i32` restricted to `-32768 ..= 32767`;
//!   every operator producing a 16-bit result saturates into that range.
//! - 32-bit values travel as `i32` over their full range.
//! - Every operator saturates at its own output width; no wider
//!   accumulator survives from one operator to the next.
//! - Right shifts are arithmetic (floor division by a power of two):
//!   `shr(-1, 1) == -1`.
//!
//! Each operator's contract states its result over the integers: a
//! saturating operator is the clamp of the exact result.

use vstd::prelude::*;

use crate::predictor::{clamp16, in16};

verus! {

/// Upper 16-bit rail.
pub const MAX_16: i32 = 32_767;

/// Lower 16-bit rail.
pub const MIN_16: i32 = -32_768;

/// `2^e`.
pub open spec fn two_pow(e: nat) -> int
    decreases e,
{
    if e == 0 {
        1
    } else {
        2 * two_pow((e - 1) as nat)
    }
}

/// Saturation into the signed 32-bit range.
pub open spec fn clamp32(x: int) -> int {
    if x > 2147483647 {
        2147483647
    } else if x < -2147483648 {
        -2147483648
    } else {
        x
    }
}

/// A 16-bit arithmetic right shift by `k >= 0` (counts of 15 or more
/// give the sign).
pub open spec fn shr16_spec(a: int, k: int) -> int {
    if k >= 15 {
        if a < 0 {
            -1
        } else {
            0
        }
    } else {
        a / two_pow(k as nat)
    }
}

/// `shl(a, n)`: saturating multiply by `2^n`; a negative count shifts
/// right by `-n`.
pub open spec fn shl_spec(a: int, n: int) -> int {
    if n < 0 {
        shr16_spec(a, -n)
    } else {
        clamp16(a * two_pow(n as nat))
    }
}

/// `shr(a, n)`: arithmetic right shift by `n`; a negative count shifts
/// left, saturating, by `-n`.
pub open spec fn shr_spec(a: int, n: int) -> int {
    if n < 0 {
        clamp16(a * two_pow((-n) as nat))
    } else {
        shr16_spec(a, n)
    }
}

/// `L_shl(a, n)`: saturating multiply by `2^n` in 32 bits; a negative
/// count shifts right by `-n`.
pub open spec fn l_shl_spec(a: int, n: int) -> int {
    if n < 0 {
        a / two_pow((-n) as nat)
    } else {
        clamp32(a * two_pow(n as nat))
    }
}

/// `L_shr(a, n)`: arithmetic right shift by `n` in 32 bits; a negative
/// count shifts left, saturating, by `-n`.
pub open spec fn l_shr_spec(a: int, n: int) -> int {
    if n < 0 {
        clamp32(a * two_pow((-n) as nat))
    } else {
        a / two_pow(n as nat)
    }
}

/// Number of doublings that take a non-zero `v` out of `[-lim, lim)`;
/// 0 for `v == 0` or a `v` already outside.
pub open spec fn norm_shifts(v: int, lim: int) -> int
    decreases 2 * lim - (if v < 0 {
        -v
    } else {
        v
    }),
{
    if v == 0 || v < -lim || v >= lim || lim <= 0 {
        0
    } else {
        1 + norm_shifts(2 * v, lim)
    }
}

/// `mult(a, b)`: truncating Q15 product.
pub open spec fn mult_spec(a: int, b: int) -> int {
    clamp16((a * b) / 32768)
}

/// `mult_r(a, b)`: Q15 product rounded half up.
pub open spec fn mult_r_spec(a: int, b: int) -> int {
    clamp16((a * b + 16384) / 32768)
}

/// `L_mult(a, b)`: doubled product, saturated to 32 bits.
pub open spec fn l_mult_spec(a: int, b: int) -> int {
    clamp32(2 * a * b)
}

/// `L_mac(acc, a, b)`: `acc + L_mult(a, b)`, saturated.
pub open spec fn l_mac_spec(acc: int, a: int, b: int) -> int {
    clamp32(acc + l_mult_spec(a, b))
}

/// `round(a)`: the upper 16 bits of `a + 2^15`, the addition saturated.
pub open spec fn round_spec(a: int) -> int {
    clamp32(a + 32768) / 65536
}

/// `Mpy_32`: product of two double-precision `(hi, lo)` values.
pub open spec fn mpy_32_spec(hi1: int, lo1: int, hi2: int, lo2: int) -> int {
    l_mac_spec(l_mac_spec(l_mult_spec(hi1, hi2), mult_spec(hi1, lo2), 1), mult_spec(lo1, hi2), 1)
}

/// `Mpy_32_16`: product of a double-precision `(hi, lo)` value and a
/// 16-bit value.
pub open spec fn mpy_32_16_spec(hi: int, lo: int, v: int) -> int {
    l_mac_spec(l_mult_spec(hi, v), mult_spec(lo, v), 1)
}

// -----------------------------------------------------------------------
// Shifts as arithmetic
// -----------------------------------------------------------------------

/// Shifts by one and by zero, bit by bit.
proof fn lemma_shift_bits()
    by (bit_vector)
    ensures
        forall|a: i32, k: u32| k < 31 ==> #[trigger] (a >> ((k + 1) as u32)) == ((a >> k) >> 1u32),
        forall|x: i32| #[trigger] (x >> 1u32) == x / 2,
        forall|x: i32| #[trigger] (x >> 0u32) == x,
        forall|a: i64, k: u32| k < 63 ==> #[trigger] (a << ((k + 1) as u32)) == ((a << k) << 1u32),
        forall|x: i64|
            -0x4000_0000_0000_0000 <= x < 0x4000_0000_0000_0000 ==> #[trigger] (x << 1u32) == 2 * x,
        forall|x: i64| #[trigger] (x << 0u32) == x,
{
}

/// One more place of an `i64` right shift is one more halving.
proof fn lemma_shr64_step(a: i64, j: u32)
    by (bit_vector)
    requires
        j < 63,
    ensures
        (a >> ((j + 1) as u32)) == ((a >> j) >> 1u32),
        (a >> 0u32) == a,
{
}

/// An `i64` right shift by one is the floor halving.
proof fn lemma_shr64_half(s: i64)
    by (bit_vector)
    ensures
        (s >> 1u32) as int == s as int / 2,
{
}

/// Floor division by `c` and then by `d` is floor division by `c * d`.
proof fn lemma_floor_div_twice(x: int, c: int, d: int)
    requires
        c > 0,
        d > 0,
    ensures
        (x / c) / d == x / (c * d),
        c * d > 0,
{
    assert(c * d > 0) by (nonlinear_arith)
        requires
            c > 0,
            d > 0,
    ;
    let q = x / (c * d);
    let r = x % (c * d);
    vstd::arithmetic::div_mod::lemma_fundamental_div_mod(x, c * d);
    vstd::arithmetic::div_mod::lemma_fundamental_div_mod(r, c);
    assert(0 <= r < c * d);
    let r1 = r / c;
    let r0 = r % c;
    assert(0 <= r0 < c);
    assert(x == c * (d * q + r1) + r0) by (nonlinear_arith)
        requires
            x == (c * d) * q + r,
            r == c * r1 + r0,
    ;
    vstd::arithmetic::div_mod::lemma_fundamental_div_mod_converse(x, c, d * q + r1, r0);
    assert(0 <= r1 < d) by (nonlinear_arith)
        requires
            0 <= r < c * d,
            r == c * r1 + r0,
            0 <= r0 < c,
            c > 0,
    ;
    vstd::arithmetic::div_mod::lemma_fundamental_div_mod_converse(d * q + r1, d, q, r1);
}

/// `2^e` is positive.
proof fn lemma_two_pow_pos(e: nat)
    ensures
        two_pow(e) > 0,
    decreases e,
{
    if e > 0 {
        lemma_two_pow_pos((e - 1) as nat);
    }
}

/// The powers of two that the operators reach.
proof fn lemma_two_pow_values()
    ensures
        two_pow(0) == 1,
        two_pow(1) == 2,
        two_pow(15) == 32768,
        two_pow(16) == 65536,
        two_pow(30) == 0x4000_0000,
        two_pow(31) == 0x8000_0000,
{
    reveal_with_fuel(two_pow, 32);
}

/// `2^e` is positive, doubles with `e`, and lies on the right side of
/// `2^15`, `2^30` and `2^31`.
pub proof fn lemma_two_pow(e: nat)
    ensures
        two_pow(e) > 0,
        two_pow(e + 1) == 2 * two_pow(e),
        e <= 15 ==> two_pow(e) <= 32768,
        e <= 30 ==> two_pow(e) <= 0x4000_0000,
        e <= 31 ==> two_pow(e) <= 0x8000_0000,
        e >= 15 ==> two_pow(e) >= 32768,
        e >= 31 ==> two_pow(e) >= 0x8000_0000,
{
    lemma_two_pow_pos(e);
    lemma_two_pow_values();
    if e <= 15 {
        lemma_two_pow_monotone(e, 15);
    }
    if e <= 30 {
        lemma_two_pow_monotone(e, 30);
    }
    if e <= 31 {
        lemma_two_pow_monotone(e, 31);
    }
    if e >= 15 {
        lemma_two_pow_monotone(15, e);
    }
    if e >= 31 {
        lemma_two_pow_monotone(31, e);
    }
}

/// An arithmetic right shift of an `i32` is the floor division by `2^k`.
pub proof fn lemma_shr_is_div(a: i32, k: u32)
    requires
        k < 32,
    ensures
        (a >> k) as int == a as int / two_pow(k as nat),
    decreases k,
{
    lemma_shift_bits();
    if k == 0 {
        assert((a >> 0u32) == a);
    } else {
        let j: u32 = (k - 1) as u32;
        lemma_shr_is_div(a, j);
        assert((a >> ((j + 1) as u32)) == ((a >> j) >> 1u32));
        let s: i32 = a >> j;
        assert((s >> 1u32) == s / 2);
        lemma_two_pow(j as nat);
        lemma_floor_div_twice(a as int, two_pow(j as nat), 2);
    }
}

/// An arithmetic right shift of an `i64` is the floor division by `2^k`.
pub proof fn lemma_shr64_is_div(a: i64, k: u32)
    requires
        k < 64,
    ensures
        (a >> k) as int == a as int / two_pow(k as nat),
    decreases k,
{
    lemma_shr64_step(a, 0);
    if k == 0 {
        assert((a >> 0u32) == a);
    } else {
        let j: u32 = (k - 1) as u32;
        lemma_shr64_is_div(a, j);
        lemma_shr64_step(a, j);
        let s: i64 = a >> j;
        lemma_shr64_half(s);
        lemma_two_pow(j as nat);
        lemma_floor_div_twice(a as int, two_pow(j as nat), 2);
    }
}

/// A left shift of an `i64` holding a 32-bit value by at most 31 places
/// is the multiplication by `2^k`.
pub proof fn lemma_shl_is_mul(a: i64, k: u32)
    requires
        k <= 31,
        -0x8000_0000 <= a <= 0x8000_0000,
    ensures
        (a << k) as int == a as int * two_pow(k as nat),
    decreases k,
{
    lemma_shift_bits();
    if k == 0 {
        assert((a << 0u32) == a);
    } else {
        let j: u32 = (k - 1) as u32;
        lemma_shl_is_mul(a, j);
        assert((a << ((j + 1) as u32)) == ((a << j) << 1u32));
        lemma_two_pow(j as nat);
        let s: i64 = a << j;
        assert(-0x4000_0000_0000_0000 <= s < 0x4000_0000_0000_0000) by (nonlinear_arith)
            requires
                s == a * two_pow(j as nat),
                0 < two_pow(j as nat) <= 0x4000_0000,
                -0x8000_0000 <= a <= 0x8000_0000,
        ;
        assert((s << 1u32) == 2 * s);
        assert(a as int * two_pow(k as nat) == 2 * (a as int * two_pow(j as nat))) by (nonlinear_arith)
            requires
                two_pow(k as nat) == 2 * two_pow(j as nat),
        ;
    }
}

// -----------------------------------------------------------------------
// Saturation
// -----------------------------------------------------------------------

fn sat16(x: i32) -> (r: i32)
    ensures
        r == clamp16(x as int),
{
    if x < MIN_16 {
        MIN_16
    } else if x > MAX_16 {
        MAX_16
    } else {
        x
    }
}

fn sat32(x: i64) -> (r: i32)
    ensures
        r == clamp32(x as int),
{
    if x < i32::MIN as i64 {
        i32::MIN
    } else if x > i32::MAX as i64 {
        i32::MAX
    } else {
        x as i32
    }
}

// -----------------------------------------------------------------------
// 16-bit operators
// -----------------------------------------------------------------------

/// `add(v1, v2)`: 16-bit addition with saturation.
pub fn add(a: i32, b: i32) -> (r: i32)
    requires
        in16(a as int),
        in16(b as int),
    ensures
        r == clamp16(a + b),
{
    sat16(a + b)
}

/// `sub(v1, v2)`: 16-bit subtraction with saturation.
pub fn sub(a: i32, b: i32) -> (r: i32)
    requires
        in16(a as int),
        in16(b as int),
    ensures
        r == clamp16(a - b),
{
    sat16(a - b)
}

/// `abs_s(v1)`: absolute value; `abs_s(-32768) == 32767`.
pub fn abs_s(a: i32) -> (r: i32)
    requires
        in16(a as int),
    ensures
        r == clamp16(if a < 0 {
            -a
        } else {
            a as int
        }),
{
    let m: i32 = if a < 0 {
        -a
    } else {
        a
    };
    sat16(m)
}

/// `negate(v1) = sub(0, v1)`: saturates for `-32768`.
pub fn negate(a: i32) -> (r: i32)
    requires
        in16(a as int),
    ensures
        r == clamp16(-a),
{
    self::sub(0, a)
}

/// `shl(v1, v2)`: arithmetic left shift with saturation, i.e. the
/// saturated product with `2^v2`; a negative count shifts right.
pub fn shl(a: i32, n: i32) -> (r: i32)
    requires
        in16(a as int),
        n != i32::MIN,
    ensures
        r == shl_spec(a as int, n as int),
    decreases (if n < 0 {
        1int
    } else {
        0int
    }),
{
    if n < 0 {
        shr(a, -n)
    } else {
        let k: u32 = if n < 31 {
            n as u32
        } else {
            31
        };
        let v: i64 = (a as i64) << k;
        proof {
            lemma_shl_is_mul(a as i64, k);
            lemma_two_pow(n as nat);
            lemma_two_pow_values();
            if n >= 31 {
                lemma_saturates16(a as int, two_pow(31), two_pow(n as nat));
            }
        }
        let w: i64 = if v < MIN_16 as i64 {
            MIN_16 as i64
        } else if v > MAX_16 as i64 {
            MAX_16 as i64
        } else {
            v
        };
        w as i32
    }
}

/// `shr(v1, v2)`: arithmetic right shift (floor division by `2^v2`);
/// counts of 15 or more give the sign; a negative count shifts left.
pub fn shr(a: i32, n: i32) -> (r: i32)
    requires
        in16(a as int),
        n != i32::MIN,
    ensures
        r == shr_spec(a as int, n as int),
    decreases (if n < 0 {
        1int
    } else {
        0int
    }),
{
    if n < 0 {
        shl(a, -n)
    } else if n >= 15 {
        if a < 0 {
            -1
        } else {
            0
        }
    } else {
        proof {
            lemma_shr_is_div(a, n as u32);
        }
        a >> (n as u32)
    }
}

/// `norm_s(v1)`: number of left shifts that bring a non-zero 16-bit
/// value into `[16384, 32767]` or `[-32768, -16384]`; `norm_s(0) == 0`.
pub fn norm_s(a: i32) -> (r: i32)
    requires
        in16(a as int),
    ensures
        r == norm_shifts(a as int, 16384),
        0 <= r <= 15,
{
    if a == 0 {
        return 0;
    }
    let mut v: i32 = a;
    let mut n: i32 = 0;
    while -16_384 <= v && v < 16_384
        invariant
            v != 0,
            in16(v as int),
            0 <= n <= 15,
            v as int == a * two_pow(n as nat),
            norm_shifts(a as int, 16384) == n + norm_shifts(v as int, 16384),
            v <= -two_pow(n as nat) || v >= two_pow(n as nat),
        decreases 32768 - (if v < 0 {
            -v
        } else {
            v as int
        }),
    {
        proof {
            lemma_two_pow(n as nat);
            lemma_two_pow_values();
            assert(2 * v == a * two_pow((n + 1) as nat)) by (nonlinear_arith)
                requires
                    v == a * two_pow(n as nat),
                    two_pow((n + 1) as nat) == 2 * two_pow(n as nat),
            ;
        }
        v = v * 2;
        n = n + 1;
    }
    n
}

/// `mult(v1, v2)`: truncating Q15 product `(v1 * v2) >> 15`;
/// `mult(-32768, -32768) == 32767`.
pub fn mult(a: i32, b: i32) -> (r: i32)
    requires
        in16(a as int),
        in16(b as int),
    ensures
        r == mult_spec(a as int, b as int),
{
    proof {
        lemma_product16(a as int, b as int);
    }
    let p: i32 = a * b;
    proof {
        lemma_shr_is_div(p, 15);
        lemma_two_pow_values();
    }
    sat16(p >> 15)
}

/// `mult_r(v1, v2)`: Q15 product rounded half up,
/// `(v1 * v2 + 16384) >> 15`; `mult_r(-32768, -32768) == 32767`.
pub fn mult_r(a: i32, b: i32) -> (r: i32)
    requires
        in16(a as int),
        in16(b as int),
    ensures
        r == mult_r_spec(a as int, b as int),
{
    proof {
        lemma_product16(a as int, b as int);
    }
    let p: i32 = a * b + 16_384;
    proof {
        lemma_shr_is_div(p, 15);
        lemma_two_pow_values();
    }
    sat16(p >> 15)
}

/// Products of two 16-bit values stay within `[-2^30 + 2^15, 2^30]`.
proof fn lemma_product16(a: int, b: int)
    requires
        in16(a),
        in16(b),
    ensures
        -1073709056 <= a * b <= 1073741824,
{
    assert(-1073709056 <= a * b <= 1073741824) by (nonlinear_arith)
        requires
            -32768 <= a <= 32767,
            -32768 <= b <= 32767,
    ;
}

/// `2^e` grows with `e`.
proof fn lemma_two_pow_monotone(e1: nat, e2: nat)
    requires
        e1 <= e2,
    ensures
        two_pow(e1) <= two_pow(e2),
    decreases e2,
{
    if e1 < e2 {
        lemma_two_pow_monotone(e1, (e2 - 1) as nat);
        lemma_two_pow_pos((e2 - 1) as nat);
    }
}

/// Once a product with `2^31` saturates, every larger power saturates
/// the same way.
proof fn lemma_saturates16(a: int, p31: int, p: int)
    requires
        p31 == 0x8000_0000,
        p >= p31,
    ensures
        clamp16(a * p31) == clamp16(a * p),
        clamp32(a * p31) == clamp32(a * p),
{
    if a > 0 {
        assert(a * p >= a * p31) by (nonlinear_arith)
            requires
                a > 0,
                p >= p31,
        ;
    } else if a < 0 {
        assert(a * p <= a * p31) by (nonlinear_arith)
            requires
                a < 0,
                p >= p31,
        ;
    }
}

// -----------------------------------------------------------------------
// 32-bit operators
// -----------------------------------------------------------------------

/// `L_mult(v1, v2)`: `2 * v1 * v2` in 32 bits; only
/// `L_mult(-32768, -32768)` saturates (to `2147483647`).
pub fn l_mult(a: i32, b: i32) -> (r: i32)
    requires
        in16(a as int),
        in16(b as int),
    ensures
        r == l_mult_spec(a as int, b as int),
{
    proof {
        lemma_product16(a as int, b as int);
        assert((2 * a) * b == 2 * (a * b)) by (nonlinear_arith);
    }
    sat32(2 * (a as i64) * (b as i64))
}

/// `L_mult0(v1, v2)`: `v1 * v2`, exact for 16-bit operands.
pub fn l_mult0(a: i32, b: i32) -> (r: i32)
    requires
        in16(a as int),
        in16(b as int),
    ensures
        r == a * b,
{
    proof {
        lemma_product16(a as int, b as int);
    }
    a * b
}

/// `L_add(L_v1, L_v2)`: 32-bit addition with saturation.
pub fn l_add(a: i32, b: i32) -> (r: i32)
    ensures
        r == clamp32(a + b),
{
    match a.checked_add(b) {
        Some(v) => v,
        None => {
            if b > 0 {
                i32::MAX
            } else {
                i32::MIN
            }
        },
    }
}

/// `L_sub(L_v1, L_v2)`: 32-bit subtraction with saturation.
pub fn l_sub(a: i32, b: i32) -> (r: i32)
    ensures
        r == clamp32(a - b),
{
    match a.checked_sub(b) {
        Some(v) => v,
        None => {
            if b < 0 {
                i32::MAX
            } else {
                i32::MIN
            }
        },
    }
}

/// `L_abs(L_v1)`: absolute value; `L_abs(-2147483648) == 2147483647`.
pub fn l_abs(a: i32) -> (r: i32)
    ensures
        r == clamp32(if a < 0 {
            -a
        } else {
            a as int
        }),
{
    if a == i32::MIN {
        i32::MAX
    } else if a < 0 {
        -a
    } else {
        a
    }
}

/// `L_mac(L_v3, v1, v2) = L_add(L_v3, L_mult(v1, v2))`: two saturation
/// points.
pub fn l_mac(acc: i32, a: i32, b: i32) -> (r: i32)
    requires
        in16(a as int),
        in16(b as int),
    ensures
        r == l_mac_spec(acc as int, a as int, b as int),
{
    l_add(acc, l_mult(a, b))
}

/// `L_mac0(L_v3, v1, v2) = L_add(L_v3, L_mult0(v1, v2))`.
pub fn l_mac0(acc: i32, a: i32, b: i32) -> (r: i32)
    requires
        in16(a as int),
        in16(b as int),
    ensures
        r == clamp32(acc + a * b),
{
    l_add(acc, l_mult0(a, b))
}

/// `L_msu(L_v3, v1, v2) = L_sub(L_v3, L_mult(v1, v2))`.
pub fn l_msu(acc: i32, a: i32, b: i32) -> (r: i32)
    requires
        in16(a as int),
        in16(b as int),
    ensures
        r == clamp32(acc - l_mult_spec(a as int, b as int)),
{
    l_sub(acc, l_mult(a, b))
}

/// `L_shl(L_v1, v2)`: 32-bit arithmetic left shift with saturation, i.e.
/// the saturated product with `2^v2`; a negative count shifts right.
pub fn l_shl(a: i32, n: i32) -> (r: i32)
    requires
        n != i32::MIN,
    ensures
        r == l_shl_spec(a as int, n as int),
    decreases (if n < 0 {
        1int
    } else {
        0int
    }),
{
    if n < 0 {
        l_shr(a, -n)
    } else if n >= 31 {
        proof {
            lemma_two_pow(n as nat);
            lemma_two_pow_values();
            lemma_saturates16(a as int, two_pow(31), two_pow(n as nat));
            if a > 0 {
                assert(a * two_pow(31) >= two_pow(31)) by (nonlinear_arith)
                    requires
                        a > 0,
                        two_pow(31) > 0,
                ;
            } else if a < 0 {
                assert(a * two_pow(31) <= -two_pow(31)) by (nonlinear_arith)
                    requires
                        a < 0,
                        two_pow(31) > 0,
                ;
            }
        }
        if a > 0 {
            i32::MAX
        } else if a < 0 {
            i32::MIN
        } else {
            0
        }
    } else {
        proof {
            lemma_shl_is_mul(a as i64, n as u32);
        }
        sat32((a as i64) << (n as u32))
    }
}

/// `L_shr(L_v1, v2)`: 32-bit arithmetic right shift (floor division by
/// `2^v2`); a negative count shifts left.
pub fn l_shr(a: i32, n: i32) -> (r: i32)
    requires
        n != i32::MIN,
    ensures
        r == l_shr_spec(a as int, n as int),
    decreases (if n < 0 {
        1int
    } else {
        0int
    }),
{
    if n < 0 {
        l_shl(a, -n)
    } else if n >= 31 {
        proof {
            lemma_two_pow(n as nat);
            lemma_two_pow_values();
            lemma_floor_small(a as int, two_pow(n as nat));
        }
        if a < 0 {
            -1
        } else {
            0
        }
    } else {
        proof {
            lemma_shr_is_div(a, n as u32);
        }
        a >> (n as u32)
    }
}

/// Floor division of a 32-bit value by a divisor of at least `2^31`.
proof fn lemma_floor_small(a: int, p: int)
    requires
        -0x8000_0000 <= a < 0x8000_0000,
        p >= 0x8000_0000,
    ensures
        a / p == (if a < 0 {
            -1int
        } else {
            0int
        }),
{
    if a < 0 {
        vstd::arithmetic::div_mod::lemma_fundamental_div_mod_converse(a, p, -1, a + p);
    } else {
        vstd::arithmetic::div_mod::lemma_fundamental_div_mod_converse(a, p, 0, a);
    }
}

/// `norm_l(L_v1)`: number of left shifts that bring a non-zero 32-bit
/// value into `[2^30, 2^31 - 1]` or `[-2^31, -2^30]`; `norm_l(0) == 0`.
pub fn norm_l(a: i32) -> (r: i32)
    ensures
        r == norm_shifts(a as int, 0x4000_0000),
        0 <= r <= 31,
{
    if a == 0 {
        return 0;
    }
    let mut v: i64 = a as i64;
    let mut n: i32 = 0;
    while -1_073_741_824 <= v && v < 1_073_741_824
        invariant
            v != 0,
            -0x8000_0000 <= v <= 0x8000_0000,
            0 <= n <= 31,
            v as int == a * two_pow(n as nat),
            norm_shifts(a as int, 0x4000_0000) == n + norm_shifts(v as int, 0x4000_0000),
            v <= -two_pow(n as nat) || v >= two_pow(n as nat),
        decreases 0x8000_0000 - (if v < 0 {
            -v
        } else {
            v as int
        }),
    {
        proof {
            lemma_two_pow(n as nat);
            lemma_two_pow_values();
            assert(2 * v == a * two_pow((n + 1) as nat)) by (nonlinear_arith)
                requires
                    v == a * two_pow(n as nat),
                    two_pow((n + 1) as nat) == 2 * two_pow(n as nat),
            ;
        }
        v = v * 2;
        n = n + 1;
    }
    n as i32
}

/// `extract_h(L_v1)`: the 16 MSBs (`L_v1 >> 16`), no saturation.
pub fn extract_h(a: i32) -> (r: i32)
    ensures
        r == a / 65536,
        in16(r as int),
{
    proof {
        lemma_shr_is_div(a, 16);
        lemma_two_pow_values();
    }
    a >> 16
}

/// `extract_l(L_v1)`: the 16 LSBs read as a signed 16-bit value; wraps,
/// no saturation.
pub fn extract_l(a: i32) -> (r: i32)
    ensures
        r == (if a as int % 65536 >= 32768 {
            a as int % 65536 - 65536
        } else {
            a as int % 65536
        }),
        in16(r as int),
{
    proof {
        assert(((a as i16) as i32) as int == (if a as int % 65536 >= 32768 {
            a as int % 65536 - 65536
        } else {
            a as int % 65536
        })) by (bit_vector);
    }
    (a as i16) as i32
}

/// `round(L_v1) = extract_h(L_add(L_v1, 32768))`: round half up, the
/// addition saturating first.
pub fn round_fx(a: i32) -> (r: i32)
    ensures
        r == round_spec(a as int),
        in16(r as int),
{
    extract_h(l_add(a, 32_768))
}

/// `L_deposit_h(v1)`: `v1` in the 16 MSBs, the 16 LSBs zero.
pub fn l_deposit_h(a: i32) -> (r: i32)
    requires
        in16(a as int),
    ensures
        r == a * 65536,
{
    proof {
        lemma_shl_is_mul(a as i64, 16);
        lemma_two_pow_values();
        assert(((a as i64) << 16u32) as i32 == a << 16u32) by (bit_vector);
    }
    a << 16
}

/// `div_s(v1, v2)`: fractional Q15 division of `0 <= v1 <= v2`,
/// truncated; `div_s(v, v) == 32767`.
pub fn div_s(a: i32, b: i32) -> (r: i32)
    requires
        0 <= a <= b,
        b > 0,
    ensures
        r == (if a == b {
            32767
        } else {
            a as int * 32768 / b as int
        }),
{
    if a == b {
        MAX_16
    } else {
        proof {
            lemma_shl_is_mul(a as i64, 15);
            lemma_two_pow_values();
            assert((a as int * 32768 / b as int) < 32768) by (nonlinear_arith)
                requires
                    0 <= a < b,
            ;
            assert((a as int * 32768 / b as int) >= 0) by (nonlinear_arith)
                requires
                    0 <= a,
                    0 < b,
            ;
        }
        (((a as i64) << 15) / (b as i64)) as i32
    }
}

/// The double-precision split `L = (hi << 16) + (lo << 1)`: `hi` the 16
/// MSBs, `lo` the next 15 bits (always in `0 .. 32768`).
pub fn l_extract(a: i32) -> (r: (i32, i32))
    ensures
        r.0 == a / 65536,
        r.1 == (a % 65536) / 2,
        in16(r.0 as int),
        0 <= r.1 < 32768,
{
    let hi: i32 = extract_h(a);
    let lo: i32 = extract_l(l_shr(l_sub(a, l_deposit_h(hi)), 1));
    proof {
        lemma_two_pow_values();
        assert(a - hi * 65536 == a % 65536);
    }
    (hi, lo)
}

/// Recombine an [`l_extract`] pair: `L = (hi << 16) + (lo << 1)`,
/// saturated.
pub fn l_comp(hi: i32, lo: i32) -> (r: i32)
    requires
        in16(hi as int),
        in16(lo as int),
    ensures
        r == clamp32(hi * 65536 + 2 * lo),
{
    proof {
        lemma_two_pow_values();
    }
    l_add(l_deposit_h(hi), l_shl(lo, 1))
}

/// Double-precision multiply of two `(hi, lo)` pairs: `L_mult` of the
/// high parts plus the two truncated cross products, each accumulated
/// with `L_mac` (the `lo * lo` term lies below one LSB and is dropped).
pub fn mpy_32(hi1: i32, lo1: i32, hi2: i32, lo2: i32) -> (r: i32)
    requires
        in16(hi1 as int),
        in16(lo1 as int),
        in16(hi2 as int),
        in16(lo2 as int),
    ensures
        r == mpy_32_spec(hi1 as int, lo1 as int, hi2 as int, lo2 as int),
{
    let mut l: i32 = l_mult(hi1, hi2);
    l = l_mac(l, mult(hi1, lo2), 1);
    l = l_mac(l, mult(lo1, hi2), 1);
    l
}

/// Double-precision by single-precision multiply: `(hi, lo) * v` in Q15.
pub fn mpy_32_16(hi: i32, lo: i32, v: i32) -> (r: i32)
    requires
        in16(hi as int),
        in16(lo as int),
        in16(v as int),
    ensures
        r == mpy_32_16_spec(hi as int, lo as int, v as int),
{
    let mut l: i32 = l_mult(hi, v);
    l = l_mac(l, mult(lo, v), 1);
    l
}

// -----------------------------------------------------------------------
// Laws
// -----------------------------------------------------------------------

/// Splitting a 32-bit value with `L_Extract` and recombining it with
/// `L_Comp` gives the value back with its LSB cleared.
pub proof fn lemma_extract_comp_round_trip(v: i32)
    ensures
        in16(v as int / 65536),
        0 <= (v as int % 65536) / 2 < 32768,
        clamp32((v as int / 65536) * 65536 + 2 * ((v as int % 65536) / 2)) == v - v % 2,
{
    let x = v as int;
    let hi = x / 65536;
    let m = x % 65536;
    vstd::arithmetic::div_mod::lemma_fundamental_div_mod(x, 65536);
    vstd::arithmetic::div_mod::lemma_fundamental_div_mod(m, 2);
    assert(x == 65536 * hi + m);
    assert(0 <= m < 65536);
    let h = m / 2;
    let b = m % 2;
    assert(m == 2 * h + b && 0 <= b < 2);
    vstd::arithmetic::div_mod::lemma_fundamental_div_mod_converse(x, 2, 32768 * hi + h, b);
    assert(hi * 65536 + 2 * h == x - b);
}

/// `norm_s` and `norm_l` normalise: shifting a non-zero value left by
/// its normalisation count lands it in the top half of its range, one
/// shift fewer would not, and the shift itself never saturates.
pub proof fn lemma_norm_normalises(v: int, lim: int)
    requires
        lim == 16384 || lim == 0x4000_0000,
        v != 0,
        -2 * lim <= v < 2 * lim,
    ensures
        norm_shifts(v, lim) >= 0,
        !(-lim <= v * two_pow(norm_shifts(v, lim) as nat) < lim),
        -2 * lim <= v * two_pow(norm_shifts(v, lim) as nat) < 2 * lim,
        norm_shifts(v, lim) > 0 ==> -lim <= v * two_pow((norm_shifts(v, lim) - 1) as nat) < lim,
    decreases 2 * lim - (if v < 0 {
        -v
    } else {
        v
    }),
{
    lemma_two_pow_values();
    if v < -lim || v >= lim {
        assert(v * two_pow(0) == v) by (nonlinear_arith)
            requires
                two_pow(0) == 1,
        ;
    } else {
        lemma_norm_normalises(2 * v, lim);
        let n = norm_shifts(2 * v, lim);
        assert(norm_shifts(v, lim) == 1 + n);
        lemma_two_pow(n as nat);
        assert(v * two_pow((n + 1) as nat) == (2 * v) * two_pow(n as nat)) by (nonlinear_arith)
            requires
                two_pow((n + 1) as nat) == 2 * two_pow(n as nat),
        ;
        if n > 0 {
            lemma_two_pow((n - 1) as nat);
            assert(v * two_pow(n as nat) == (2 * v) * two_pow((n - 1) as nat)) by (nonlinear_arith)
                requires
                    two_pow(n as nat) == 2 * two_pow((n - 1) as nat),
            ;
        } else {
            assert(v * two_pow(0) == v) by (nonlinear_arith)
                requires
                    two_pow(0) == 1,
            ;
        }
    }
}

} // verus!
