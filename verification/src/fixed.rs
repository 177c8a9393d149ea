//! Fixed-point scalars.
//!
//! Every scalar of the tracer is an `i64` holding the real value times
//! `SCALE`, so a raw value of `SCALE` stands for 1.0.  Addition, subtraction,
//! multiplication, division and square root are defined exactly over the
//! integers: products and quotients are computed on magnitudes, scaled, and
//! truncated toward zero, and every result saturates at the `i64` bounds
//! instead of wrapping.  Each executable operation returns precisely the value
//! of its specification function, so everything built on top of these scalars
//! has an exact arithmetic model.

use vstd::prelude::*;
use vstd::arithmetic::div_mod::*;
use vstd::arithmetic::mul::*;

verus! {

/// A fixed-point scalar is its real value times `SCALE`.
pub const SCALE: i64 = 65536;

/// The fixed-point representation of 1.
pub const ONE: i64 = 65536;

/// Saturate a mathematical integer into the `i64` range.
pub open spec fn clip(x: int) -> int {
    if x > i64::MAX as int {
        i64::MAX as int
    } else if x < i64::MIN as int {
        i64::MIN as int
    } else {
        x
    }
}

/// Magnitude of a mathematical integer.
pub open spec fn mag(x: int) -> int {
    if x < 0 {
        -x
    } else {
        x
    }
}

/// Saturating fixed-point addition.
pub open spec fn fadd_s(a: int, b: int) -> int {
    clip(a + b)
}

/// Saturating fixed-point subtraction.
pub open spec fn fsub_s(a: int, b: int) -> int {
    clip(a - b)
}

/// Saturating fixed-point negation.
pub open spec fn fneg_s(a: int) -> int {
    clip(-a)
}

/// Saturating fixed-point product: magnitudes are multiplied, rescaled with
/// the quotient truncated toward zero, and the sign is reattached.
pub open spec fn fmul_s(a: int, b: int) -> int {
    let m = (mag(a) * mag(b)) / (SCALE as int);
    if (a < 0) == (b < 0) {
        clip(m)
    } else {
        clip(-m)
    }
}

/// Saturating fixed-point quotient, truncated toward zero.  The quotient by
/// zero is left at zero here; executable division excludes that case.
pub open spec fn fdiv_s(a: int, b: int) -> int {
    if b == 0 {
        0
    } else {
        let m = (mag(a) * (SCALE as int)) / mag(b);
        if (a < 0) == (b < 0) {
            clip(m)
        } else {
            clip(-m)
        }
    }
}

/// The integer square root: the greatest `r` with `r * r <= n`.
pub open spec fn isqrt(n: nat) -> nat
    decreases n,
{
    if n == 0 {
        0
    } else {
        let r = isqrt((n - 1) as nat);
        if (r + 1) * (r + 1) <= n {
            (r + 1) as nat
        } else {
            r
        }
    }
}

/// Fixed-point square root of a non-negative scalar; non-positive inputs are
/// sent to zero.
pub open spec fn fsqrt_s(x: int) -> int {
    if x <= 0 {
        0
    } else {
        isqrt((x * (SCALE as int)) as nat) as int
    }
}

/// `isqrt(n)` is the floor of the real square root.
pub proof fn lemma_isqrt_bounds(n: nat)
    ensures
        isqrt(n) * isqrt(n) <= n,
        n < (isqrt(n) + 1) * (isqrt(n) + 1),
    decreases n,
{
    if n > 0 {
        lemma_isqrt_bounds((n - 1) as nat);
        let r = isqrt((n - 1) as nat);
        assert(r * r <= n - 1);
        assert(n - 1 < (r + 1) * (r + 1));
        if (r + 1) * (r + 1) <= n {
            assert(isqrt(n) == r + 1);
            assert(n == (r + 1) * (r + 1));
            assert((r + 1) * (r + 1) < (r + 2) * (r + 2)) by (nonlinear_arith);
        } else {
            assert(isqrt(n) == r);
            assert(r * r <= n);
            assert(n < (r + 1) * (r + 1));
        }
    } else {
        let s = isqrt(n);
        assert(s == 0);
        assert((s + 1) * (s + 1) == 1) by (nonlinear_arith)
            requires s == 0;
    }
}

/// Any `r` within the floor-square-root bounds is `isqrt(n)`.
pub proof fn lemma_isqrt_unique(n: nat, r: nat)
    requires
        r * r <= n,
        n < (r + 1) * (r + 1),
    ensures
        r == isqrt(n),
{
    lemma_isqrt_bounds(n);
    let s = isqrt(n);
    if r < s {
        assert((r + 1) * (r + 1) <= s * s) by (nonlinear_arith)
            requires r + 1 <= s;
    }
    if s < r {
        assert((s + 1) * (s + 1) <= r * r) by (nonlinear_arith)
            requires s + 1 <= r;
    }
}

/// Where the scale divides the product evenly and the factors are small
/// enough that nothing saturates, the fixed-point product is the exact
/// rescaled integer product.
pub proof fn lemma_fmul_exact(a: int, b: int)
    requires
        (a * b) % (SCALE as int) == 0,
        mag(a) <= 0x80000000,
        mag(b) <= 0x80000000,
    ensures
        fmul_s(a, b) == (a * b) / (SCALE as int),
        fmul_s(a, b) * (SCALE as int) == a * b,
{
    let s = SCALE as int;
    let p = a * b;
    let q = p / s;
    lemma_fundamental_div_mod(p, s);
    assert(p == s * q);
    assert(mag(a) * mag(b) == mag(p)) by (nonlinear_arith)
        requires
            p == a * b,
    ;
    assert(mag(p) <= 0x4000000000000000) by (nonlinear_arith)
        requires
            mag(a) <= 0x80000000,
            mag(b) <= 0x80000000,
            mag(a) * mag(b) == mag(p),
            mag(p) >= 0,
    ;
    assert(mag(p) == s * mag(q) && (p >= 0 <==> q >= 0)) by (nonlinear_arith)
        requires
            p == s * q,
            s > 0,
    ;
    lemma_div_multiples_vanish(mag(q), s);
    assert((s * mag(q)) / s == mag(q));
    assert(mag(q) * s == s * mag(q)) by (nonlinear_arith);
    assert(mag(q) <= mag(p)) by (nonlinear_arith)
        requires
            mag(p) == s * mag(q),
            s >= 1,
            mag(q) >= 0,
    ;
    if (a < 0) == (b < 0) {
        assert(p >= 0) by (nonlinear_arith)
            requires
                p == a * b,
                (a < 0) == (b < 0),
        ;
        assert(mag(q) == q);
        assert(fmul_s(a, b) == clip(q));
    } else {
        assert(p <= 0) by (nonlinear_arith)
            requires
                p == a * b,
                (a < 0) != (b < 0),
        ;
        if p == 0 {
            assert(q == 0) by (nonlinear_arith)
                requires
                    p == s * q,
                    s > 0,
                    p == 0,
            ;
        }
        assert(fmul_s(a, b) == clip(q));
    }
    assert(clip(q) == q);
    assert(q * s == p) by (nonlinear_arith)
        requires
            p == s * q,
    ;
}

/// A fixed-point quotient is a saturated value, so it lies in the `i64`
/// range.
pub proof fn lemma_fdiv_in_range(a: int, b: int)
    ensures
        i64::MIN <= fdiv_s(a, b) <= i64::MAX,
{
}

/// The fixed-point product is commutative.
pub proof fn lemma_fmul_comm(a: int, b: int)
    ensures
        fmul_s(a, b) == fmul_s(b, a),
{
    lemma_mul_is_commutative(mag(a), mag(b));
}

/// Multiplying by a whole multiple of the scale is exact: the scale
/// cancels and only the final saturation remains.
pub proof fn lemma_fmul_multiple(c: int, a: int)
    ensures
        fmul_s(c * (SCALE as int), a) == clip(c * a),
{
    let s = SCALE as int;
    let x = c * s;
    assert(mag(x) == mag(c) * s) by (nonlinear_arith)
        requires
            x == c * s,
            s > 0,
    ;
    assert(mag(x) * mag(a) == s * (mag(c) * mag(a))) by (nonlinear_arith)
        requires
            mag(x) == mag(c) * s,
    ;
    lemma_div_multiples_vanish(mag(c) * mag(a), s);
    assert(mag(c) * mag(a) == mag(c * a)) by (nonlinear_arith);
    if c == 0 {
        assert(x == 0) by (nonlinear_arith)
            requires
                x == c * s,
                c == 0,
        ;
        assert(c * a == 0) by (nonlinear_arith)
            requires
                c == 0,
        ;
    } else {
        assert((x < 0) == (c < 0)) by (nonlinear_arith)
            requires
                x == c * s,
                s > 0,
                c != 0,
        ;
        assert(a != 0 ==> ((c * a < 0) <==> ((c < 0) != (a < 0)))) by (nonlinear_arith)
            requires
                c != 0,
        ;
        assert(a == 0 ==> c * a == 0) by (nonlinear_arith);
    }
}

/// Zero is absorbing for the fixed-point product.
pub proof fn lemma_fmul_zero(a: int)
    ensures
        fmul_s(a, 0) == 0,
        fmul_s(0, a) == 0,
{
    assert(mag(a) * mag(0) == 0) by (nonlinear_arith)
        requires
            mag(0) == 0,
    ;
    assert(mag(0) * mag(a) == 0) by (nonlinear_arith)
        requires
            mag(0) == 0,
    ;
    lemma_div_of0(SCALE as int);
}

/// Saturation preserves order.
pub proof fn lemma_clip_mono(x: int, y: int)
    requires
        x <= y,
    ensures
        clip(x) <= clip(y),
{
}

/// A product of non-negative fixed-point scalars is non-negative.
pub proof fn lemma_fmul_nonneg(a: int, b: int)
    requires
        a >= 0,
        b >= 0,
    ensures
        fmul_s(a, b) >= 0,
{
    assert(mag(a) * mag(b) >= 0) by (nonlinear_arith)
        requires
            mag(a) >= 0,
            mag(b) >= 0,
    ;
    lemma_div_pos_is_pos(mag(a) * mag(b), SCALE as int);
}

/// A product with a factor of at most one keeps the other factor as an
/// upper bound.
pub proof fn lemma_fmul_unit_factor(a: int, b: int)
    requires
        0 <= a <= i64::MAX,
        0 <= b <= SCALE as int,
    ensures
        0 <= fmul_s(a, b) <= a,
{
    let s = SCALE as int;
    if a == 0 {
        assert(a * b == 0) by (nonlinear_arith)
            requires
                a == 0,
        ;
        lemma_div_of0(s);
    } else {
        lemma_mul_left_inequality(a, b, s);
        assert(a * b <= a * s);
        lemma_div_is_ordered(a * b, a * s, s);
        lemma_div_multiples_vanish(a, s);
        assert(a * s == s * a) by (nonlinear_arith);
        assert(a * b >= 0) by (nonlinear_arith)
            requires
                a >= 0,
                b >= 0,
        ;
        lemma_div_pos_is_pos(a * b, s);
    }
}

/// The square of a fixed-point scalar is non-negative.
pub proof fn lemma_fmul_self_nonneg(a: int)
    ensures
        fmul_s(a, a) >= 0,
{
    let s = SCALE as int;
    let m = (mag(a) * mag(a)) / s;
    assert(mag(a) * mag(a) >= 0) by (nonlinear_arith);
    lemma_div_pos_is_pos(mag(a) * mag(a), s);
    assert(clip(m) >= 0);
}

/// For a positive divisor the fixed-point quotient is monotone in the
/// dividend.
pub proof fn lemma_fdiv_mono(n1: int, n2: int, d: int)
    requires
        n1 <= n2,
        d > 0,
    ensures
        fdiv_s(n1, d) <= fdiv_s(n2, d),
{
    let s = SCALE as int;
    let m1 = (mag(n1) * s) / mag(d);
    let m2 = (mag(n2) * s) / mag(d);
    assert(mag(n1) * s >= 0 && mag(n2) * s >= 0) by (nonlinear_arith)
        requires
            s > 0,
    ;
    lemma_div_pos_is_pos(mag(n1) * s, mag(d));
    lemma_div_pos_is_pos(mag(n2) * s, mag(d));
    if n1 >= 0 {
        assert(mag(n1) * s <= mag(n2) * s) by (nonlinear_arith)
            requires
                0 <= n1 <= n2,
                s > 0,
                mag(n1) == n1,
                mag(n2) == n2,
        ;
        lemma_div_is_ordered(mag(n1) * s, mag(n2) * s, mag(d));
        lemma_clip_mono(m1, m2);
    } else if n2 < 0 {
        assert(mag(n2) * s <= mag(n1) * s) by (nonlinear_arith)
            requires
                n1 <= n2 < 0,
                s > 0,
                mag(n1) == -n1,
                mag(n2) == -n2,
        ;
        lemma_div_is_ordered(mag(n2) * s, mag(n1) * s, mag(d));
        lemma_clip_mono(-m1, -m2);
    } else {
        lemma_clip_mono(-m1, 0);
        lemma_clip_mono(0, m2);
    }
}

/// The fixed-point product distributes over addition whenever the scale
/// divides both partial products evenly and the operands are small enough
/// that nothing saturates.
pub proof fn lemma_fmul_distributes_exact(k: int, x: int, y: int)
    requires
        (k * x) % (SCALE as int) == 0,
        (k * y) % (SCALE as int) == 0,
        mag(k) <= 0x40000000,
        mag(x) <= 0x40000000,
        mag(y) <= 0x40000000,
    ensures
        fmul_s(k, fadd_s(x, y)) == fadd_s(fmul_s(k, x), fmul_s(k, y)),
{
    let s = SCALE as int;
    assert(fadd_s(x, y) == x + y);
    lemma_mul_is_distributive_add(k, x, y);
    lemma_add_mod_noop(k * x, k * y, s);
    assert((k * (x + y)) % s == 0);
    lemma_fmul_exact(k, x);
    lemma_fmul_exact(k, y);
    assert(mag(x + y) <= 0x80000000);
    lemma_fmul_exact(k, x + y);
    let q1 = (k * x) / s;
    let q2 = (k * y) / s;
    let q = (k * (x + y)) / s;
    assert(q * s == q1 * s + q2 * s);
    assert(q == q1 + q2) by (nonlinear_arith)
        requires
            q * s == q1 * s + q2 * s,
            s > 0,
    ;
    let px = k * x;
    let py = k * y;
    assert(mag(k) * mag(x) == mag(px)) by (nonlinear_arith)
        requires
            px == k * x,
    ;
    assert(mag(k) * mag(y) == mag(py)) by (nonlinear_arith)
        requires
            py == k * y,
    ;
    assert(mag(px) <= 0x1000000000000000) by (nonlinear_arith)
        requires
            mag(k) <= 0x40000000,
            mag(x) <= 0x40000000,
            mag(k) * mag(x) == mag(px),
            mag(x) >= 0,
            mag(k) >= 0,
    ;
    assert(mag(py) <= 0x1000000000000000) by (nonlinear_arith)
        requires
            mag(k) <= 0x40000000,
            mag(y) <= 0x40000000,
            mag(k) * mag(y) == mag(py),
            mag(y) >= 0,
            mag(k) >= 0,
    ;
    assert(mag(q1) <= mag(px)) by (nonlinear_arith)
        requires
            q1 * s == px,
            s >= 1,
    ;
    assert(mag(q2) <= mag(py)) by (nonlinear_arith)
        requires
            q2 * s == py,
            s >= 1,
    ;
    assert(fadd_s(q1, q2) == q1 + q2);
}

/// Saturating fixed-point addition.
pub fn fadd(a: i64, b: i64) -> (r: i64)
    ensures
        r as int == fadd_s(a as int, b as int),
{
    let s: i128 = a as i128 + b as i128;
    if s > i64::MAX as i128 {
        i64::MAX
    } else if s < i64::MIN as i128 {
        i64::MIN
    } else {
        s as i64
    }
}

/// Saturating fixed-point subtraction.
pub fn fsub(a: i64, b: i64) -> (r: i64)
    ensures
        r as int == fsub_s(a as int, b as int),
{
    let s: i128 = a as i128 - b as i128;
    if s > i64::MAX as i128 {
        i64::MAX
    } else if s < i64::MIN as i128 {
        i64::MIN
    } else {
        s as i64
    }
}

/// Saturating fixed-point negation.
pub fn fneg(a: i64) -> (r: i64)
    ensures
        r as int == fneg_s(a as int),
{
    if a == i64::MIN {
        i64::MAX
    } else {
        -a
    }
}

/// The magnitude of an `i64`, widened so that `i64::MIN` is representable.
fn magnitude(a: i64) -> (r: u128)
    ensures
        r as int == mag(a as int),
{
    if a >= 0 {
        a as u128
    } else {
        let w: i128 = -(a as i128);
        w as u128
    }
}

/// Reattach a sign to a magnitude and saturate into the `i64` range.
fn from_mag(m: u128, neg: bool) -> (r: i64)
    ensures
        r as int == (if neg { clip(-(m as int)) } else { clip(m as int) }),
{
    if neg {
        if m >= 9223372036854775808u128 {
            i64::MIN
        } else {
            -(m as i64)
        }
    } else {
        if m > i64::MAX as u128 {
            i64::MAX
        } else {
            m as i64
        }
    }
}

/// Saturating fixed-point product.
pub fn fmul(a: i64, b: i64) -> (r: i64)
    ensures
        r as int == fmul_s(a as int, b as int),
{
    let am: u128 = magnitude(a);
    let bm: u128 = magnitude(b);
    proof {
        lemma_mul_upper_bound(am as int, 0x8000000000000000, bm as int, 0x8000000000000000);
    }
    let p: u128 = am * bm;
    let m: u128 = p / 65536;
    from_mag(m, (a < 0) != (b < 0))
}

/// Saturating fixed-point quotient, truncated toward zero.
pub fn fdiv(a: i64, b: i64) -> (r: i64)
    requires
        b != 0,
    ensures
        r as int == fdiv_s(a as int, b as int),
{
    let am: u128 = magnitude(a);
    let bm: u128 = magnitude(b);
    let p: u128 = am * 65536;
    let m: u128 = p / bm;
    from_mag(m, (a < 0) != (b < 0))
}

/// The integer square root, by binary search.
fn isqrt_u(n: u128) -> (r: u128)
    requires
        n < 0x100000000000000000000u128,
    ensures
        r as nat == isqrt(n as nat),
        r * r <= n < (r + 1) * (r + 1),
{
    let mut lo: u128 = 0;
    let mut hi: u128 = 0x10000000000;
    proof {
        assert(0x10000000000int * 0x10000000000int == 0x100000000000000000000int)
            by (nonlinear_arith);
    }
    while hi - lo > 1
        invariant
            lo < hi,
            hi <= 0x10000000000u128,
            lo * lo <= n,
            n < hi * hi,
        decreases hi - lo,
    {
        let mid: u128 = lo + (hi - lo) / 2;
        proof {
            assert(mid * mid < 0x100000000000000000000int) by (nonlinear_arith)
                requires mid < 0x10000000000int;
        }
        let sq: u128 = mid * mid;
        if sq <= n {
            lo = mid;
        } else {
            hi = mid;
        }
    }
    proof {
        lemma_isqrt_unique(n as nat, lo as nat);
    }
    lo
}

/// Fixed-point square root; non-positive inputs are sent to zero.
pub fn fsqrt(x: i64) -> (r: i64)
    ensures
        r as int == fsqrt_s(x as int),
        r >= 0,
{
    if x <= 0 {
        0
    } else {
        let n: u128 = (x as u128) * 65536;
        let r: u128 = isqrt_u(n);
        proof {
            assert(r as int <= 0x10000000000int) by (nonlinear_arith)
                requires
                    r * r <= n as int,
                    n < 0x100000000000000000000int,
            ;
        }
        r as i64
    }
}

} // verus!
