use vstd::prelude::*;

verus! {

/// One world unit, counted in the sub-units in which this crate holds every
/// length, coordinate and speed.
pub const ONE: i64 = 1_000_000;

/// The nearest value to `x` that an `i64` can hold.
pub open spec fn sat(x: int) -> int {
    if x < i64::MIN {
        i64::MIN as int
    } else if x > i64::MAX {
        i64::MAX as int
    } else {
        x
    }
}

/// The magnitude of `x`.
pub open spec fn abs(x: int) -> int {
    if x < 0 {
        -x
    } else {
        x
    }
}

/// The quotient of `a` by `d`, rounded toward zero.
pub open spec fn div_trunc(a: int, d: int) -> int
    recommends
        d > 0,
{
    if a >= 0 {
        a / d
    } else {
        -((-a) / d)
    }
}

/// The nearest value to `x` that an `i64` can hold.
pub fn saturate(x: i128) -> (r: i64)
    ensures
        r == sat(x as int),
{
    if x < i64::MIN as i128 {
        i64::MIN
    } else if x > i64::MAX as i128 {
        i64::MAX
    } else {
        x as i64
    }
}

/// The quotient of `a` by `d`, rounded toward zero.
pub fn quotient(a: i128, d: i128) -> (r: i128)
    requires
        d > 0,
    ensures
        r == div_trunc(a as int, d as int),
{
    a / d
}

/// Whether `r` is the square root of `n`, rounded down.
pub open spec fn is_sqrt_floor(n: int, r: int) -> bool {
    0 <= r && r * r <= n < (r + 1) * (r + 1)
}

/// The square root of `n`, rounded down.
pub open spec fn sqrt_floor(n: int) -> int {
    choose|r: int| is_sqrt_floor(n, r)
}

/// Squaring keeps the order of non-negative numbers.
pub proof fn lemma_square_monotonic(a: int, b: int)
    requires
        0 <= a <= b,
    ensures
        a * a <= b * b,
{
    assert(a * a <= b * b) by (nonlinear_arith)
        requires
            0 <= a <= b,
    ;
}

/// At most one number is the rounded-down square root of `n`.
pub proof fn lemma_sqrt_floor_unique(n: int, r: int)
    requires
        is_sqrt_floor(n, r),
    ensures
        sqrt_floor(n) == r,
{
    let s = sqrt_floor(n);
    assert(is_sqrt_floor(n, s));
    if s < r {
        lemma_square_monotonic(s + 1, r);
    } else if r < s {
        lemma_square_monotonic(r + 1, s);
    }
}

/// Every non-negative number has a rounded-down square root.
pub proof fn lemma_sqrt_floor_exists(n: int)
    requires
        0 <= n,
    ensures
        is_sqrt_floor(n, sqrt_floor(n)),
    decreases n,
{
    if n == 0 {
        assert(is_sqrt_floor(0, 0));
    } else {
        lemma_sqrt_floor_exists(n - 1);
        let r = sqrt_floor(n - 1);
        if (r + 1) * (r + 1) <= n {
            assert((r + 2) * (r + 2) > (r + 1) * (r + 1)) by (nonlinear_arith)
                requires
                    0 <= r,
            ;
            assert(is_sqrt_floor(n, r + 1));
        } else {
            assert(is_sqrt_floor(n, r));
        }
    }
}

/// The square root of `n`, rounded down.
pub fn isqrt(n: u128) -> (r: u64)
    ensures
        r == sqrt_floor(n as int),
        is_sqrt_floor(n as int, r as int),
{
    let mut lo: u128 = 0;
    let mut hi: u128 = 0x1_0000_0000_0000_0000;
    assert(hi * hi > n) by (nonlinear_arith)
        requires
            hi == 0x1_0000_0000_0000_0000,
            n <= u128::MAX,
    ;
    while hi - lo > 1
        invariant
            lo < hi <= 0x1_0000_0000_0000_0000,
            lo * lo <= n < hi * hi,
        decreases hi - lo,
    {
        let mid: u128 = lo + (hi - lo) / 2;
        assert(mid * mid <= u128::MAX) by (nonlinear_arith)
            requires
                mid < 0x1_0000_0000_0000_0000,
        ;
        if mid * mid <= n {
            lo = mid;
        } else {
            hi = mid;
        }
    }
    proof {
        assert(hi == lo + 1);
        lemma_sqrt_floor_unique(n as int, lo as int);
    }
    lo as u64
}

/// A product of non-negative numbers grows with each factor.
pub proof fn lemma_product_monotonic(a: int, b: int, c: int, d: int)
    requires
        0 <= a <= b,
        0 <= c <= d,
    ensures
        a * c <= b * d,
{
    assert(a * c <= b * d) by (nonlinear_arith)
        requires
            0 <= a <= b,
            0 <= c <= d,
    ;
}

/// Of two non-negative numbers, the one with the smaller square is smaller.
pub proof fn lemma_square_order(a: int, b: int)
    requires
        0 <= a,
        0 <= b,
        a * a < b * b,
    ensures
        a < b,
{
    if a >= b {
        lemma_square_monotonic(b, a);
    }
}

/// What rounding toward zero leaves of a quotient: between the magnitude of
/// the result times `d` and the magnitude of `a` lies less than `d`.
pub proof fn lemma_div_trunc_bounds(a: int, d: int)
    requires
        d > 0,
    ensures
        abs(div_trunc(a, d)) * d <= abs(a) < (abs(div_trunc(a, d)) + 1) * d,
        a >= 0 ==> div_trunc(a, d) >= 0,
        a <= 0 ==> div_trunc(a, d) <= 0,
{
    let m = abs(a);
    let q = m / d;
    assert(q * d <= m < (q + 1) * d && q >= 0) by (nonlinear_arith)
        requires
            q == m / d,
            d > 0,
            m >= 0,
    ;
    assert(abs(div_trunc(a, d)) == q);
}

/// The length of a vector that was brought to the length `len` by dividing
/// by the rounded-down length `n` of `(x, y)`, each coordinate rounded toward
/// zero: how far it can be from `len`.
pub proof fn lemma_rescale_bounds(x: int, y: int, len: int, n: int)
    requires
        n >= 1,
        is_sqrt_floor(x * x + y * y, n),
        len >= 0,
    ensures
        ({
            let p = div_trunc(x * len, n);
            let q = div_trunc(y * len, n);
            &&& abs(p) <= len
            &&& abs(q) <= len
            &&& (p * p + q * q) * (n * n) <= (len * len) * (x * x + y * y)
            &&& len >= 2 ==> (len - 2) * (len - 2) <= p * p + q * q
        }),
{
    let a = abs(x);
    let b = abs(y);
    let p = div_trunc(x * len, n);
    let q = div_trunc(y * len, n);
    let pm = abs(p);
    let qm = abs(q);
    lemma_div_trunc_bounds(x * len, n);
    lemma_div_trunc_bounds(y * len, n);
    assert(abs(x * len) == a * len && abs(y * len) == b * len) by (nonlinear_arith)
        requires
            a == abs(x),
            b == abs(y),
            len >= 0,
    ;
    assert(a * a == x * x && b * b == y * y) by (nonlinear_arith)
        requires
            a == abs(x),
            b == abs(y),
    ;
    assert(pm * pm == p * p && qm * qm == q * q) by (nonlinear_arith)
        requires
            pm == abs(p),
            qm == abs(q),
    ;
    // neither coordinate is longer than the vector
    assert(a * a <= x * x + y * y && b * b <= x * x + y * y) by (nonlinear_arith)
        requires
            a * a == x * x,
            b * b == y * y,
    ;
    lemma_square_order(a, n + 1);
    lemma_square_order(b, n + 1);
    lemma_product_monotonic(a, n, len, len);
    lemma_product_monotonic(b, n, len, len);
    assert(pm <= len) by (nonlinear_arith)
        requires
            pm * n <= a * len,
            a * len <= n * len,
            n >= 1,
            pm >= 0,
    ;
    assert(qm <= len) by (nonlinear_arith)
        requires
            qm * n <= b * len,
            b * len <= n * len,
            n >= 1,
            qm >= 0,
    ;
    // from above
    lemma_square_monotonic(pm * n, a * len);
    lemma_square_monotonic(qm * n, b * len);
    assert((pm * pm + qm * qm) * (n * n) == (pm * n) * (pm * n) + (qm * n) * (qm * n))
        by (nonlinear_arith);
    assert((len * len) * (x * x + y * y) == (a * len) * (a * len) + (b * len) * (b * len))
        by (nonlinear_arith)
        requires
            a * a == x * x,
            b * b == y * y,
    ;
    // from below
    if len >= 2 {
        lemma_square_monotonic(a * len + 1, (pm + 1) * n);
        lemma_square_monotonic(b * len + 1, (qm + 1) * n);
        assert((a * len) * (a * len) < (a * len + 1) * (a * len + 1)) by (nonlinear_arith)
            requires
                a * len >= 0,
        ;
        assert((b * len) * (b * len) < (b * len + 1) * (b * len + 1)) by (nonlinear_arith)
            requires
                b * len >= 0,
        ;
        let u = (pm + 1) * (pm + 1) + (qm + 1) * (qm + 1);
        assert(u * (n * n) == ((pm + 1) * n) * ((pm + 1) * n) + ((qm + 1) * n) * ((qm + 1) * n))
            by (nonlinear_arith)
            requires
                u == (pm + 1) * (pm + 1) + (qm + 1) * (qm + 1),
        ;
        lemma_product_monotonic(len * len, len * len, n * n, x * x + y * y);
        assert(len * len >= 0) by (nonlinear_arith);
        assert(u * (n * n) > (len * len) * (n * n));
        assert(u > len * len) by (nonlinear_arith)
            requires
                u * (n * n) > (len * len) * (n * n),
                n >= 1,
        ;
        lemma_near_length(pm, qm, len);
    }
}

/// A vector of non-negative coordinates whose neighbour one step up and to
/// the right is longer than `len` is itself no more than two shorter.
pub proof fn lemma_near_length(p: int, q: int, len: int)
    requires
        0 <= p,
        0 <= q,
        2 <= len,
        (p + 1) * (p + 1) + (q + 1) * (q + 1) > len * len,
    ensures
        (len - 2) * (len - 2) <= p * p + q * q,
{
    let s = p * p + q * q;
    let t = p + q;
    if s < (len - 2) * (len - 2) {
        assert(t * t <= 2 * s) by (nonlinear_arith)
            requires
                s == p * p + q * q,
                t == p + q,
        ;
        assert(2 * ((len - 2) * (len - 2)) <= (2 * len - 3) * (2 * len - 3)) by (nonlinear_arith)
            requires
                len >= 2,
        ;
        lemma_square_order(t, 2 * len - 3);
        assert((p + 1) * (p + 1) + (q + 1) * (q + 1) == s + 2 * t + 2) by (nonlinear_arith)
            requires
                s == p * p + q * q,
                t == p + q,
        ;
        assert((len - 2) * (len - 2) == len * len - 4 * len + 4) by (nonlinear_arith);
        assert(false);
    }
}

/// Where the length `n` that was divided by is at least `m`, the rescaled
/// vector is longer than `len` by less than one part in `m`, and one.
pub proof fn lemma_rescale_excess(s: int, len: int, n: int, m: int)
    requires
        0 <= s,
        0 <= len,
        1 <= m <= n,
        s * (n * n) < (len * len) * ((n + 1) * (n + 1)),
    ensures
        s < (len + len / m + 1) * (len + len / m + 1),
{
    let e = len / m;
    let w = len + e + 1;
    if s >= w * w {
        assert(e >= 0 && (e + 1) * m > len) by (nonlinear_arith)
            requires
                e == len / m,
                m >= 1,
                len >= 0,
        ;
        lemma_product_monotonic(e + 1, e + 1, m, n);
        assert(w * n == len * n + (e + 1) * n) by (nonlinear_arith)
            requires
                w == len + e + 1,
        ;
        assert(len * (n + 1) == len * n + len) by (nonlinear_arith);
        assert(len * (n + 1) >= 0) by (nonlinear_arith)
            requires
                len >= 0,
                n >= 1,
        ;
        lemma_square_monotonic(len * (n + 1), w * n);
        assert((w * n) * (w * n) == (w * w) * (n * n)) by (nonlinear_arith);
        assert((len * (n + 1)) * (len * (n + 1)) == (len * len) * ((n + 1) * (n + 1)))
            by (nonlinear_arith);
        assert(n * n >= 0) by (nonlinear_arith);
        lemma_product_monotonic(w * w, s, n * n, n * n);
        assert(false);
    }
}

} // verus!
