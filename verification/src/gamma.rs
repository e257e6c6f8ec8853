use vstd::prelude::*;

verus! {

/// `255^6`, the common factor that clears the denominators of the rounding test.
pub const SCALE_255_POW6: u128 = 274941996890625;

/// `x^5`.
pub open spec fn pow5(x: int) -> int {
    let x2 = x * x;
    let x4 = x2 * x2;
    x4 * x
}

/// `x^11`.
pub open spec fn pow11(x: int) -> int {
    let x2 = x * x;
    let x4 = x2 * x2;
    let x8 = x4 * x4;
    x8 * x2 * x
}

/// Whether `255 * (b / 255)^2.2` is at least `k - 1/2`.
///
/// With `2.2 = 11/5` the test `(k - 1/2) / 255 <= (b / 255)^(11/5)` becomes, after
/// raising both sides to the fifth power and clearing denominators,
/// `(2k - 1)^5 * 255^6 <= 32 * b^11`.
pub open spec fn reaches(b: int, k: int) -> bool {
    k <= 0 || pow5(2 * k - 1) * (SCALE_255_POW6 as int) <= 32 * pow11(b)
}

/// `r` is `255 * (b / 255)^2.2` rounded to the nearest integer, halves rounded up:
/// the value reaches `r - 1/2` but not `r + 1/2`.
pub open spec fn is_linear_of(b: int, r: int) -> bool {
    0 <= r <= 255 && reaches(b, r) && !reaches(b, r + 1)
}

proof fn lemma_square_mono(a: int, b: int)
    requires
        0 <= a <= b,
    ensures
        0 <= a * a <= b * b,
{
    assert(0 <= a * a <= b * b) by (nonlinear_arith)
        requires
            0 <= a <= b,
    ;
}

proof fn lemma_mul_mono(a: int, b: int, c: int, d: int)
    requires
        0 <= a <= b,
        0 <= c <= d,
    ensures
        0 <= a * c <= b * d,
{
    assert(0 <= a * c <= b * d) by (nonlinear_arith)
        requires
            0 <= a <= b,
            0 <= c <= d,
    ;
}

/// `x^5` is monotone on the naturals.
pub proof fn lemma_pow5_mono(a: int, b: int)
    requires
        0 <= a <= b,
    ensures
        0 <= pow5(a) <= pow5(b),
{
    lemma_square_mono(a, b);
    lemma_square_mono(a * a, b * b);
    lemma_mul_mono(a * a * (a * a), b * b * (b * b), a, b);
}

/// `x^11` is monotone on the naturals.
pub proof fn lemma_pow11_mono(a: int, b: int)
    requires
        0 <= a <= b,
    ensures
        0 <= pow11(a) <= pow11(b),
{
    let a2 = a * a;
    let b2 = b * b;
    lemma_square_mono(a, b);
    lemma_square_mono(a2, b2);
    lemma_square_mono(a2 * a2, b2 * b2);
    lemma_mul_mono(a2 * a2 * (a2 * a2), b2 * b2 * (b2 * b2), a2, b2);
    lemma_mul_mono(a2 * a2 * (a2 * a2) * a2, b2 * b2 * (b2 * b2) * b2, a, b);
}

/// `reaches` is downward closed in `k` and upward closed in `b`.
pub proof fn lemma_reaches_mono(b1: int, b2: int, k1: int, k2: int)
    requires
        0 <= b1 <= b2,
        k1 <= k2,
        reaches(b1, k2),
    ensures
        reaches(b2, k1),
{
    lemma_pow11_mono(b1, b2);
    if k1 > 0 {
        lemma_pow5_mono(2 * k1 - 1, 2 * k2 - 1);
        lemma_mul_mono(pow5(2 * k1 - 1), pow5(2 * k2 - 1), SCALE_255_POW6 as int, SCALE_255_POW6 as int);
    }
}

/// At most one byte is the rounded linear value of `b`.
pub proof fn lemma_linear_unique(b: int, r1: int, r2: int)
    requires
        0 <= b,
        is_linear_of(b, r1),
        is_linear_of(b, r2),
    ensures
        r1 == r2,
{
    if r1 < r2 {
        lemma_reaches_mono(b, b, r1 + 1, r2);
    } else if r2 < r1 {
        lemma_reaches_mono(b, b, r2 + 1, r1);
    }
}

/// `x^11` computed in 128-bit arithmetic, for `x <= 255`.
fn pow11_u128(x: u128) -> (r: u128)
    requires
        x <= 255,
    ensures
        r == pow11(x as int),
        r <= 296443535898840969287109375,
{
    proof {
        let xi = x as int;
        lemma_pow11_mono(xi, 255);
        lemma_square_mono(xi, 255);
        lemma_square_mono(xi * xi, 65025int);
        lemma_square_mono(xi * xi * (xi * xi), 65025int * 65025int);
        lemma_mul_mono(xi * xi * (xi * xi) * (xi * xi * (xi * xi)), 65025int * 65025int * (65025int * 65025int), xi * xi, 65025int);
        assert(255int * 255int == 65025int);
        assert(65025int * 65025int == 4228250625int);
        assert(4228250625int * 4228250625int == 17878103347812890625int);
        assert(17878103347812890625int * 65025int == 1162523670191533212890625int);
        assert(1162523670191533212890625int * 255int == 296443535898840969287109375int);
        assert(pow11(255) == 296443535898840969287109375int);
    }
    let x2 = x * x;
    let x4 = x2 * x2;
    let x8 = x4 * x4;
    let x10 = x8 * x2;
    x10 * x
}

/// `x^5` computed in 128-bit arithmetic, for `x <= 511`.
fn pow5_u128(x: u128) -> (r: u128)
    requires
        x <= 511,
    ensures
        r == pow5(x as int),
        r <= 34842114263551,
{
    proof {
        let xi = x as int;
        lemma_pow5_mono(xi, 511);
        lemma_square_mono(xi, 511);
        lemma_square_mono(xi * xi, 261121int);
        assert(511int * 511int == 261121int);
        assert(261121int * 261121int == 68184176641int);
        assert(68184176641int * 511int == 34842114263551int);
        assert(pow5(511) == 34842114263551int);
    }
    let x2 = x * x;
    let x4 = x2 * x2;
    x4 * x
}

/// Nothing reaches `256`: even white stays below `255 + 1/2`.
proof fn lemma_never_reaches_256(b: int)
    requires
        0 <= b <= 255,
    ensures
        !reaches(b, 256),
{
    lemma_pow11_mono(b, 255);
    assert(pow11(255) == 296443535898840969287109375int) by {
        assert(255int * 255int == 65025int);
        assert(65025int * 65025int == 4228250625int);
        assert(4228250625int * 4228250625int == 17878103347812890625int);
        assert(17878103347812890625int * 65025int == 1162523670191533212890625int);
        assert(1162523670191533212890625int * 255int == 296443535898840969287109375int);
    }
    assert(pow5(511) == 34842114263551int) by {
        assert(511int * 511int == 261121int);
        assert(261121int * 261121int == 68184176641int);
        assert(68184176641int * 511int == 34842114263551int);
    }
    assert(34842114263551int * 274941996890625int > 32 * 296443535898840969287109375int);
}

/// Decides `reaches(b, k)` given `rhs == 32 * b^11`.
fn reaches_exec(k: u32, rhs: u128, Ghost(b): Ghost<int>) -> (res: bool)
    requires
        1 <= k <= 256,
        0 <= b <= 255,
        rhs == 32 * pow11(b),
    ensures
        res == reaches(b, k as int),
{
    let y = (2 * k - 1) as u128;
    let y5 = pow5_u128(y);
    proof {
        lemma_mul_mono(y5 as int, 34842114263551int, SCALE_255_POW6 as int, SCALE_255_POW6 as int);
        assert(34842114263551int * 274941996890625int < 340282366920938463463374607431768211455int);
    }
    y5 * SCALE_255_POW6 <= rhs
}

/// Converts an sRGB-encoded byte to linear intensity, `255 * (b / 255)^2.2`
/// rounded to the nearest integer.
pub fn srgb_to_linear(b: u8) -> (r: u8)
    ensures
        is_linear_of(b as int, r as int),
{
    let p = pow11_u128(b as u128);
    proof {
        assert(32 * 296443535898840969287109375int < 340282366920938463463374607431768211455int);
    }
    let rhs = 32 * p;
    let mut r: u32 = 0;
    while r < 255 && reaches_exec(r + 1, rhs, Ghost(b as int))
        invariant
            r <= 255,
            reaches(b as int, r as int),
            rhs == 32 * pow11(b as int),
        decreases 255 - r,
    {
        r = r + 1;
    }
    proof {
        if r == 255 {
            lemma_never_reaches_256(b as int);
        }
    }
    r as u8
}

/// The lookup table of `srgb_to_linear` over all 256 byte values.
pub fn linear_table() -> (t: Vec<u8>)
    ensures
        t@.len() == 256,
        forall|b: int| 0 <= b < 256 ==> is_linear_of(b, #[trigger] t@[b] as int),
{
    let mut t: Vec<u8> = Vec::new();
    let mut b: u32 = 0;
    while b < 256
        invariant
            b <= 256,
            t@.len() == b,
            forall|i: int| 0 <= i < b ==> is_linear_of(i, #[trigger] t@[i] as int),
        decreases 256 - b,
    {
        let r = srgb_to_linear(b as u8);
        t.push(r);
        b = b + 1;
    }
    t
}

/// Black stays black: the linear value of `0` is `0`.
pub proof fn lemma_linear_black()
    ensures
        is_linear_of(0, 0),
{
    assert(pow5(1) == 1);
    assert(pow11(0) == 0);
}

/// White stays white: the linear value of `255` is `255`.
pub proof fn lemma_linear_white()
    ensures
        is_linear_of(255, 255),
{
    lemma_never_reaches_256(255);
    assert(pow11(255) == 296443535898840969287109375int) by {
        assert(255int * 255int == 65025int);
        assert(65025int * 65025int == 4228250625int);
        assert(4228250625int * 4228250625int == 17878103347812890625int);
        assert(17878103347812890625int * 65025int == 1162523670191533212890625int);
        assert(1162523670191533212890625int * 255int == 296443535898840969287109375int);
    }
    assert(pow5(509) == 34165588961549int) by {
        assert(509int * 509int == 259081int);
        assert(259081int * 259081int == 67122964561int);
        assert(67122964561int * 509int == 34165588961549int);
    }
}

proof fn lemma_pow5_strict(a: int)
    requires
        0 <= a,
    ensures
        pow5(a) < pow5(a + 1),
{
    let c = a + 1;
    lemma_square_mono(a, c);
    assert(a * a < c * c) by (nonlinear_arith)
        requires
            0 <= a,
            c == a + 1,
    ;
    assert(a * a * (a * a) < c * c * (c * c)) by (nonlinear_arith)
        requires
            0 <= a * a < c * c,
    ;
    assert(a * a * (a * a) * a < c * c * (c * c) * c) by (nonlinear_arith)
        requires
            0 <= a * a * (a * a) < c * c * (c * c),
            0 <= a < c,
    ;
}

/// `255 * (b / 255)^2.2` never reaches `b + 1/2`.
proof fn lemma_not_reaches_next(b: int)
    requires
        0 <= b <= 255,
    ensures
        !reaches(b, b + 1),
{
    let b2 = b * b;
    let b4 = b2 * b2;
    let b6 = b4 * b2;
    let p = pow5(2 * b);
    assert(p == 32 * (b4 * b)) by (nonlinear_arith)
        requires
            p == pow5(2 * b),
            b2 == b * b,
            b4 == b2 * b2,
    ;
    assert(32 * pow11(b) == p * b6) by (nonlinear_arith)
        requires
            p == 32 * (b4 * b),
            b2 == b * b,
            b4 == b2 * b2,
            b6 == b4 * b2,
    ;
    lemma_square_mono(b, 255);
    lemma_square_mono(b2, 65025int);
    lemma_mul_mono(b4, 4228250625int, b2, 65025int);
    assert(4228250625int * 65025int == 274941996890625int);
    lemma_pow5_mono(0, 2 * b);
    lemma_pow5_strict(2 * b);
    lemma_mul_mono(p, p, b6, SCALE_255_POW6 as int);
    assert(p * (SCALE_255_POW6 as int) < pow5(2 * b + 1) * (SCALE_255_POW6 as int)) by (nonlinear_arith)
        requires
            p < pow5(2 * b + 1),
    ;
}

/// Linearization never brightens: the linear value of `b` is at most `b`.
pub proof fn lemma_linear_darkens(b: int, r: int)
    requires
        0 <= b <= 255,
        is_linear_of(b, r),
    ensures
        r <= b,
{
    lemma_not_reaches_next(b);
    if r > b {
        lemma_reaches_mono(b, b, b + 1, r);
    }
}

/// Linearization preserves order: a brighter sRGB byte never gives a darker linear byte.
pub proof fn lemma_linear_monotone(b1: int, b2: int, r1: int, r2: int)
    requires
        0 <= b1 <= b2,
        is_linear_of(b1, r1),
        is_linear_of(b2, r2),
    ensures
        r1 <= r2,
{
    lemma_reaches_mono(b1, b2, r1, r1);
    if r1 > r2 {
        lemma_reaches_mono(b2, b2, r2 + 1, r1);
    }
}

} // verus!
