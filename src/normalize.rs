use vstd::prelude::*;

use crate::matrix::{matrix_width, FeatureMatrix};
use crate::numeric::floor_sqrt;
use crate::rank::MAX_SQUARE_TERM;
use crate::song::SCALE;
use vstd::arithmetic::div_mod::{
    lemma_div_is_ordered,
    lemma_div_multiples_vanish,
    lemma_fundamental_div_mod,
    lemma_hoist_over_denominator,
    lemma_mod_bound,
};

verus! {

/// Most rows a matrix may have to be normalized: the exact statistics of a
/// column stay within 128-bit integers up to this size.
pub const MAX_ROWS: usize = 0x1000_0000;

/// Sum of column `c` over the first `n` rows.
pub open spec fn column_sum(m: Seq<Seq<i32>>, c: int, n: nat) -> int
    decreases n,
{
    if n == 0 {
        0
    } else {
        column_sum(m, c, (n - 1) as nat) + m[n - 1][c]
    }
}

/// Deviation of entry `i` of column `c` from the column mean, multiplied by
/// the number of rows (`N * x_i - S`), so that it is an exact integer.
pub open spec fn scaled_deviation(m: Seq<Seq<i32>>, c: int, i: int) -> int {
    m.len() * m[i][c] - column_sum(m, c, m.len())
}

/// Sum of the squared scaled deviations of column `c` over the first `n`
/// rows; over all rows it is `N^3` times the population variance.
pub open spec fn scaled_square_sum(m: Seq<Seq<i32>>, c: int, n: nat) -> int
    decreases n,
{
    if n == 0 {
        0
    } else {
        let d = scaled_deviation(m, c, n - 1);
        scaled_square_sum(m, c, (n - 1) as nat) + d * d
    }
}

/// `z` is the fixed-point z-score of a value whose scaled deviation is `d`,
/// in a column of `n` rows whose squared scaled deviations sum to `q`,
/// rounded toward zero: the exact z-score is `d * sqrt(n / q)`. A column
/// without spread (`q == 0`) maps to zero.
pub open spec fn is_z_score(z: int, d: int, q: int, n: int) -> bool {
    if q == 0 {
        z == 0
    } else {
        let a = if z < 0 { -z } else { z };
        &&& d > 0 ==> z >= 0
        &&& d < 0 ==> z <= 0
        &&& z * z * q <= d * d * (SCALE * SCALE) * n
        &&& d * d * (SCALE * SCALE) * n < (a + 1) * (a + 1) * q
    }
}

/// `new` is `old` with every entry replaced by its z-score within its
/// column, and `constant[c]` tells whether column `c` has no spread.
pub open spec fn normalized(old: Seq<Seq<i32>>, new: Seq<Seq<i32>>, constant: Seq<bool>, width: nat) -> bool {
    &&& new.len() == old.len()
    &&& constant.len() == width
    &&& forall|c: int|
        0 <= c < width ==> #[trigger] constant[c] == (scaled_square_sum(old, c, old.len()) == 0)
    &&& forall|i: int, c: int|
        0 <= i < old.len() && 0 <= c < width ==> is_z_score(
            #[trigger] new[i][c] as int,
            scaled_deviation(old, c, i),
            scaled_square_sum(old, c, old.len()),
            old.len() as int,
        )
}

/// Mean of column `c`, rounded down.
spec fn floor_mean(m: Seq<Seq<i32>>, c: int) -> int {
    column_sum(m, c, m.len()) / (m.len() as int)
}

/// What rounding the mean down leaves over: `S - N * floor_mean`.
spec fn mean_remainder(m: Seq<Seq<i32>>, c: int) -> int {
    column_sum(m, c, m.len()) - m.len() * floor_mean(m, c)
}

/// Sum of the squared deviations from the rounded-down mean over `n` rows.
spec fn floor_square_sum(m: Seq<Seq<i32>>, c: int, n: nat) -> int
    decreases n,
{
    if n == 0 {
        0
    } else {
        let d = m[n - 1][c] - floor_mean(m, c);
        floor_square_sum(m, c, (n - 1) as nat) + d * d
    }
}

/// Sum of the deviations from the rounded-down mean over `n` rows.
spec fn floor_deviation_sum(m: Seq<Seq<i32>>, c: int, n: nat) -> int
    decreases n,
{
    if n == 0 {
        0
    } else {
        floor_deviation_sum(m, c, (n - 1) as nat) + (m[n - 1][c] - floor_mean(m, c))
    }
}

/// `scaled_square_sum / N`, computed from the rounded-down mean.
spec fn spread(m: Seq<Seq<i32>>, c: int) -> int {
    m.len() * floor_square_sum(m, c, m.len()) - mean_remainder(m, c) * mean_remainder(m, c)
}

proof fn lemma_sum_range(m: Seq<Seq<i32>>, c: int, n: nat)
    requires
        n <= m.len(),
    ensures
        n * (i32::MIN as int) <= column_sum(m, c, n) <= n * (i32::MAX as int),
    decreases n,
{
    if n > 0 {
        lemma_sum_range(m, c, (n - 1) as nat);
    }
}

proof fn lemma_floor_mean_range(m: Seq<Seq<i32>>, c: int)
    requires
        m.len() > 0,
    ensures
        i32::MIN <= floor_mean(m, c) <= i32::MAX,
        0 <= mean_remainder(m, c) < m.len(),
{
    let n = m.len() as int;
    let s = column_sum(m, c, m.len());
    lemma_sum_range(m, c, m.len());
    lemma_div_is_ordered(n * i32::MIN, s, n);
    lemma_div_is_ordered(s, n * i32::MAX, n);
    lemma_div_multiples_vanish(i32::MIN as int, n);
    lemma_div_multiples_vanish(i32::MAX as int, n);
    lemma_fundamental_div_mod(s, n);
    lemma_mod_bound(s, n);
}

proof fn lemma_floor_square_bound(m: Seq<Seq<i32>>, c: int, n: nat)
    requires
        n <= m.len(),
        i32::MIN <= floor_mean(m, c) <= i32::MAX,
    ensures
        0 <= floor_square_sum(m, c, n) <= n * MAX_SQUARE_TERM,
    decreases n,
{
    if n > 0 {
        lemma_floor_square_bound(m, c, (n - 1) as nat);
        let d = m[n - 1][c] - floor_mean(m, c);
        assert(0 <= d * d <= MAX_SQUARE_TERM) by (nonlinear_arith)
            requires
                -0xFFFF_FFFF <= d <= 0xFFFF_FFFF,
        ;
    }
}

proof fn lemma_floor_deviation_sum(m: Seq<Seq<i32>>, c: int, n: nat)
    ensures
        floor_deviation_sum(m, c, n) == column_sum(m, c, n) - n * floor_mean(m, c),
    decreases n,
{
    let mu = floor_mean(m, c);
    if n > 0 {
        lemma_floor_deviation_sum(m, c, (n - 1) as nat);
        assert(n * mu == (n - 1) * mu + mu) by (nonlinear_arith);
    } else {
        assert(n * mu == 0) by (nonlinear_arith)
            requires
                n == 0,
        ;
    }
}

/// Expanding the squares: the scaled square sum over `n` rows in terms of
/// the deviations from the rounded-down mean.
proof fn lemma_square_sum_expansion(m: Seq<Seq<i32>>, c: int, n: nat)
    requires
        n <= m.len(),
    ensures
        scaled_square_sum(m, c, n) == m.len() * m.len() * floor_square_sum(m, c, n) - 2 * m.len()
            * mean_remainder(m, c) * floor_deviation_sum(m, c, n) + n * mean_remainder(m, c)
            * mean_remainder(m, c),
    decreases n,
{
    if n > 0 {
        let k = (n - 1) as nat;
        lemma_square_sum_expansion(m, c, k);
        let big_n = m.len() as int;
        let r = mean_remainder(m, c);
        let e = m[k as int][c] - floor_mean(m, c);
        let d = scaled_deviation(m, c, k as int);
        assert(d == big_n * e - r) by (nonlinear_arith)
            requires
                d == big_n * m[k as int][c] - column_sum(m, c, m.len()),
                r == column_sum(m, c, m.len()) - big_n * floor_mean(m, c),
                e == m[k as int][c] - floor_mean(m, c),
        ;
        let a0 = floor_square_sum(m, c, k);
        let b0 = floor_deviation_sum(m, c, k);
        assert(d * d == big_n * big_n * (e * e) - 2 * big_n * r * e + r * r) by (nonlinear_arith)
            requires
                d == big_n * e - r,
        ;
        assert(big_n * big_n * (a0 + e * e) == big_n * big_n * a0 + big_n * big_n * (e * e))
            by (nonlinear_arith);
        assert(2 * big_n * r * (b0 + e) == 2 * big_n * r * b0 + 2 * big_n * r * e)
            by (nonlinear_arith);
        assert(n * r * r == k * r * r + r * r) by (nonlinear_arith)
            requires
                n == k + 1,
        ;
    } else {
        let big_n = m.len() as int;
        let r = mean_remainder(m, c);
        assert(big_n * big_n * 0 - 2 * big_n * r * 0 + n * r * r == 0) by (nonlinear_arith)
            requires
                n == 0,
        ;
    }
}

proof fn lemma_square_sum_nonnegative_terms(m: Seq<Seq<i32>>, c: int, n: nat, i: int)
    requires
        n <= m.len(),
        0 <= i < n,
    ensures
        scaled_deviation(m, c, i) * scaled_deviation(m, c, i) <= scaled_square_sum(m, c, n),
    decreases n,
{
    lemma_square_sum_nonnegative(m, c, (n - 1) as nat);
    if i < n - 1 {
        lemma_square_sum_nonnegative_terms(m, c, (n - 1) as nat, i);
    }
    let d = scaled_deviation(m, c, n - 1);
    assert(d * d >= 0) by (nonlinear_arith);
}

proof fn lemma_square_sum_nonnegative(m: Seq<Seq<i32>>, c: int, n: nat)
    ensures
        scaled_square_sum(m, c, n) >= 0,
    decreases n,
{
    if n > 0 {
        lemma_square_sum_nonnegative(m, c, (n - 1) as nat);
        let d = scaled_deviation(m, c, n - 1);
        assert(d * d >= 0) by (nonlinear_arith);
    }
}

/// The scaled square sum is `N` times the spread, and every squared scaled
/// deviation is at most `N` times the spread.
proof fn lemma_spread(m: Seq<Seq<i32>>, c: int)
    requires
        m.len() > 0,
    ensures
        scaled_square_sum(m, c, m.len()) == m.len() * spread(m, c),
        spread(m, c) >= 0,
        forall|i: int|
            0 <= i < m.len() ==> #[trigger] (scaled_deviation(m, c, i) * scaled_deviation(m, c, i))
                <= m.len() * spread(m, c),
{
    let big_n = m.len() as int;
    let r = mean_remainder(m, c);
    let a = floor_square_sum(m, c, m.len());
    lemma_square_sum_expansion(m, c, m.len());
    lemma_floor_deviation_sum(m, c, m.len());
    assert(floor_deviation_sum(m, c, m.len()) == r);
    assert(big_n * big_n * a - 2 * big_n * r * r + big_n * r * r == big_n * (big_n * a - r * r))
        by (nonlinear_arith);
    lemma_square_sum_nonnegative(m, c, m.len());
    assert(spread(m, c) >= 0) by (nonlinear_arith)
        requires
            big_n * spread(m, c) >= 0,
            big_n > 0,
    ;
    assert forall|i: int| 0 <= i < m.len() implies #[trigger] (scaled_deviation(m, c, i)
        * scaled_deviation(m, c, i)) <= m.len() * spread(m, c) by {
        lemma_square_sum_nonnegative_terms(m, c, m.len(), i);
    }
}

spec fn pow10(k: nat) -> int
    decreases k,
{
    if k == 0 {
        1
    } else {
        10 * pow10((k - 1) as nat)
    }
}

/// `n * SCALE^2 / v`, rounded down, by long division in base ten.
fn scaled_quotient(n: u128, v: u128) -> (t: u128)
    requires
        0 < v <= 0x100_0000_0000_0000_0000_0000_0000_0000,
        n <= 0x1000_0000 * v,
    ensures
        t * v <= n * (SCALE * SCALE),
        n * (SCALE * SCALE) < (t + 1) * v,
{
    let mut q: u128 = n / v;
    let mut rem: u128 = n % v;
    let ghost mut p: int = 1;
    proof {
        lemma_fundamental_div_mod(n as int, v as int);
        lemma_mod_bound(n as int, v as int);
        assert(q <= 0x1000_0000) by (nonlinear_arith)
            requires
                v * q <= n,
                n <= 0x1000_0000 * v,
                v > 0,
        ;
    }
    let mut k: usize = 0;
    while k < 8
        invariant
            0 < v <= 0x100_0000_0000_0000_0000_0000_0000_0000,
            n <= 0x1000_0000 * v,
            k <= 8,
            p >= 1,
            p == pow10(k as nat),
            n * p == q * v + rem,
            0 <= rem < v,
            q <= 0x1000_0000 * p,
            p <= 100000000,
        decreases 8 - k,
    {
        proof {
            assert(p <= 10000000) by {
                if k < 8 {
                    reveal_with_fuel(pow10, 9);
                    assert(pow10(k as nat) <= 10000000);
                }
            }
        }
        let ten_rem: u128 = rem * 10;
        let digit: u128 = ten_rem / v;
        let next_rem: u128 = ten_rem % v;
        proof {
            lemma_fundamental_div_mod(ten_rem as int, v as int);
            lemma_mod_bound(ten_rem as int, v as int);
            assert(digit < 10) by (nonlinear_arith)
                requires
                    digit * v <= ten_rem,
                    ten_rem < 10 * v,
                    v > 0,
            ;
            assert(n * (10 * p) == (10 * q + digit) * v + next_rem) by (nonlinear_arith)
                requires
                    n * p == q * v + rem,
                    ten_rem == rem * 10,
                    ten_rem == v * digit + next_rem,
            ;
        }
        q = q * 10 + digit;
        rem = next_rem;
        proof {
            p = 10 * p;
            assert(q <= 0x1000_0000 * p) by (nonlinear_arith)
                requires
                    q * v <= n * p,
                    n <= 0x1000_0000 * v,
                    v > 0,
                    p > 0,
            ;
        }
        k = k + 1;
    }
    proof {
        reveal_with_fuel(pow10, 9);
        assert(p == 100000000);
        assert(q * v <= n * (SCALE * SCALE));
        assert(n * (SCALE * SCALE) < (q + 1) * v) by (nonlinear_arith)
            requires
                n * (SCALE * SCALE) == q * v + rem,
                rem < v,
        ;
    }
    q
}

/// The fixed-point z-score of scaled deviation `d` given the spread `v`
/// of its column, rounded toward zero; zero when the column has no spread.
fn z_of(d: i128, v: u128) -> (z: i32)
    requires
        v <= 0x100_0000_0000_0000_0000_0000_0000_0000,
        -0x2000_0000_0000_0000 <= d <= 0x2000_0000_0000_0000,
        d * d <= 0x1000_0000 * v,
    ensures
        v == 0 ==> z == 0,
        v > 0 ==> {
            let a = if z < 0 { -z } else { z as int };
            &&& d > 0 ==> z >= 0
            &&& d < 0 ==> z <= 0
            &&& z * z * v <= d * d * (SCALE * SCALE)
            &&& d * d * (SCALE * SCALE) < (a + 1) * (a + 1) * v
        },
{
    if v == 0 {
        return 0;
    }
    let abs: u128 = if d < 0 {
        (0 - d) as u128
    } else {
        d as u128
    };
    assert(abs * abs == d * d) by (nonlinear_arith)
        requires
            abs == d || abs == -d,
    ;
    assert(abs * abs <= 0x4000_0000_0000_0000_0000_0000_0000_0000) by (nonlinear_arith)
        requires
            0 <= abs <= 0x2000_0000_0000_0000,
    ;
    let t = scaled_quotient(abs * abs, v);
    let a = floor_sqrt(t);
    proof {
        assert(t <= 0x1000_0000 * (SCALE * SCALE)) by (nonlinear_arith)
            requires
                t * v <= abs * abs * (SCALE * SCALE),
                abs * abs <= 0x1000_0000 * v,
                v > 0,
        ;
        assert(a < 0x1000_0000) by (nonlinear_arith)
            requires
                a * a <= t,
                t <= 0x1000_0000 * 100000000,
                a >= 0,
        ;
        assert(a * a * v <= abs * abs * (SCALE * SCALE)) by (nonlinear_arith)
            requires
                a * a <= t,
                t * v <= abs * abs * (SCALE * SCALE),
                v > 0,
        ;
        assert(abs * abs * (SCALE * SCALE) < (a + 1) * (a + 1) * v) by (nonlinear_arith)
            requires
                t < (a + 1) * (a + 1),
                abs * abs * (SCALE * SCALE) < (t + 1) * v,
                v > 0,
        ;
    }
    let z: i32 = if d < 0 {
        0 - a as i32
    } else {
        a as i32
    };
    assert(z * z == a * a) by (nonlinear_arith)
        requires
            z == a || z == -a,
    ;
    z
}

/// Rounded-down mean, remainder and spread of column `c`.
fn column_stats(m: &FeatureMatrix, c: usize) -> (r: (i64, i128, u128))
    requires
        m.wf(),
        0 < m@.len() <= MAX_ROWS,
        c < matrix_width(*m),
    ensures
        r.0 == floor_mean(m@, c as int),
        r.1 == mean_remainder(m@, c as int),
        r.2 == spread(m@, c as int),
        r.2 <= 0x100_0000_0000_0000_0000_0000_0000_0000,
{
    let n = m.num_rows();
    let mut sum: i128 = 0;
    let mut i: usize = 0;
    while i < n
        invariant
            m.wf(),
            n == m@.len(),
            c < matrix_width(*m),
            i <= n,
            sum == column_sum(m@, c as int, i as nat),
            i * i32::MIN <= sum <= i * i32::MAX,
        decreases n - i,
    {
        sum = sum + m.get(i, c) as i128;
        i = i + 1;
    }
    let offset: i128 = 0x8000_0000;
    proof {
        lemma_floor_mean_range(m@, c as int);
        lemma_hoist_over_denominator(sum as int, 0x8000_0000, n as nat);
    }
    let shifted: u128 = (sum + offset * n as i128) as u128;
    let mean: i64 = ((shifted / n as u128) as i128 - offset) as i64;
    assert(mean == floor_mean(m@, c as int));
    let rem: i128 = sum - n as i128 * mean as i128;
    let mut squares: u128 = 0;
    let mut i: usize = 0;
    while i < n
        invariant
            m.wf(),
            n == m@.len(),
            n <= MAX_ROWS,
            c < matrix_width(*m),
            i <= n,
            mean == floor_mean(m@, c as int),
            i32::MIN <= mean <= i32::MAX,
            squares == floor_square_sum(m@, c as int, i as nat),
        decreases n - i,
    {
        proof {
            lemma_floor_square_bound(m@, c as int, (i + 1) as nat);
            assert((i + 1) * MAX_SQUARE_TERM <= u128::MAX) by (nonlinear_arith)
                requires
                    i + 1 <= MAX_ROWS,
            ;
        }
        let dev: i64 = m.get(i, c) as i64 - mean;
        let abs: u128 = if dev < 0 {
            (0 - dev) as u128
        } else {
            dev as u128
        };
        assert(abs * abs == dev * dev) by (nonlinear_arith)
            requires
                abs == dev || abs == -dev,
        ;
        squares = squares + abs * abs;
        i = i + 1;
    }
    proof {
        lemma_floor_square_bound(m@, c as int, n as nat);
        lemma_spread(m@, c as int);
        assert(n * squares <= 0x100_0000_0000_0000_0000_0000_0000_0000) by (nonlinear_arith)
            requires
                squares <= n * MAX_SQUARE_TERM,
                n <= MAX_ROWS,
                squares >= 0,
        ;
        assert(rem * rem < 0x100_0000_0000_0000) by (nonlinear_arith)
            requires
                0 <= rem < n,
                n <= MAX_ROWS,
        ;
    }
    let v: u128 = n as u128 * squares - (rem * rem) as u128;
    (mean, rem, v)
}

proof fn lemma_z_score_from_spread(z: int, d: int, v: int, n: int)
    requires
        n > 0,
        v == 0 ==> z == 0,
        v > 0 ==> {
            let a = if z < 0 { -z } else { z };
            &&& d > 0 ==> z >= 0
            &&& d < 0 ==> z <= 0
            &&& z * z * v <= d * d * (SCALE * SCALE)
            &&& d * d * (SCALE * SCALE) < (a + 1) * (a + 1) * v
        },
        v >= 0,
    ensures
        is_z_score(z, d, n * v, n),
{
    if v == 0 {
        assert(n * v == 0) by (nonlinear_arith)
            requires
                v == 0,
        ;
    } else {
        let a = if z < 0 { -z } else { z };
        assert(n * v != 0) by (nonlinear_arith)
            requires
                n > 0,
                v > 0,
        ;
        assert(z * z * (n * v) <= d * d * (SCALE * SCALE) * n) by (nonlinear_arith)
            requires
                z * z * v <= d * d * (SCALE * SCALE),
                n > 0,
        ;
        assert(d * d * (SCALE * SCALE) * n < (a + 1) * (a + 1) * (n * v)) by (nonlinear_arith)
            requires
                d * d * (SCALE * SCALE) < (a + 1) * (a + 1) * v,
                n > 0,
        ;
    }
}

/// Rescales every column of the matrix to z-scores over the whole column:
/// each entry becomes `(x - mean) / std_dev` with the exact mean and the
/// population standard deviation (divisor: the number of rows), in fixed
/// point and rounded toward zero. A column without spread becomes all zeros;
/// the result tells, for each column, whether that happened.
pub fn calc_z_sc(feats: &mut FeatureMatrix) -> (constant: Vec<bool>)
    requires
        old(feats)@.len() <= MAX_ROWS,
    ensures
        matrix_width(*final(feats)) == matrix_width(*old(feats)),
        normalized(old(feats)@, final(feats)@, constant@, matrix_width(*old(feats))),
{
    let n = feats.num_rows();
    let w = feats.width();
    // The rebuilt matrix has the same shape, which therefore fits an array.
    let _ = feats.len();
    let mut means: Vec<i64> = Vec::new();
    let mut rems: Vec<i128> = Vec::new();
    let mut spreads: Vec<u128> = Vec::new();
    let mut constant: Vec<bool> = Vec::new();
    let mut c: usize = 0;
    while c < w
        invariant
            feats.wf(),
            n == feats@.len(),
            n <= MAX_ROWS,
            w == matrix_width(*feats),
            c <= w,
            means@.len() == c,
            rems@.len() == c,
            spreads@.len() == c,
            constant@.len() == c,
            forall|j: int|
                0 <= j < c ==> #[trigger] constant@[j] == (scaled_square_sum(feats@, j, n as nat)
                    == 0),
            n > 0 ==> forall|j: int|
                0 <= j < c ==> {
                    &&& #[trigger] means@[j] == floor_mean(feats@, j)
                    &&& rems@[j] == mean_remainder(feats@, j)
                    &&& spreads@[j] == spread(feats@, j)
                    &&& spreads@[j] <= 0x100_0000_0000_0000_0000_0000_0000_0000
                },
        decreases w - c,
    {
        if n == 0 {
            means.push(0);
            rems.push(0);
            spreads.push(0);
            constant.push(true);
        } else {
            let (mean, rem, v) = column_stats(feats, c);
            proof {
                lemma_spread(feats@, c as int);
                assert((n * v == 0) == (v == 0)) by (nonlinear_arith)
                    requires
                        n > 0,
                        v >= 0,
                ;
            }
            let ghost (m0, r0, s0) = (means@, rems@, spreads@);
            means.push(mean);
            rems.push(rem);
            spreads.push(v);
            constant.push(v == 0);
            assert forall|j: int| 0 <= j <= c implies {
                &&& #[trigger] means@[j] == floor_mean(feats@, j)
                &&& rems@[j] == mean_remainder(feats@, j)
                &&& spreads@[j] == spread(feats@, j)
                &&& spreads@[j] <= 0x100_0000_0000_0000_0000_0000_0000_0000
            } by {
                if j < c {
                    assert(means@[j] == m0[j] && rems@[j] == r0[j] && spreads@[j] == s0[j]);
                }
            }
        }
        c = c + 1;
    }
    let mut rows: Vec<Vec<i32>> = Vec::new();
    let mut i: usize = 0;
    while i < n
        invariant
            feats.wf(),
            n == feats@.len(),
            n <= MAX_ROWS,
            w == matrix_width(*feats),
            i <= n,
            means@.len() == w,
            rems@.len() == w,
            spreads@.len() == w,
            n > 0 ==> forall|j: int|
                0 <= j < w ==> {
                    &&& #[trigger] means@[j] == floor_mean(feats@, j)
                    &&& rems@[j] == mean_remainder(feats@, j)
                    &&& spreads@[j] == spread(feats@, j)
                    &&& spreads@[j] <= 0x100_0000_0000_0000_0000_0000_0000_0000
                },
            rows@.len() == i,
            forall|k: int| 0 <= k < i ==> (#[trigger] rows@[k])@.len() == w,
            forall|k: int, j: int|
                0 <= k < i && 0 <= j < w ==> is_z_score(
                    #[trigger] rows@[k]@[j] as int,
                    scaled_deviation(feats@, j, k),
                    scaled_square_sum(feats@, j, n as nat),
                    n as int,
                ),
        decreases n - i,
    {
        let mut row: Vec<i32> = Vec::new();
        let mut c: usize = 0;
        while c < w
            invariant
                feats.wf(),
                n == feats@.len(),
                n <= MAX_ROWS,
                w == matrix_width(*feats),
                i < n,
                c <= w,
                means@.len() == w,
                rems@.len() == w,
                spreads@.len() == w,
                forall|j: int|
                    0 <= j < w ==> {
                        &&& #[trigger] means@[j] == floor_mean(feats@, j)
                        &&& rems@[j] == mean_remainder(feats@, j)
                        &&& spreads@[j] == spread(feats@, j)
                        &&& spreads@[j] <= 0x100_0000_0000_0000_0000_0000_0000_0000
                    },
                row@.len() == c,
                forall|j: int|
                    0 <= j < c ==> is_z_score(
                        #[trigger] row@[j] as int,
                        scaled_deviation(feats@, j, i as int),
                        scaled_square_sum(feats@, j, n as nat),
                        n as int,
                    ),
            decreases w - c,
        {
            let x = feats.get(i, c);
            let mean = means[c];
            let rem = rems[c];
            let v = spreads[c];
            proof {
                lemma_floor_mean_range(feats@, c as int);
                lemma_spread(feats@, c as int);
            }
            let dev: i64 = x as i64 - mean;
            proof {
                assert(-0x1_0000_0000 * 0x1000_0000 <= n * dev <= 0x1_0000_0000 * 0x1000_0000)
                    by (nonlinear_arith)
                    requires
                        -0x1_0000_0000 <= dev <= 0x1_0000_0000,
                        0 <= n <= 0x1000_0000,
                ;
            }
            let d: i128 = n as i128 * dev as i128 - rem;
            let ghost sd = scaled_deviation(feats@, c as int, i as int);
            proof {
                assert(d == sd) by (nonlinear_arith)
                    requires
                        d == n * (x - mean) - rem,
                        rem == column_sum(feats@, c as int, n as nat) - n * mean,
                        sd == n * x - column_sum(feats@, c as int, n as nat),
                ;
                assert(d * d <= 0x1000_0000 * v) by (nonlinear_arith)
                    requires
                        d * d <= n * v,
                        n <= 0x1000_0000,
                        v >= 0,
                ;
            }
            let z = z_of(d, v);
            proof {
                lemma_z_score_from_spread(z as int, d as int, v as int, n as int);
            }
            row.push(z);
            c = c + 1;
        }
        rows.push(row);
        i = i + 1;
    }
    let ghost before = feats@;
    let ghost new_rows = rows@;
    *feats = FeatureMatrix::from_uniform_rows(&rows, w);
    assert forall|k: int| 0 <= k < n implies #[trigger] feats@[k] == new_rows[k]@ by {}
    assert(normalized(before, feats@, constant@, w as nat));
    constant
}

/// Sum of the squares of column `c` over the first `n` rows.
pub open spec fn column_square_sum(m: Seq<Seq<i32>>, c: int, n: nat) -> int
    decreases n,
{
    if n == 0 {
        0
    } else {
        let z = m[n - 1][c] as int;
        column_square_sum(m, c, (n - 1) as nat) + z * z
    }
}

/// Sum over the first `n` rows of `(|x| + 1)^2`, the squares of the entries
/// of column `c` moved one unit away from zero.
pub open spec fn column_outer_square_sum(m: Seq<Seq<i32>>, c: int, n: nat) -> int
    decreases n,
{
    if n == 0 {
        0
    } else {
        let z = m[n - 1][c] as int;
        let a = if z < 0 { -z } else { z };
        column_outer_square_sum(m, c, (n - 1) as nat) + (a + 1) * (a + 1)
    }
}

proof fn lemma_second_moment_prefix(
    old: Seq<Seq<i32>>,
    new: Seq<Seq<i32>>,
    constant: Seq<bool>,
    width: nat,
    c: int,
    n: nat,
)
    requires
        normalized(old, new, constant, width),
        0 <= c < width,
        n <= old.len(),
        scaled_square_sum(old, c, old.len()) > 0,
    ensures
        ({
            let q = scaled_square_sum(old, c, old.len());
            let k = (SCALE * SCALE) * old.len();
            &&& q * column_square_sum(new, c, n) <= k * scaled_square_sum(old, c, n)
            &&& q * column_outer_square_sum(new, c, n) >= k * scaled_square_sum(old, c, n) + n
        }),
    decreases n,
{
    let q = scaled_square_sum(old, c, old.len());
    let k = (SCALE * SCALE) * old.len();
    if n > 0 {
        let j = (n - 1) as nat;
        lemma_second_moment_prefix(old, new, constant, width, c, j);
        let z = new[j as int][c] as int;
        let a = if z < 0 { -z } else { z };
        let d = scaled_deviation(old, c, j as int);
        assert(is_z_score(z, d, q, old.len() as int));
        assert(a * a == z * z) by (nonlinear_arith)
            requires
                a == z || a == -z,
        ;
        let s0 = column_square_sum(new, c, j);
        let o0 = column_outer_square_sum(new, c, j);
        let t0 = scaled_square_sum(old, c, j);
        assert(z * z * q <= d * d * (SCALE * SCALE) * old.len());
        assert(d * d * (SCALE * SCALE) * old.len() + 1 <= (a + 1) * (a + 1) * q);
        assert(q * (s0 + z * z) <= k * (t0 + d * d)) by (nonlinear_arith)
            requires
                q * s0 <= k * t0,
                z * z * q <= d * d * (SCALE * SCALE) * old.len(),
                k == (SCALE * SCALE) * old.len(),
        ;
        assert(q * (o0 + (a + 1) * (a + 1)) >= k * (t0 + d * d) + n) by (nonlinear_arith)
            requires
                q * o0 >= k * t0 + j,
                d * d * (SCALE * SCALE) * old.len() + 1 <= (a + 1) * (a + 1) * q,
                k == (SCALE * SCALE) * old.len(),
                n == j + 1,
        ;
    } else {
        assert(q * 0 == 0 && k * 0 == 0) by (nonlinear_arith);
    }
}

/// In a normalized column that had spread, the mean square of the z-scores
/// is at most one, and it would exceed one if every z-score were moved one
/// fixed-point unit away from zero: with `N` rows,
/// `sum z^2 <= N * SCALE^2 < sum (|z| + 1)^2`.
pub proof fn lemma_normalized_second_moment(
    old: Seq<Seq<i32>>,
    new: Seq<Seq<i32>>,
    constant: Seq<bool>,
    width: nat,
    c: int,
)
    requires
        normalized(old, new, constant, width),
        0 <= c < width,
        old.len() > 0,
        !constant[c],
    ensures
        column_square_sum(new, c, new.len()) <= (SCALE * SCALE) * new.len(),
        (SCALE * SCALE) * new.len() < column_outer_square_sum(new, c, new.len()),
{
    let q = scaled_square_sum(old, c, old.len());
    let k = (SCALE * SCALE) * old.len();
    lemma_square_sum_nonnegative(old, c, old.len());
    assert(q != 0);
    lemma_second_moment_prefix(old, new, constant, width, c, old.len());
    let s = column_square_sum(new, c, new.len());
    let o = column_outer_square_sum(new, c, new.len());
    assert(s <= k) by (nonlinear_arith)
        requires
            q * s <= k * q,
            q > 0,
    ;
    assert(k < o) by (nonlinear_arith)
        requires
            q * o >= k * q + old.len(),
            old.len() > 0,
            q > 0,
    ;
}

} // verus!
