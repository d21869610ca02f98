use vstd::prelude::*;

use crate::matrix::{matrix_width, FeatureMatrix};
use crate::numeric::{floor_sqrt, is_floor_sqrt, lemma_floor_sqrt_unique};

verus! {

/// Largest square of a difference of two `i32` values.
pub const MAX_SQUARE_TERM: u128 = 0xFFFF_FFFE_0000_0001;

/// Sum of the squared differences of `a` and `b` over their first `n` columns.
pub open spec fn squared_distance_prefix(a: Seq<i32>, b: Seq<i32>, n: nat) -> int
    decreases n,
{
    if n == 0 {
        0
    } else {
        let d = a[n - 1] - b[n - 1];
        squared_distance_prefix(a, b, (n - 1) as nat) + d * d
    }
}

/// Squared Euclidean distance between two rows of equal length.
pub open spec fn squared_distance(a: Seq<i32>, b: Seq<i32>) -> int {
    squared_distance_prefix(a, b, a.len())
}

/// The squared distance from the query row to each candidate row, paired
/// with the candidate's index, in candidate order.
pub open spec fn distance_pairs(m: Seq<Seq<i32>>, q: int, candidates: Seq<usize>) -> Seq<(u128, usize)> {
    Seq::new(
        candidates.len(),
        |j: int| (squared_distance(m[candidates[j] as int], m[q]) as u128, candidates[j]),
    )
}

/// Inserts `x` after every trailing element whose distance exceeds `x`'s.
/// Applied to a list sorted by distance, this keeps it sorted and puts `x`
/// after the elements of equal distance.
pub open spec fn insert_by_distance(s: Seq<(u128, usize)>, x: (u128, usize)) -> Seq<(u128, usize)>
    decreases s.len(),
{
    if s.len() == 0 {
        seq![x]
    } else if s.last().0 <= x.0 {
        s.push(x)
    } else {
        insert_by_distance(s.drop_last(), x).push(s.last())
    }
}

/// Stable sort by ascending distance: pairs of equal distance keep their
/// relative order.
pub open spec fn sort_by_distance(s: Seq<(u128, usize)>) -> Seq<(u128, usize)>
    decreases s.len(),
{
    if s.len() == 0 {
        s
    } else {
        insert_by_distance(sort_by_distance(s.drop_last()), s.last())
    }
}

/// The `k` nearest candidates by squared distance, nearest first.
pub open spec fn nearest(m: Seq<Seq<i32>>, q: int, candidates: Seq<usize>, k: nat) -> Seq<(u128, usize)> {
    let sorted = sort_by_distance(distance_pairs(m, q, candidates));
    sorted.take(if k < sorted.len() { k as int } else { sorted.len() as int })
}

/// `r` lists `pairs` with each squared distance replaced by its rounded-down
/// square root.
pub open spec fn rooted(r: Seq<(u64, usize)>, pairs: Seq<(u128, usize)>) -> bool {
    &&& r.len() == pairs.len()
    &&& forall|j: int|
        0 <= j < r.len() ==> #[trigger] is_floor_sqrt(r[j].0 as int, pairs[j].0 as int) && r[j].1
            == pairs[j].1
}

/// Indices that may be used as rows of `m`.
pub open spec fn valid_rows(m: FeatureMatrix, q: int, candidates: Seq<usize>) -> bool {
    &&& 0 <= q < m@.len()
    &&& forall|j: int| 0 <= j < candidates.len() ==> #[trigger] candidates[j] < m@.len()
}

proof fn lemma_squared_distance_bound(a: Seq<i32>, b: Seq<i32>, n: nat)
    requires
        n <= a.len(),
        n <= b.len(),
    ensures
        0 <= squared_distance_prefix(a, b, n) <= n * MAX_SQUARE_TERM,
    decreases n,
{
    if n > 0 {
        lemma_squared_distance_bound(a, b, (n - 1) as nat);
        let d = a[n - 1] - b[n - 1];
        assert(0 <= d * d <= MAX_SQUARE_TERM) by (nonlinear_arith)
            requires
                -0xFFFF_FFFF <= d <= 0xFFFF_FFFF,
        ;
    }
}

fn row_squared_distance(m: &FeatureMatrix, a: usize, b: usize, w: usize) -> (r: u128)
    requires
        m.wf(),
        w == matrix_width(*m),
        a < m@.len(),
        b < m@.len(),
    ensures
        r == squared_distance(m@[a as int], m@[b as int]),
{
    let ghost ra = m@[a as int];
    let ghost rb = m@[b as int];
    let mut acc: u128 = 0;
    let mut d: usize = 0;
    while d < w
        invariant
            m.wf(),
            w == matrix_width(*m),
            a < m@.len(),
            b < m@.len(),
            ra == m@[a as int],
            rb == m@[b as int],
            ra.len() == w,
            rb.len() == w,
            d <= w,
            acc == squared_distance_prefix(ra, rb, d as nat),
        decreases w - d,
    {
        proof {
            lemma_squared_distance_bound(ra, rb, (d + 1) as nat);
            assert((d + 1) * MAX_SQUARE_TERM <= u128::MAX) by (nonlinear_arith)
                requires
                    d + 1 <= usize::MAX,
            ;
        }
        let diff: i64 = m.get(a, d) as i64 - m.get(b, d) as i64;
        let abs: u128 = if diff < 0 {
            (0 - diff) as u128
        } else {
            diff as u128
        };
        assert(abs * abs == diff * diff) by (nonlinear_arith)
            requires
                abs == diff || abs == -diff,
        ;
        acc = acc + abs * abs;
        d = d + 1;
    }
    acc
}

/// The squared Euclidean distance from the query row to each candidate row,
/// paired with the candidate's index, in candidate order.
pub fn squared_distances(query_idx: usize, candidates: &[usize], features: &FeatureMatrix) -> (r: Vec<(u128, usize)>)
    requires
        valid_rows(*features, query_idx as int, candidates@),
    ensures
        r@ == distance_pairs(features@, query_idx as int, candidates@),
{
    let w = features.width();
    let mut out: Vec<(u128, usize)> = Vec::new();
    let mut j: usize = 0;
    while j < candidates.len()
        invariant
            j <= candidates@.len(),
            valid_rows(*features, query_idx as int, candidates@),
            features.wf(),
            w == matrix_width(*features),
            out@ =~= distance_pairs(features@, query_idx as int, candidates@).take(j as int),
        decreases candidates@.len() - j,
    {
        let c = candidates[j];
        let d = row_squared_distance(features, c, query_idx, w);
        out.push((d, c));
        j = j + 1;
    }
    out
}

/// The Euclidean distance, rounded down, from the query row to each
/// candidate row, paired with the candidate's index, in candidate order.
pub fn compute_distances(query_idx: usize, candidates: &[usize], features: &FeatureMatrix) -> (r: Vec<(u64, usize)>)
    requires
        valid_rows(*features, query_idx as int, candidates@),
    ensures
        rooted(r@, distance_pairs(features@, query_idx as int, candidates@)),
{
    let pairs = squared_distances(query_idx, candidates, features);
    assert(pairs@.take(pairs@.len() as int) =~= pairs@);
    roots(&pairs, pairs.len())
}

/// The first `n` pairs, with each squared distance replaced by its root.
fn roots(pairs: &Vec<(u128, usize)>, n: usize) -> (r: Vec<(u64, usize)>)
    requires
        n <= pairs@.len(),
    ensures
        rooted(r@, pairs@.take(n as int)),
{
    let mut out: Vec<(u64, usize)> = Vec::new();
    let mut j: usize = 0;
    while j < n
        invariant
            j <= n <= pairs@.len(),
            rooted(out@, pairs@.take(j as int)),
        decreases n - j,
    {
        let (sq, i) = pairs[j];
        out.push((floor_sqrt(sq), i));
        j = j + 1;
        assert(forall|t: int| 0 <= t < j ==> pairs@.take(j as int)[t] == pairs@[t]);
        assert(forall|t: int| 0 <= t < j - 1 ==> pairs@.take(j - 1)[t] == pairs@[t]);
    }
    out
}

proof fn lemma_insert_at(s: Seq<(u128, usize)>, x: (u128, usize), p: int)
    requires
        0 <= p <= s.len(),
        forall|j: int| p <= j < s.len() ==> (#[trigger] s[j]).0 > x.0,
        p > 0 ==> s[p - 1].0 <= x.0,
    ensures
        insert_by_distance(s, x) == s.insert(p, x),
    decreases s.len(),
{
    if s.len() == 0 {
        assert(s.insert(p, x) =~= seq![x]);
    } else if s.len() == p {
        assert(s.insert(p, x) =~= s.push(x));
    } else {
        let t = s.drop_last();
        lemma_insert_at(t, x, p);
        assert(s.insert(p, x) =~= t.insert(p, x).push(s.last()));
    }
}

/// Sorts pairs by ascending distance, keeping the order of equal distances.
fn stable_sort_by_distance(pairs: &Vec<(u128, usize)>) -> (r: Vec<(u128, usize)>)
    ensures
        r@ == sort_by_distance(pairs@),
{
    let mut out: Vec<(u128, usize)> = Vec::new();
    let mut i: usize = 0;
    while i < pairs.len()
        invariant
            i <= pairs@.len(),
            out@ == sort_by_distance(pairs@.take(i as int)),
        decreases pairs@.len() - i,
    {
        let x = pairs[i];
        let mut p: usize = out.len();
        while p > 0 && out[p - 1].0 > x.0
            invariant
                p <= out@.len(),
                forall|j: int| p <= j < out@.len() ==> (#[trigger] out@[j]).0 > x.0,
            decreases p,
        {
            p = p - 1;
        }
        proof {
            lemma_insert_at(out@, x, p as int);
            let next = pairs@.take(i + 1);
            assert(next.drop_last() =~= pairs@.take(i as int));
            assert(next.last() == x);
        }
        out.insert(p, x);
        i = i + 1;
    }
    assert(pairs@.take(pairs@.len() as int) =~= pairs@);
    out
}

/// The `k` candidates nearest to the query row, nearest first, each with its
/// Euclidean distance rounded down. The order is by exact squared distance,
/// and candidates at equal exact distance keep their order; two candidates
/// whose rounded distances agree may still differ in exact distance.
/// Fewer than `k` are returned when there are fewer candidates.
pub fn rank(query_idx: usize, candidates: &[usize], features: &FeatureMatrix, k: usize) -> (r: Vec<(u64, usize)>)
    requires
        valid_rows(*features, query_idx as int, candidates@),
    ensures
        rooted(r@, nearest(features@, query_idx as int, candidates@, k as nat)),
{
    let pairs = squared_distances(query_idx, candidates, features);
    let sorted = stable_sort_by_distance(&pairs);
    proof {
        lemma_sort_len(pairs@);
    }
    let n: usize = if k < sorted.len() {
        k
    } else {
        sorted.len()
    };
    roots(&sorted, n)
}

proof fn lemma_insert_len(s: Seq<(u128, usize)>, x: (u128, usize))
    ensures
        insert_by_distance(s, x).len() == s.len() + 1,
    decreases s.len(),
{
    if s.len() > 0 {
        lemma_insert_len(s.drop_last(), x);
    }
}

/// Sorting keeps the number of pairs.
pub proof fn lemma_sort_len(s: Seq<(u128, usize)>)
    ensures
        sort_by_distance(s).len() == s.len(),
    decreases s.len(),
{
    if s.len() > 0 {
        lemma_sort_len(s.drop_last());
        lemma_insert_len(sort_by_distance(s.drop_last()), s.last());
    }
}

/// Pairs are in ascending order of distance.
pub open spec fn ascending(s: Seq<(u128, usize)>) -> bool {
    forall|i: int, j: int| 0 <= i < j < s.len() ==> (#[trigger] s[i]).0 <= (#[trigger] s[j]).0
}

proof fn lemma_insert_ordered_permutation(s: Seq<(u128, usize)>, x: (u128, usize))
    requires
        ascending(s),
    ensures
        ascending(insert_by_distance(s, x)),
        insert_by_distance(s, x).to_multiset() == s.to_multiset().insert(x),
    decreases s.len(),
{
    broadcast use vstd::seq_lib::to_multiset_build, vstd::seq_lib::to_multiset_contains;

    if s.len() == 0 {
        assert(seq![x] =~= s.push(x));
    } else if s.last().0 <= x.0 {
    } else {
        let t = s.drop_last();
        let last = s.last();
        assert(ascending(t));
        lemma_insert_ordered_permutation(t, x);
        let u = insert_by_distance(t, x);
        assert(s =~= t.push(last));
        assert(u.push(last).to_multiset() =~= s.to_multiset().insert(x));
        assert forall|i: int| 0 <= i < u.len() implies (#[trigger] u[i]).0 <= last.0 by {
            let e = u[i];
            assert(u.contains(e));
            assert(u.to_multiset().count(e) > 0);
            if e != x {
                assert(t.to_multiset().count(e) > 0);
                assert(t.contains(e));
                let j = choose|j: int| 0 <= j < t.len() && t[j] == e;
                assert(s[j] == e);
            }
        }
        let r = u.push(last);
        assert forall|i: int, j: int| 0 <= i < j < r.len() implies (#[trigger] r[i]).0 <= (
        #[trigger] r[j]).0 by {
            if j < u.len() {
                assert(r[i] == u[i] && r[j] == u[j]);
            } else {
                assert(r[i] == u[i]);
            }
        }
    }
}

/// The sort by distance yields the same pairs, in ascending order of
/// distance.
pub proof fn lemma_sort_ordered_permutation(s: Seq<(u128, usize)>)
    ensures
        ascending(sort_by_distance(s)),
        sort_by_distance(s).to_multiset() == s.to_multiset(),
    decreases s.len(),
{
    broadcast use vstd::seq_lib::to_multiset_build;

    if s.len() > 0 {
        let t = s.drop_last();
        lemma_sort_ordered_permutation(t);
        lemma_insert_ordered_permutation(sort_by_distance(t), s.last());
        assert(s =~= t.push(s.last()));
    }
}

/// The ranking holds `min(k, |candidates|)` entries: all candidates when `k`
/// exceeds their number, and none when there are no candidates.
pub proof fn lemma_nearest_len(m: Seq<Seq<i32>>, q: int, candidates: Seq<usize>, k: nat)
    ensures
        nearest(m, q, candidates, k).len() == if k < candidates.len() { k } else { candidates.len() },
        k >= candidates.len() ==> nearest(m, q, candidates, k).len() == candidates.len(),
        candidates.len() == 0 ==> nearest(m, q, candidates, k) == Seq::<(u128, usize)>::empty(),
{
    lemma_sort_len(distance_pairs(m, q, candidates));
    if candidates.len() == 0 {
        assert(nearest(m, q, candidates, k) =~= Seq::<(u128, usize)>::empty());
    }
}

/// Ranking is deterministic: two rankings of the same query, candidates and
/// `k` are identical.
pub proof fn lemma_rank_deterministic(
    m: Seq<Seq<i32>>,
    q: int,
    candidates: Seq<usize>,
    k: nat,
    r1: Seq<(u64, usize)>,
    r2: Seq<(u64, usize)>,
)
    requires
        rooted(r1, nearest(m, q, candidates, k)),
        rooted(r2, nearest(m, q, candidates, k)),
    ensures
        r1 == r2,
{
    let n = nearest(m, q, candidates, k);
    assert forall|j: int| 0 <= j < r1.len() implies r1[j] == r2[j] by {
        assert(is_floor_sqrt(r1[j].0 as int, n[j].0 as int));
        assert(is_floor_sqrt(r2[j].0 as int, n[j].0 as int));
        lemma_floor_sqrt_unique(r1[j].0 as int, r2[j].0 as int, n[j].0 as int);
    }
    assert(r1 =~= r2);
}

/// Holds of the pairs at exactly squared distance `d`.
pub open spec fn at_distance(d: u128) -> spec_fn((u128, usize)) -> bool {
    |p: (u128, usize)| p.0 == d
}

proof fn lemma_insert_stable(t: Seq<(u128, usize)>, x: (u128, usize), d: u128)
    ensures
        insert_by_distance(t, x).filter(at_distance(d)) == if x.0 == d {
            t.filter(at_distance(d)).push(x)
        } else {
            t.filter(at_distance(d))
        },
    decreases t.len(),
{
    broadcast use vstd::prelude::Seq::lemma_filter_push;

    if t.len() == 0 {
        assert(seq![x] =~= t.push(x));
    } else if t.last().0 <= x.0 {
    } else {
        let u = t.drop_last();
        let l = t.last();
        lemma_insert_stable(u, x, d);
        assert(t =~= u.push(l));
        assert(insert_by_distance(t, x) == insert_by_distance(u, x).push(l));
    }
}

/// The sort is stable: the pairs at any one exact squared distance come out
/// in the order in which they went in.
pub proof fn lemma_sort_stable(s: Seq<(u128, usize)>, d: u128)
    ensures
        sort_by_distance(s).filter(at_distance(d)) == s.filter(at_distance(d)),
    decreases s.len(),
{
    broadcast use vstd::prelude::Seq::lemma_filter_push;

    if s.len() > 0 {
        let u = s.drop_last();
        lemma_sort_stable(u, d);
        lemma_insert_stable(sort_by_distance(u), s.last(), d);
        assert(s =~= u.push(s.last()));
    } else {
        assert(s.filter(at_distance(d)) =~= Seq::<(u128, usize)>::empty()) by {
            s.lemma_filter_len(at_distance(d));
        }
        assert(sort_by_distance(s) == s);
    }
}

} // verus!
