//! Closed tours over a set of cities.
//!
//! A route is a permutation of the city indices `0..n`, read as a closed
//! cycle: after the last city the tour returns to the first. This module
//! defines validity of a route, the exact length of the cycle it describes,
//! the 2-opt segment reversal that the annealing engine uses to step from one
//! tour to a neighbouring one, and the lemmas that tie them together.

use vstd::prelude::*;
use vstd::pervasive::VecAdditionalExecFns;
use vstd::set_lib::lemma_int_range;
use vstd::set_lib::lemma_subset_equality;
use vstd::set_lib::set_int_range;

use crate::matrix::DistanceMatrix;
use crate::matrix::MAX_CITIES;
use crate::matrix::MAX_DISTANCE;

verus! {

/// A closed route visiting every city exactly once, together with its total
/// cycle length.
pub struct Tour {
    /// A permutation of the city indices `0..n`.
    pub route: Vec<usize>,
    /// The length of the closed cycle along `route`, in the units of the
    /// distance matrix the tour was searched over.
    pub distance: u64,
}

/// `r` is a permutation of the city indices `0..n`: it has length `n`, every
/// entry is a city index below `n`, and no city appears twice.
pub open spec fn valid_route(r: Seq<usize>, n: nat) -> bool {
    &&& r.len() == n
    &&& forall|k: int| 0 <= k < r.len() ==> (#[trigger] r[k]) < n
    &&& r.no_duplicates()
}

/// The length of the open path along `r`: the sum of the distances between
/// consecutive entries. Zero when fewer than two cities are visited.
pub open spec fn path_length(m: DistanceMatrix, r: Seq<usize>) -> int
    decreases r.len(),
{
    if r.len() <= 1 {
        0
    } else {
        path_length(m, r.drop_last()) + m.dist(r[r.len() - 2] as int, r[r.len() - 1] as int)
    }
}

/// The length of the closed cycle along `r`: the open path plus the closing
/// edge from the last city back to the first. Zero when `r` visits fewer than
/// two cities, closing edge included.
pub open spec fn tour_length(m: DistanceMatrix, r: Seq<usize>) -> int {
    if r.len() <= 1 {
        0
    } else {
        path_length(m, r) + m.dist(r[r.len() - 1] as int, r[0] as int)
    }
}

/// An open path over a well-formed matrix has a non-negative length of at
/// most one maximal edge per step.
pub proof fn lemma_path_length_bounds(m: DistanceMatrix, r: Seq<usize>)
    requires
        m.wf(),
    ensures
        0 <= path_length(m, r),
        r.len() >= 1 ==> path_length(m, r) <= (r.len() - 1) * MAX_DISTANCE,
    decreases r.len(),
{
    if r.len() > 1 {
        lemma_path_length_bounds(m, r.drop_last());
    }
}

/// A closed cycle over a well-formed matrix has a non-negative length of at
/// most one maximal edge per city.
pub proof fn lemma_tour_length_bounds(m: DistanceMatrix, r: Seq<usize>)
    requires
        m.wf(),
    ensures
        0 <= tour_length(m, r),
        tour_length(m, r) <= r.len() * MAX_DISTANCE,
{
    lemma_path_length_bounds(m, r);
}

/// Every city below `n` appears somewhere on a valid route: a permutation has
/// no omissions, not only no duplicates.
pub proof fn lemma_valid_route_visits_all(r: Seq<usize>, n: nat)
    requires
        valid_route(r, n),
    ensures
        forall|c: usize| c < n ==> r.contains(c),
{
    broadcast use vstd::seq_lib::seq_to_set_is_finite;

    let ints = r.map_values(|x: usize| x as int);
    assert(ints.no_duplicates()) by {
        assert forall|a: int, b: int|
            0 <= a < ints.len() && 0 <= b < ints.len() && a != b implies ints[a] != ints[b] by {
            assert(r[a] != r[b]);
        }
    }
    ints.unique_seq_to_set();
    lemma_int_range(0, n as int);
    assert(ints.to_set().subset_of(set_int_range(0, n as int))) by {
        assert forall|x: int| ints.to_set().contains(x) implies set_int_range(
            0,
            n as int,
        ).contains(x) by {
            let k = choose|k: int| 0 <= k < ints.len() && ints[k] == x;
            assert(r[k] < n);
        }
    }
    lemma_subset_equality(ints.to_set(), set_int_range(0, n as int));
    assert forall|c: usize| c < n implies r.contains(c) by {
        assert(set_int_range(0, n as int).contains(c as int));
        assert(ints.to_set().contains(c as int));
        assert(ints.contains(c as int));
        let k = choose|k: int| 0 <= k < ints.len() && ints[k] == c as int;
        assert(r[k] == c);
    }
}

/// The only valid route over a single city is `[0]`.
pub proof fn lemma_single_city_route(r: Seq<usize>)
    requires
        valid_route(r, 1),
    ensures
        r =~= seq![0usize],
{
}

/// A tour over at most one city has length zero.
pub proof fn lemma_degenerate_tour_length(m: DistanceMatrix, r: Seq<usize>)
    requires
        r.len() <= 1,
    ensures
        tour_length(m, r) == 0,
{
}

/// Over two cities the cycle walks the one edge out and back, so over a
/// symmetric matrix its length is twice the single distance.
pub proof fn lemma_pair_tour_length(m: DistanceMatrix, r: Seq<usize>)
    requires
        valid_route(r, 2),
    ensures
        tour_length(m, r) == m.dist(r[0] as int, r[1] as int) + m.dist(r[1] as int, r[0] as int),
        m.symmetric() && m.dim() == 2 ==> tour_length(m, r) == 2 * m.dist(0, 1),
{
    assert(r.drop_last().len() == 1);
    assert(path_length(m, r.drop_last()) == 0);
    assert(path_length(m, r) == m.dist(r[0] as int, r[1] as int));
    if m.symmetric() && m.dim() == 2 {
        assert(r[0] != r[1]);
        assert(m.dist(0, 1) == m.dist(1, 0));
    }
}

/// The permutation `0, 1, .., n-1` as a sequence.
pub open spec fn identity_perm(n: nat) -> Seq<usize> {
    Seq::new(n, |k: int| k as usize)
}

/// The identity route `0, 1, .., n-1`: the engine's starting tour.
pub fn identity_route(n: usize) -> (r: Vec<usize>)
    ensures
        valid_route(r@, n as nat),
        r@ == identity_perm(n as nat),
{
    let mut r: Vec<usize> = Vec::new();
    let mut i: usize = 0;
    while i < n
        invariant
            0 <= i <= n,
            r@.len() == i,
            forall|k: int| 0 <= k < i ==> r@[k] == k,
        decreases n - i,
    {
        r.push(i);
        i = i + 1;
    }
    assert(r@.no_duplicates());
    assert(r@ =~= identity_perm(n as nat));
    r
}

/// An exact copy of a route.
pub fn copy_route(route: &Vec<usize>) -> (r: Vec<usize>)
    ensures
        r@ == route@,
{
    let mut r: Vec<usize> = Vec::new();
    let mut i: usize = 0;
    let n = route.len();
    while i < n
        invariant
            0 <= i <= n,
            n == route@.len(),
            r@ == route@.take(i as int),
        decreases n - i,
    {
        r.push(route[i]);
        proof {
            assert(r@ =~= route@.take(i as int + 1));
        }
        i = i + 1;
    }
    assert(r@ =~= route@);
    r
}

/// Sums the cycle length of `route` over `m`, edge by edge, closing edge
/// included: the independent recomputation that the engine's cached distances
/// are held to.
pub fn route_distance(m: &DistanceMatrix, route: &Vec<usize>) -> (d: u64)
    requires
        m.wf(),
        valid_route(route@, m.dim()),
    ensures
        d == tour_length(*m, route@),
{
    let n = route.len();
    if n <= 1 {
        return 0;
    }
    let mut acc: u64 = 0;
    let mut i: usize = 1;
    while i < n
        invariant
            m.wf(),
            valid_route(route@, m.dim()),
            n == route@.len(),
            1 <= i <= n,
            acc == path_length(*m, route@.take(i as int)),
        decreases n - i,
    {
        proof {
            lemma_path_length_bounds(*m, route@.take(i as int));
            assert(route@.take(i as int + 1).drop_last() =~= route@.take(i as int));
            assert(route@.len() <= MAX_CITIES);
        }
        let step = m.at(route[i - 1], route[i]);
        acc = acc + step;
        proof {
            let t = route@.take(i as int + 1);
            assert(t[t.len() - 2] == route@[i as int - 1]);
            assert(t[t.len() - 1] == route@[i as int]);
        }
        i = i + 1;
    }
    proof {
        assert(route@.take(n as int) =~= route@);
        lemma_path_length_bounds(*m, route@);
    }
    let close = m.at(route[n - 1], route[0]);
    acc + close
}

/// `r` with the positions `lo..=hi` reversed in place and the rest unchanged:
/// the 2-opt neighbour of `r` determined by `(lo, hi)`.
pub open spec fn reversed_interval(r: Seq<usize>, lo: int, hi: int) -> Seq<usize> {
    Seq::new(r.len(), |k: int| if lo <= k <= hi { r[lo + hi - k] } else { r[k] })
}

/// Reverses the segment `lo..=hi` of `route` in place, swapping from both
/// ends towards the middle.
pub fn reverse_segment(route: &mut Vec<usize>, lo: usize, hi: usize)
    requires
        lo <= hi < old(route).len(),
    ensures
        final(route)@ == reversed_interval(old(route)@, lo as int, hi as int),
{
    let ghost orig = route@;
    let mut x = lo;
    let mut y = hi;
    while x < y
        invariant
            lo <= x,
            y <= hi < orig.len(),
            x + y == lo + hi,
            x <= y + 1,
            route@.len() == orig.len(),
            forall|k: int| 0 <= k < orig.len() && !(lo <= k <= hi) ==> route@[k] == orig[k],
            forall|k: int| lo <= k < x ==> route@[k] == orig[lo + hi - k],
            forall|k: int| y < k <= hi ==> route@[k] == orig[lo + hi - k],
            forall|k: int| x <= k <= y ==> route@[k] == orig[k],
        decreases y + 1 - x,
    {
        let a = route[x];
        let b = route[y];
        route.set(x, b);
        route.set(y, a);
        x = x + 1;
        y = y - 1;
    }
    assert(route@ =~= reversed_interval(orig, lo as int, hi as int));
}

/// Reversing a segment of a valid route yields a valid route: the entries are
/// only rearranged.
pub proof fn lemma_reversed_interval_valid(r: Seq<usize>, lo: int, hi: int, n: nat)
    requires
        valid_route(r, n),
        0 <= lo <= hi < r.len(),
    ensures
        valid_route(reversed_interval(r, lo, hi), n),
{
    let rev = reversed_interval(r, lo, hi);
    assert forall|a: int, b: int|
        0 <= a < rev.len() && 0 <= b < rev.len() && a != b implies rev[a] != rev[b] by {
        let sa: int = if lo <= a <= hi {
            lo + hi - a
        } else {
            a
        };
        let sb: int = if lo <= b <= hi {
            lo + hi - b
        } else {
            b
        };
        assert(rev[a] == r[sa]);
        assert(rev[b] == r[sb]);
        assert(sa != sb);
    }
}

/// Splitting an open path: the path along `a + b` is the path along `a`, the
/// bridging edge, and the path along `b`.
pub proof fn lemma_path_concat(m: DistanceMatrix, a: Seq<usize>, b: Seq<usize>)
    requires
        a.len() >= 1,
        b.len() >= 1,
    ensures
        path_length(m, a + b) == path_length(m, a) + m.dist(a.last() as int, b[0] as int)
            + path_length(m, b),
    decreases b.len(),
{
    let ab = a + b;
    if b.len() == 1 {
        assert(ab.drop_last() =~= a);
        assert(ab[ab.len() - 2] == a.last());
        assert(ab[ab.len() - 1] == b[0]);
        assert(path_length(m, ab) == path_length(m, a) + m.dist(a.last() as int, b[0] as int));
    } else {
        lemma_path_concat(m, a, b.drop_last());
        assert(ab.drop_last() =~= a + b.drop_last());
        assert(ab[ab.len() - 2] == b[b.len() - 2]);
        assert(ab[ab.len() - 1] == b[b.len() - 1]);
        assert(path_length(m, ab) == path_length(m, ab.drop_last()) + m.dist(
            b[b.len() - 2] as int,
            b[b.len() - 1] as int,
        ));
        assert(path_length(m, b) == path_length(m, b.drop_last()) + m.dist(
            b[b.len() - 2] as int,
            b[b.len() - 1] as int,
        ));
    }
}

/// Splitting an open path at the front: the first edge plus the path along
/// the rest.
pub proof fn lemma_path_drop_first(m: DistanceMatrix, s: Seq<usize>)
    requires
        s.len() >= 2,
    ensures
        path_length(m, s) == m.dist(s[0] as int, s[1] as int) + path_length(m, s.drop_first()),
{
    let a = s.take(1);
    let b = s.drop_first();
    assert(a + b =~= s);
    lemma_path_concat(m, a, b);
    assert(path_length(m, a) == 0);
    assert(a.last() == s[0]);
    assert(b[0] == s[1]);
}

/// Over a symmetric matrix a path is as long walked backwards as forwards.
pub proof fn lemma_path_reverse(m: DistanceMatrix, s: Seq<usize>)
    requires
        m.symmetric(),
    ensures
        path_length(m, s.reverse()) == path_length(m, s),
    decreases s.len(),
{
    if s.len() <= 1 {
        assert(s.reverse().len() == s.len());
    } else {
        lemma_path_reverse(m, s.drop_first());
        lemma_path_drop_first(m, s);
        let r = s.reverse();
        assert(r.len() == s.len());
        assert(r.drop_last() =~= s.drop_first().reverse());
        assert(r[r.len() - 2] == s[1]);
        assert(r[r.len() - 1] == s[0]);
        assert(path_length(m, r) == path_length(m, r.drop_last()) + m.dist(
            s[1] as int,
            s[0] as int,
        ));
        assert(m.dist(s[1] as int, s[0] as int) == m.dist(s[0] as int, s[1] as int));
    }
}

/// The 2-opt delta rule over a symmetric matrix: reversing the segment
/// `lo..=hi` changes the cycle length only at the segment's two boundaries.
/// Two edges leave the cycle and two enter it; the edges inside the segment
/// reverse direction, which symmetry makes free.
pub proof fn lemma_two_opt_delta(m: DistanceMatrix, r: Seq<usize>, lo: int, hi: int)
    requires
        m.symmetric(),
        r.len() >= 2,
        0 <= lo < hi < r.len(),
        !(lo == 0 && hi == r.len() - 1),
    ensures
        ({
            let prev = if lo == 0 {
                r[r.len() - 1]
            } else {
                r[lo - 1]
            };
            let succ = if hi == r.len() - 1 {
                r[0]
            } else {
                r[hi + 1]
            };
            tour_length(m, reversed_interval(r, lo, hi)) == tour_length(m, r) - m.dist(
                prev as int,
                r[lo] as int,
            ) - m.dist(r[hi] as int, succ as int) + m.dist(prev as int, r[hi] as int) + m.dist(
                r[lo] as int,
                succ as int,
            )
        }),
{
    let n = r.len() as int;
    let rev = reversed_interval(r, lo, hi);
    let pre = r.subrange(0, lo);
    let mid = r.subrange(lo, hi + 1);
    let post = r.subrange(hi + 1, n);
    let midrev = mid.reverse();
    assert(mid.len() >= 2);
    assert(midrev =~= Seq::new(mid.len(), |i: int| mid[mid.len() - 1 - i]));
    lemma_path_reverse(m, mid);
    assert(midrev[0] == r[hi]);
    assert(midrev[midrev.len() - 1] == r[lo]);
    if lo > 0 && hi < n - 1 {
        assert(r =~= (pre + mid) + post);
        assert(rev =~= (pre + midrev) + post);
        lemma_path_concat(m, pre + mid, post);
        lemma_path_concat(m, pre, mid);
        lemma_path_concat(m, pre + midrev, post);
        lemma_path_concat(m, pre, midrev);
        assert((pre + mid).last() == r[hi]);
        assert((pre + midrev).last() == r[lo]);
        assert(pre.last() == r[lo - 1]);
        assert(post[0] == r[hi + 1]);
        assert(mid[0] == r[lo]);
        assert(rev[0] == r[0]);
        assert(rev[n - 1] == r[n - 1]);
    } else if lo == 0 {
        assert(r =~= mid + post);
        assert(rev =~= midrev + post);
        lemma_path_concat(m, mid, post);
        lemma_path_concat(m, midrev, post);
        assert(mid.last() == r[hi]);
        assert(post[0] == r[hi + 1]);
        assert(mid[0] == r[0]);
        assert(rev[0] == r[hi]);
        assert(rev[n - 1] == r[n - 1]);
    } else {
        assert(r =~= pre + mid);
        assert(rev =~= pre + midrev);
        lemma_path_concat(m, pre, mid);
        lemma_path_concat(m, pre, midrev);
        assert(pre.last() == r[lo - 1]);
        assert(mid[0] == r[lo]);
        assert(mid.last() == r[n - 1]);
        assert(rev[0] == r[0]);
        assert(rev[n - 1] == r[lo]);
    }
}

/// The length of the 2-opt neighbour of `route` determined by `(lo, hi)`,
/// over a symmetric matrix: computed in constant time from the current length
/// and the four boundary edges, without touching the rest of the tour.
pub fn candidate_length(
    m: &DistanceMatrix,
    route: &Vec<usize>,
    current: u64,
    lo: usize,
    hi: usize,
) -> (r: u64)
    requires
        m.wf(),
        m.symmetric(),
        valid_route(route@, m.dim()),
        current == tour_length(*m, route@),
        lo < hi,
        hi < route@.len(),
        !(lo == 0 && hi == route@.len() - 1),
    ensures
        r == tour_length(*m, reversed_interval(route@, lo as int, hi as int)),
{
    let n = route.len();
    let prev = if lo == 0 {
        route[n - 1]
    } else {
        route[lo - 1]
    };
    let succ = if hi == n - 1 {
        route[0]
    } else {
        route[hi + 1]
    };
    let removed = m.at(prev, route[lo]) + m.at(route[hi], succ);
    let added = m.at(prev, route[hi]) + m.at(route[lo], succ);
    proof {
        lemma_two_opt_delta(*m, route@, lo as int, hi as int);
        lemma_tour_length_bounds(*m, reversed_interval(route@, lo as int, hi as int));
        lemma_tour_length_bounds(*m, route@);
        assert(route@.len() * MAX_DISTANCE <= MAX_CITIES * MAX_DISTANCE) by (nonlinear_arith)
            requires
                0 <= route@.len() <= MAX_CITIES,
        ;
        assert(reversed_interval(route@, lo as int, hi as int).len() * MAX_DISTANCE <= MAX_CITIES
            * MAX_DISTANCE) by (nonlinear_arith)
            requires
                0 <= reversed_interval(route@, lo as int, hi as int).len() <= MAX_CITIES,
        ;
    }
    current + added - removed
}

/// Reversing the same segment twice restores the route, so a rejected
/// candidate move can be undone in place.
pub proof fn lemma_reversed_interval_involutive(r: Seq<usize>, lo: int, hi: int)
    requires
        0 <= lo <= hi < r.len(),
    ensures
        reversed_interval(reversed_interval(r, lo, hi), lo, hi) == r,
{
    assert(reversed_interval(reversed_interval(r, lo, hi), lo, hi) =~= r);
}

} // verus!
