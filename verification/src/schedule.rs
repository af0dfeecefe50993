//! The cooling schedule and the acceptance criterion.
//!
//! Temperatures and tour lengths share the distance matrix's integer units,
//! so the starting temperature scales with the input: it is the mean matrix
//! entry, and cooling is geometric. Acceptance follows the classic annealing
//! rule: an improving (or equal) candidate is always accepted; a worsening one
//! is accepted with probability `exp(-delta / temperature)`, evaluated in
//! fixed-point arithmetic against one uniform draw, and never when the
//! temperature has reached zero.

use vstd::prelude::*;

use crate::matrix::DistanceMatrix;
use crate::matrix::MAX_CITIES;
use crate::matrix::MAX_DISTANCE;

verus! {

/// Fixed-point unit: probabilities and the argument of the exponential are
/// held in units of `1 / PROB_ONE`.
pub const PROB_ONE: u64 = 0x10000;

/// `1 / e` in units of `1 / PROB_ONE`, rounded to the nearest integer.
pub const INV_E: u64 = 24109;

/// Geometric cooling factor: each iteration multiplies the temperature by
/// `COOL_NUM / COOL_DEN`.
pub const COOL_NUM: u64 = 999;

/// See `COOL_NUM`.
pub const COOL_DEN: u64 = 1000;

/// Largest tour length the acceptance rule accepts as an argument; any cycle
/// over a well-formed matrix is far below it.
pub const LENGTH_LIMIT: u64 = 0xFFFF_FFFF_FFFF;

/// The sum of one row of entries.
pub open spec fn row_sum(s: Seq<u64>) -> int
    decreases s.len(),
{
    if s.len() == 0 {
        0
    } else {
        row_sum(s.drop_last()) + s.last()
    }
}

/// The sum of all entries of the matrix.
pub open spec fn entries_sum(rows: Seq<Seq<u64>>) -> int
    decreases rows.len(),
{
    if rows.len() == 0 {
        0
    } else {
        entries_sum(rows.drop_last()) + row_sum(rows.last())
    }
}

/// The starting temperature: the mean entry of the matrix, so that the
/// schedule scales with the magnitude of the distances.
pub open spec fn initial_temperature_spec(m: DistanceMatrix) -> int {
    if m.dim() == 0 {
        0
    } else {
        entries_sum(m@) / ((m.dim() * m.dim()) as int)
    }
}

/// The temperature after one cooling step.
pub open spec fn cooled(t: int) -> int {
    t * COOL_NUM / COOL_DEN as int
}

proof fn lemma_row_sum_bounds(s: Seq<u64>, cap: u64)
    requires
        forall|j: int| 0 <= j < s.len() ==> s[j] <= cap,
    ensures
        0 <= row_sum(s) <= s.len() * cap,
    decreases s.len(),
{
    if s.len() > 0 {
        lemma_row_sum_bounds(s.drop_last(), cap);
        assert((s.len() - 1) * cap + cap == s.len() * cap) by (nonlinear_arith);
    }
}

proof fn lemma_entries_sum_bounds(rows: Seq<Seq<u64>>, n: int, cap: u64)
    requires
        forall|i: int| 0 <= i < rows.len() ==> (#[trigger] rows[i]).len() == n,
        forall|i: int, j: int| 0 <= i < rows.len() && 0 <= j < n ==> #[trigger] rows[i][j] <= cap,
        n >= 0,
    ensures
        0 <= entries_sum(rows) <= rows.len() * n * cap,
    decreases rows.len(),
{
    if rows.len() > 0 {
        lemma_entries_sum_bounds(rows.drop_last(), n, cap);
        lemma_row_sum_bounds(rows.last(), cap);
        assert((rows.len() - 1) * n * cap + n * cap == rows.len() * n * cap) by (nonlinear_arith);
    }
}

/// Computes the starting temperature: the mean matrix entry.
pub fn initial_temperature(m: &DistanceMatrix) -> (t: u64)
    requires
        m.wf(),
    ensures
        t == initial_temperature_spec(*m),
        t <= MAX_DISTANCE,
{
    let n = m.n();
    if n == 0 {
        return 0;
    }
    let mut total: u64 = 0;
    let mut i: usize = 0;
    proof {
        lemma_entries_sum_bounds(m@, n as int, MAX_DISTANCE);
    }
    while i < n
        invariant
            m.wf(),
            n == m.dim(),
            1 <= n,
            0 <= i <= n,
            total == entries_sum(m@.take(i as int)),
            total <= i * n * MAX_DISTANCE,
        decreases n - i,
    {
        let ghost pre_rows = m@.take(i as int);
        let mut j: usize = 0;
        let mut row_total: u64 = 0;
        while j < n
            invariant
                m.wf(),
                n == m.dim(),
                0 <= i < n,
                0 <= j <= n,
                row_total == row_sum(m@[i as int].take(j as int)),
                row_total <= j * MAX_DISTANCE,
            decreases n - j,
        {
            proof {
                assert(m@[i as int].take(j as int + 1).drop_last() =~= m@[i as int].take(
                    j as int,
                ));
                assert(m@[i as int].take(j as int + 1).last() == m@[i as int][j as int]);
            }
            row_total = row_total + m.at(i, j);
            j = j + 1;
        }
        proof {
            assert(m@[i as int].take(n as int) =~= m@[i as int]);
            assert(m@.take(i as int + 1).drop_last() =~= m@.take(i as int));
            assert(m@.take(i as int + 1).last() == m@[i as int]);
            assert(i * n * MAX_DISTANCE + n * MAX_DISTANCE == (i + 1) * n * MAX_DISTANCE)
                by (nonlinear_arith);
            assert((i + 1) * n * MAX_DISTANCE <= n * n * MAX_DISTANCE) by (nonlinear_arith)
                requires
                    0 <= i < n,
            ;
            assert(n * n * MAX_DISTANCE <= MAX_CITIES * MAX_CITIES * MAX_DISTANCE)
                by (nonlinear_arith)
                requires
                    0 < n <= MAX_CITIES,
            ;
        }
        total = total + row_total;
        i = i + 1;
    }
    proof {
        assert(m@.take(n as int) =~= m@);
        assert(1 <= n as int * n as int <= MAX_CITIES * MAX_CITIES) by (nonlinear_arith)
            requires
                1 <= n as int <= MAX_CITIES,
        ;
    }
    let nn = n * n;
    let t = total / (nn as u64);
    proof {
        assert(total as int / (nn as int) <= MAX_DISTANCE) by (nonlinear_arith)
            requires
                nn as int >= 1,
                0 <= total as int <= nn as int * MAX_DISTANCE,
        ;
    }
    t
}

/// One geometric cooling step: the temperature never increases and never
/// leaves the admissible range.
pub fn cool(t: u64) -> (r: u64)
    requires
        t <= MAX_DISTANCE,
    ensures
        r == cooled(t as int),
        r <= t,
{
    let r = t * COOL_NUM / COOL_DEN;
    proof {
        assert(t * COOL_NUM / COOL_DEN as int <= t) by (nonlinear_arith)
            requires
                t >= 0,
        ;
    }
    r
}

/// `exp(-f / PROB_ONE)` in units of `1 / PROB_ONE`, for `0 <= f < PROB_ONE`:
/// a truncated alternating series, clamped at zero.
pub open spec fn exp_frac_spec(f: int) -> int {
    let t2 = f * f / (2 * PROB_ONE as int);
    let t3 = f * f * f / ((6 * PROB_ONE * PROB_ONE) as int);
    let s = PROB_ONE - f + t2;
    if t3 <= s {
        s - t3
    } else {
        0
    }
}

/// `v` decayed by the factor `INV_E / PROB_ONE`, `k` times.
pub open spec fn decayed(v: int, k: int) -> int
    decreases k,
{
    if k <= 0 {
        v
    } else {
        decayed(v, k - 1) * INV_E / PROB_ONE as int
    }
}

/// `exp(-x / PROB_ONE)` in units of `1 / PROB_ONE`: the fractional series
/// decayed once per whole unit of `x`; zero once the whole part reaches 32,
/// where the true value is far below one fixed-point unit.
pub open spec fn exp_neg_spec(x: int) -> int {
    if x / PROB_ONE as int >= 32 {
        0
    } else {
        decayed(exp_frac_spec(x % PROB_ONE as int), x / PROB_ONE as int)
    }
}

proof fn lemma_exp_frac_in_unit(f: int)
    requires
        0 <= f < PROB_ONE,
    ensures
        0 <= exp_frac_spec(f) <= PROB_ONE,
{
    let t2 = f * f / (2 * PROB_ONE as int);
    assert(0 <= t2 <= f) by (nonlinear_arith)
        requires
            0 <= f < PROB_ONE,
            t2 == f * f / (2 * PROB_ONE as int),
    ;
}

proof fn lemma_decayed_in_unit(v: int, k: int)
    requires
        0 <= v <= PROB_ONE,
    ensures
        0 <= decayed(v, k) <= PROB_ONE,
    decreases k,
{
    if k > 0 {
        lemma_decayed_in_unit(v, k - 1);
        let p = decayed(v, k - 1);
        assert(0 <= p * INV_E / PROB_ONE as int <= PROB_ONE) by (nonlinear_arith)
            requires
                0 <= p <= PROB_ONE,
        ;
    }
}

/// The fixed-point exponential is a probability: it never exceeds one unit.
pub proof fn lemma_exp_neg_in_unit(x: int)
    requires
        x >= 0,
    ensures
        0 <= exp_neg_spec(x) <= PROB_ONE,
{
    if (x / (PROB_ONE as int)) < 32 {
        lemma_exp_frac_in_unit(x % PROB_ONE as int);
        lemma_decayed_in_unit(exp_frac_spec(x % PROB_ONE as int), x / PROB_ONE as int);
    }
}

/// Computes `exp_neg_spec(x)` exactly.
pub fn exp_neg(x: u64) -> (r: u64)
    ensures
        r == exp_neg_spec(x as int),
        r <= PROB_ONE,
{
    let k = x / PROB_ONE;
    let f = x % PROB_ONE;
    if k >= 32 {
        return 0;
    }
    proof {
        assert(0 <= f as int * f as int <= 65535 * 65535) by (nonlinear_arith)
            requires
                0 <= f as int <= 65535,
        ;
        assert(0 <= f as int * f as int * f as int <= 65535 * 65535 * 65535) by (nonlinear_arith)
            requires
                0 <= f as int <= 65535,
        ;
    }
    let t2 = f * f / (2 * PROB_ONE);
    let t3 = f * f * f / (6 * PROB_ONE * PROB_ONE);
    proof {
        lemma_exp_frac_in_unit(f as int);
    }
    let s = PROB_ONE - f + t2;
    let start: u64 = if t3 <= s {
        s - t3
    } else {
        0
    };
    assert(start == exp_frac_spec(f as int));
    let mut r = start;
    let mut i: u64 = 0;
    while i < k
        invariant
            0 <= i <= k,
            r == decayed(start as int, i as int),
            0 <= r <= PROB_ONE,
            start <= PROB_ONE,
        decreases k - i,
    {
        proof {
            lemma_decayed_in_unit(start as int, i as int + 1);
        }
        r = r * INV_E / PROB_ONE;
        i = i + 1;
    }
    r
}

/// The acceptance rule over mathematical integers: accept an improving or
/// equal candidate outright; accept a worsening one exactly when the uniform
/// draw falls below `exp(-delta / temperature)` in fixed point; never accept
/// a worsening one at temperature zero.
pub open spec fn accept_spec(cur: int, cand: int, temp: int, draw: int) -> bool {
    if cand <= cur {
        true
    } else if temp <= 0 {
        false
    } else {
        draw < exp_neg_spec((cand - cur) * PROB_ONE / temp)
    }
}

/// Decides whether the engine moves to a candidate neighbour.
pub fn accept(cur: u64, cand: u64, temp: u64, draw: u64) -> (b: bool)
    requires
        cur <= LENGTH_LIMIT,
        cand <= LENGTH_LIMIT,
    ensures
        b == accept_spec(cur as int, cand as int, temp as int, draw as int),
{
    if cand <= cur {
        true
    } else if temp == 0 {
        false
    } else {
        let delta = cand - cur;
        let x = delta * PROB_ONE / temp;
        draw < exp_neg(x)
    }
}

} // verus!
