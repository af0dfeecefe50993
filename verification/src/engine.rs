//! The annealing engine.
//!
//! One search owns a working state: the current tour, the best tour seen so
//! far, and the temperature. Each iteration proposes a 2-opt neighbour of the
//! current tour (a reversed segment), queries the acceptance criterion, moves
//! if accepted, records a new best when the current tour improves on it, and
//! cools. The loop runs until the wall-clock budget is spent: a hard deadline,
//! not a convergence test. The returned tour is the best one recorded over the
//! whole run, never a later, worse state.

use vstd::prelude::*;

use crate::clock::now_millis;
use crate::matrix::DistanceMatrix;
use crate::matrix::MAX_CITIES;
use crate::matrix::MAX_DISTANCE;
use crate::rng::RandomSource;
use crate::schedule::accept;
use crate::schedule::accept_spec;
use crate::schedule::cool;
use crate::schedule::cooled;
use crate::schedule::initial_temperature;
use crate::schedule::LENGTH_LIMIT;
use crate::schedule::PROB_ONE;
use crate::tour::copy_route;
use crate::tour::identity_perm;
use crate::tour::identity_route;
use crate::tour::lemma_reversed_interval_involutive;
use crate::tour::lemma_reversed_interval_valid;
use crate::tour::lemma_single_city_route;
use crate::tour::candidate_length;
use crate::tour::lemma_tour_length_bounds;
use crate::tour::reverse_segment;
use crate::tour::reversed_interval;
use crate::tour::route_distance;
use crate::tour::tour_length;
use crate::tour::valid_route;
use crate::tour::Tour;

verus! {

/// Any cycle over a well-formed matrix is short enough for the acceptance
/// rule's fixed-point arithmetic.
proof fn lemma_length_within_limit(m: DistanceMatrix, r: Seq<usize>)
    requires
        m.wf(),
        r.len() <= m.dim(),
    ensures
        0 <= tour_length(m, r) <= LENGTH_LIMIT,
{
    lemma_tour_length_bounds(m, r);
    assert(r.len() * MAX_DISTANCE <= MAX_CITIES * MAX_DISTANCE) by (nonlinear_arith)
        requires
            0 <= r.len() <= MAX_CITIES,
    ;
}

/// The working state of one annealing run.
pub struct SearchState {
    route: Vec<usize>,
    current_length: u64,
    best_route: Vec<usize>,
    best_length: u64,
    temperature: u64,
    incremental: bool,
}

impl SearchState {
    /// The current tour.
    pub closed spec fn current(self) -> Seq<usize> {
        self.route@
    }

    /// The cached length of the current tour.
    pub closed spec fn current_len(self) -> u64 {
        self.current_length
    }

    /// The best tour recorded so far.
    pub closed spec fn best(self) -> Seq<usize> {
        self.best_route@
    }

    /// The cached length of the best tour.
    pub closed spec fn best_len(self) -> u64 {
        self.best_length
    }

    /// The current temperature.
    pub closed spec fn temp(self) -> u64 {
        self.temperature
    }

    /// Whether candidate lengths are recomputed incrementally; sound only
    /// over a symmetric matrix.
    pub closed spec fn uses_incremental(self) -> bool {
        self.incremental
    }

    /// The engine's invariant over a matrix `m`: both tours are permutations
    /// of the cities of `m`, both cached lengths are exactly the cycle
    /// lengths of their tours, and the temperature is in range.
    pub open spec fn wf(self, m: DistanceMatrix) -> bool {
        &&& valid_route(self.current(), m.dim())
        &&& self.current_len() == tour_length(m, self.current())
        &&& valid_route(self.best(), m.dim())
        &&& self.best_len() == tour_length(m, self.best())
        &&& self.temp() <= MAX_DISTANCE
        &&& (self.uses_incremental() ==> m.symmetric())
    }

    /// The starting state: current and best are the identity tour, and the
    /// temperature is the mean matrix entry.
    pub fn init(m: &DistanceMatrix) -> (s: SearchState)
        requires
            m.wf(),
        ensures
            s.wf(*m),
            s.best() == s.current(),
            s.best() == identity_perm(m.dim()),
    {
        let route = identity_route(m.n());
        let current_length = route_distance(m, &route);
        let best_route = copy_route(&route);
        let temperature = initial_temperature(m);
        let incremental = m.is_symmetric();
        SearchState {
            route,
            current_length,
            best_route,
            best_length: current_length,
            temperature,
            incremental,
        }
    }

    /// A snapshot of the best tour recorded so far.
    pub fn best_so_far(&self) -> (t: Tour)
        ensures
            t.route@ == self.best(),
            t.distance == self.best_len(),
    {
        Tour { route: copy_route(&self.best_route), distance: self.best_length }
    }

    /// One annealing iteration, decided entirely by the three given draws:
    /// two positions marking the segment to reverse and one uniform draw for
    /// the acceptance rule. The candidate is the current tour with that
    /// segment reversed; it becomes current exactly when the positions are
    /// distinct and the acceptance rule fires, the best tour is updated
    /// exactly when the accepted candidate beats it, and the temperature
    /// cools by one geometric step. The best length never increases.
    pub fn step(&mut self, m: &DistanceMatrix, pos_a: usize, pos_b: usize, draw: u64)
        requires
            old(self).wf(*m),
            m.wf(),
            m.dim() >= 2,
            pos_a < m.dim(),
            pos_b < m.dim(),
        ensures
            final(self).wf(*m),
            final(self).best_len() <= old(self).best_len(),
            final(self).temp() == cooled(old(self).temp() as int),
            ({
                let lo = if pos_a <= pos_b {
                    pos_a as int
                } else {
                    pos_b as int
                };
                let hi = if pos_a <= pos_b {
                    pos_b as int
                } else {
                    pos_a as int
                };
                let cand = reversed_interval(old(self).current(), lo, hi);
                let cand_len = tour_length(*m, cand);
                let moved = lo < hi && accept_spec(
                    old(self).current_len() as int,
                    cand_len,
                    old(self).temp() as int,
                    draw as int,
                );
                let improved = moved && cand_len < old(self).best_len();
                let fin = *final(self);
                &&& (moved ==> fin.current() == cand && fin.current_len() == cand_len)
                &&& (!moved ==> fin.current() == old(self).current() && fin.current_len() == old(
                    self,
                ).current_len())
                &&& (improved ==> fin.best() == cand && fin.best_len() == cand_len)
                &&& (!improved ==> fin.best() == old(self).best() && fin.best_len() == old(
                    self,
                ).best_len())
            }),
    {
        let lo = if pos_a <= pos_b {
            pos_a
        } else {
            pos_b
        };
        let hi = if pos_a <= pos_b {
            pos_b
        } else {
            pos_a
        };
        if lo == hi {
            proof {
                assert(reversed_interval(self.route@, lo as int, hi as int) =~= self.route@);
            }
            self.temperature = cool(self.temperature);
            return ;
        }
        let ghost orig = self.route@;
        let n = m.n();
        if self.incremental && !(lo == 0 && hi == n - 1) {
            let cand_len = candidate_length(m, &self.route, self.current_length, lo, hi);
            proof {
                lemma_length_within_limit(*m, orig);
                lemma_length_within_limit(*m, reversed_interval(orig, lo as int, hi as int));
            }
            if accept(self.current_length, cand_len, self.temperature, draw) {
                reverse_segment(&mut self.route, lo, hi);
                proof {
                    lemma_reversed_interval_valid(orig, lo as int, hi as int, m.dim());
                }
                self.current_length = cand_len;
                if cand_len < self.best_length {
                    self.best_route = copy_route(&self.route);
                    self.best_length = cand_len;
                }
            }
        } else {
            reverse_segment(&mut self.route, lo, hi);
            proof {
                lemma_reversed_interval_valid(orig, lo as int, hi as int, m.dim());
                lemma_length_within_limit(*m, orig);
                lemma_length_within_limit(*m, self.route@);
            }
            let cand_len = route_distance(m, &self.route);
            if accept(self.current_length, cand_len, self.temperature, draw) {
                self.current_length = cand_len;
                if cand_len < self.best_length {
                    self.best_route = copy_route(&self.route);
                    self.best_length = cand_len;
                }
            } else {
                reverse_segment(&mut self.route, lo, hi);
                proof {
                    lemma_reversed_interval_involutive(orig, lo as int, hi as int);
                }
            }
        }
        self.temperature = cool(self.temperature);
    }
}

/// Runs one annealing search over `m` for `budget_ms` milliseconds of wall
/// clock, with the random stream fixed by `seed`, and returns the best tour
/// recorded: always a permutation of the cities, its distance always the
/// independently summed cycle length. With no cities the tour is empty with
/// distance zero; with one city it is `[0]` with distance zero; with no
/// budget the identity tour is returned unimproved.
pub fn search(m: &DistanceMatrix, budget_ms: u64, seed: u64) -> (t: Tour)
    requires
        m.wf(),
    ensures
        valid_route(t.route@, m.dim()),
        t.distance == tour_length(*m, t.route@),
        t.distance <= tour_length(*m, identity_perm(m.dim())),
        m.dim() == 0 ==> t.route@ == Seq::<usize>::empty() && t.distance == 0,
        m.dim() == 1 ==> t.route@ == seq![0usize] && t.distance == 0,
        budget_ms == 0 ==> t.route@ == identity_perm(m.dim()),
{
    let n = m.n();
    let mut state = SearchState::init(m);
    if n <= 1 || budget_ms == 0 {
        proof {
            if n == 0 {
                assert(state.best() =~= Seq::<usize>::empty());
            }
            if n == 1 {
                lemma_single_city_route(state.best());
                assert(state.best() =~= seq![0usize]);
            }
        }
        let SearchState { best_route, best_length, .. } = state;
        return Tour { route: best_route, distance: best_length };
    }
    let mut rng = RandomSource::from_seed(seed);
    let start = now_millis();
    let mut done = false;
    let mut iterations: u64 = 0;
    while !done && iterations < 0xFFFF_FFFF_FFFF_FFFF
        invariant
            m.wf(),
            state.wf(*m),
            n == m.dim(),
            2 <= n,
            state.best_len() <= tour_length(*m, identity_perm(m.dim())),
        decreases 0xFFFF_FFFF_FFFF_FFFFu64 - iterations,
    {
        iterations = iterations + 1;
        let now = now_millis();
        let elapsed = if now >= start {
            now - start
        } else {
            budget_ms
        };
        if elapsed >= budget_ms {
            done = true;
        } else {
            let pos_a = rng.draw_below(n as u64) as usize;
            let pos_b = rng.draw_below(n as u64) as usize;
            let draw = rng.draw_below(PROB_ONE);
            state.step(m, pos_a, pos_b, draw);
        }
    }
    let SearchState { best_route, best_length, .. } = state;
    Tour { route: best_route, distance: best_length }
}

} // verus!
