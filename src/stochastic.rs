use vstd::prelude::*;

use crate::combinatorics::{falling, falling_factorial, lemma_falling_positive};
use crate::network::PetriData;

verus! {

/// The number of ways transition `t` can pick its reactants from species `s`.
pub open spec fn factor(net: PetriData, state: Seq<i32>, t: int, s: int) -> int {
    falling(state[s] as int, net.input(t, s) as int)
}

/// The product of the first `n` species' factors for transition `t`.
pub open spec fn combinations_upto(net: PetriData, state: Seq<i32>, t: int, n: int) -> int
    decreases n,
{
    if n <= 0 {
        1
    } else {
        combinations_upto(net, state, t, n - 1) * factor(net, state, t, n - 1)
    }
}

/// The combinatorial part of transition `t`'s propensity: the number of ordered ways to
/// draw its reactants from the counts in `state`. The propensity is this times the rate.
pub open spec fn combinations_of(net: PetriData, state: Seq<i32>, t: int) -> int {
    combinations_upto(net, state, t, net.species_count() as int)
}

/// The count of species `s` after transition `t` fires.
pub open spec fn fired_count(net: PetriData, state: Seq<i32>, t: int, s: int) -> int {
    state[s] + net.output(t, s) - net.input(t, s)
}

/// Every count after transition `t` fires fits in an `i32`.
pub open spec fn firing_fits(net: PetriData, state: Seq<i32>, t: int) -> bool {
    forall|s: int|
        0 <= s < net.species_count() ==> i32::MIN <= #[trigger] fired_count(net, state, t, s)
            <= i32::MAX
}

/// Some watched species has no copies left.
pub open spec fn watched_extinct(state: Seq<i32>, watched: Seq<usize>) -> bool {
    exists|i: int| 0 <= i < watched.len() && state[watched[i] as int] <= 0
}

/// Some transition's combination count exceeds `u64::MAX`.
pub open spec fn count_overflows(net: PetriData, state: Seq<i32>) -> bool {
    exists|t: int| 0 <= t < net.transition_count() && combinations_of(net, state, t) > u64::MAX
}

/// No transition can fire: every combination count is zero.
pub open spec fn none_enabled(net: PetriData, state: Seq<i32>) -> bool {
    forall|t: int| 0 <= t < net.transition_count() ==> combinations_of(net, state, t) == 0
}

/// The realisation is stuck: nothing watched is extinct and no transition can fire.
pub open spec fn deadlocked(net: PetriData, state: Seq<i32>, watched: Seq<usize>) -> bool {
    !watched_extinct(state, watched) && !count_overflows(net, state) && none_enabled(net, state)
}

/// The realisation goes on: a waiting time and a transition are to be drawn.
pub open spec fn must_draw(net: PetriData, state: Seq<i32>, watched: Seq<usize>) -> bool {
    !watched_extinct(state, watched) && !count_overflows(net, state) && !none_enabled(net, state)
}

/// What one step of a realisation that waits for a watched species to die out does next.
#[derive(Debug)]
pub enum StepDecision {
    /// A watched species is extinct: the realisation ends here, with nothing drawn.
    Extinct,
    /// No transition can fire and nothing watched is extinct: it never will be.
    Deadlocked,
    /// A combination count is too large to be represented.
    CountOverflow,
    /// The combination count of each transition, at least one of them non-zero. The
    /// propensities are these times the rates; from them a waiting time and a transition
    /// are drawn.
    Draw(Vec<u64>),
}

/// The integer state of a stochastic realisation: one copy number per species.
pub struct Marking {
    pub counts: Vec<i32>,
}

proof fn lemma_upto_positive(net: PetriData, state: Seq<i32>, t: int, n: int)
    requires
        forall|s: int| 0 <= s < n ==> #[trigger] factor(net, state, t, s) >= 1,
    ensures
        combinations_upto(net, state, t, n) >= 1,
    decreases n,
{
    if n > 0 {
        lemma_upto_positive(net, state, t, n - 1);
        let p = combinations_upto(net, state, t, n - 1);
        let f = factor(net, state, t, n - 1);
        assert(p * f >= 1) by (nonlinear_arith)
            requires
                p >= 1,
                f >= 1,
        ;
    }
}

proof fn lemma_upto_nonnegative(net: PetriData, state: Seq<i32>, t: int, n: int)
    ensures
        combinations_upto(net, state, t, n) >= 0,
    decreases n,
{
    if n > 0 {
        lemma_upto_nonnegative(net, state, t, n - 1);
        lemma_factor_cases(net, state, t, n - 1);
        let p = combinations_upto(net, state, t, n - 1);
        let f = factor(net, state, t, n - 1);
        assert(p * f >= 0) by (nonlinear_arith)
            requires
                p >= 0,
                f >= 0,
        ;
    }
}

proof fn lemma_upto_monotone(net: PetriData, state: Seq<i32>, t: int, m: int, n: int)
    requires
        0 <= m <= n,
        forall|s: int| 0 <= s < n ==> #[trigger] factor(net, state, t, s) >= 1,
    ensures
        combinations_upto(net, state, t, m) <= combinations_upto(net, state, t, n),
    decreases n - m,
{
    if m < n {
        lemma_upto_monotone(net, state, t, m, n - 1);
        lemma_upto_positive(net, state, t, n - 1);
        let p = combinations_upto(net, state, t, n - 1);
        let f = factor(net, state, t, n - 1);
        assert(p <= p * f) by (nonlinear_arith)
            requires
                p >= 1,
                f >= 1,
        ;
    }
}

proof fn lemma_upto_zero(net: PetriData, state: Seq<i32>, t: int, z: int, n: int)
    requires
        0 <= z < n,
        factor(net, state, t, z) == 0,
    ensures
        combinations_upto(net, state, t, n) == 0,
    decreases n,
{
    if n - 1 > z {
        lemma_upto_zero(net, state, t, z, n - 1);
    }
}

/// A factor is zero exactly when the species cannot supply the reactants, and at least
/// one otherwise.
proof fn lemma_factor_cases(net: PetriData, state: Seq<i32>, t: int, s: int)
    ensures
        (net.input(t, s) < 0 || state[s] < 0 || net.input(t, s) > state[s]) ==> factor(
            net,
            state,
            t,
            s,
        ) == 0,
        !(net.input(t, s) < 0 || state[s] < 0 || net.input(t, s) > state[s]) ==> factor(
            net,
            state,
            t,
            s,
        ) >= 1,
{
    if !(net.input(t, s) < 0 || state[s] < 0 || net.input(t, s) > state[s]) {
        lemma_falling_positive(state[s] as int, net.input(t, s) as int);
    }
}

/// Firing a transition whose combination count is non-zero leaves every count
/// non-negative, provided the counts start non-negative and the transition's outputs
/// are non-negative.
pub proof fn lemma_enabled_firing_nonnegative(net: PetriData, state: Seq<i32>, t: int)
    requires
        0 <= t < net.transition_count(),
        state.len() == net.species_count(),
        forall|s: int| 0 <= s < state.len() ==> state[s] >= 0,
        forall|s: int| 0 <= s < state.len() ==> net.output(t, s) >= 0,
        combinations_of(net, state, t) > 0,
    ensures
        forall|s: int| 0 <= s < state.len() ==> #[trigger] fired_count(net, state, t, s) >= 0,
{
    assert forall|s: int| 0 <= s < state.len() implies #[trigger] fired_count(net, state, t, s) >= 0 by {
        lemma_factor_cases(net, state, t, s);
        if factor(net, state, t, s) == 0 {
            lemma_upto_zero(net, state, t, s, net.species_count() as int);
        }
    }
}

/// With no transitions at all, a realisation in which nothing watched is extinct is
/// deadlocked: it is reported as such and never waits for a transition.
pub proof fn lemma_no_transitions_deadlock(net: PetriData, state: Seq<i32>, watched: Seq<usize>)
    requires
        net.transition_count() == 0,
        !watched_extinct(state, watched),
    ensures
        deadlocked(net, state, watched),
        !must_draw(net, state, watched),
{
}

impl Marking {
    /// A marking with the given counts.
    pub fn new(counts: Vec<i32>) -> (r: Marking)
        ensures
            r.counts@ == counts@,
    {
        Marking { counts }
    }

    /// The number of ordered ways transition `t` can draw its reactants from this
    /// marking, or `None` where that number exceeds `u64::MAX`.
    pub fn combinations(&self, net: &PetriData, t: usize) -> (r: Option<u64>)
        requires
            t < net.transition_count(),
            self.counts@.len() == net.species_count(),
        ensures
            r == (if combinations_of(*net, self.counts@, t as int) <= u64::MAX {
                Some(combinations_of(*net, self.counts@, t as int) as u64)
            } else {
                None
            }),
    {
        let ghost state = self.counts@;
        let n = net.num_species();
        let mut s: usize = 0;
        while s < n
            invariant
                n == net.species_count(),
                state == self.counts@,
                state.len() == n,
                t < net.transition_count(),
                s <= n,
                forall|u: int| 0 <= u < s ==> #[trigger] factor(*net, state, t as int, u) >= 1,
            decreases n - s,
        {
            let have = self.counts[s];
            let need = net.input_coeff(t, s);
            proof {
                lemma_factor_cases(*net, state, t as int, s as int);
            }
            if need < 0 || have < 0 || need > have {
                proof {
                    lemma_upto_zero(*net, state, t as int, s as int, n as int);
                }
                return Some(0);
            }
            s = s + 1;
        }
        let mut acc: u64 = 1;
        s = 0;
        while s < n
            invariant
                n == net.species_count(),
                state == self.counts@,
                state.len() == n,
                t < net.transition_count(),
                s <= n,
                forall|u: int| 0 <= u < n ==> #[trigger] factor(*net, state, t as int, u) >= 1,
                acc as int == combinations_upto(*net, state, t as int, s as int),
            decreases n - s,
        {
            let f = falling_factorial(self.counts[s], net.input_coeff(t, s));
            proof {
                lemma_upto_monotone(*net, state, t as int, s + 1, n as int);
                lemma_upto_positive(*net, state, t as int, s as int);
            }
            match f {
                None => {
                    proof {
                        let p = combinations_upto(*net, state, t as int, s as int);
                        let g = factor(*net, state, t as int, s as int);
                        assert(p * g >= g) by (nonlinear_arith)
                            requires
                                p >= 1,
                                g >= 1,
                        ;
                    }
                    return None;
                },
                Some(g) => match acc.checked_mul(g) {
                    None => {
                        return None;
                    },
                    Some(next) => {
                        acc = next;
                    },
                },
            }
            s = s + 1;
        }
        Some(acc)
    }

    /// Fires transition `t`: every count changes by what `t` produces less what it
    /// consumes. Where some count would leave the `i32` range, returns `false` and leaves
    /// the marking as it was.
    pub fn apply_transition(&mut self, net: &PetriData, t: usize) -> (r: bool)
        requires
            t < net.transition_count(),
            old(self).counts@.len() == net.species_count(),
        ensures
            r == firing_fits(*net, old(self).counts@, t as int),
            r ==> final(self).counts@.len() == old(self).counts@.len() && forall|s: int|
                0 <= s < old(self).counts@.len() ==> final(self).counts@[s] == fired_count(
                    *net,
                    old(self).counts@,
                    t as int,
                    s,
                ),
            !r ==> final(self).counts@ == old(self).counts@,
    {
        let ghost start = self.counts@;
        let n = net.num_species();
        let mut s: usize = 0;
        while s < n
            invariant
                n == net.species_count(),
                start == self.counts@,
                start.len() == n,
                t < net.transition_count(),
                s <= n,
                forall|u: int|
                    0 <= u < s ==> i32::MIN <= #[trigger] fired_count(*net, start, t as int, u)
                        <= i32::MAX,
            decreases n - s,
        {
            let next: i64 = self.counts[s] as i64 + net.output_coeff(t, s) as i64
                - net.input_coeff(t, s) as i64;
            if next < i32::MIN as i64 || next > i32::MAX as i64 {
                assert(!(i32::MIN <= fired_count(*net, start, t as int, s as int) <= i32::MAX));
                return false;
            }
            s = s + 1;
        }
        s = 0;
        while s < n
            invariant
                n == net.species_count(),
                start.len() == n,
                self.counts@.len() == n,
                t < net.transition_count(),
                s <= n,
                firing_fits(*net, start, t as int),
                forall|u: int| s <= u < n ==> self.counts@[u] == start[u],
                forall|u: int|
                    0 <= u < s ==> self.counts@[u] == #[trigger] fired_count(*net, start, t as int, u),
            decreases n - s,
        {
            assert(i32::MIN <= fired_count(*net, start, t as int, s as int) <= i32::MAX);
            let next: i64 = self.counts[s] as i64 + net.output_coeff(t, s) as i64
                - net.input_coeff(t, s) as i64;
            self.counts.set(s, next as i32);
            s = s + 1;
        }
        true
    }

    /// Whether some species in `watched` has no copies left.
    pub fn is_extinct(&self, watched: &Vec<usize>) -> (r: bool)
        requires
            forall|i: int| 0 <= i < watched@.len() ==> watched@[i] < self.counts@.len(),
        ensures
            r == watched_extinct(self.counts@, watched@),
    {
        let mut i: usize = 0;
        while i < watched.len()
            invariant
                i <= watched@.len(),
                forall|j: int| 0 <= j < watched@.len() ==> watched@[j] < self.counts@.len(),
                forall|j: int| 0 <= j < i ==> self.counts@[#[trigger] watched@[j] as int] > 0,
            decreases watched@.len() - i,
        {
            if self.counts[watched[i]] <= 0 {
                return true;
            }
            i = i + 1;
        }
        false
    }

    /// The combination count of every transition, or `None` where one of them exceeds
    /// `u64::MAX`.
    pub fn combination_counts(&self, net: &PetriData) -> (r: Option<Vec<u64>>)
        requires
            self.counts@.len() == net.species_count(),
        ensures
            match r {
                None => count_overflows(*net, self.counts@),
                Some(w) => !count_overflows(*net, self.counts@) && w@.len() == net.transition_count()
                    && forall|t: int|
                    0 <= t < w@.len() ==> w@[t] == combinations_of(*net, self.counts@, t),
            },
    {
        let m = net.num_transitions();
        let mut weights: Vec<u64> = Vec::new();
        let mut t: usize = 0;
        while t < m
            invariant
                m == net.transition_count(),
                self.counts@.len() == net.species_count(),
                t <= m,
                weights@.len() == t,
                forall|u: int|
                    #![trigger weights@[u]]
                    #![trigger combinations_of(*net, self.counts@, u)]
                    0 <= u < t ==> weights@[u] == combinations_of(*net, self.counts@, u),
            decreases m - t,
        {
            proof {
                lemma_upto_nonnegative(*net, self.counts@, t as int, net.species_count() as int);
            }
            match self.combinations(net, t) {
                None => {
                    assert(combinations_of(*net, self.counts@, t as int) > u64::MAX);
                    return None;
                },
                Some(c) => {
                    let ghost before = weights@;
                    weights.push(c);
                    assert(forall|u: int| 0 <= u < t ==> weights@[u] == before[u]);
                    assert(weights@[t as int] == combinations_of(*net, self.counts@, t as int));
                },
            }
            t = t + 1;
        }
        Some(weights)
    }

    /// Decides the next step of a realisation that runs until a species in `watched` dies
    /// out. The check for extinction comes first, so a marking that already satisfies it
    /// ends the realisation before anything is drawn.
    pub fn next_step(&self, net: &PetriData, watched: &Vec<usize>) -> (r: StepDecision)
        requires
            self.counts@.len() == net.species_count(),
            forall|i: int| 0 <= i < watched@.len() ==> watched@[i] < self.counts@.len(),
        ensures
            match r {
                StepDecision::Extinct => watched_extinct(self.counts@, watched@),
                StepDecision::CountOverflow => !watched_extinct(self.counts@, watched@)
                    && count_overflows(*net, self.counts@),
                StepDecision::Deadlocked => deadlocked(*net, self.counts@, watched@),
                StepDecision::Draw(w) => must_draw(*net, self.counts@, watched@) && w@.len()
                    == net.transition_count() && forall|t: int|
                    0 <= t < w@.len() ==> w@[t] == combinations_of(*net, self.counts@, t),
            },
    {
        if self.is_extinct(watched) {
            return StepDecision::Extinct;
        }
        match self.combination_counts(net) {
            None => StepDecision::CountOverflow,
            Some(weights) => {
                let mut t: usize = 0;
                while t < weights.len()
                    invariant
                        !watched_extinct(self.counts@, watched@),
                        !count_overflows(*net, self.counts@),
                        weights@.len() == net.transition_count(),
                        forall|u: int|
                            0 <= u < weights@.len() ==> weights@[u] == combinations_of(
                                *net,
                                self.counts@,
                                u,
                            ),
                        t <= weights@.len(),
                        forall|u: int| 0 <= u < t ==> weights@[u] == 0,
                    decreases weights@.len() - t,
                {
                    if weights[t] > 0 {
                        assert(combinations_of(*net, self.counts@, t as int) != 0);
                        return StepDecision::Draw(weights);
                    }
                    t = t + 1;
                }
                assert forall|u: int| 0 <= u < net.transition_count() implies combinations_of(
                    *net,
                    self.counts@,
                    u,
                ) == 0 by {
                    assert(weights@[u] == 0);
                }
                StepDecision::Deadlocked
            },
        }
    }
}

} // verus!
