//! The traits a solution and a cooling schedule implement, and the annealing loop.
use vstd::prelude::*;
use crate::acceptance::{never_accept, PROBABILITY_ONE};

verus! {

/// Returns a fitness. The lower the number the better.
pub trait Fitness {
    spec fn spec_fitness(&self) -> i64;

    fn fitness(&self) -> (r: i64)
        ensures
            r == self.spec_fitness(),
    ;
}

/// A solution that offers candidate moves and scores them before applying one.
pub trait Neighbours: Fitness + Sized {
    /// A move that, when applied, modifies the solution.
    type Neighbour;

    spec fn spec_neighbour_fitness(&self, n: &Self::Neighbour) -> i64;

    /// The candidate lists that `neighbours` may return; a relation, so that
    /// candidates may be drawn at random.
    spec fn spec_neighbours(&self, c: &Vec<Self::Neighbour>) -> bool;

    /// The solution that applying `n` gives.
    spec fn spec_apply_neighbour(&self, n: &Self::Neighbour) -> Self;

    /// The candidate moves, in the order they are to be tried.
    fn neighbours(&self) -> (r: Vec<Self::Neighbour>)
        ensures
            self.spec_neighbours(&r),
    ;

    /// Modifies the solution; its fitness becomes the one predicted for `n`.
    fn apply_neighbour(&mut self, n: Self::Neighbour)
        ensures
            *final(self) == old(self).spec_apply_neighbour(&n),
            final(self).spec_fitness() == old(self).spec_neighbour_fitness(&n),
    ;

    /// The fitness the solution would have after `n`; may be a heuristic.
    fn neighbour_fitness(&self, n: &Self::Neighbour) -> (r: i64)
        ensures
            r == self.spec_neighbour_fitness(n),
    ;
}

/// A cooling schedule: a temperature that is updated once per accepted move,
/// and a condition that stops the search.
///
/// `updates_left` bounds how many more updates the schedule takes before it stops.
pub trait Temperature<T>: Sized {
    spec fn spec_temperature(&self) -> i64;

    spec fn spec_stop(&self) -> bool;

    spec fn updates_left(&self) -> nat;

    /// The states that `update` may give, from this one and solution `s`.
    spec fn spec_updates_to(&self, s: &T, next: &Self) -> bool;

    /// The next state of the schedule; the solution allows adaptive schedules.
    fn update(self, s: &T) -> (r: Self)
        ensures
            self.spec_updates_to(s, &r),
            !self.spec_stop() ==> r.updates_left() < self.updates_left(),
    ;

    fn temperature(&self) -> (r: i64)
        ensures
            r == self.spec_temperature(),
    ;

    fn stop(&self) -> (r: bool)
        ensures
            r == self.spec_stop(),
    ;
}

/// Relies on rand::thread_rng and rand::Rng::gen_range: a uniform draw from
/// the half-open range `0..bound`, which panics only when that range is empty.
#[verifier::external_body]
fn uniform_below(bound: i64) -> (r: i64)
    requires
        bound > 0,
    ensures
        0 <= r < bound,
{
    rand::Rng::gen_range(&mut rand::thread_rng(), 0..bound)
}

/// How much worse a candidate is than the current solution.
pub open spec fn energy_diff(new_fitness: i64, current_fitness: i64) -> u64 {
    (new_fitness - current_fitness) as u64
}

/// A candidate the scan may pass over: it does not improve on the current
/// fitness, and not every score for it would exceed the draw.
pub open spec fn passed_over<T: Neighbours, U: Fn(u64, i64) -> i64>(
    s: &T,
    acceptance: U,
    n: T::Neighbour,
    current_fitness: i64,
    temperature: i64,
) -> bool {
    &&& s.spec_neighbour_fitness(&n) >= current_fitness
    &&& !surely_accepts(
        acceptance,
        energy_diff(s.spec_neighbour_fitness(&n), current_fitness),
        temperature,
    )
}

/// Some outcome of `acceptance` on these arguments exceeds some draw.
pub open spec fn may_accept<U: Fn(u64, i64) -> i64>(
    acceptance: U,
    energy_diff: u64,
    temperature: i64,
) -> bool {
    exists|score: i64| call_ensures(acceptance, (energy_diff, temperature), score) && score > 0
}

/// Every outcome of `acceptance` on these arguments is at least
/// `PROBABILITY_ONE`, so it exceeds every draw.
pub open spec fn surely_accepts<U: Fn(u64, i64) -> i64>(
    acceptance: U,
    energy_diff: u64,
    temperature: i64,
) -> bool {
    forall|score: i64|
        call_ensures(acceptance, (energy_diff, temperature), score) ==> score >= PROBABILITY_ONE
}

/// The acceptance test for one candidate, once its score and draw are known:
/// a strictly improving move always passes; any other passes when its score
/// exceeds the draw.
pub fn accepts(new_fitness: i64, current_fitness: i64, score: i64, draw: i64) -> (r: bool)
    ensures
        r == (new_fitness < current_fitness || draw < score),
{
    new_fitness < current_fitness || draw < score
}

/// Scans `candidates` in order and returns the index and predicted fitness of
/// the first one accepted. A strictly improving candidate is always accepted;
/// any other is accepted when the acceptance score for its energy difference
/// exceeds a fresh uniform draw.
pub fn first_accepted<T: Neighbours, U: Fn(u64, i64) -> i64>(
    s: &T,
    candidates: &Vec<T::Neighbour>,
    current_fitness: i64,
    temperature: i64,
    acceptance: &U,
) -> (r: Option<(usize, i64)>)
    requires
        forall|d: u64, t: i64| call_requires(*acceptance, (d, t)),
    ensures
        match r {
            Some((i, f)) => {
                &&& i < candidates.len()
                &&& f == s.spec_neighbour_fitness(&candidates[i as int])
                &&& forall|j: int|
                    0 <= j < i ==> passed_over(s, *acceptance, #[trigger] candidates[j], current_fitness, temperature)
                &&& (f < current_fitness || may_accept(
                    *acceptance,
                    energy_diff(f, current_fitness),
                    temperature,
                ))
            },
            None => forall|j: int|
                0 <= j < candidates.len() ==> passed_over(s, *acceptance, #[trigger] candidates[j], current_fitness, temperature),
        },
{
    let mut i: usize = 0;
    while i < candidates.len()
        invariant
            i <= candidates.len(),
            forall|d: u64, t: i64| call_requires(*acceptance, (d, t)),
            forall|j: int|
                0 <= j < i ==> passed_over(s, *acceptance, #[trigger] candidates[j], current_fitness, temperature),
        decreases candidates.len() - i,
    {
        let new_fitness = s.neighbour_fitness(&candidates[i]);
        if new_fitness < current_fitness {
            return Some((i, new_fitness));
        }
        let diff = (new_fitness as i128 - current_fitness as i128) as u64;
        let score = (*acceptance)(diff, temperature);
        let draw = uniform_below(PROBABILITY_ONE);
        if accepts(new_fitness, current_fitness, score, draw) {
            return Some((i, new_fitness));
        }
        i += 1;
    }
    None
}

/// With `never_accept`, a candidate passes the acceptance test of
/// `first_accepted` exactly when it strictly improves on the current fitness:
/// the search never moves to a worse or equal solution, and the engine's
/// greedy guarantee applies to it.
pub proof fn lemma_never_accept_is_greedy(new_fitness: i64, current_fitness: i64, temperature: i64)
    ensures
        (new_fitness < current_fitness || may_accept(
            never_accept,
            energy_diff(new_fitness, current_fitness),
            temperature,
        )) <==> new_fitness < current_fitness,
        never_accepts_worse(never_accept),
{
    assert forall|score: i64|
        call_ensures(
            never_accept,
            (energy_diff(new_fitness, current_fitness), temperature),
            score,
        ) implies score <= 0 by {}
}

/// The tracked best never regresses over a run: the least fitness among the
/// first `j` solutions is at most that among the first `i`, for `i <= j`.
pub proof fn lemma_best_never_regresses<T: Fitness>(sols: Seq<T>, i: int, j: int)
    requires
        1 <= i <= j <= sols.len(),
    ensures
        sols.take(j)[earliest_best(sols.take(j))].spec_fitness() <= sols.take(i)[earliest_best(
            sols.take(i),
        )].spec_fitness(),
{
    let bi = earliest_best(sols.take(i));
    lemma_earliest_best_is_least(sols.take(i));
    lemma_earliest_best_is_least(sols.take(j));
    assert(sols.take(i)[bi] == sols.take(j)[bi]);
}

/// The best solution seen so far and its fitness.
pub struct Best<T> {
    pub solution: T,
    pub fitness: i64,
}

impl<T: Clone> Best<T> {
    pub fn new(solution: T, fitness: i64) -> (r: Self)
        ensures
            r.solution == solution,
            r.fitness == fitness,
    {
        Best { solution, fitness }
    }

    /// Records `s` as the best solution when `fitness` is strictly lower than
    /// the best so far; the recorded fitness never increases.
    pub fn record(&mut self, s: &T, fitness: i64)
        ensures
            final(self).fitness == if fitness < old(self).fitness {
                fitness
            } else {
                old(self).fitness
            },
            final(self).fitness <= old(self).fitness,
            fitness >= old(self).fitness ==> final(self).solution == old(self).solution,
            fitness < old(self).fitness ==> cloned(*s, final(self).solution),
    {
        if fitness < self.fitness {
            self.solution = s.clone();
            self.fitness = fitness;
        }
    }
}

/// No outcome of `acceptance` exceeds any draw, as with `never_accept`.
pub open spec fn never_accepts_worse<U: Fn(u64, i64) -> i64>(acceptance: U) -> bool {
    forall|d: u64, t: i64, score: i64| call_ensures(acceptance, (d, t), score) ==> score <= 0
}


/// In a run with `never_accept`, every applied move strictly improves the
/// fitness: the search is greedy.
pub proof fn lemma_never_accept_run_descends<T: Neighbours, V: Temperature<T>>(
    s0: T,
    t0: V,
    sols: Seq<T>,
    temps: Seq<V>,
    cands: Seq<Vec<T::Neighbour>>,
    picks: Seq<int>,
)
    requires
        run_trace(never_accept, s0, t0, sols, temps, cands, picks),
    ensures
        forall|i: int|
            0 <= i < cands.len() ==> #[trigger] sols[i + 1].spec_fitness() < sols[i].spec_fitness(),
{
    assert forall|i: int| 0 <= i < cands.len() implies #[trigger] sols[i + 1].spec_fitness()
        < sols[i].spec_fitness() by {
        assert(step_taken(never_accept, sols, temps, cands, picks, i));
        let c = cands[i];
        let f = sols[i].spec_neighbour_fitness(&c[picks[i]]);
        lemma_never_accept_is_greedy(f, sols[i].spec_fitness(), temps[i].spec_temperature());
    }
}

/// Every clone of a solution has the fitness of the original: a clone is a
/// deep copy.
pub open spec fn clones_keep_fitness<T: Fitness + Clone>() -> bool {
    forall|a: T, b: T| #[trigger] cloned(a, b) ==> b.spec_fitness() == a.spec_fitness()
}

/// When the annealing loop ends, besides a scan that accepts no neighbour.
pub enum TerminationPolicy {
    /// Run until the schedule stops.
    ScheduleDriven,
    /// Run until the schedule stops or `limit` moves have been applied; with
    /// `stop_at_zero_fitness`, also stop once the current fitness is exactly 0.
    MaxIterations { limit: u64, stop_at_zero_fitness: bool },
}

/// What bounds the number of iterations left under `policy`.
pub open spec fn iterations_left<T, V: Temperature<T>>(
    policy: TerminationPolicy,
    t: V,
    done: u64,
) -> int {
    match policy {
        TerminationPolicy::ScheduleDriven => t.updates_left() as int,
        TerminationPolicy::MaxIterations { limit, .. } => limit - done,
    }
}

/// Iteration `i` of a run: under a schedule that has not stopped, the
/// candidates `cands[i]` came from solution `sols[i]`, candidate `picks[i]`
/// was the first accepted at the current fitness `sols[i].spec_fitness()`,
/// applying it gave `sols[i + 1]`, and updating the schedule with that
/// solution gave `temps[i + 1]`.
pub open spec fn step_taken<T: Neighbours, V: Temperature<T>, U: Fn(u64, i64) -> i64>(
    acceptance: U,
    sols: Seq<T>,
    temps: Seq<V>,
    cands: Seq<Vec<T::Neighbour>>,
    picks: Seq<int>,
    i: int,
) -> bool {
    let s = sols[i];
    let t = temps[i];
    let c = cands[i];
    let j = picks[i];
    let f = s.spec_neighbour_fitness(&c[j]);
    &&& !t.spec_stop()
    &&& s.spec_neighbours(&c)
    &&& 0 <= j < c.len()
    &&& forall|k: int|
        0 <= k < j ==> passed_over(
            &s,
            acceptance,
            #[trigger] c[k],
            s.spec_fitness(),
            t.spec_temperature(),
        )
    &&& (f < s.spec_fitness() || may_accept(
        acceptance,
        energy_diff(f, s.spec_fitness()),
        t.spec_temperature(),
    ))
    &&& sols[i + 1] == s.spec_apply_neighbour(&c[j])
    &&& sols[i + 1].spec_fitness() == f
    &&& t.spec_updates_to(&sols[i + 1], &temps[i + 1])
}

/// The solutions, schedules, candidate lists and picks of a run of
/// `cands.len()` iterations that starts from `s0` and `t0`.
pub open spec fn run_trace<T: Neighbours, V: Temperature<T>, U: Fn(u64, i64) -> i64>(
    acceptance: U,
    s0: T,
    t0: V,
    sols: Seq<T>,
    temps: Seq<V>,
    cands: Seq<Vec<T::Neighbour>>,
    picks: Seq<int>,
) -> bool {
    &&& sols.len() == cands.len() + 1
    &&& temps.len() == cands.len() + 1
    &&& picks.len() == cands.len()
    &&& sols[0] == s0
    &&& temps[0] == t0
    &&& forall|i: int|
        0 <= i < cands.len() ==> #[trigger] step_taken(acceptance, sols, temps, cands, picks, i)
}

/// Why a run whose last solution is `s` and schedule `t`, after `moves`
/// applied moves, ends there: the schedule stopped, the policy's cap or
/// zero-fitness rule applies, or `s` offered candidates that were all passed over.
pub open spec fn run_ends<T: Neighbours, V: Temperature<T>, U: Fn(u64, i64) -> i64>(
    acceptance: U,
    policy: TerminationPolicy,
    s: T,
    t: V,
    moves: nat,
) -> bool {
    ||| t.spec_stop()
    ||| match policy {
        TerminationPolicy::MaxIterations { limit, stop_at_zero_fitness } => moves >= limit || (
        stop_at_zero_fitness && s.spec_fitness() == 0),
        TerminationPolicy::ScheduleDriven => false,
    }
    ||| exists|c: Vec<T::Neighbour>|
        #[trigger] s.spec_neighbours(&c) && forall|k: int|
            0 <= k < c.len() ==> passed_over(
                &s,
                acceptance,
                #[trigger] c[k],
                s.spec_fitness(),
                t.spec_temperature(),
            )
}

/// The index of the first solution of `sols` with the least fitness.
pub open spec fn earliest_best<T: Fitness>(sols: Seq<T>) -> int
    decreases sols.len(),
{
    if sols.len() <= 1 {
        0
    } else {
        let b = earliest_best(sols.drop_last());
        if sols.last().spec_fitness() < sols[b].spec_fitness() {
            sols.len() - 1
        } else {
            b
        }
    }
}

/// The best of a run is its least fitness, and no earlier solution reaches
/// it: ties keep the earlier solution.
pub proof fn lemma_earliest_best_is_least<T: Fitness>(sols: Seq<T>)
    requires
        sols.len() >= 1,
    ensures
        0 <= earliest_best(sols) < sols.len(),
        forall|i: int|
            0 <= i < sols.len() ==> sols[earliest_best(sols)].spec_fitness()
                <= #[trigger] sols[i].spec_fitness(),
        forall|i: int|
            0 <= i < earliest_best(sols) ==> sols[earliest_best(sols)].spec_fitness()
                < #[trigger] sols[i].spec_fitness(),
    decreases sols.len(),
{
    if sols.len() > 1 {
        let prefix = sols.drop_last();
        lemma_earliest_best_is_least(prefix);
        let b = earliest_best(prefix);
        let best = earliest_best(sols);
        assert(sols[b] == prefix[b]);
        assert forall|i: int| 0 <= i < sols.len() implies sols[best].spec_fitness()
            <= #[trigger] sols[i].spec_fitness() by {
            if i < prefix.len() {
                assert(sols[i] == prefix[i]);
                assert(prefix[b].spec_fitness() <= prefix[i].spec_fitness());
            }
        }
        assert forall|i: int| 0 <= i < best implies sols[best].spec_fitness()
            < #[trigger] sols[i].spec_fitness() by {
            assert(sols[i] == prefix[i]);
            assert(prefix[b].spec_fitness() <= prefix[i].spec_fitness());
            if best == b {
                assert(prefix[b].spec_fitness() < prefix[i].spec_fitness());
            }
        }
    }
}

/// What a run from `s0` and `t0` under `policy` returns: there is a run trace
/// from them that ends by `run_ends`, whose number of moves is at most the
/// schedule's `updates_left` and respects the iteration cap, and `r` is a clone of the first solution of the trace with
/// the least fitness.
pub open spec fn annealing_outcome<T, V, U>(
    acceptance: U,
    policy: TerminationPolicy,
    s0: T,
    t0: V,
    r: T,
) -> bool where T: Fitness + Clone + Neighbours, V: Temperature<T>, U: Fn(u64, i64) -> i64 {
    exists|sols: Seq<T>, temps: Seq<V>, cands: Seq<Vec<T::Neighbour>>, picks: Seq<int>|
        {
            &&& #[trigger] run_trace(acceptance, s0, t0, sols, temps, cands, picks)
            &&& run_ends(acceptance, policy, sols.last(), temps.last(), cands.len())
            &&& cands.len() <= t0.updates_left()
            &&& match policy {
                TerminationPolicy::MaxIterations { limit, .. } => cands.len() <= limit,
                TerminationPolicy::ScheduleDriven => true,
            }
            &&& cloned(sols[earliest_best(sols)], r)
            &&& r.spec_fitness() == sols[earliest_best(sols)].spec_fitness()
        }
}

/// Traditional simulated annealing, run until the schedule stops: scans the
/// neighbours of the current solution in order and applies the first one
/// accepted, then updates the schedule. Stops when the schedule stops or a
/// scan accepts no neighbour, and returns a clone of the first solution with
/// the least fitness seen.
pub fn simulated_annealing<T, V, U>(initial_solution: T, initial_temperature: V, acceptance: U) -> (r:
    Option<T>) where T: Fitness + Clone + Neighbours, V: Temperature<T>, U: Fn(u64, i64) -> i64
    requires
        forall|d: u64, t: i64| call_requires(acceptance, (d, t)),
        clones_keep_fitness::<T>(),
    ensures
        r.is_some(),
        annealing_outcome(
            acceptance,
            TerminationPolicy::ScheduleDriven,
            initial_solution,
            initial_temperature,
            r->Some_0,
        ),
{
    annealing_with_policy(
        initial_solution,
        initial_temperature,
        acceptance,
        TerminationPolicy::ScheduleDriven,
    )
}

/// Simulated annealing as in `simulated_annealing`, ended by `policy`. The
/// schedule's stop condition and the other checks of the policy are made at
/// the start of each iteration; a clone of the first solution with the least
/// fitness seen is returned.
pub fn annealing_with_policy<T, V, U>(
    initial_solution: T,
    initial_temperature: V,
    acceptance: U,
    policy: TerminationPolicy,
) -> (r: Option<T>) where
    T: Fitness + Clone + Neighbours,
    V: Temperature<T>,
    U: Fn(u64, i64) -> i64,

    requires
        forall|d: u64, t: i64| call_requires(acceptance, (d, t)),
        clones_keep_fitness::<T>(),
    ensures
        r.is_some(),
        annealing_outcome(acceptance, policy, initial_solution, initial_temperature, r->Some_0),
{
    let ghost mut sols: Seq<T> = seq![initial_solution];
    let ghost mut temps: Seq<V> = seq![initial_temperature];
    let ghost mut cands: Seq<Vec<T::Neighbour>> = Seq::empty();
    let ghost mut picks: Seq<int> = Seq::empty();
    let mut s = initial_solution;
    let mut t = initial_temperature;
    let mut current_fitness = s.fitness();
    let first = s.clone();
    proof {
        assert(cloned(s, first));
    }
    let mut best = Best::new(first, current_fitness);
    let mut done: u64 = 0;
    loop
        invariant
            forall|d: u64, tp: i64| call_requires(acceptance, (d, tp)),
            clones_keep_fitness::<T>(),
            run_trace(acceptance, initial_solution, initial_temperature, sols, temps, cands, picks),
            sols.last() == s,
            temps.last() == t,
            cands.len() + t.updates_left() <= initial_temperature.updates_left(),
            match policy {
                TerminationPolicy::MaxIterations { limit, .. } => done <= limit && done
                    == cands.len(),
                TerminationPolicy::ScheduleDriven => true,
            },
            current_fitness == s.spec_fitness(),
            0 <= earliest_best(sols) < sols.len(),
            cloned(sols[earliest_best(sols)], best.solution),
            best.fitness == sols[earliest_best(sols)].spec_fitness(),
            best.fitness == best.solution.spec_fitness(),
        decreases iterations_left::<T, V>(policy, t, done),
    {
        if t.stop() {
            assert(run_trace(acceptance, initial_solution, initial_temperature, sols, temps, cands, picks));
            return Some(best.solution);
        }
        match policy {
            TerminationPolicy::ScheduleDriven => {},
            TerminationPolicy::MaxIterations { limit, stop_at_zero_fitness } => {
                if done >= limit || (stop_at_zero_fitness && current_fitness == 0) {
                    assert(run_trace(acceptance, initial_solution, initial_temperature, sols, temps, cands, picks));
                    return Some(best.solution);
                }
            },
        }
        let mut candidates = s.neighbours();
        let temperature = t.temperature();
        match first_accepted(&s, &candidates, current_fitness, temperature, &acceptance) {
            None => {
                assert(s.spec_neighbours(&candidates));
                assert(run_trace(acceptance, initial_solution, initial_temperature, sols, temps, cands, picks));
                return Some(best.solution);
            },
            Some((i, new_fitness)) => {
                let ghost c0 = candidates;
                let ghost s_before = s;
                let ghost t_before = t;
                let n = candidates.remove(i);
                s.apply_neighbour(n);
                t = t.update(&s);
                best.record(&s, new_fitness);
                current_fitness = new_fitness;
                proof {
                    let old_sols = sols;
                    let old_temps = temps;
                    let old_cands = cands;
                    let old_picks = picks;
                    sols = sols.push(s);
                    temps = temps.push(t);
                    cands = cands.push(c0);
                    picks = picks.push(i as int);
                    assert(sols.drop_last() =~= old_sols);
                    assert forall|k: int| 0 <= k < cands.len() implies #[trigger] step_taken(
                        acceptance,
                        sols,
                        temps,
                        cands,
                        picks,
                        k,
                    ) by {
                        if k < old_cands.len() {
                            assert(step_taken(acceptance, old_sols, old_temps, old_cands, old_picks, k));
                            assert(sols[k] == old_sols[k] && sols[k + 1] == old_sols[k + 1]);
                            assert(temps[k] == old_temps[k] && temps[k + 1] == old_temps[k + 1]);
                            assert(cands[k] == old_cands[k] && picks[k] == old_picks[k]);
                        } else {
                            assert(sols[k] == s_before && temps[k] == t_before);
                        }
                    }
                    lemma_earliest_best_is_least(sols);
                }
                if let TerminationPolicy::MaxIterations { .. } = policy {
                    done = done + 1;
                }
            },
        }
    }
}

} // verus!
