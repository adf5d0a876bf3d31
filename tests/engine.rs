use annealing::{
    accepts, annealing_with_policy, first_accepted, never_accept, simulated_annealing, Best, Fitness,
    Geometric, Linear, Neighbours, TerminationPolicy, PROBABILITY_ONE,
};

/// A solution that is its own fitness; its neighbours are fixed offsets.
#[derive(Clone, Debug, PartialEq)]
struct Point {
    value: i64,
    offsets: Vec<i64>,
    applied: usize,
}

impl Point {
    fn new(value: i64, offsets: Vec<i64>) -> Point {
        Point { value, offsets, applied: 0 }
    }
}

impl Fitness for Point {
    fn spec_fitness(&self) -> i64 {
        self.value
    }

    fn fitness(&self) -> i64 {
        self.value
    }
}

impl Neighbours for Point {
    type Neighbour = i64;

    fn spec_neighbour_fitness(&self, n: &i64) -> i64 {
        self.value + n
    }

    fn spec_neighbours(&self, c: &Vec<i64>) -> bool {
        *c == self.offsets
    }

    fn spec_apply_neighbour(&self, n: &i64) -> Point {
        Point { value: self.value + n, offsets: self.offsets.clone(), applied: self.applied + 1 }
    }

    fn neighbours(&self) -> Vec<i64> {
        self.offsets.clone()
    }

    fn apply_neighbour(&mut self, n: i64) {
        self.value += n;
        self.applied += 1;
    }

    fn neighbour_fitness(&self, n: &i64) -> i64 {
        self.value + n
    }
}

fn always_accept(_energy_diff: u64, _temperature: i64) -> i64 {
    PROBABILITY_ONE
}

fn zero_score(_energy_diff: u64, _temperature: i64) -> i64 {
    0
}

#[test]
fn never_accept_scores_minus_one() {
    assert_eq!(never_accept(0, 0), -PROBABILITY_ONE);
    assert_eq!(never_accept(1000, -7), -1_000_000);
}

#[test]
fn improving_candidate_is_accepted_whatever_the_score() {
    let p = Point::new(10, vec![]);
    let candidates = vec![3, 0, -2, -5];
    assert_eq!(first_accepted(&p, &candidates, 10, 100, &never_accept), Some((2, 8)));
    assert_eq!(first_accepted(&p, &candidates, 10, 100, &zero_score), Some((2, 8)));
}

#[test]
fn scan_without_improvement_under_never_accept_is_exhausted() {
    let p = Point::new(10, vec![]);
    assert_eq!(first_accepted(&p, &vec![0, 1, 4], 10, 100, &never_accept), None);
    assert_eq!(first_accepted(&p, &vec![], 10, 100, &never_accept), None);
}

#[test]
fn full_score_accepts_the_first_candidate() {
    let p = Point::new(10, vec![]);
    for _ in 0..50 {
        assert_eq!(first_accepted(&p, &vec![4, -1], 10, 1, &always_accept), Some((0, 14)));
    }
}

#[test]
fn zero_score_never_accepts_a_worse_candidate() {
    let p = Point::new(10, vec![]);
    for _ in 0..50 {
        assert_eq!(first_accepted(&p, &vec![4, 0, 9], 10, 1, &zero_score), None);
    }
}

#[test]
fn closure_acceptance_sees_energy_diff_and_temperature() {
    let p = Point::new(-3, vec![]);
    let accept_big_diff_when_hot =
        |d: u64, t: i64| if d == 7 && t == 42 { PROBABILITY_ONE } else { -1 };
    let r = first_accepted(&p, &vec![2, 7, 1], -3, 42, &accept_big_diff_when_hot);
    assert_eq!(r, Some((1, 4)));
}

#[test]
fn best_record_keeps_the_lowest_fitness() {
    let mut best = Best::new(Point::new(5, vec![]), 5);
    best.record(&Point::new(7, vec![]), 7);
    assert_eq!(best.fitness, 5);
    assert_eq!(best.solution.value, 5);
    best.record(&Point::new(2, vec![]), 2);
    assert_eq!(best.fitness, 2);
    assert_eq!(best.solution.value, 2);
    best.record(&Point::new(2, vec![1]), 2);
    assert_eq!(best.solution.offsets, Vec::<i64>::new());
}

#[test]
fn linear_greedy_descent_moves_once_per_update() {
    let start = Point::new(100, vec![-1]);
    let r = simulated_annealing(start, Linear::new(10, 1, 0), never_accept).unwrap();
    assert_eq!(r.value, 100 - 11);
    assert_eq!(r.applied, 11);
}

#[test]
fn geometric_greedy_descent_moves_once_per_update() {
    let start = Point::new(0, vec![-3]);
    let r = simulated_annealing(start, Geometric::new(100, 1, 2, 1), never_accept).unwrap();
    assert_eq!(r.value, -21);
}

#[test]
fn greedy_search_stops_at_the_first_scan_without_improvement() {
    let start = Point::new(4, vec![1, 0, 2]);
    let r = simulated_annealing(start, Linear::new(1000, 1, 0), never_accept).unwrap();
    assert_eq!(r, Point::new(4, vec![1, 0, 2]));
}

#[test]
fn no_neighbours_returns_the_initial_solution() {
    let start = Point::new(9, vec![]);
    let r = simulated_annealing(start, Linear::new(5, 1, 0), always_accept).unwrap();
    assert_eq!(r.value, 9);
}

#[test]
fn stopped_schedule_returns_the_initial_solution() {
    let start = Point::new(9, vec![-1]);
    let r = simulated_annealing(start, Linear::new(-1, 1, 0), never_accept).unwrap();
    assert_eq!(r.value, 9);
    assert_eq!(r.applied, 0);
}

#[test]
fn best_solution_survives_worse_accepted_moves() {
    let start = Point::new(3, vec![2]);
    let r = simulated_annealing(start, Linear::new(20, 1, 0), always_accept).unwrap();
    assert_eq!(r.value, 3);
    assert_eq!(r.applied, 0);
}

#[test]
fn best_solution_is_the_lowest_seen_on_a_mixed_walk() {
    // Improves three times while the schedule runs, then worse moves only.
    let start = Point::new(0, vec![-1]);
    let r = simulated_annealing(start, Linear::new(2, 1, 0), always_accept).unwrap();
    assert_eq!(r.value, -3);
}

#[test]
fn iteration_cap_limits_the_number_of_moves() {
    let start = Point::new(0, vec![-1]);
    let policy = TerminationPolicy::MaxIterations { limit: 3, stop_at_zero_fitness: false };
    let r = annealing_with_policy(start, Linear::new(1000, 1, 0), never_accept, policy).unwrap();
    assert_eq!(r.value, -3);
    assert_eq!(r.applied, 3);
}

#[test]
fn iteration_cap_still_honours_the_schedule() {
    let start = Point::new(0, vec![-1]);
    let policy = TerminationPolicy::MaxIterations { limit: 100, stop_at_zero_fitness: false };
    let r = annealing_with_policy(start, Linear::new(4, 1, 0), never_accept, policy).unwrap();
    assert_eq!(r.value, -5);
}

#[test]
fn zero_fitness_ends_the_search_when_asked() {
    let policy = TerminationPolicy::MaxIterations { limit: 100, stop_at_zero_fitness: true };
    let r = annealing_with_policy(Point::new(5, vec![-1]), Linear::new(1000, 1, 0), never_accept, policy)
        .unwrap();
    assert_eq!(r.value, 0);
    let policy = TerminationPolicy::MaxIterations { limit: 8, stop_at_zero_fitness: false };
    let r = annealing_with_policy(Point::new(5, vec![-1]), Linear::new(1000, 1, 0), never_accept, policy)
        .unwrap();
    assert_eq!(r.value, -3);
}

#[test]
fn zero_iteration_cap_returns_the_initial_solution() {
    let policy = TerminationPolicy::MaxIterations { limit: 0, stop_at_zero_fitness: false };
    let r = annealing_with_policy(Point::new(5, vec![-1]), Linear::new(10, 1, 0), never_accept, policy)
        .unwrap();
    assert_eq!(r.applied, 0);
}

#[test]
fn schedule_driven_policy_matches_simulated_annealing() {
    let policy = TerminationPolicy::ScheduleDriven;
    let r = annealing_with_policy(Point::new(5, vec![-2]), Linear::new(3, 1, 0), never_accept, policy)
        .unwrap();
    assert_eq!(r.value, -3);
}

#[test]
fn accepts_improving_moves_and_scores_above_the_draw() {
    assert!(accepts(3, 4, -PROBABILITY_ONE, PROBABILITY_ONE - 1));
    assert!(!accepts(4, 4, 10, 10));
    assert!(accepts(4, 4, 11, 10));
    assert!(!accepts(9, 4, 0, 0));
    assert!(accepts(9, 4, 1, 0));
}
