use vstd::prelude::*;
use crate::config::{
    config_fault, validate_config, Config, GenerationMethod, THRESHOLD_MAX, THRESHOLD_UNIT,
};
use crate::error::TspError;
use crate::distance::DistanceMatrix;
use crate::neighbor::{
    insert, lemma_moves_keep_tours, moved, partial_shuffle, reverse, reversed, swap, swapped,
};
use crate::parallel::WorkerPool;
use crate::random::shuffled_within;
use crate::selection::{is_selected, run_tournament, tournament_rounds, valid_rounds};
use crate::tour::{initialize_solution, is_tour, route_length, tour_length};

verus! {

/// `r` comes from `s` by one move of the kind `method`.
pub open spec fn is_neighbor(method: GenerationMethod, s: Seq<usize>, r: Seq<usize>) -> bool {
    match method {
        GenerationMethod::Unset => false,
        GenerationMethod::Swap => exists|i: int, j: int|
            0 <= i < s.len() && 0 <= j < s.len() && i != j && r == #[trigger] swapped(s, i, j),
        GenerationMethod::Insert => exists|i: int, j: int|
            0 <= i < j < s.len() && r == #[trigger] moved(s, i, j),
        GenerationMethod::Reverse => exists|i: int, j: int|
            0 <= i < j < s.len() && r == #[trigger] reversed(s, i, j),
        GenerationMethod::PartialShuffle => exists|i: int, j: int|
            0 <= i < j < s.len() && #[trigger] shuffled_within(s, r, i, j + 1),
    }
}

/// Each of `solutions` is a tour of the cities of `m`, and `lengths` holds
/// the length of each.
pub open spec fn is_population(
    solutions: Seq<Vec<usize>>,
    lengths: Seq<u64>,
    m: Seq<Seq<u64>>,
) -> bool {
    &&& lengths.len() == solutions.len()
    &&& forall|i: int|
        0 <= i < solutions.len() ==> is_tour((#[trigger] solutions[i])@, m.len())
    &&& forall|i: int|
        0 <= i < solutions.len() ==> #[trigger] lengths[i] == tour_length(solutions[i]@, m)
}

/// A neighbour of a tour is a tour of the same cities.
pub proof fn lemma_neighbor_is_tour(method: GenerationMethod, s: Seq<usize>, r: Seq<usize>, n: nat)
    requires
        is_tour(s, n),
        is_neighbor(method, s, r),
    ensures
        is_tour(r, n),
        r.to_multiset() == s.to_multiset(),
{
    match method {
        GenerationMethod::Unset => {},
        GenerationMethod::Swap => {
            let (i, j) = choose|i: int, j: int|
                0 <= i < s.len() && 0 <= j < s.len() && i != j && r == #[trigger] swapped(s, i, j);
            if i < j {
                lemma_moves_keep_tours(s, r, n, i, j);
            } else {
                lemma_moves_keep_tours(s, r, n, j, i);
            }
        },
        GenerationMethod::Insert => {
            let (i, j) = choose|i: int, j: int|
                0 <= i < j < s.len() && r == #[trigger] moved(s, i, j);
            lemma_moves_keep_tours(s, r, n, i, j);
        },
        GenerationMethod::Reverse => {
            let (i, j) = choose|i: int, j: int|
                0 <= i < j < s.len() && r == #[trigger] reversed(s, i, j);
            lemma_moves_keep_tours(s, r, n, i, j);
        },
        GenerationMethod::PartialShuffle => {
            let (i, j) = choose|i: int, j: int|
                0 <= i < j < s.len() && #[trigger] shuffled_within(s, r, i, j + 1);
            lemma_moves_keep_tours(s, r, n, i, j);
        },
    }
}

/// The length of each of `tours` over `m`.
pub open spec fn lengths_of(tours: Seq<Seq<usize>>, m: Seq<Seq<u64>>) -> Seq<u64> {
    Seq::new(tours.len(), |i: int| tour_length(tours[i], m) as u64)
}

/// `trial` is the choice of a tournament among `amount` neighbours of `s`,
/// each made by one move of the kind `method` and measured over `m`.
pub open spec fn is_trial(
    method: GenerationMethod,
    amount: nat,
    s: Seq<usize>,
    m: Seq<Seq<u64>>,
    trial: Seq<usize>,
) -> bool {
    exists|candidates: Seq<Seq<usize>>, rounds: Seq<(usize, usize)>, k: int|
        {
            &&& candidates.len() == amount
            &&& forall|c: int| 0 <= c < amount ==> is_neighbor(method, s, #[trigger] candidates[c])
            &&& rounds.len() == tournament_rounds(amount)
            &&& valid_rounds(rounds, amount)
            &&& #[trigger] is_selected(lengths_of(candidates, m), rounds, k)
            &&& trial == candidates[k]
        }
}

/// A trial tour is a neighbour of the tour that it was made of.
pub proof fn lemma_trial_is_neighbor(
    method: GenerationMethod,
    amount: nat,
    s: Seq<usize>,
    m: Seq<Seq<u64>>,
    trial: Seq<usize>,
)
    requires
        is_trial(method, amount, s, m, trial),
    ensures
        is_neighbor(method, s, trial),
{
    let (candidates, rounds, k) = choose|
        candidates: Seq<Seq<usize>>,
        rounds: Seq<(usize, usize)>,
        k: int,
    |
        {
            &&& candidates.len() == amount
            &&& forall|c: int| 0 <= c < amount ==> is_neighbor(method, s, #[trigger] candidates[c])
            &&& rounds.len() == tournament_rounds(amount)
            &&& valid_rounds(rounds, amount)
            &&& #[trigger] is_selected(lengths_of(candidates, m), rounds, k)
            &&& trial == candidates[k]
        };
    assert(is_neighbor(method, s, candidates[k]));
}

/// `trials` holds for each of `solutions` a trial tour, made as `config`
/// says, and `trial_lengths` the length of each trial tour.
pub open spec fn is_exploration(
    solutions: Seq<Vec<usize>>,
    m: Seq<Seq<u64>>,
    config: Config,
    trials: Seq<Vec<usize>>,
    trial_lengths: Seq<u64>,
) -> bool {
    &&& trials.len() == solutions.len()
    &&& is_population(trials, trial_lengths, m)
    &&& forall|i: int|
        0 <= i < solutions.len() ==> is_trial(
            config.generation_method,
            config.candidate_amount as nat,
            solutions[i]@,
            m,
            (#[trigger] trials[i])@,
        )
}

/// One neighbour of `solution`, made by the move `method`.
pub fn generate_neighbor(solution: &Vec<usize>, method: GenerationMethod) -> (neighbor: Vec<usize>)
    requires
        solution.len() >= 2,
        method != GenerationMethod::Unset,
    ensures
        is_neighbor(method, solution@, neighbor@),
{
    match method {
        GenerationMethod::Swap => swap(solution),
        GenerationMethod::Insert => insert(solution),
        GenerationMethod::Reverse => reverse(solution),
        _ => partial_shuffle(solution),
    }
}

/// The work of one employed bee: it makes `candidate_amount` neighbours of
/// its tour by the configured move, measures them, and lets a tournament
/// choose one of them as its trial tour.
pub fn employed_bee(
    solution: &Vec<usize>,
    distance: &DistanceMatrix,
    config: &Config,
) -> (trial: Vec<usize>)
    requires
        distance.wf(),
        distance@.len() >= 2,
        is_tour(solution@, distance@.len()),
        config.candidate_amount >= 1,
        config.generation_method != GenerationMethod::Unset,
    ensures
        is_trial(
            config.generation_method,
            config.candidate_amount as nat,
            solution@,
            distance@,
            trial@,
        ),
        is_tour(trial@, distance@.len()),
{
    let candidate_amount: usize = config.candidate_amount;
    let mut candidates: Vec<Vec<usize>> = Vec::new();
    let mut lengths: Vec<u64> = Vec::new();
    let mut made: usize = 0;
    while made < candidate_amount
        invariant
            made <= candidate_amount,
            candidates.len() == made,
            lengths.len() == made,
            distance.wf(),
            distance@.len() >= 2,
            is_tour(solution@, distance@.len()),
            config.generation_method != GenerationMethod::Unset,
            forall|c: int|
                0 <= c < made ==> is_neighbor(
                    config.generation_method,
                    solution@,
                    (#[trigger] candidates[c])@,
                ),
            forall|c: int|
                0 <= c < made ==> #[trigger] lengths[c] == tour_length(candidates[c]@, distance@),
        decreases candidate_amount - made,
    {
        let candidate: Vec<usize> = generate_neighbor(solution, config.generation_method);
        proof {
            lemma_neighbor_is_tour(
                config.generation_method,
                solution@,
                candidate@,
                distance@.len(),
            );
        }
        let length: u64 = route_length(&candidate, distance);
        candidates.push(candidate);
        lengths.push(length);
        made += 1;
    }
    let trial: Vec<usize> = run_tournament(&candidates, &lengths);
    proof {
        let tours = Seq::new(candidates.len() as nat, |c: int| candidates[c]@);
        let (rounds, k) = choose|rounds: Seq<(usize, usize)>, k: int|
            {
                &&& rounds.len() == tournament_rounds(candidates.len() as nat)
                &&& valid_rounds(rounds, candidates.len() as nat)
                &&& #[trigger] is_selected(lengths@, rounds, k)
                &&& trial@ == candidates[k]@
            };
        assert(lengths@ =~= lengths_of(tours, distance@));
        assert(is_selected(lengths_of(tours, distance@), rounds, k));
        assert(trial@ == tours[k]);
        lemma_trial_is_neighbor(
            config.generation_method,
            candidate_amount as nat,
            solution@,
            distance@,
            trial@,
        );
        lemma_neighbor_is_tour(config.generation_method, solution@, trial@, distance@.len());
    }
    trial
}

/// The first population: `colony_size / 2` random tours, made by the
/// workers of `pool`, and the length of each.
pub fn initialize_phase(
    pool: &WorkerPool,
    distance: &DistanceMatrix,
    config: &Config,
) -> (population: (Vec<Vec<usize>>, Vec<u64>))
    requires
        distance.wf(),
        distance@.len() >= 1,
    ensures
        population.0.len() == config.colony_size / 2,
        is_population(population.0@, population.1@, distance@),
{
    let members: usize = config.colony_size / 2;
    let city_amount: usize = distance.dimension();
    let mut seats: Vec<usize> = Vec::new();
    let mut seat: usize = 0;
    while seat < members
        invariant
            seat <= members,
            seats.len() == seat,
        decreases members - seat,
    {
        seats.push(seat);
        seat += 1;
    }
    let make = |seat: &usize| -> (tour: Vec<usize>)
        ensures
            is_tour(tour@, city_amount as nat),
        { initialize_solution(city_amount) };
    let solutions: Vec<Vec<usize>> = pool.map(&seats, make);
    let lengths: Vec<u64> = measure(pool, &solutions, distance);
    (solutions, lengths)
}

/// The length of each of `solutions`, computed by the workers of `pool`.
fn measure(
    pool: &WorkerPool,
    solutions: &Vec<Vec<usize>>,
    distance: &DistanceMatrix,
) -> (lengths: Vec<u64>)
    requires
        distance.wf(),
        distance@.len() >= 1,
        forall|i: int|
            0 <= i < solutions.len() ==> is_tour((#[trigger] solutions[i])@, distance@.len()),
    ensures
        is_population(solutions@, lengths@, distance@),
{
    let length_of = |tour: &Vec<usize>| -> (length: u64)
        requires
            is_tour(tour@, distance@.len()),
        ensures
            length == tour_length(tour@, distance@),
        { route_length(tour, distance) };
    pool.map(solutions, length_of)
}

/// The employed-bee phase of one iteration: for each tour of the
/// population one trial tour, made by the workers of `pool`, and the length
/// of each trial tour.
pub fn exploration_phase(
    pool: &WorkerPool,
    solutions: &Vec<Vec<usize>>,
    distance: &DistanceMatrix,
    config: &Config,
) -> (trials: (Vec<Vec<usize>>, Vec<u64>))
    requires
        distance.wf(),
        distance@.len() >= 2,
        forall|i: int|
            0 <= i < solutions.len() ==> is_tour((#[trigger] solutions[i])@, distance@.len()),
        config.candidate_amount >= 1,
        config.generation_method != GenerationMethod::Unset,
    ensures
        is_exploration(solutions@, distance@, *config, trials.0@, trials.1@),
{
    let explore = |tour: &Vec<usize>| -> (trial: Vec<usize>)
        requires
            is_tour(tour@, distance@.len()),
        ensures
            is_trial(
                config.generation_method,
                config.candidate_amount as nat,
                tour@,
                distance@,
                trial@,
            ),
            is_tour(trial@, distance@.len()),
        { employed_bee(tour, distance, config) };
    let new_solutions: Vec<Vec<usize>> = pool.map(solutions, explore);
    let new_lengths: Vec<u64> = measure(pool, &new_solutions, distance);
    (new_solutions, new_lengths)
}


/// `k` is the first place of `lengths` that holds its smallest value.
pub open spec fn is_first_shortest(lengths: Seq<u64>, k: int) -> bool {
    &&& 0 <= k < lengths.len()
    &&& forall|c: int| 0 <= c < lengths.len() ==> lengths[k] <= #[trigger] lengths[c]
    &&& forall|c: int| 0 <= c < k ==> lengths[k] < #[trigger] lengths[c]
}

/// The first place of `lengths` that holds its smallest value.
pub open spec fn first_shortest(lengths: Seq<u64>) -> int {
    choose|k: int| is_first_shortest(lengths, k)
}

/// The step from a best length `best` to a shorter length `found` is
/// smaller than the share `threshold` of `best`, with `threshold` counted in
/// billionths.
pub open spec fn below_threshold(best: int, found: int, threshold: int) -> bool {
    (best - found) * THRESHOLD_UNIT < threshold * best
}

/// Only one place is the first that holds the smallest value.
pub proof fn lemma_first_shortest_unique(lengths: Seq<u64>, k: int)
    requires
        is_first_shortest(lengths, k),
    ensures
        first_shortest(lengths) == k,
{
    let c = first_shortest(lengths);
    assert(is_first_shortest(lengths, c));
    if c < k {
        assert(lengths[k] < lengths[c]);
        assert(lengths[c] <= lengths[k]);
    } else if k < c {
        assert(lengths[c] < lengths[k]);
        assert(lengths[k] <= lengths[c]);
    }
}

/// How a run has ended.
#[derive(Clone, Copy, Debug, PartialEq, Eq, Structural)]
pub enum RunEnd {
    /// The best tour improved by less than the configured share.
    Converged,
    /// The configured number of iterations is done.
    ExhaustedIterations,
}

/// The population of a run, what is known of each of its members, and the
/// best tour found so far.
#[derive(Clone, Debug)]
pub struct Colony {
    /// The tour of each member.
    pub solutions: Vec<Vec<usize>>,
    /// The length of the tour of each member.
    pub lengths: Vec<u64>,
    /// For each member the number of iterations in a row in which its tour
    /// has not improved.
    pub unimproved: Vec<usize>,
    /// The best tour found so far.
    pub best_solution: Vec<usize>,
    /// The length of the best tour found so far.
    pub best_length: u64,
}

impl Colony {
    /// There is a length and a counter for each member.
    pub open spec fn consistent(&self) -> bool {
        &&& self.lengths.len() == self.solutions.len()
        &&& self.unimproved.len() == self.solutions.len()
    }

    /// The colony has a member; each member holds a tour of the cities of
    /// `m` and its length; and so does the best solution.
    pub open spec fn wf(&self, m: Seq<Seq<u64>>) -> bool {
        &&& self.solutions.len() >= 1
        &&& self.unimproved.len() == self.solutions.len()
        &&& is_population(self.solutions@, self.lengths@, m)
        &&& is_tour(self.best_solution@, m.len())
        &&& self.best_length == tour_length(self.best_solution@, m)
    }

    /// `after` is `before` after greedy replacement with `trials`: a member
    /// whose trial tour is shorter than its own has taken it over and counts
    /// anew; each other member has kept its tour and counts one more
    /// iteration without improvement. The best solution is as it was.
    pub open spec fn replaced(
        before: Colony,
        trials: Seq<Vec<usize>>,
        trial_lengths: Seq<u64>,
        after: Colony,
    ) -> bool {
        &&& after.consistent()
        &&& after.solutions.len() == before.solutions.len()
        &&& after.best_solution == before.best_solution
        &&& after.best_length == before.best_length
        &&& forall|i: int|
            0 <= i < trials.len() && #[trigger] trial_lengths[i] < before.lengths[i] ==> {
                &&& after.solutions[i]@ == trials[i]@
                &&& after.lengths[i] == trial_lengths[i]
                &&& after.unimproved[i] == 0
            }
        &&& forall|i: int|
            0 <= i < trials.len() && #[trigger] trial_lengths[i] >= before.lengths[i] ==> {
                &&& after.solutions[i] == before.solutions[i]
                &&& after.lengths[i] == before.lengths[i]
                &&& after.unimproved[i] == before.unimproved[i] + 1
            }
    }

    /// `after` is `before` after the scout phase: a member that had gone
    /// more than `max_unimproved` iterations without improvement holds
    /// another tour of the cities of `m`, with its length, and counts anew;
    /// each other member is as it was, and so is the best solution.
    pub open spec fn scouted(
        before: Colony,
        m: Seq<Seq<u64>>,
        max_unimproved: usize,
        after: Colony,
    ) -> bool {
        &&& after.consistent()
        &&& after.solutions.len() == before.solutions.len()
        &&& after.best_solution == before.best_solution
        &&& after.best_length == before.best_length
        &&& forall|i: int|
            0 <= i < before.solutions.len() && #[trigger] before.unimproved[i] > max_unimproved
                ==> {
                &&& is_tour(after.solutions[i]@, m.len())
                &&& after.lengths[i] == tour_length(after.solutions[i]@, m)
                &&& after.unimproved[i] == 0
            }
        &&& forall|i: int|
            0 <= i < before.solutions.len() && #[trigger] before.unimproved[i] <= max_unimproved
                ==> {
                &&& after.solutions[i] == before.solutions[i]
                &&& after.lengths[i] == before.lengths[i]
                &&& after.unimproved[i] == before.unimproved[i]
            }
    }

    /// `after` is `before` after the best-update. Where the shortest tour of
    /// the population, and the first of several, is shorter than the best
    /// solution, it has become the best solution, and `converged` tells
    /// whether the step was smaller than the share `threshold` of the former
    /// best length. Otherwise the best solution is as it was and `converged`
    /// is `false`. The population is as it was.
    pub open spec fn best_updated(
        before: Colony,
        threshold: i64,
        after: Colony,
        converged: bool,
    ) -> bool {
        let k = first_shortest(before.lengths@);
        &&& after.solutions == before.solutions
        &&& after.lengths == before.lengths
        &&& after.unimproved == before.unimproved
        &&& is_first_shortest(before.lengths@, k)
        &&& if before.lengths[k] < before.best_length {
            &&& after.best_solution@ == before.solutions[k]@
            &&& after.best_length == before.lengths[k]
            &&& converged == below_threshold(
                before.best_length as int,
                before.lengths[k] as int,
                threshold as int,
            )
        } else {
            &&& after.best_solution == before.best_solution
            &&& after.best_length == before.best_length
            &&& !converged
        }
    }

    /// `after` is `before` after one iteration over `m` as `config` says:
    /// there are trial tours for the members of `before`, by which greedy
    /// replacement, the scout phase and the best-update lead to `after`.
    pub open spec fn iterated(
        before: Colony,
        m: Seq<Seq<u64>>,
        config: Config,
        after: Colony,
        converged: bool,
    ) -> bool {
        exists|
            trials: Seq<Vec<usize>>,
            trial_lengths: Seq<u64>,
            replaced: Colony,
            scouted: Colony,
        |
            #![trigger
                Colony::replaced(before, trials, trial_lengths, replaced),
                Colony::scouted(replaced, m, config.max_unimproved, scouted)
            ]
            {
                &&& is_exploration(before.solutions@, m, config, trials, trial_lengths)
                &&& Colony::replaced(before, trials, trial_lengths, replaced)
                &&& Colony::scouted(replaced, m, config.max_unimproved, scouted)
                &&& Colony::best_updated(scouted, config.improvement_threshold, after, converged)
            }
    }

    /// `after` is `before` after `steps` iterations over `m` as `config`
    /// says, of which only the last may have reported convergence, and
    /// `converged` tells whether it has.
    pub open spec fn evolved(
        before: Colony,
        m: Seq<Seq<u64>>,
        config: Config,
        after: Colony,
        steps: nat,
        converged: bool,
    ) -> bool
        decreases steps,
    {
        if steps == 0 {
            after == before && !converged
        } else {
            exists|middle: Colony|
                {
                    &&& Colony::evolved(before, m, config, middle, (steps - 1) as nat, false)
                    &&& #[trigger] Colony::iterated(middle, m, config, after, converged)
                }
        }
    }

    /// `after` is `before` after a run over `m` as `config` says: after at
    /// least one iteration and at most `max_iterations`, and after fewer
    /// only where the last of them has reported convergence. `end` tells how
    /// the run has ended.
    pub open spec fn ran(
        before: Colony,
        m: Seq<Seq<u64>>,
        config: Config,
        after: Colony,
        end: RunEnd,
    ) -> bool {
        exists|steps: nat, converged: bool|
            {
                &&& 1 <= steps <= config.max_iterations
                &&& #[trigger] Colony::evolved(before, m, config, after, steps, converged)
                &&& converged <==> end == RunEnd::Converged
                &&& !converged ==> steps == config.max_iterations
            }
    }

    /// `colony` holds the population `solutions` with `lengths`, no member
    /// has failed to improve yet, and the best solution is that of the first
    /// member.
    pub open spec fn started(
        solutions: Vec<Vec<usize>>,
        lengths: Vec<u64>,
        colony: Colony,
    ) -> bool {
        &&& colony.solutions == solutions
        &&& colony.lengths == lengths
        &&& colony.unimproved@ == Seq::new(solutions.len() as nat, |i: int| 0usize)
        &&& colony.best_solution@ == solutions[0]@
        &&& colony.best_length == lengths[0]
    }

    /// The colony at the start of a run: no member has failed to improve
    /// yet, and the best solution is that of the first member.
    ///
    /// Fails where there is no member, and where `lengths` does not hold one
    /// length for each member.
    pub fn new(solutions: Vec<Vec<usize>>, lengths: Vec<u64>) -> (r: Result<Colony, TspError>)
        ensures
            solutions.len() >= 1 && solutions.len() == lengths.len() ==> r is Ok
                && Colony::started(solutions, lengths, r->Ok_0),
            !(solutions.len() >= 1 && solutions.len() == lengths.len()) ==> r is Err && r->Err_0
                == TspError::InvariantViolation,
    {
        if solutions.len() == 0 || solutions.len() != lengths.len() {
            return Err(TspError::InvariantViolation);
        }
        Ok(Colony::start(solutions, lengths))
    }

    /// The colony at the start of a run, for a population that has a member
    /// and a length for each.
    pub(crate) fn start(solutions: Vec<Vec<usize>>, lengths: Vec<u64>) -> (colony: Colony)
        requires
            solutions.len() >= 1,
            solutions.len() == lengths.len(),
        ensures
            Colony::started(solutions, lengths, colony),
    {
        let members: usize = solutions.len();
        let mut unimproved: Vec<usize> = Vec::new();
        let mut index: usize = 0;
        while index < members
            invariant
                index <= members,
                unimproved.len() == index,
                forall|i: int| 0 <= i < index ==> #[trigger] unimproved[i] == 0,
            decreases members - index,
        {
            unimproved.push(0);
            index += 1;
        }
        assert(unimproved@ =~= Seq::new(members as nat, |i: int| 0usize));
        let best_solution: Vec<usize> = solutions[0].clone();
        assert(best_solution@ =~= solutions[0]@);
        let best_length: u64 = lengths[0];
        Colony { solutions, lengths, unimproved, best_solution, best_length }
    }

    /// Greedy replacement: a member whose trial tour is shorter than its
    /// own takes it over and starts counting anew; each other member keeps
    /// its tour and counts one more iteration without improvement.
    pub fn greedy_replacement(&mut self, trials: &Vec<Vec<usize>>, trial_lengths: &Vec<u64>)
        requires
            old(self).consistent(),
            trials.len() == old(self).solutions.len(),
            trial_lengths.len() == old(self).solutions.len(),
            forall|i: int|
                0 <= i < old(self).unimproved.len() ==> #[trigger] old(self).unimproved[i]
                    < usize::MAX,
        ensures
            Colony::replaced(*old(self), trials@, trial_lengths@, *final(self)),
    {
        let members: usize = self.solutions.len();
        let mut index: usize = 0;
        while index < members
            invariant
                index <= members,
                members == trials.len(),
                members == trial_lengths.len(),
                self.solutions.len() == members,
                self.lengths.len() == members,
                self.unimproved.len() == members,
                self.best_solution == old(self).best_solution,
                self.best_length == old(self).best_length,
                old(self).solutions.len() == members,
                old(self).lengths.len() == members,
                old(self).unimproved.len() == members,
                forall|i: int|
                    index <= i < members ==> #[trigger] self.solutions[i] == old(self).solutions[i],
                forall|i: int|
                    index <= i < members ==> #[trigger] self.lengths[i] == old(self).lengths[i],
                forall|i: int|
                    index <= i < members ==> #[trigger] self.unimproved[i] == old(
                        self,
                    ).unimproved[i],
                forall|i: int|
                    0 <= i < members ==> #[trigger] old(self).unimproved[i] < usize::MAX,
                forall|i: int|
                    0 <= i < index && #[trigger] trial_lengths[i] < old(self).lengths[i] ==> {
                        &&& self.solutions[i]@ == trials[i]@
                        &&& self.lengths[i] == trial_lengths[i]
                        &&& self.unimproved[i] == 0
                    },
                forall|i: int|
                    0 <= i < index && #[trigger] trial_lengths[i] >= old(self).lengths[i] ==> {
                        &&& self.solutions[i] == old(self).solutions[i]
                        &&& self.lengths[i] == old(self).lengths[i]
                        &&& self.unimproved[i] == old(self).unimproved[i] + 1
                    },
            decreases members - index,
        {
            assert(self.solutions[index as int] == old(self).solutions[index as int]);
            if trial_lengths[index] < self.lengths[index] {
                let adopted: Vec<usize> = trials[index].clone();
                assert(adopted@ =~= trials[index as int]@);
                self.solutions.set(index, adopted);
                self.lengths.set(index, trial_lengths[index]);
                self.unimproved.set(index, 0);
            } else {
                let count: usize = self.unimproved[index];
                self.unimproved.set(index, count + 1);
            }
            index += 1;
        }
    }

    /// The scout phase: a member that has gone more than `max_unimproved`
    /// iterations without improvement gives its tour up for a new random
    /// tour and starts counting anew. No other member changes.
    pub fn scout_phase(&mut self, distance: &DistanceMatrix, max_unimproved: usize)
        requires
            old(self).consistent(),
            distance.wf(),
            distance@.len() >= 1,
        ensures
            Colony::scouted(*old(self), distance@, max_unimproved, *final(self)),
    {
        let members: usize = self.solutions.len();
        let city_amount: usize = distance.dimension();
        let mut index: usize = 0;
        while index < members
            invariant
                index <= members,
                distance.wf(),
                city_amount == distance@.len(),
                city_amount >= 1,
                self.solutions.len() == members,
                self.lengths.len() == members,
                self.unimproved.len() == members,
                old(self).solutions.len() == members,
                old(self).lengths.len() == members,
                old(self).unimproved.len() == members,
                self.best_solution == old(self).best_solution,
                self.best_length == old(self).best_length,
                forall|i: int|
                    index <= i < members ==> #[trigger] self.solutions[i] == old(self).solutions[i],
                forall|i: int|
                    index <= i < members ==> #[trigger] self.lengths[i] == old(self).lengths[i],
                forall|i: int|
                    index <= i < members ==> #[trigger] self.unimproved[i] == old(
                        self,
                    ).unimproved[i],
                forall|i: int|
                    0 <= i < index && #[trigger] old(self).unimproved[i] > max_unimproved ==> {
                        &&& is_tour(self.solutions[i]@, distance@.len())
                        &&& self.lengths[i] == tour_length(self.solutions[i]@, distance@)
                        &&& self.unimproved[i] == 0
                    },
                forall|i: int|
                    0 <= i < index && #[trigger] old(self).unimproved[i] <= max_unimproved ==> {
                        &&& self.solutions[i] == old(self).solutions[i]
                        &&& self.lengths[i] == old(self).lengths[i]
                        &&& self.unimproved[i] == old(self).unimproved[i]
                    },
            decreases members - index,
        {
            assert(self.unimproved[index as int] == old(self).unimproved[index as int]);
            if self.unimproved[index] > max_unimproved {
                let fresh: Vec<usize> = initialize_solution(city_amount);
                let length: u64 = route_length(&fresh, distance);
                self.solutions.set(index, fresh);
                self.lengths.set(index, length);
                self.unimproved.set(index, 0);
            }
            index += 1;
        }
    }

    /// The best-update of an iteration. Where the shortest tour of the
    /// population, and the first of several, is shorter than the best
    /// solution, it becomes the best solution; the result then tells whether
    /// the step was smaller than the share `improvement_threshold` of the
    /// former best length, which ends the run. Otherwise nothing changes and
    /// the result is `false`.
    pub fn update_best(&mut self, improvement_threshold: i64) -> (converged: bool)
        requires
            old(self).consistent(),
            old(self).solutions.len() >= 1,
            0 <= improvement_threshold <= THRESHOLD_MAX,
        ensures
            Colony::best_updated(*old(self), improvement_threshold, *final(self), converged),
            final(self).best_length <= old(self).best_length,
            forall|i: int|
                0 <= i < old(self).lengths.len() ==> final(self).best_length <= #[trigger] old(
                    self,
                ).lengths[i],
    {
        let members: usize = self.lengths.len();
        let mut shortest: usize = 0;
        let mut index: usize = 1;
        while index < members
            invariant
                1 <= index <= members,
                members == self.lengths.len(),
                shortest < index,
                forall|c: int|
                    0 <= c < index ==> self.lengths[shortest as int] <= #[trigger] self.lengths[c],
                forall|c: int|
                    0 <= c < shortest ==> self.lengths[shortest as int]
                        < #[trigger] self.lengths[c],
            decreases members - index,
        {
            if self.lengths[index] < self.lengths[shortest] {
                shortest = index;
            }
            index += 1;
        }
        proof {
            lemma_first_shortest_unique(self.lengths@, shortest as int);
        }
        let found: u64 = self.lengths[shortest];
        if found < self.best_length {
            let converged: bool = improves_little(self.best_length, found, improvement_threshold);
            let better: Vec<usize> = self.solutions[shortest].clone();
            assert(better@ =~= self.solutions[shortest as int]@);
            self.best_solution = better;
            self.best_length = found;
            converged
        } else {
            false
        }
    }

    /// One iteration of the colony: the employed-bee phase, greedy
    /// replacement, the scout phase and the best-update. The result tells
    /// whether the run has converged.
    pub fn iterate(
        &mut self,
        pool: &WorkerPool,
        distance: &DistanceMatrix,
        config: &Config,
    ) -> (converged: bool)
        requires
            old(self).wf(distance@),
            distance.wf(),
            distance@.len() >= 2,
            config.is_valid(),
            forall|i: int|
                0 <= i < old(self).unimproved.len() ==> #[trigger] old(self).unimproved[i]
                    < usize::MAX,
        ensures
            Colony::iterated(*old(self), distance@, *config, *final(self), converged),
            final(self).wf(distance@),
            final(self).solutions.len() == old(self).solutions.len(),
            final(self).best_length <= old(self).best_length,
            converged ==> final(self).best_length < old(self).best_length,
            forall|i: int|
                0 <= i < final(self).lengths.len() ==> final(self).best_length
                    <= #[trigger] final(self).lengths[i],
            forall|i: int|
                0 <= i < final(self).unimproved.len() ==> #[trigger] final(self).unimproved[i]
                    <= config.max_unimproved,
            forall|i: int|
                0 <= i < final(self).unimproved.len() ==> #[trigger] final(self).unimproved[i]
                    <= old(self).unimproved[i] + 1,
    {
        let (trials, trial_lengths) = exploration_phase(pool, &self.solutions, distance, config);
        let ghost before = *self;
        self.greedy_replacement(&trials, &trial_lengths);
        let ghost replaced = *self;
        proof {
            assert forall|i: int| 0 <= i < replaced.solutions.len() implies is_tour(
                (#[trigger] replaced.solutions[i])@,
                distance@.len(),
            ) && replaced.lengths[i] == tour_length(replaced.solutions[i]@, distance@)
                && replaced.unimproved[i] <= before.unimproved[i] + 1 by {
                if trial_lengths[i] < before.lengths[i] {
                    assert(is_tour(trials[i]@, distance@.len()));
                } else {
                    assert(is_tour(before.solutions[i]@, distance@.len()));
                }
            }
        }
        self.scout_phase(distance, config.max_unimproved);
        let ghost scouted = *self;
        proof {
            assert forall|i: int| 0 <= i < scouted.solutions.len() implies is_tour(
                (#[trigger] scouted.solutions[i])@,
                distance@.len(),
            ) && scouted.lengths[i] == tour_length(scouted.solutions[i]@, distance@)
                && scouted.unimproved[i] <= config.max_unimproved && scouted.unimproved[i]
                <= before.unimproved[i] + 1 by {
                if replaced.unimproved[i] > config.max_unimproved {
                } else {
                    assert(is_tour(replaced.solutions[i]@, distance@.len()));
                }
            }
        }
        let converged: bool = self.update_best(config.improvement_threshold);
        proof {
            let k = first_shortest(scouted.lengths@);
            assert(is_tour(scouted.solutions[k]@, distance@.len()));
            assert forall|i: int| 0 <= i < self.solutions.len() implies is_tour(
                (#[trigger] self.solutions[i])@,
                distance@.len(),
            ) by {
                assert(is_tour(scouted.solutions[i]@, distance@.len()));
            }
            assert forall|i: int| 0 <= i < self.unimproved.len() implies (
            #[trigger] self.unimproved[i]) <= config.max_unimproved && self.unimproved[i]
                <= before.unimproved[i] + 1 by {
                assert(is_tour(scouted.solutions[i]@, distance@.len()));
            }
            assert(Colony::replaced(before, trials@, trial_lengths@, replaced));
            assert(Colony::scouted(replaced, distance@, config.max_unimproved, scouted));
        }
        converged
    }

    /// The run of a colony: it iterates until an iteration reports
    /// convergence, at most `max_iterations` times. The best length only
    /// falls, and in the end no member is shorter than the best. No counter
    /// may stand so high that `max_iterations` more would overflow it.
    pub fn run(
        &mut self,
        pool: &WorkerPool,
        distance: &DistanceMatrix,
        config: &Config,
    ) -> (end: RunEnd)
        requires
            old(self).wf(distance@),
            distance.wf(),
            distance@.len() >= 2,
            config.is_valid(),
            forall|i: int|
                0 <= i < old(self).unimproved.len() ==> #[trigger] old(self).unimproved[i]
                    + config.max_iterations <= usize::MAX,
        ensures
            Colony::ran(*old(self), distance@, *config, *final(self), end),
            final(self).wf(distance@),
            final(self).solutions.len() == old(self).solutions.len(),
            final(self).best_length <= old(self).best_length,
            end == RunEnd::Converged ==> final(self).best_length < old(self).best_length,
            forall|i: int|
                0 <= i < final(self).lengths.len() ==> final(self).best_length
                    <= #[trigger] final(self).lengths[i],
    {
        let mut iteration: usize = 0;
        let mut converged: bool = false;
        while iteration < config.max_iterations && !converged
            invariant
                iteration <= config.max_iterations,
                distance.wf(),
                distance@.len() >= 2,
                config.is_valid(),
                Colony::evolved(*old(self), distance@, *config, *self, iteration as nat, converged),
                self.wf(distance@),
                self.solutions.len() == old(self).solutions.len(),
                self.best_length <= old(self).best_length,
                converged ==> self.best_length < old(self).best_length,
                iteration >= 1 ==> forall|i: int|
                    0 <= i < self.lengths.len() ==> self.best_length <= #[trigger] self.lengths[i],
                converged ==> iteration >= 1,
                forall|i: int|
                    0 <= i < self.unimproved.len() ==> #[trigger] self.unimproved[i] + (
                    config.max_iterations - iteration) <= usize::MAX,
            decreases config.max_iterations - iteration,
        {
            let ghost middle = *self;
            converged = self.iterate(pool, distance, config);
            iteration += 1;
            proof {
                lemma_evolved_step(
                    *old(self),
                    distance@,
                    *config,
                    middle,
                    *self,
                    (iteration - 1) as nat,
                    converged,
                );
            }
        }
        if converged {
            RunEnd::Converged
        } else {
            RunEnd::ExhaustedIterations
        }
    }
}

/// Tells whether the step from the best length `best` to the shorter length
/// `found` is smaller than the share `threshold` of `best`.
fn improves_little(best: u64, found: u64, threshold: i64) -> (little: bool)
    requires
        found < best,
        0 <= threshold <= THRESHOLD_MAX,
    ensures
        little == below_threshold(best as int, found as int, threshold as int),
{
    let gain: u128 = (best - found) as u128;
    let unit: u128 = THRESHOLD_UNIT as u128;
    let share: u128 = threshold as u128;
    let whole: u128 = best as u128;
    assert(gain * unit <= u128::MAX && share * whole <= u128::MAX) by (nonlinear_arith)
        requires
            gain <= 0xffff_ffff_ffff_ffff,
            unit == 1_000_000_000,
            share <= 100_000_000_000,
            whole <= 0xffff_ffff_ffff_ffff,
    ;
    gain * unit < share * whole
}

/// One more iteration after some iterations without convergence.
pub proof fn lemma_evolved_step(
    before: Colony,
    m: Seq<Seq<u64>>,
    config: Config,
    middle: Colony,
    after: Colony,
    steps: nat,
    converged: bool,
)
    requires
        Colony::evolved(before, m, config, middle, steps, false),
        Colony::iterated(middle, m, config, after, converged),
    ensures
        Colony::evolved(before, m, config, after, steps + 1, converged),
{
    assert(((steps + 1) - 1) as nat == steps);
}

/// An iteration never makes the best solution longer, and one that reports
/// convergence has made it shorter.
pub proof fn lemma_best_never_grows(
    before: Colony,
    m: Seq<Seq<u64>>,
    config: Config,
    after: Colony,
    converged: bool,
)
    requires
        Colony::iterated(before, m, config, after, converged),
    ensures
        after.best_length <= before.best_length,
        converged ==> after.best_length < before.best_length,
{
    let (trials, trial_lengths, replaced, scouted) = choose|
        trials: Seq<Vec<usize>>,
        trial_lengths: Seq<u64>,
        replaced: Colony,
        scouted: Colony,
    |
        #![trigger
            Colony::replaced(before, trials, trial_lengths, replaced),
            Colony::scouted(replaced, m, config.max_unimproved, scouted)
        ]
        {
            &&& is_exploration(before.solutions@, m, config, trials, trial_lengths)
            &&& Colony::replaced(before, trials, trial_lengths, replaced)
            &&& Colony::scouted(replaced, m, config.max_unimproved, scouted)
            &&& Colony::best_updated(scouted, config.improvement_threshold, after, converged)
        };
    assert(scouted.best_length == before.best_length);
}

/// `tour`, of length `length`, is the best solution at the end of a run over
/// `m`, as `config` says, from some population of `colony_size / 2` tours
/// with the first of them as the best solution.
pub open spec fn is_search_result(
    m: Seq<Seq<u64>>,
    config: Config,
    tour: Seq<usize>,
    length: u64,
) -> bool {
    exists|first: Colony, last: Colony, end: RunEnd|
        {
            &&& first.solutions.len() == config.colony_size / 2
            &&& is_population(first.solutions@, first.lengths@, m)
            &&& Colony::started(first.solutions, first.lengths, first)
            &&& #[trigger] Colony::ran(first, m, config, last, end)
            &&& last.best_solution@ == tour
            &&& last.best_length == length
        }
}

/// Over any number of iterations the best solution never gets longer.
pub proof fn lemma_best_length_falls(
    before: Colony,
    m: Seq<Seq<u64>>,
    config: Config,
    after: Colony,
    steps: nat,
    converged: bool,
)
    requires
        Colony::evolved(before, m, config, after, steps, converged),
    ensures
        after.best_length <= before.best_length,
    decreases steps,
{
    if steps > 0 {
        let middle = choose|middle: Colony|
            {
                &&& Colony::evolved(before, m, config, middle, (steps - 1) as nat, false)
                &&& #[trigger] Colony::iterated(middle, m, config, after, converged)
            };
        lemma_best_length_falls(before, m, config, middle, (steps - 1) as nat, false);
        lemma_best_never_grows(middle, m, config, after, converged);
    }
}

/// The search of the colony with the workers of `pool`, which has been
/// built for `concurrent_count` threads: from a random population it
/// iterates until the best tour improves by less than the configured share,
/// or until the configured number of iterations is done, and returns the
/// best tour found and its length.
pub fn search(pool: &WorkerPool, distance: &DistanceMatrix, config: &Config) -> (best: (
    Vec<usize>,
    u64,
))
    requires
        distance.wf(),
        distance@.len() >= 2,
        config.is_valid(),
        pool.serves(config.concurrent_count),
    ensures
        is_search_result(distance@, *config, best.0@, best.1),
        is_tour(best.0@, distance@.len()),
        best.1 == tour_length(best.0@, distance@),
{
    let (solutions, lengths) = initialize_phase(pool, distance, config);
    let mut colony: Colony = Colony::start(solutions, lengths);
    let ghost first = colony;
    let end = colony.run(pool, distance, config);
    assert(Colony::ran(first, distance@, *config, colony, end));
    (colony.best_solution, colony.best_length)
}

/// The artificial bee colony: it starts a pool of `concurrent_count`
/// workers and searches with them, see [`search`], for the best tour and its
/// length.
///
/// Fails where the configuration is not valid, with the setting at fault;
/// where there are fewer than two cities; and where the worker pool cannot
/// be started.
pub fn artificial_bee_colony(distance: &DistanceMatrix, config: &Config) -> (r: Result<
    (Vec<usize>, u64),
    TspError,
>)
    requires
        distance.wf(),
    ensures
        config_fault(*config) matches Some(e) ==> r is Err && r->Err_0 == TspError::Config(e),
        config.is_valid() && distance@.len() < 2 ==> r is Err && r->Err_0
            == TspError::InvariantViolation,
        config.is_valid() && distance@.len() >= 2 && r is Err ==> r->Err_0 == TspError::WorkerPool,
        r matches Ok(best) ==> {
            &&& is_search_result(distance@, *config, best.0@, best.1)
            &&& is_tour(best.0@, distance@.len())
            &&& best.1 == tour_length(best.0@, distance@)
        },
{
    match validate_config(config) {
        Err(e) => {
            return Err(TspError::Config(e));
        },
        Ok(_) => {},
    }
    if distance.dimension() < 2 {
        return Err(TspError::InvariantViolation);
    }
    match WorkerPool::new(config.concurrent_count) {
        Ok(pool) => Ok(search(&pool, distance, config)),
        Err(e) => Err(e),
    }
}

} // verus!
