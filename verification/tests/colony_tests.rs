use abc_tsp::colony::{
    artificial_bee_colony, employed_bee, exploration_phase, generate_neighbor, initialize_phase,
    search, Colony, RunEnd,
};
use abc_tsp::config::{Config, GenerationMethod};
use abc_tsp::distance::{calc_cities_distance, DistanceMatrix};
use abc_tsp::error::{ConfigError, TspError};
use abc_tsp::parallel::WorkerPool;
use abc_tsp::tour::calc_path_length;

fn square() -> DistanceMatrix {
    calc_cities_distance(&vec![vec![0, 0], vec![0, 1_000], vec![1_000, 1_000], vec![1_000, 0]])
        .unwrap()
}

fn ring(n: i64) -> DistanceMatrix {
    let mut cities = Vec::new();
    for k in 0..n {
        let side = k / (n / 4);
        let step = (k % (n / 4)) * 100;
        let edge = (n / 4) * 100;
        cities.push(match side {
            0 => vec![step, 0],
            1 => vec![edge, step],
            2 => vec![edge - step, edge],
            _ => vec![0, edge - step],
        });
    }
    calc_cities_distance(&cities).unwrap()
}

fn config(method: GenerationMethod) -> Config {
    Config {
        colony_size: 4,
        candidate_amount: 2,
        max_unimproved: 5,
        max_iterations: 50,
        improvement_threshold: 0,
        concurrent_count: 2,
        generation_method: method,
    }
}

fn sorted(tour: &Vec<usize>) -> Vec<usize> {
    let mut copy = tour.clone();
    copy.sort();
    copy
}

fn methods() -> [GenerationMethod; 4] {
    [
        GenerationMethod::Swap,
        GenerationMethod::Insert,
        GenerationMethod::Reverse,
        GenerationMethod::PartialShuffle,
    ]
}

fn perimeters_found(method: GenerationMethod, trials: usize) -> usize {
    let distance = square();
    let mut found = 0;
    for _ in 0..trials {
        let (tour, length) = artificial_bee_colony(&distance, &config(method)).unwrap();
        assert_eq!(sorted(&tour), vec![0, 1, 2, 3]);
        assert_eq!(calc_path_length(&tour, &distance), Ok(length));
        assert!(length >= 4_000);
        if length == 4_000 {
            found += 1;
        }
    }
    found
}

#[test]
fn unit_square_converges_to_perimeter() {
    let trials = 20;
    let found = perimeters_found(GenerationMethod::Swap, trials);
    assert!(found * 10 >= trials * 9);
}

#[test]
fn each_method_finds_the_perimeter_of_the_square() {
    let trials = 10;
    for method in methods() {
        let found = perimeters_found(method, trials);
        assert!(found * 10 >= trials * 9);
    }
}

#[test]
fn the_colony_returns_a_tour_and_its_length() {
    let distance = ring(12);
    for method in methods() {
        let mut settings = config(method);
        settings.colony_size = 10;
        settings.candidate_amount = 5;
        settings.max_iterations = 30;
        let (tour, length) = artificial_bee_colony(&distance, &settings).unwrap();
        assert_eq!(sorted(&tour), (0..12).collect::<Vec<usize>>());
        assert_eq!(calc_path_length(&tour, &distance), Ok(length));
        assert!(length >= 1_200);
    }
}

#[test]
fn the_search_runs_on_a_pool_that_is_there() {
    let distance = ring(12);
    let pool = WorkerPool::new(3).unwrap();
    let mut settings = config(GenerationMethod::Reverse);
    settings.colony_size = 12;
    settings.candidate_amount = 6;
    settings.concurrent_count = 3;
    for _ in 0..3 {
        let (tour, length) = search(&pool, &distance, &settings);
        assert_eq!(sorted(&tour), (0..12).collect::<Vec<usize>>());
        assert_eq!(calc_path_length(&tour, &distance), Ok(length));
    }
}

#[test]
fn the_colony_works_with_a_single_candidate() {
    let distance = square();
    let mut settings = config(GenerationMethod::Reverse);
    settings.candidate_amount = 1;
    let (tour, length) = artificial_bee_colony(&distance, &settings).unwrap();
    assert_eq!(sorted(&tour), vec![0, 1, 2, 3]);
    assert_eq!(calc_path_length(&tour, &distance), Ok(length));
}

#[test]
fn the_colony_works_with_two_cities() {
    let distance = calc_cities_distance(&vec![vec![0], vec![9]]).unwrap();
    for method in methods() {
        let (tour, length) = artificial_bee_colony(&distance, &config(method)).unwrap();
        assert_eq!(sorted(&tour), vec![0, 1]);
        assert_eq!(length, 18);
    }
}

#[test]
fn the_colony_stops_early_below_the_threshold() {
    let distance = ring(16);
    let mut settings = config(GenerationMethod::Reverse);
    settings.improvement_threshold = 100_000_000_000;
    settings.max_iterations = 1_000_000_000;
    let (tour, length) = artificial_bee_colony(&distance, &settings).unwrap();
    assert_eq!(calc_path_length(&tour, &distance), Ok(length));
}

#[test]
fn the_colony_rejects_a_configuration_that_is_not_valid() {
    let distance = square();
    let mut settings = config(GenerationMethod::Swap);
    settings.colony_size = 3;
    assert_eq!(
        artificial_bee_colony(&distance, &settings),
        Err(TspError::Config(ConfigError::ColonySize))
    );
    assert_eq!(
        artificial_bee_colony(&distance, &config(GenerationMethod::Unset)),
        Err(TspError::Config(ConfigError::GenerationMethod))
    );
}

#[test]
fn the_colony_rejects_fewer_than_two_cities() {
    let one = calc_cities_distance(&vec![vec![1, 1]]).unwrap();
    assert_eq!(
        artificial_bee_colony(&one, &config(GenerationMethod::Swap)),
        Err(TspError::InvariantViolation)
    );
    let none: Vec<Vec<i64>> = Vec::new();
    let empty = calc_cities_distance(&none).unwrap();
    assert_eq!(
        artificial_bee_colony(&empty, &config(GenerationMethod::Swap)),
        Err(TspError::InvariantViolation)
    );
}

#[test]
fn a_configuration_fault_comes_before_the_number_of_cities() {
    let one = calc_cities_distance(&vec![vec![1, 1]]).unwrap();
    let mut settings = config(GenerationMethod::Swap);
    settings.max_iterations = 0;
    assert_eq!(
        artificial_bee_colony(&one, &settings),
        Err(TspError::Config(ConfigError::MaxIterations))
    );
}

#[test]
fn the_first_population_has_half_the_colony() {
    let distance = ring(8);
    let pool = WorkerPool::new(2).unwrap();
    let mut settings = config(GenerationMethod::Swap);
    settings.colony_size = 14;
    let (solutions, lengths) = initialize_phase(&pool, &distance, &settings);
    assert_eq!(solutions.len(), 7);
    assert_eq!(lengths.len(), 7);
    for index in 0..7 {
        assert_eq!(sorted(&solutions[index]), (0..8).collect::<Vec<usize>>());
        assert_eq!(calc_path_length(&solutions[index], &distance), Ok(lengths[index]));
    }
}

#[test]
fn the_first_population_of_a_colony_of_one_is_empty() {
    let distance = square();
    let pool = WorkerPool::new(1).unwrap();
    let mut settings = config(GenerationMethod::Swap);
    settings.colony_size = 1;
    let (solutions, lengths) = initialize_phase(&pool, &distance, &settings);
    assert!(solutions.is_empty());
    assert!(lengths.is_empty());
}

#[test]
fn a_neighbour_is_made_by_the_chosen_move() {
    let tour = vec![0, 1, 2, 3, 4, 5];
    for _ in 0..100 {
        let swapped = generate_neighbor(&tour, GenerationMethod::Swap);
        assert_eq!((0..6).filter(|&k| swapped[k] != tour[k]).count(), 2);
        let reversed = generate_neighbor(&tour, GenerationMethod::Reverse);
        let changed: Vec<usize> = (0..6).filter(|&k| reversed[k] != tour[k]).collect();
        for &k in &changed {
            assert_eq!(reversed[k], tour[changed[0] + changed[changed.len() - 1] - k]);
        }
        let moved = generate_neighbor(&tour, GenerationMethod::Insert);
        assert_eq!(sorted(&moved), tour);
        let shuffled = generate_neighbor(&tour, GenerationMethod::PartialShuffle);
        assert_eq!(sorted(&shuffled), tour);
    }
}

#[test]
fn an_employed_bee_returns_a_neighbour_of_its_tour() {
    let distance = ring(8);
    let tour: Vec<usize> = vec![3, 1, 4, 0, 5, 7, 2, 6];
    for _ in 0..100 {
        let trial = employed_bee(&tour, &distance, &config(GenerationMethod::Swap));
        assert_eq!(sorted(&trial), (0..8).collect::<Vec<usize>>());
        assert_eq!((0..8).filter(|&k| trial[k] != tour[k]).count(), 2);
    }
}

#[test]
fn the_exploration_keeps_the_order_of_the_population() {
    let distance = ring(8);
    let pool = WorkerPool::new(3).unwrap();
    let mut solutions: Vec<Vec<usize>> = Vec::new();
    for shift in 0..8usize {
        solutions.push((0..8usize).map(|k| (k + shift) % 8).collect());
    }
    let settings = config(GenerationMethod::Swap);
    for _ in 0..20 {
        let (trials, lengths) = exploration_phase(&pool, &solutions, &distance, &settings);
        assert_eq!(trials.len(), 8);
        assert_eq!(lengths.len(), 8);
        for index in 0..8 {
            let changed = (0..8).filter(|&k| trials[index][k] != solutions[index][k]).count();
            assert_eq!(changed, 2);
            assert_eq!(calc_path_length(&trials[index], &distance), Ok(lengths[index]));
        }
    }
}

#[test]
fn a_new_colony_starts_with_its_first_member_as_the_best() {
    let colony = Colony::new(vec![vec![0, 1, 2], vec![0, 2, 1]], vec![30, 20]).unwrap();
    assert_eq!(colony.best_solution, vec![0, 1, 2]);
    assert_eq!(colony.best_length, 30);
    assert_eq!(colony.unimproved, vec![0, 0]);
    assert_eq!(colony.solutions, vec![vec![0, 1, 2], vec![0, 2, 1]]);
    assert_eq!(colony.lengths, vec![30, 20]);
}

#[test]
fn a_colony_needs_a_member_and_a_length_for_each() {
    assert!(matches!(Colony::new(vec![], vec![]), Err(TspError::InvariantViolation)));
    assert!(matches!(
        Colony::new(vec![vec![0, 1]], vec![1, 2]),
        Err(TspError::InvariantViolation)
    ));
    assert!(matches!(Colony::new(vec![vec![0, 1]], vec![]), Err(TspError::InvariantViolation)));
}

#[test]
fn greedy_replacement_takes_only_shorter_trials() {
    let mut colony =
        Colony::new(vec![vec![0, 1, 2], vec![0, 2, 1], vec![1, 0, 2]], vec![30, 20, 10]).unwrap();
    colony.unimproved = vec![3, 4, 5];
    let trials = vec![vec![2, 1, 0], vec![2, 0, 1], vec![1, 2, 0]];
    colony.greedy_replacement(&trials, &vec![29, 20, 11]);
    assert_eq!(colony.solutions, vec![vec![2, 1, 0], vec![0, 2, 1], vec![1, 0, 2]]);
    assert_eq!(colony.lengths, vec![29, 20, 10]);
    assert_eq!(colony.unimproved, vec![0, 5, 6]);
    assert_eq!(colony.best_solution, vec![0, 1, 2]);
    assert_eq!(colony.best_length, 30);
}

#[test]
fn scouts_replace_exactly_the_members_over_the_limit() {
    let distance = ring(8);
    let tours: Vec<Vec<usize>> = vec![(0..8).collect(), (0..8).rev().collect(), (0..8).collect()];
    let lengths: Vec<u64> =
        tours.iter().map(|t| calc_path_length(t, &distance).unwrap()).collect();
    let mut replaced = 0;
    for _ in 0..50 {
        let mut colony = Colony::new(tours.clone(), lengths.clone()).unwrap();
        colony.unimproved = vec![5, 6, 0];
        colony.scout_phase(&distance, 5);
        assert_eq!(colony.unimproved, vec![5, 0, 0]);
        assert_eq!(colony.solutions[0], tours[0]);
        assert_eq!(colony.solutions[2], tours[2]);
        assert_eq!(colony.lengths[0], lengths[0]);
        assert_eq!(colony.lengths[2], lengths[2]);
        assert_eq!(sorted(&colony.solutions[1]), (0..8).collect::<Vec<usize>>());
        assert_eq!(calc_path_length(&colony.solutions[1], &distance), Ok(colony.lengths[1]));
        assert_eq!(colony.best_solution, tours[0]);
        if colony.solutions[1] != tours[1] {
            replaced += 1;
        }
    }
    assert!(replaced > 0);
}

#[test]
fn scouts_leave_a_member_at_the_limit() {
    let distance = square();
    let mut colony = Colony::new(vec![vec![0, 1, 2, 3]], vec![4_000]).unwrap();
    colony.unimproved = vec![7];
    colony.scout_phase(&distance, 7);
    assert_eq!(colony.unimproved, vec![7]);
    assert_eq!(colony.solutions, vec![vec![0, 1, 2, 3]]);
}

#[test]
fn the_best_update_takes_the_first_of_the_shortest() {
    let mut colony = Colony::new(
        vec![vec![0, 1, 2], vec![0, 2, 1], vec![1, 0, 2], vec![2, 1, 0]],
        vec![1_000, 900, 800, 800],
    )
    .unwrap();
    let converged = colony.update_best(0);
    assert!(!converged);
    assert_eq!(colony.best_solution, vec![1, 0, 2]);
    assert_eq!(colony.best_length, 800);
    assert_eq!(colony.lengths, vec![1_000, 900, 800, 800]);
}

#[test]
fn the_best_update_compares_the_step_with_the_threshold() {
    let members = vec![vec![0, 1, 2], vec![0, 2, 1]];
    let lengths = vec![1_000, 800];
    let mut colony = Colony::new(members.clone(), lengths.clone()).unwrap();
    assert!(colony.update_best(250_000_000));
    let mut colony = Colony::new(members.clone(), lengths.clone()).unwrap();
    assert!(colony.update_best(200_000_001));
    let mut colony = Colony::new(members.clone(), lengths.clone()).unwrap();
    assert!(!colony.update_best(200_000_000));
    let mut colony = Colony::new(members.clone(), lengths.clone()).unwrap();
    assert!(!colony.update_best(199_999_999));
    let mut colony = Colony::new(members, lengths).unwrap();
    assert!(colony.update_best(100_000_000_000));
    assert_eq!(colony.best_length, 800);
}

#[test]
fn the_best_update_keeps_a_best_that_is_not_beaten() {
    let mut colony = Colony::new(vec![vec![0, 1, 2], vec![0, 2, 1]], vec![500, 700]).unwrap();
    colony.lengths = vec![500, 700];
    colony.best_length = 500;
    assert!(!colony.update_best(100_000_000_000));
    assert_eq!(colony.best_solution, vec![0, 1, 2]);
    assert_eq!(colony.best_length, 500);
    colony.best_length = 400;
    assert!(!colony.update_best(100_000_000_000));
    assert_eq!(colony.best_length, 400);
}

#[test]
fn the_best_update_does_not_overflow_on_large_lengths() {
    let mut colony =
        Colony::new(vec![vec![0, 1], vec![1, 0]], vec![u64::MAX, u64::MAX - 1]).unwrap();
    assert!(colony.update_best(1));
    assert_eq!(colony.best_length, u64::MAX - 1);
    let mut colony = Colony::new(vec![vec![0, 1], vec![1, 0]], vec![u64::MAX, 0]).unwrap();
    assert!(!colony.update_best(1_000_000_000));
    let mut colony = Colony::new(vec![vec![0, 1], vec![1, 0]], vec![u64::MAX, 0]).unwrap();
    assert!(colony.update_best(1_000_000_001));
}

#[test]
fn the_best_length_never_grows() {
    let distance = ring(16);
    let pool = WorkerPool::new(2).unwrap();
    for method in methods() {
        let mut settings = config(method);
        settings.colony_size = 8;
        settings.candidate_amount = 4;
        settings.max_unimproved = 2;
        let (solutions, lengths) = initialize_phase(&pool, &distance, &settings);
        let mut colony = Colony::new(solutions, lengths).unwrap();
        let mut last = colony.best_length;
        for _ in 0..60 {
            colony.iterate(&pool, &distance, &settings);
            assert!(colony.best_length <= last);
            last = colony.best_length;
            assert_eq!(calc_path_length(&colony.best_solution, &distance), Ok(last));
            for index in 0..colony.solutions.len() {
                assert!(last <= colony.lengths[index]);
                assert!(colony.unimproved[index] <= 2);
                assert_eq!(
                    calc_path_length(&colony.solutions[index], &distance),
                    Ok(colony.lengths[index])
                );
            }
        }
    }
}

#[test]
fn a_run_ends_converged_or_with_its_iterations_done() {
    let distance = ring(16);
    let pool = WorkerPool::new(2).unwrap();
    let mut settings = config(GenerationMethod::Reverse);
    settings.colony_size = 8;
    let (solutions, lengths) = initialize_phase(&pool, &distance, &settings);
    let first = lengths[0];
    let mut colony = Colony::new(solutions, lengths).unwrap();
    assert_eq!(colony.run(&pool, &distance, &settings), RunEnd::ExhaustedIterations);
    assert!(colony.best_length <= first);
    for index in 0..colony.lengths.len() {
        assert!(colony.best_length <= colony.lengths[index]);
    }

    settings.improvement_threshold = 100_000_000_000;
    settings.max_iterations = 1_000_000_000;
    let (solutions, lengths) = initialize_phase(&pool, &distance, &settings);
    let first = lengths[0];
    let mut colony = Colony::new(solutions, lengths).unwrap();
    assert_eq!(colony.run(&pool, &distance, &settings), RunEnd::Converged);
    assert!(colony.best_length < first);
}

#[test]
fn a_pool_that_was_built_goes_to_work() {
    let built = rayon::ThreadPoolBuilder::new().num_threads(2).build();
    assert!(built.is_ok());
    let pool = WorkerPool::from_build(built).ok().unwrap();
    let distance = square();
    let (tour, length) = search(&pool, &distance, &config(GenerationMethod::Swap));
    assert_eq!(calc_path_length(&tour, &distance), Ok(length));
}

#[test]
fn a_pool_that_could_not_be_built_is_an_error() {
    let first = rayon::ThreadPoolBuilder::new().num_threads(1).build_global();
    let second = rayon::ThreadPoolBuilder::new().num_threads(1).build_global();
    let failure = match (first, second) {
        (_, Err(failure)) => failure,
        (Err(failure), Ok(_)) => failure,
        (Ok(_), Ok(_)) => unreachable!(),
    };
    assert!(matches!(WorkerPool::from_build(Err(failure)), Err(TspError::WorkerPool)));
}

#[test]
fn a_worker_pool_can_be_started() {
    assert!(WorkerPool::new(1).is_ok());
    assert!(WorkerPool::new(4).is_ok());
}

#[test]
fn a_worker_pool_has_the_workers_that_were_asked_for() {
    assert_eq!(WorkerPool::new(1).unwrap().worker_count(), 1);
    assert_eq!(WorkerPool::new(3).unwrap().worker_count(), 3);
    assert_eq!(WorkerPool::new(7).unwrap().worker_count(), 7);
    let built = rayon::ThreadPoolBuilder::new().num_threads(5).build();
    assert_eq!(WorkerPool::from_build(built).ok().unwrap().worker_count(), 5);
}
