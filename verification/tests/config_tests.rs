use abc_tsp::config::{
    parse_config, parse_method, read_config, read_entry, read_line, validate_config, Config,
    GenerationMethod, THRESHOLD_MAX, THRESHOLD_UNIT,
};
use abc_tsp::error::ConfigError;

fn valid() -> Config {
    Config {
        colony_size: 4,
        candidate_amount: 2,
        max_unimproved: 5,
        max_iterations: 50,
        improvement_threshold: 0,
        concurrent_count: 2,
        generation_method: GenerationMethod::Swap,
    }
}

fn same(a: &Config, b: &Config) -> bool {
    a.colony_size == b.colony_size
        && a.candidate_amount == b.candidate_amount
        && a.max_unimproved == b.max_unimproved
        && a.max_iterations == b.max_iterations
        && a.improvement_threshold == b.improvement_threshold
        && a.concurrent_count == b.concurrent_count
        && a.generation_method == b.generation_method
}

const FULL: &str = "colony_size = 40\ncandidate_amount = 7\nmax_unimproved = 10\nmax_iterations = 500\nimprovement_threshold = 0.05\nconcurrent_count = 3\ngeneration_method = Reverse\n";

#[test]
fn a_valid_configuration_is_accepted() {
    assert_eq!(validate_config(&valid()), Ok(()));
    let mut config = valid();
    config.improvement_threshold = THRESHOLD_MAX;
    config.colony_size = 2;
    config.candidate_amount = 1;
    config.max_unimproved = 1;
    config.max_iterations = 1;
    config.concurrent_count = 1;
    assert_eq!(validate_config(&config), Ok(()));
}

#[test]
fn a_colony_of_no_bee_is_rejected() {
    let mut config = valid();
    config.colony_size = 0;
    assert_eq!(validate_config(&config), Err(ConfigError::ColonySize));
}

#[test]
fn an_odd_colony_is_rejected() {
    let mut config = valid();
    config.colony_size = 5;
    assert_eq!(validate_config(&config), Err(ConfigError::ColonySize));
    config.colony_size = 1;
    assert_eq!(validate_config(&config), Err(ConfigError::ColonySize));
}

#[test]
fn a_threshold_of_one_hundred_and_fifty_is_rejected() {
    let mut config = valid();
    config.improvement_threshold = 150 * THRESHOLD_UNIT;
    assert_eq!(validate_config(&config), Err(ConfigError::ImprovementThreshold));
    config.improvement_threshold = THRESHOLD_MAX + 1;
    assert_eq!(validate_config(&config), Err(ConfigError::ImprovementThreshold));
    config.improvement_threshold = -1;
    assert_eq!(validate_config(&config), Err(ConfigError::ImprovementThreshold));
}

#[test]
fn each_setting_that_is_zero_is_rejected() {
    let mut config = valid();
    config.max_unimproved = 0;
    assert_eq!(validate_config(&config), Err(ConfigError::MaxUnimproved));
    let mut config = valid();
    config.max_iterations = 0;
    assert_eq!(validate_config(&config), Err(ConfigError::MaxIterations));
    let mut config = valid();
    config.candidate_amount = 0;
    assert_eq!(validate_config(&config), Err(ConfigError::CandidateAmount));
    let mut config = valid();
    config.concurrent_count = 0;
    assert_eq!(validate_config(&config), Err(ConfigError::ConcurrentCount));
    let mut config = valid();
    config.generation_method = GenerationMethod::Unset;
    assert_eq!(validate_config(&config), Err(ConfigError::GenerationMethod));
}

#[test]
fn the_first_fault_is_named() {
    let mut config = valid();
    config.colony_size = 3;
    config.max_unimproved = 0;
    config.generation_method = GenerationMethod::Unset;
    assert_eq!(validate_config(&config), Err(ConfigError::ColonySize));
    config.colony_size = 4;
    assert_eq!(validate_config(&config), Err(ConfigError::MaxUnimproved));
    config.max_unimproved = 1;
    config.improvement_threshold = -5;
    config.candidate_amount = 0;
    assert_eq!(validate_config(&config), Err(ConfigError::ImprovementThreshold));
}

#[test]
fn an_unknown_generation_method_is_rejected() {
    assert_eq!(parse_method(b"Swap"), Some(GenerationMethod::Swap));
    assert_eq!(parse_method(b"Insert"), Some(GenerationMethod::Insert));
    assert_eq!(parse_method(b"Reverse"), Some(GenerationMethod::Reverse));
    assert_eq!(parse_method(b"PartialShuffle"), Some(GenerationMethod::PartialShuffle));
    assert_eq!(parse_method(b"swap"), None);
    assert_eq!(parse_method(b"Shuffle"), None);
    assert_eq!(parse_method(b"Swap "), None);
    assert_eq!(parse_method(b""), None);
    assert_eq!(parse_method(b"Unset"), None);
    let text = b"generation_method = TwoOpt\n";
    assert!(matches!(parse_config(text, 4), Err(ConfigError::UnknownMethod)));
}

#[test]
fn a_full_text_is_read() {
    let config = parse_config(FULL.as_bytes(), 8).unwrap();
    let expected = Config {
        colony_size: 40,
        candidate_amount: 7,
        max_unimproved: 10,
        max_iterations: 500,
        improvement_threshold: 50_000_000,
        concurrent_count: 3,
        generation_method: GenerationMethod::Reverse,
    };
    assert!(same(&config, &expected));
    assert_eq!(validate_config(&config), Ok(()));
}

#[test]
fn the_defaults_are_half_the_colony_and_the_cores() {
    let text = b"colony_size=10\ncandidate_amount=Default\nconcurrent_count=Default";
    let config = parse_config(text, 6).unwrap();
    assert_eq!(config.candidate_amount, 5);
    assert_eq!(config.concurrent_count, 6);
    let text = b"candidate_amount=Default\ncolony_size=30";
    assert_eq!(parse_config(text, 6).unwrap().candidate_amount, 15);
}

#[test]
fn a_setting_that_no_line_names_takes_its_default_or_stays_unset() {
    let config = parse_config(b"colony_size=8", 2).unwrap();
    assert_eq!(config.colony_size, 8);
    assert_eq!(config.candidate_amount, 4);
    assert_eq!(config.concurrent_count, 2);
    assert_eq!(config.max_iterations, 0);
    assert_eq!(config.generation_method, GenerationMethod::Unset);
    let empty = parse_config(b"", 3).unwrap();
    assert_eq!(empty.colony_size, 0);
    assert_eq!(empty.candidate_amount, 0);
    assert_eq!(empty.concurrent_count, 3);
}

#[test]
fn zero_asks_for_the_default() {
    let config = parse_config(b"colony_size=8\ncandidate_amount=0\nconcurrent_count=0", 5).unwrap();
    assert_eq!(config.candidate_amount, 4);
    assert_eq!(config.concurrent_count, 5);
}

#[test]
fn a_later_line_overrides_an_earlier() {
    let config = parse_config(b"colony_size=8\ncolony_size=12\n", 1).unwrap();
    assert_eq!(config.colony_size, 12);
}

#[test]
fn white_space_around_keys_and_values_is_dropped() {
    let config = parse_config(b"  colony_size\t=  6 \r\n\tgeneration_method =Insert\r\n", 1).unwrap();
    assert_eq!(config.colony_size, 6);
    assert_eq!(config.generation_method, GenerationMethod::Insert);
}

#[test]
fn a_line_without_exactly_one_equals_sign_is_rejected() {
    assert!(matches!(parse_config(b"colony_size 6", 1), Err(ConfigError::MalformedLine)));
    assert!(matches!(parse_config(b"colony_size=6=7", 1), Err(ConfigError::MalformedLine)));
    assert!(matches!(parse_config(b"colony_size=6\n\nmax_iterations=2", 1), Err(ConfigError::MalformedLine)));
    assert!(matches!(parse_config(b"\n", 1), Err(ConfigError::MalformedLine)));
    assert!(matches!(read_line(valid(), b""), Err(ConfigError::MalformedLine)));
    assert!(matches!(read_line(valid(), b"=="), Err(ConfigError::MalformedLine)));
}

#[test]
fn an_unknown_key_is_rejected() {
    assert!(matches!(parse_config(b"colony=6", 1), Err(ConfigError::UnknownKey)));
    assert!(matches!(parse_config(b"Colony_size=6", 1), Err(ConfigError::UnknownKey)));
    assert!(matches!(parse_config(b"=6", 1), Err(ConfigError::UnknownKey)));
    assert!(matches!(read_entry(valid(), b"colony size", b"6"), Err(ConfigError::UnknownKey)));
}

#[test]
fn a_value_that_is_no_number_is_rejected() {
    assert!(matches!(parse_config(b"colony_size=six", 1), Err(ConfigError::InvalidNumber)));
    assert!(matches!(parse_config(b"colony_size=", 1), Err(ConfigError::InvalidNumber)));
    assert!(matches!(parse_config(b"colony_size=-4", 1), Err(ConfigError::InvalidNumber)));
    assert!(matches!(parse_config(b"colony_size=4.0", 1), Err(ConfigError::InvalidNumber)));
    assert!(matches!(parse_config(b"colony_size=Default", 1), Err(ConfigError::InvalidNumber)));
    assert!(matches!(parse_config(b"max_iterations=1 0", 1), Err(ConfigError::InvalidNumber)));
    assert!(matches!(
        parse_config(b"max_unimproved=99999999999999999999999999", 1),
        Err(ConfigError::InvalidNumber)
    ));
    assert!(matches!(parse_config(b"improvement_threshold=1e", 1), Err(ConfigError::InvalidNumber)));
    assert!(matches!(parse_config(b"improvement_threshold=nan", 1), Err(ConfigError::InvalidNumber)));
    assert!(matches!(parse_config(b"improvement_threshold=Default", 1), Err(ConfigError::InvalidNumber)));
}

#[test]
fn the_first_bad_line_decides() {
    let text = b"colony_size=4\nbogus=1\ncolony_size=x\n";
    assert!(matches!(parse_config(text, 1), Err(ConfigError::UnknownKey)));
    let text = b"colony_size=x\nbogus=1\n";
    assert!(matches!(parse_config(text, 1), Err(ConfigError::InvalidNumber)));
}

#[test]
fn a_threshold_is_read_in_billionths() {
    let read = |text: &[u8]| parse_config(text, 1).unwrap().improvement_threshold;
    assert_eq!(read(b"improvement_threshold=0"), 0);
    assert_eq!(read(b"improvement_threshold=1"), 1_000_000_000);
    assert_eq!(read(b"improvement_threshold=100"), THRESHOLD_MAX);
    assert_eq!(read(b"improvement_threshold=150"), 150_000_000_000);
    assert_eq!(read(b"improvement_threshold=0.000000001"), 1);
    assert_eq!(read(b"improvement_threshold=12.5"), 12_500_000_000);
    assert_eq!(read(b"improvement_threshold=-0.25"), -250_000_000);
    assert_eq!(read(b"improvement_threshold=+.5"), 500_000_000);
    assert_eq!(read(b"improvement_threshold=5."), 5_000_000_000);
    assert_eq!(read(b"improvement_threshold=1e-3"), 1_000_000);
    assert_eq!(read(b"improvement_threshold=2.5E1"), 25_000_000_000);
    assert_eq!(read(b"improvement_threshold=0.00100000000000000002"), 1_000_000);
}

#[test]
fn a_threshold_read_from_text_is_checked_like_any_other() {
    let text = "colony_size=4\nmax_unimproved=1\nmax_iterations=1\ngeneration_method=Swap\nimprovement_threshold=150\n";
    let config = parse_config(text.as_bytes(), 2).unwrap();
    assert_eq!(validate_config(&config), Err(ConfigError::ImprovementThreshold));
}

#[test]
fn the_cores_of_this_machine_are_the_default() {
    let config = read_config(b"colony_size=4\nconcurrent_count=Default\n").unwrap();
    assert!(config.concurrent_count >= 1);
    assert_eq!(config.candidate_amount, 2);
    let config = read_config(FULL.as_bytes()).unwrap();
    assert_eq!(config.concurrent_count, 3);
    assert!(matches!(read_config(b"what"), Err(ConfigError::MalformedLine)));
}
