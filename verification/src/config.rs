use vstd::prelude::*;
use crate::error::ConfigError;
use crate::text::{
    billionths_of, bytes_of, count_of, find_byte, first_index_of, is_word, parse_billionths,
    parse_count, trim, trimmed,
};
use vstd::slice::slice_subrange;

verus! {

/// One in the units of `improvement_threshold`, which counts billionths.
pub const THRESHOLD_UNIT: i64 = 1_000_000_000;

/// The largest valid `improvement_threshold`: one hundred.
pub const THRESHOLD_MAX: i64 = 100_000_000_000;

/// The move that makes a neighbour of a tour.
#[derive(Clone, Copy, Debug, PartialEq, Eq, Structural)]
pub enum GenerationMethod {
    /// No move has been chosen.
    Unset,
    /// Two cities change places.
    Swap,
    /// One city moves to the place after another.
    Insert,
    /// A stretch of the tour is put in reverse order.
    Reverse,
    /// A stretch of the tour is put in a random order.
    PartialShuffle,
}

/// The settings of a run.
#[derive(Clone, Copy, Debug)]
pub struct Config {
    /// The number of bees; half of them hold a tour each.
    pub colony_size: usize,
    /// The number of neighbours that are made of each tour in an iteration.
    pub candidate_amount: usize,
    /// The number of iterations without improvement after which a tour is
    /// given up.
    pub max_unimproved: usize,
    /// The largest number of iterations.
    pub max_iterations: usize,
    /// The run ends as soon as the best tour improves by less than this
    /// share of its length, counted in billionths.
    pub improvement_threshold: i64,
    /// The number of worker threads.
    pub concurrent_count: usize,
    /// The move that makes the neighbours.
    pub generation_method: GenerationMethod,
}

/// The first setting of `config` that is not valid, in the order in which
/// the settings are checked.
pub open spec fn config_fault(config: Config) -> Option<ConfigError> {
    if config.colony_size < 1 || config.colony_size % 2 != 0 {
        Some(ConfigError::ColonySize)
    } else if config.max_unimproved < 1 {
        Some(ConfigError::MaxUnimproved)
    } else if config.max_iterations < 1 {
        Some(ConfigError::MaxIterations)
    } else if config.improvement_threshold < 0 || config.improvement_threshold > THRESHOLD_MAX {
        Some(ConfigError::ImprovementThreshold)
    } else if config.candidate_amount < 1 {
        Some(ConfigError::CandidateAmount)
    } else if config.concurrent_count < 1 {
        Some(ConfigError::ConcurrentCount)
    } else if config.generation_method == GenerationMethod::Unset {
        Some(ConfigError::GenerationMethod)
    } else {
        None
    }
}

impl Config {
    /// Every setting is valid.
    pub open spec fn is_valid(&self) -> bool {
        config_fault(*self) is None
    }
}

/// Checks the settings one by one and names the first that is not valid.
pub fn validate_config(config: &Config) -> (r: Result<(), ConfigError>)
    ensures
        config_fault(*config) matches Some(e) ==> r == Err::<(), ConfigError>(e),
        config_fault(*config) is None ==> r is Ok,
{
    if config.colony_size < 1 || config.colony_size % 2 != 0 {
        Err(ConfigError::ColonySize)
    } else if config.max_unimproved < 1 {
        Err(ConfigError::MaxUnimproved)
    } else if config.max_iterations < 1 {
        Err(ConfigError::MaxIterations)
    } else if config.improvement_threshold < 0 || config.improvement_threshold > THRESHOLD_MAX {
        Err(ConfigError::ImprovementThreshold)
    } else if config.candidate_amount < 1 {
        Err(ConfigError::CandidateAmount)
    } else if config.concurrent_count < 1 {
        Err(ConfigError::ConcurrentCount)
    } else if config.generation_method == GenerationMethod::Unset {
        Err(ConfigError::GenerationMethod)
    } else {
        Ok(())
    }
}

/// A configuration is valid exactly when the colony has an even number of
/// bees, and at least two; the counts are at least one; the threshold lies
/// between zero and one hundred; and a generation method is chosen.
pub proof fn lemma_valid_config(config: Config)
    ensures
        config.is_valid() <==> {
            &&& config.colony_size >= 2
            &&& config.colony_size % 2 == 0
            &&& config.max_unimproved >= 1
            &&& config.max_iterations >= 1
            &&& 0 <= config.improvement_threshold <= THRESHOLD_MAX
            &&& config.candidate_amount >= 1
            &&& config.concurrent_count >= 1
            &&& config.generation_method != GenerationMethod::Unset
        },
{
}

/// The configuration before any line of text is read: every number is
/// zero and no generation method is chosen.
pub open spec fn blank_config() -> Config {
    Config {
        colony_size: 0,
        candidate_amount: 0,
        max_unimproved: 0,
        max_iterations: 0,
        improvement_threshold: 0,
        concurrent_count: 0,
        generation_method: GenerationMethod::Unset,
    }
}

/// The generation method that `value` names.
pub open spec fn method_of(value: Seq<u8>) -> Option<GenerationMethod> {
    if value == bytes_of("Swap"@) {
        Some(GenerationMethod::Swap)
    } else if value == bytes_of("Insert"@) {
        Some(GenerationMethod::Insert)
    } else if value == bytes_of("Reverse"@) {
        Some(GenerationMethod::Reverse)
    } else if value == bytes_of("PartialShuffle"@) {
        Some(GenerationMethod::PartialShuffle)
    } else {
        None
    }
}

/// The number that `value` writes, where `Default` may stand for zero.
pub open spec fn count_or_default(value: Seq<u8>) -> Option<usize> {
    if value == bytes_of("Default"@) {
        Some(0usize)
    } else {
        count_of(value)
    }
}

/// `config` after the setting `key` has been given the value `value`.
pub open spec fn apply_entry(config: Config, key: Seq<u8>, value: Seq<u8>) -> Result<
    Config,
    ConfigError,
> {
    if key == bytes_of("colony_size"@) {
        match count_of(value) {
            Some(n) => Ok(Config { colony_size: n, ..config }),
            None => Err(ConfigError::InvalidNumber),
        }
    } else if key == bytes_of("candidate_amount"@) {
        match count_or_default(value) {
            Some(n) => Ok(Config { candidate_amount: n, ..config }),
            None => Err(ConfigError::InvalidNumber),
        }
    } else if key == bytes_of("max_unimproved"@) {
        match count_of(value) {
            Some(n) => Ok(Config { max_unimproved: n, ..config }),
            None => Err(ConfigError::InvalidNumber),
        }
    } else if key == bytes_of("max_iterations"@) {
        match count_of(value) {
            Some(n) => Ok(Config { max_iterations: n, ..config }),
            None => Err(ConfigError::InvalidNumber),
        }
    } else if key == bytes_of("improvement_threshold"@) {
        match billionths_of(value) {
            Some(t) => Ok(Config { improvement_threshold: t, ..config }),
            None => Err(ConfigError::InvalidNumber),
        }
    } else if key == bytes_of("concurrent_count"@) {
        match count_or_default(value) {
            Some(n) => Ok(Config { concurrent_count: n, ..config }),
            None => Err(ConfigError::InvalidNumber),
        }
    } else if key == bytes_of("generation_method"@) {
        match method_of(value) {
            Some(m) => Ok(Config { generation_method: m, ..config }),
            None => Err(ConfigError::UnknownMethod),
        }
    } else {
        Err(ConfigError::UnknownKey)
    }
}

/// `config` after one line of text: the line holds exactly one `=`, the
/// name of a setting before it and the value of the setting after it, each
/// with or without white space around it.
pub open spec fn apply_line(config: Config, line: Seq<u8>) -> Result<Config, ConfigError> {
    let mark = first_index_of(line, 0x3d);
    if 0 <= mark < line.len() {
        let rest = line.skip(mark + 1);
        if first_index_of(rest, 0x3d) < rest.len() {
            Err(ConfigError::MalformedLine)
        } else {
            apply_entry(config, trimmed(line.take(mark)), trimmed(rest))
        }
    } else {
        Err(ConfigError::MalformedLine)
    }
}

/// `config` after each line of `text`, from the first to the last. A line
/// ends at a line feed or at the end of the text.
pub open spec fn apply_text(config: Config, text: Seq<u8>) -> Result<Config, ConfigError>
    decreases text.len(),
{
    if text.len() == 0 {
        Ok(config)
    } else {
        let end = first_index_of(text, 0x0a);
        let line = if 0 <= end < text.len() {
            text.take(end)
        } else {
            text
        };
        let rest = if 0 <= end < text.len() {
            text.skip(end + 1)
        } else {
            Seq::<u8>::empty()
        };
        match apply_line(config, line) {
            Ok(next) => apply_text(next, rest),
            Err(e) => Err(e),
        }
    }
}

/// `config` with a value for each setting that was left at zero to ask for
/// its default: half the colony for `candidate_amount`, and `cores` for
/// `concurrent_count`.
pub open spec fn with_defaults(config: Config, cores: usize) -> Config {
    Config {
        candidate_amount: if config.candidate_amount == 0 {
            config.colony_size / 2
        } else {
            config.candidate_amount
        },
        concurrent_count: if config.concurrent_count == 0 {
            cores
        } else {
            config.concurrent_count
        },
        ..config
    }
}

/// The configuration that `text` writes, on a machine with `cores` cores.
pub open spec fn config_of(text: Seq<u8>, cores: usize) -> Result<Config, ConfigError> {
    match apply_text(blank_config(), text) {
        Ok(config) => Ok(with_defaults(config, cores)),
        Err(e) => Err(e),
    }
}

/// The generation method that `value` names.
pub fn parse_method(value: &[u8]) -> (r: Option<GenerationMethod>)
    ensures
        r == method_of(value@),
{
    proof {
        reveal_strlit("Swap");
        reveal_strlit("Insert");
        reveal_strlit("Reverse");
        reveal_strlit("PartialShuffle");
    }
    if is_word(value, "Swap") {
        Some(GenerationMethod::Swap)
    } else if is_word(value, "Insert") {
        Some(GenerationMethod::Insert)
    } else if is_word(value, "Reverse") {
        Some(GenerationMethod::Reverse)
    } else if is_word(value, "PartialShuffle") {
        Some(GenerationMethod::PartialShuffle)
    } else {
        None
    }
}


/// The number that `value` writes, where `Default` may stand for zero.
fn parse_count_or_default(value: &[u8]) -> (r: Option<usize>)
    ensures
        r == count_or_default(value@),
{
    proof {
        reveal_strlit("Default");
    }
    if is_word(value, "Default") {
        Some(0)
    } else {
        parse_count(value)
    }
}

/// `config` after the setting `key` has been given the value `value`.
pub fn read_entry(config: Config, key: &[u8], value: &[u8]) -> (r: Result<Config, ConfigError>)
    ensures
        r == apply_entry(config, key@, value@),
{
    proof {
        reveal_strlit("colony_size");
        reveal_strlit("candidate_amount");
        reveal_strlit("max_unimproved");
        reveal_strlit("max_iterations");
        reveal_strlit("improvement_threshold");
        reveal_strlit("concurrent_count");
        reveal_strlit("generation_method");
    }
    let mut next: Config = config;
    if is_word(key, "colony_size") {
        match parse_count(value) {
            Some(n) => {
                next.colony_size = n;
            },
            None => {
                return Err(ConfigError::InvalidNumber);
            },
        }
    } else if is_word(key, "candidate_amount") {
        match parse_count_or_default(value) {
            Some(n) => {
                next.candidate_amount = n;
            },
            None => {
                return Err(ConfigError::InvalidNumber);
            },
        }
    } else if is_word(key, "max_unimproved") {
        match parse_count(value) {
            Some(n) => {
                next.max_unimproved = n;
            },
            None => {
                return Err(ConfigError::InvalidNumber);
            },
        }
    } else if is_word(key, "max_iterations") {
        match parse_count(value) {
            Some(n) => {
                next.max_iterations = n;
            },
            None => {
                return Err(ConfigError::InvalidNumber);
            },
        }
    } else if is_word(key, "improvement_threshold") {
        match parse_billionths(value) {
            Some(t) => {
                next.improvement_threshold = t;
            },
            None => {
                return Err(ConfigError::InvalidNumber);
            },
        }
    } else if is_word(key, "concurrent_count") {
        match parse_count_or_default(value) {
            Some(n) => {
                next.concurrent_count = n;
            },
            None => {
                return Err(ConfigError::InvalidNumber);
            },
        }
    } else if is_word(key, "generation_method") {
        match parse_method(value) {
            Some(m) => {
                next.generation_method = m;
            },
            None => {
                return Err(ConfigError::UnknownMethod);
            },
        }
    } else {
        return Err(ConfigError::UnknownKey);
    }
    Ok(next)
}

/// `config` after one line of text.
pub fn read_line(config: Config, line: &[u8]) -> (r: Result<Config, ConfigError>)
    ensures
        r == apply_line(config, line@),
{
    let mark: usize = find_byte(line, 0x3d);
    if mark >= line.len() {
        return Err(ConfigError::MalformedLine);
    }
    let rest: &[u8] = slice_subrange(line, mark + 1, line.len());
    assert(rest@ =~= line@.skip(mark + 1));
    if find_byte(rest, 0x3d) < rest.len() {
        return Err(ConfigError::MalformedLine);
    }
    let before: &[u8] = slice_subrange(line, 0, mark);
    assert(before@ =~= line@.take(mark as int));
    read_entry(config, trim(before), trim(rest))
}

/// The configuration that `text` writes, on a machine with `cores` cores.
///
/// Each line of `text` gives one setting its value, as `key = value`. The
/// settings are `colony_size`, `candidate_amount`, `max_unimproved`,
/// `max_iterations`, `improvement_threshold`, `concurrent_count` and
/// `generation_method`. A setting that no line names is zero, or unset.
/// `candidate_amount` and `concurrent_count` may be `Default`, which is half
/// the colony, and `cores`. The settings are not checked: see
/// [`validate_config`].
///
/// Fails at the first line that is not of this form.
pub fn parse_config(text: &[u8], cores: usize) -> (r: Result<Config, ConfigError>)
    ensures
        r == config_of(text@, cores),
{
    let mut config: Config = Config {
        colony_size: 0,
        candidate_amount: 0,
        max_unimproved: 0,
        max_iterations: 0,
        improvement_threshold: 0,
        concurrent_count: 0,
        generation_method: GenerationMethod::Unset,
    };
    let mut position: usize = 0;
    assert(text@.skip(0) =~= text@);
    while position < text.len()
        invariant
            position <= text.len(),
            apply_text(blank_config(), text@) == apply_text(config, text@.skip(position as int)),
        decreases text.len() - position,
    {
        let rest: &[u8] = slice_subrange(text, position, text.len());
        assert(rest@ =~= text@.skip(position as int));
        let end: usize = find_byte(rest, 0x0a);
        let line: &[u8] = slice_subrange(rest, 0, end);
        assert(line@ =~= rest@.take(end as int));
        assert(end == rest.len() ==> line@ =~= rest@);
        match read_line(config, line) {
            Ok(next) => {
                config = next;
            },
            Err(e) => {
                return Err(e);
            },
        }
        if end < rest.len() {
            assert(rest@.skip(end + 1) =~= text@.skip(position + end + 1));
            position = position + end + 1;
        } else {
            assert(text@.skip(text.len() as int) =~= Seq::<u8>::empty());
            position = text.len();
        }
    }
    assert(text@.skip(position as int).len() == 0);
    if config.candidate_amount == 0 {
        config.candidate_amount = config.colony_size / 2;
    }
    if config.concurrent_count == 0 {
        config.concurrent_count = cores;
    }
    Ok(config)
}

/// `num_cpus::get`: the number of cores that this machine offers, which is
/// at least one.
#[verifier::external_body]
fn available_cores() -> (cores: usize)
    ensures
        cores >= 1,
{
    num_cpus::get()
}

/// The configuration that `text` writes, on this machine: see
/// [`parse_config`].
pub fn read_config(text: &[u8]) -> (r: Result<Config, ConfigError>)
    ensures
        exists|cores: usize| cores >= 1 && r == #[trigger] config_of(text@, cores),
{
    let cores: usize = available_cores();
    parse_config(text, cores)
}

} // verus!
