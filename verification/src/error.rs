use vstd::prelude::*;

verus! {

/// The setting of a configuration that is out of range or unreadable.
#[derive(Clone, Copy, Debug, PartialEq, Eq, Structural)]
pub enum ConfigError {
    /// `colony_size` is zero or odd.
    ColonySize,
    /// `max_unimproved` is zero.
    MaxUnimproved,
    /// `max_iterations` is zero.
    MaxIterations,
    /// `improvement_threshold` lies outside `[0, 100]`.
    ImprovementThreshold,
    /// `candidate_amount` is zero.
    CandidateAmount,
    /// `concurrent_count` is zero.
    ConcurrentCount,
    /// No generation method was chosen.
    GenerationMethod,
    /// A line of the configuration text is not of the form `key = value`.
    MalformedLine,
    /// A line of the configuration text names a setting that does not exist.
    UnknownKey,
    /// The configuration text names a generation method that does not exist.
    UnknownMethod,
    /// A value of the configuration text does not write a number that the
    /// setting can hold.
    InvalidNumber,
}

/// What is wrong with the arguments of the command line.
#[derive(Clone, Copy, Debug, PartialEq, Eq, Structural)]
pub enum ArgumentError {
    /// An argument is not of the form `key=value`.
    InvalidArgument,
    /// An argument has a key that does not exist.
    UnknownArgument,
}

/// Every way in which a run can fail.
#[derive(Clone, Copy, Debug, PartialEq, Eq, Structural)]
pub enum TspError {
    /// Two cities have a different number of coordinates.
    DimensionMismatch,
    /// Two cities lie so far apart that the length of a tour could not be
    /// held in 64 bits.
    DistanceRange,
    /// The configuration is not valid.
    Config(ConfigError),
    /// A tour, or a population, does not have the shape that the colony
    /// relies on.
    InvariantViolation,
    /// The worker pool could not be started.
    WorkerPool,
}


impl ConfigError {
    /// What the error says to the user.
    pub open spec fn text(self) -> Seq<char> {
        match self {
            ConfigError::ColonySize => "Invalid colony size."@,
            ConfigError::MaxUnimproved => "Invalid unimproved times."@,
            ConfigError::MaxIterations => "Invalid iterations"@,
            ConfigError::ImprovementThreshold => "Invalid improvement threshold."@,
            ConfigError::CandidateAmount => "Invalid candidate amount."@,
            ConfigError::ConcurrentCount => "Invalid concurrent count."@,
            ConfigError::GenerationMethod => "Invalid generation method."@,
            ConfigError::MalformedLine => "Invalid configuration."@,
            ConfigError::UnknownKey => "Unknown configuration."@,
            ConfigError::UnknownMethod => "Unknown configuration."@,
            ConfigError::InvalidNumber => "Invalid configuration."@,
        }
    }

    /// What the error says to the user.
    pub fn message(&self) -> (message: String)
        ensures
            message@ == self.text(),
    {
        match self {
            ConfigError::ColonySize => "Invalid colony size.".to_owned(),
            ConfigError::MaxUnimproved => "Invalid unimproved times.".to_owned(),
            ConfigError::MaxIterations => "Invalid iterations".to_owned(),
            ConfigError::ImprovementThreshold => "Invalid improvement threshold.".to_owned(),
            ConfigError::CandidateAmount => "Invalid candidate amount.".to_owned(),
            ConfigError::ConcurrentCount => "Invalid concurrent count.".to_owned(),
            ConfigError::GenerationMethod => "Invalid generation method.".to_owned(),
            ConfigError::MalformedLine => "Invalid configuration.".to_owned(),
            ConfigError::UnknownKey => "Unknown configuration.".to_owned(),
            ConfigError::UnknownMethod => "Unknown configuration.".to_owned(),
            ConfigError::InvalidNumber => "Invalid configuration.".to_owned(),
        }
    }
}

impl ArgumentError {
    /// What the error says to the user.
    pub open spec fn text(self) -> Seq<char> {
        match self {
            ArgumentError::InvalidArgument => "Invalid argument."@,
            ArgumentError::UnknownArgument => "Unknown argument."@,
        }
    }

    /// What the error says to the user.
    pub fn message(&self) -> (message: String)
        ensures
            message@ == self.text(),
    {
        match self {
            ArgumentError::InvalidArgument => "Invalid argument.".to_owned(),
            ArgumentError::UnknownArgument => "Unknown argument.".to_owned(),
        }
    }
}

impl TspError {
    /// What the error says to the user.
    pub open spec fn text(self) -> Seq<char> {
        match self {
            TspError::DimensionMismatch => "Invalid data sheet."@,
            TspError::DistanceRange => "Distance out of range."@,
            TspError::Config(fault) => fault.text(),
            TspError::InvariantViolation => "Unknown error."@,
            TspError::WorkerPool => "Fail build thread pool."@,
        }
    }

    /// What the error says to the user.
    pub fn message(&self) -> (message: String)
        ensures
            message@ == self.text(),
    {
        match self {
            TspError::DimensionMismatch => "Invalid data sheet.".to_owned(),
            TspError::DistanceRange => "Distance out of range.".to_owned(),
            TspError::Config(fault) => fault.message(),
            TspError::InvariantViolation => "Unknown error.".to_owned(),
            TspError::WorkerPool => "Fail build thread pool.".to_owned(),
        }
    }
}

} // verus!
