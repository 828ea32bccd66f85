//! Settings of the agent, with their defaults and the checks they must pass.
use vstd::prelude::*;

verus! {

pub fn default_ollama_url() -> (r: String)
    ensures
        r@ == "http://localhost:11434"@,
{
    String::from_str("http://localhost:11434")
}

/// Seconds between background ticks.
pub fn default_background_pulse() -> (r: u64)
    ensures
        r == 30,
{
    30
}

/// Thousandths.
pub fn default_valence_threshold() -> (r: i32)
    ensures
        r == -200,
{
    -200
}

pub fn default_eval_days() -> (r: i64)
    ensures
        r == 90,
{
    90
}

pub fn default_wellness_days() -> (r: i64)
    ensures
        r == 7,
{
    7
}

pub fn default_backup_days() -> (r: i64)
    ensures
        r == 7,
{
    7
}

pub fn default_compression() -> (r: usize)
    ensures
        r == 1000,
{
    1000
}

pub fn default_weaving_rounds() -> (r: u32)
    ensures
        r == 3,
{
    3
}

/// Thousandths.
pub fn default_coherence_threshold() -> (r: u32)
    ensures
        r == 700,
{
    700
}

/// Background ticks between two curiosity lookups.
pub fn default_curiosity_interval() -> (r: u32)
    ensures
        r == 25,
{
    25
}

/// Why a configuration was refused.
#[derive(Clone, Copy, Debug, PartialEq, Eq, Structural)]
pub enum ConfigError {
    PulseIntervalZero,
    EvaluationDaysTooSmall,
    WellnessDaysTooSmall,
    CompressionThresholdTooSmall,
    WeavingRoundsZero,
    WeavingRoundsTooMany,
    CoherenceThresholdOutOfRange,
}

impl ConfigError {
    pub fn message(&self) -> (r: String)
        ensures
            r@ == match *self {
                ConfigError::PulseIntervalZero => "background_pulse_interval must be > 0"@,
                ConfigError::EvaluationDaysTooSmall => "existential_evaluation_days must be >= 1"@,
                ConfigError::WellnessDaysTooSmall => "weekly_wellness_check_days must be >= 1"@,
                ConfigError::CompressionThresholdTooSmall => "memory_compression_threshold must be >= 100"@,
                ConfigError::WeavingRoundsZero => "weaving_rounds must be > 0"@,
                ConfigError::WeavingRoundsTooMany => "weaving_rounds must be <= 10 (too many rounds may cause instability)"@,
                ConfigError::CoherenceThresholdOutOfRange => "workspace_coherence_threshold must be between 0.0 and 1.0"@,
            },
    {
        match self {
            ConfigError::PulseIntervalZero => String::from_str("background_pulse_interval must be > 0"),
            ConfigError::EvaluationDaysTooSmall => String::from_str("existential_evaluation_days must be >= 1"),
            ConfigError::WellnessDaysTooSmall => String::from_str("weekly_wellness_check_days must be >= 1"),
            ConfigError::CompressionThresholdTooSmall => String::from_str(
                "memory_compression_threshold must be >= 100",
            ),
            ConfigError::WeavingRoundsZero => String::from_str("weaving_rounds must be > 0"),
            ConfigError::WeavingRoundsTooMany => String::from_str(
                "weaving_rounds must be <= 10 (too many rounds may cause instability)",
            ),
            ConfigError::CoherenceThresholdOutOfRange => String::from_str(
                "workspace_coherence_threshold must be between 0.0 and 1.0",
            ),
        }
    }
}

/// The agent's settings. Fractions are in thousandths.
#[derive(Debug)]
pub struct Config {
    pub ollama_url: String,
    pub background_pulse_interval: u64,
    pub emotional_valence_threshold: i32,
    pub existential_evaluation_days: i64,
    pub weekly_wellness_check_days: i64,
    pub memory_backup_interval_days: i64,
    pub memory_compression_threshold: usize,
    pub enable_fractal_weaving: bool,
    pub weaving_rounds: u32,
    pub workspace_coherence_threshold: u32,
    pub enable_curiosity_search: bool,
    pub curiosity_search_interval: u32,
}

/// The first check that a configuration fails, if any.
pub open spec fn config_error(c: Config) -> Option<ConfigError> {
    if c.background_pulse_interval == 0 {
        Some(ConfigError::PulseIntervalZero)
    } else if c.existential_evaluation_days < 1 {
        Some(ConfigError::EvaluationDaysTooSmall)
    } else if c.weekly_wellness_check_days < 1 {
        Some(ConfigError::WellnessDaysTooSmall)
    } else if c.memory_compression_threshold < 100 {
        Some(ConfigError::CompressionThresholdTooSmall)
    } else if c.weaving_rounds == 0 {
        Some(ConfigError::WeavingRoundsZero)
    } else if c.weaving_rounds > 10 {
        Some(ConfigError::WeavingRoundsTooMany)
    } else if c.workspace_coherence_threshold > 1000 {
        Some(ConfigError::CoherenceThresholdOutOfRange)
    } else {
        None
    }
}

impl Config {
    /// Copies the settings.
    pub fn duplicate(&self) -> (r: Config)
        ensures
            r.ollama_url == self.ollama_url,
            r.background_pulse_interval == self.background_pulse_interval,
            r.emotional_valence_threshold == self.emotional_valence_threshold,
            r.existential_evaluation_days == self.existential_evaluation_days,
            r.weekly_wellness_check_days == self.weekly_wellness_check_days,
            r.memory_backup_interval_days == self.memory_backup_interval_days,
            r.memory_compression_threshold == self.memory_compression_threshold,
            r.enable_fractal_weaving == self.enable_fractal_weaving,
            r.weaving_rounds == self.weaving_rounds,
            r.workspace_coherence_threshold == self.workspace_coherence_threshold,
            r.enable_curiosity_search == self.enable_curiosity_search,
            r.curiosity_search_interval == self.curiosity_search_interval,
    {
        Config {
            ollama_url: self.ollama_url.clone(),
            background_pulse_interval: self.background_pulse_interval,
            emotional_valence_threshold: self.emotional_valence_threshold,
            existential_evaluation_days: self.existential_evaluation_days,
            weekly_wellness_check_days: self.weekly_wellness_check_days,
            memory_backup_interval_days: self.memory_backup_interval_days,
            memory_compression_threshold: self.memory_compression_threshold,
            enable_fractal_weaving: self.enable_fractal_weaving,
            weaving_rounds: self.weaving_rounds,
            workspace_coherence_threshold: self.workspace_coherence_threshold,
            enable_curiosity_search: self.enable_curiosity_search,
            curiosity_search_interval: self.curiosity_search_interval,
        }
    }

    /// Checks the settings in a fixed order and reports the first that is
    /// out of range.
    pub fn validate(&self) -> (r: Result<(), ConfigError>)
        ensures
            r is Ok <==> config_error(*self) is None,
            r matches Err(e) ==> config_error(*self) == Some(e),
    {
        if self.background_pulse_interval == 0 {
            return Err(ConfigError::PulseIntervalZero);
        }
        if self.existential_evaluation_days < 1 {
            return Err(ConfigError::EvaluationDaysTooSmall);
        }
        if self.weekly_wellness_check_days < 1 {
            return Err(ConfigError::WellnessDaysTooSmall);
        }
        if self.memory_compression_threshold < 100 {
            return Err(ConfigError::CompressionThresholdTooSmall);
        }
        if self.weaving_rounds == 0 {
            return Err(ConfigError::WeavingRoundsZero);
        }
        if self.weaving_rounds > 10 {
            return Err(ConfigError::WeavingRoundsTooMany);
        }
        if self.workspace_coherence_threshold > 1000 {
            return Err(ConfigError::CoherenceThresholdOutOfRange);
        }
        Ok(())
    }
}

impl Default for Config {
    fn default() -> (r: Config)
        ensures
            r.ollama_url@ == "http://localhost:11434"@,
            r.background_pulse_interval == 30,
            r.emotional_valence_threshold == -200,
            r.existential_evaluation_days == 90,
            r.weekly_wellness_check_days == 7,
            r.memory_backup_interval_days == 7,
            r.memory_compression_threshold == 1000,
            !r.enable_fractal_weaving,
            r.weaving_rounds == 3,
            r.workspace_coherence_threshold == 700,
            r.enable_curiosity_search,
            r.curiosity_search_interval == 25,
            config_error(r) is None,
    {
        Config {
            ollama_url: default_ollama_url(),
            background_pulse_interval: default_background_pulse(),
            emotional_valence_threshold: default_valence_threshold(),
            existential_evaluation_days: default_eval_days(),
            weekly_wellness_check_days: default_wellness_days(),
            memory_backup_interval_days: default_backup_days(),
            memory_compression_threshold: default_compression(),
            enable_fractal_weaving: false,
            weaving_rounds: default_weaving_rounds(),
            workspace_coherence_threshold: default_coherence_threshold(),
            enable_curiosity_search: true,
            curiosity_search_interval: default_curiosity_interval(),
        }
    }
}

} // verus!
