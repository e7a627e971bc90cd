//! Batch configuration and its validation.

use vstd::prelude::*;

verus! {

/// Why a batch configuration was refused before any work started.
#[derive(Clone, Copy, Debug, PartialEq, Eq)]
pub enum ConfigError {
    /// The concurrency cap is zero: no unit could ever run.
    ZeroConcurrency,
    /// Items with zero steps cannot report progress.
    ZeroSteps,
    /// The duration bound is below the step count, so the duration range is empty.
    DurationBelowSteps,
}

/// The constants of one batch run.
#[derive(Clone, Copy, Debug)]
pub struct BatchConfig {
    pub item_count: usize,
    pub max_concurrent: usize,
    pub steps_per_item: u64,
    pub max_duration_ms: u64,
}

/// The first rule that the given settings break, if any.
pub open spec fn config_error(max_concurrent: usize, steps_per_item: u64, max_duration_ms: u64) -> Option<ConfigError> {
    if max_concurrent == 0 {
        Some(ConfigError::ZeroConcurrency)
    } else if steps_per_item == 0 {
        Some(ConfigError::ZeroSteps)
    } else if max_duration_ms < steps_per_item {
        Some(ConfigError::DurationBelowSteps)
    } else {
        None
    }
}

impl BatchConfig {
    /// All settings are usable.
    pub open spec fn valid(self) -> bool {
        config_error(self.max_concurrent, self.steps_per_item, self.max_duration_ms) is None
    }

    /// Checks the settings and builds the configuration, or names the first rule broken.
    pub fn new(item_count: usize, max_concurrent: usize, steps_per_item: u64, max_duration_ms: u64) -> (r: Result<BatchConfig, ConfigError>)
        ensures
            match config_error(max_concurrent, steps_per_item, max_duration_ms) {
                Some(e) => r == Err::<BatchConfig, ConfigError>(e),
                None => r is Ok,
            },
            r matches Ok(c) ==> c.valid() && c.item_count == item_count && c.max_concurrent
                == max_concurrent && c.steps_per_item == steps_per_item && c.max_duration_ms
                == max_duration_ms,
    {
        if max_concurrent == 0 {
            Err(ConfigError::ZeroConcurrency)
        } else if steps_per_item == 0 {
            Err(ConfigError::ZeroSteps)
        } else if max_duration_ms < steps_per_item {
            Err(ConfigError::DurationBelowSteps)
        } else {
            Ok(BatchConfig { item_count, max_concurrent, steps_per_item, max_duration_ms })
        }
    }
}

} // verus!
