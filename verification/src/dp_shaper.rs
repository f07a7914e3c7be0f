//! Windows of the differential-privacy shaper: the settings that are whole
//! numbers, and what is wrong with a configuration.
use vstd::prelude::*;
use vstd::string::*;

verus! {

/// Why a configuration was refused.
#[derive(Debug, PartialEq, Eq)]
pub enum DpShaperError {
    InvalidConfig(&'static str),
}

impl DpShaperError {
    /// The error in words.
    pub open spec fn text(self) -> Seq<char> {
        match self {
            DpShaperError::InvalidConfig(message) => "invalid DP shaper config: "@ + message@,
        }
    }

    /// The error in words.
    pub fn message(&self) -> (s: String)
        ensures
            s@ == self.text(),
    {
        match self {
            DpShaperError::InvalidConfig(message) => {
                let mut s = String::from_str("invalid DP shaper config: ");
                s.append(message);
                s
            },
        }
    }
}

/// Length of a window, and the most real bytes that fall into one.
#[derive(Clone, Copy, Debug, PartialEq, Eq, Structural)]
pub struct DpShaperConfig {
    pub window_ms: u64,
    pub max_real_bytes_per_window: usize,
}

impl Default for DpShaperConfig {
    fn default() -> (c: DpShaperConfig)
        ensures
            c == (DpShaperConfig { window_ms: 100, max_real_bytes_per_window: 65_536 }),
    {
        DpShaperConfig { window_ms: 100, max_real_bytes_per_window: 64 * 1024 }
    }
}

impl DpShaperConfig {
    /// The first rule that the settings break, if any.
    pub open spec fn fault(self, epsilon_positive: bool) -> Option<Seq<char>> {
        if !epsilon_positive {
            Some("epsilon must be positive"@)
        } else if self.window_ms == 0 {
            Some("window_ms must be non-zero"@)
        } else if self.max_real_bytes_per_window == 0 {
            Some("max_real_bytes_per_window must be non-zero"@)
        } else {
            None
        }
    }

    /// Hands the configuration back if the settings break no rule, and else
    /// reports the first rule they break. `epsilon_positive` tells whether the
    /// privacy budget of a window is positive.
    pub fn validate(self, epsilon_positive: bool) -> (r: Result<DpShaperConfig, DpShaperError>)
        ensures
            match self.fault(epsilon_positive) {
                None => r == Ok::<DpShaperConfig, DpShaperError>(self),
                Some(text) => r is Err && r->Err_0->InvalidConfig_0@ == text,
            },
    {
        if !epsilon_positive {
            return Err(DpShaperError::InvalidConfig("epsilon must be positive"));
        }
        if self.window_ms == 0 {
            return Err(DpShaperError::InvalidConfig("window_ms must be non-zero"));
        }
        if self.max_real_bytes_per_window == 0 {
            return Err(
                DpShaperError::InvalidConfig("max_real_bytes_per_window must be non-zero"),
            );
        }
        Ok(self)
    }
}

/// What a shaper's settings must be: the budget is positive, and neither the window
/// nor what it may hold is zero.
pub proof fn law_shapers_have_a_budget(config: DpShaperConfig, epsilon_positive: bool)
    ensures
        config.fault(epsilon_positive) is None <==> epsilon_positive && config.window_ms >= 1
            && config.max_real_bytes_per_window >= 1,
{
}

} // verus!
