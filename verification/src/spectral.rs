//! Settings of the sampler of keepalive gaps: what is wrong with them.
use vstd::prelude::*;
use vstd::string::*;

verus! {

/// Why settings were refused.
#[derive(Debug, PartialEq, Eq)]
pub enum SpectralError {
    InvalidConfig(&'static str),
}

impl SpectralError {
    /// The error in words.
    pub open spec fn text(self) -> Seq<char> {
        match self {
            SpectralError::InvalidConfig(message) => "invalid spectral config: "@ + message@,
        }
    }

    /// The error in words.
    pub fn message(&self) -> (s: String)
        ensures
            s@ == self.text(),
    {
        match self {
            SpectralError::InvalidConfig(message) => {
                let mut s = String::from_str("invalid spectral config: ");
                s.append(message);
                s
            },
        }
    }
}

/// What holds of the sampler's real-valued settings.
#[derive(Clone, Copy, Debug, PartialEq, Eq, Structural)]
pub struct SpectralChecks {
    /// The mean gap is positive.
    pub target_positive: bool,
    /// The shortest gap is positive.
    pub floor_positive: bool,
    /// The shortest gap is shorter than the longest.
    pub floor_below_ceiling: bool,
}

impl SpectralChecks {
    /// The first rule that the settings break, if any.
    pub open spec fn fault(self) -> Option<Seq<char>> {
        if !self.target_positive {
            Some("target_iat_ms must be positive"@)
        } else if !self.floor_positive {
            Some("floor_ms must be positive"@)
        } else if !self.floor_below_ceiling {
            Some("floor_ms must be less than ceiling_ms"@)
        } else {
            None
        }
    }

    /// Reports the first rule that the settings break.
    pub fn validate(self) -> (r: Result<(), SpectralError>)
        ensures
            match self.fault() {
                None => r is Ok,
                Some(text) => r is Err && r->Err_0->InvalidConfig_0@ == text,
            },
    {
        if !self.target_positive {
            return Err(SpectralError::InvalidConfig("target_iat_ms must be positive"));
        }
        if !self.floor_positive {
            return Err(SpectralError::InvalidConfig("floor_ms must be positive"));
        }
        if !self.floor_below_ceiling {
            return Err(SpectralError::InvalidConfig("floor_ms must be less than ceiling_ms"));
        }
        Ok(())
    }
}

/// What the settings must be: every check of them holds.
pub proof fn law_spectra_have_bounds(checks: SpectralChecks)
    ensures
        checks.fault() is None <==> checks.target_positive && checks.floor_positive
            && checks.floor_below_ceiling,
{
}

} // verus!
