//! Error values produced by goonj operations.

use vstd::prelude::*;
use vstd::string::*;

verus! {

/// Errors produced by goonj operations.
#[derive(Debug, Clone)]
#[non_exhaustive]
pub enum GoonjError {
    /// Invalid room or wall geometry (e.g. too few vertices).
    InvalidGeometry(String),
    /// Invalid material parameters (e.g. absorption outside 0.0–1.0).
    InvalidMaterial(String),
    /// Invalid frequency value (e.g. negative Hz).
    InvalidFrequency(String),
    /// Sound propagation computation failed (reserved for future use).
    PropagationFailed(String),
    /// General computation error (e.g. a WAV payload too large for its header).
    ComputationError(String),
}

/// Convenience result type for goonj operations.
pub type Result<T> = std::result::Result<T, GoonjError>;

impl GoonjError {
    /// The text that introduces the message of each kind of error.
    pub open spec fn spec_prefix(&self) -> Seq<char> {
        match self {
            GoonjError::InvalidGeometry(_) => "invalid geometry: "@,
            GoonjError::InvalidMaterial(_) => "invalid material: "@,
            GoonjError::InvalidFrequency(_) => "invalid frequency: "@,
            GoonjError::PropagationFailed(_) => "propagation failed: "@,
            GoonjError::ComputationError(_) => "computation error: "@,
        }
    }

    /// The detail text that the error carries.
    pub open spec fn spec_detail(&self) -> Seq<char> {
        match self {
            GoonjError::InvalidGeometry(s) => s@,
            GoonjError::InvalidMaterial(s) => s@,
            GoonjError::InvalidFrequency(s) => s@,
            GoonjError::PropagationFailed(s) => s@,
            GoonjError::ComputationError(s) => s@,
        }
    }

    /// The full human-readable message: the kind's prefix, then the detail.
    pub open spec fn spec_message(&self) -> Seq<char> {
        self.spec_prefix() + self.spec_detail()
    }

    /// The detail text that the error carries.
    pub fn detail(&self) -> (s: &String)
        ensures
            s@ == self.spec_detail(),
    {
        match self {
            GoonjError::InvalidGeometry(s) => s,
            GoonjError::InvalidMaterial(s) => s,
            GoonjError::InvalidFrequency(s) => s,
            GoonjError::PropagationFailed(s) => s,
            GoonjError::ComputationError(s) => s,
        }
    }

    /// The human-readable message, e.g. `"invalid geometry: no walls"`.
    pub fn message(&self) -> (m: String)
        ensures
            m@ == self.spec_message(),
    {
        let mut m = match self {
            GoonjError::InvalidGeometry(_) => String::from_str("invalid geometry: "),
            GoonjError::InvalidMaterial(_) => String::from_str("invalid material: "),
            GoonjError::InvalidFrequency(_) => String::from_str("invalid frequency: "),
            GoonjError::PropagationFailed(_) => String::from_str("propagation failed: "),
            GoonjError::ComputationError(_) => String::from_str("computation error: "),
        };
        m.append(self.detail().as_str());
        m
    }
}

} // verus!
