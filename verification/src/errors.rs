//! Why a request cannot be carried out.
use vstd::prelude::*;

verus! {

#[derive(Clone, Copy, Debug, PartialEq, Eq, Structural)]
pub enum BackendError {
    /// The direction is none of left, right, above and below.
    InvalidDirection,
    /// No output has the name that was given for the target.
    TargetNotFound,
    /// No output has the name that was given.
    OutputNotFound,
    /// The output offers no such mode.
    ModeNotFound,
    /// The two outputs have no mode in common.
    NoCommonMode,
    /// The backend does not know the transform.
    UnsupportedTransform,
}

} // verus!
