//! The error type of the library.
use vstd::prelude::*;
use hidapi::HidError;

verus! {

/// `hidapi::HidError`, carried through as an opaque value.
#[verifier::external_type_specification]
#[verifier::external_body]
pub struct ExHidError(hidapi::HidError);

/// What can go wrong while talking to the base.
#[derive(Debug)]
pub enum InfinityError {
    /// A lock shared with the reader was poisoned by a panicking thread.
    TexPoison,
    /// The HID device reported an error.
    HidError(HidError),
}

impl From<HidError> for InfinityError {
    fn from(value: HidError) -> (r: Self) {
        InfinityError::HidError(value)
    }
}

impl vstd::std_specs::convert::FromSpecImpl<HidError> for InfinityError {
    open spec fn obeys_from_spec() -> bool {
        true
    }

    open spec fn from_spec(v: HidError) -> Self {
        InfinityError::HidError(v)
    }
}

/// The result type of the base's operations.
pub type InfnityResult<T> = Result<T, InfinityError>;

} // verus!
