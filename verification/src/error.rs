//! Failures of a translation.

use vstd::prelude::*;

verus! {

/// Why a provider's reply was not taken.
#[derive(Debug)]
pub enum TranslationError {
    /// The reply holds another number of segments than was asked for.
    SegmentCount { provider: &'static str, expected: usize, actual: usize },
    /// A translation still matches a forbidden pattern.
    Validation { provider: &'static str, message: String },
}

/// An error by its numbers and characters.
pub enum TranslationErrorModel {
    SegmentCount { provider: Seq<char>, expected: nat, actual: nat },
    Validation { provider: Seq<char>, message: Seq<char> },
}

impl View for TranslationError {
    type V = TranslationErrorModel;

    open spec fn view(&self) -> TranslationErrorModel {
        match self {
            TranslationError::SegmentCount { provider, expected, actual } => TranslationErrorModel::SegmentCount {
                provider: provider@,
                expected: *expected as nat,
                actual: *actual as nat,
            },
            TranslationError::Validation { provider, message } => TranslationErrorModel::Validation {
                provider: provider@,
                message: message@,
            },
        }
    }
}

} // verus!
