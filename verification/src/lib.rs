//! Translation through local and hosted providers: the decisions of a
//! translation run and the validation of what comes back, verified.

pub mod error;
pub mod feedback_laws;
pub mod language;
pub mod laws;
pub mod local;
pub mod model;
pub mod model_laws;
pub mod pattern;
pub mod positions;
pub mod retry;
pub mod rule_laws;
pub mod run;
pub mod run_laws;
pub mod text;
pub mod translator;
pub mod validation;

pub use error::TranslationError;
pub use language::Language;
pub use local::{LoadedLocal, LocalSlot};
pub use model::{GenerationConfig, ModelSelection, Provider};
pub use retry::{
    merge_retry_translations, retries_with_feedback, should_retry_validation,
    MAX_VALIDATION_ATTEMPTS,
};
pub use run::{Attempt, Step, Translation, TranslationRequest};
pub use translator::{Start, Translator};
pub use validation::{
    admit_pattern, check_rule, compose_feedback, flagged_indices, RuleError,
    TranslationValidationRule, TranslationValidator,
};
