//! Providers, and the choice of a model.

use vstd::prelude::*;

verus! {

/// Who translates.
#[derive(Clone, Copy, Debug, PartialEq, Eq, Structural)]
pub enum Provider {
    /// A model on this machine.
    Local,
    OpenAiCompatible,
    DeepL,
    GoogleCloudTranslation,
    Caiyun,
    /// Any hosted provider that is not named here.
    Other,
}

/// The model that a translation is to use.
#[derive(Debug)]
pub struct ModelSelection {
    pub provider: Provider,
    /// The name that results and errors give the provider.
    pub provider_id: &'static str,
    pub model: Option<String>,
    pub quantization: Option<String>,
    pub vision: bool,
    pub reasoning: bool,
}

/// How a model is to generate text.
#[derive(Clone, Copy, Debug)]
pub struct GenerationConfig {
    /// Whether the model is to see the image, if that was set.
    pub vision: Option<bool>,
}

} // verus!
