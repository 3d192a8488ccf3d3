//! What a translator decides.

use crate::local::LocalSlot;
use crate::model::{GenerationConfig, ModelSelection, Provider};
use crate::run::{first_attempt, in_order, optional_rules, Translation, TranslationRequest};
use crate::text::texts;
use vstd::prelude::*;

verus! {

/// The decisions of a translator. The model that is loaded, if any, is in a
/// `LocalSlot` that tasks share.
pub struct Translator;

/// How a translation starts.
#[derive(Debug)]
pub enum Start {
    /// There is nothing to translate: this is the result.
    Skipped(&'static str, Vec<String>),
    /// There is. `with_image` tells whether to prepare the image for the model
    /// or to leave it out.
    Begin { with_image: bool, translation: Translation },
}

/// The model sees the image: that was set, and the model can.
pub open spec fn sees_image(
    selection: &ModelSelection,
    generation: &GenerationConfig,
    local_vision: bool,
) -> bool {
    generation.vision == Some(true) && (selection.provider != Provider::Local || local_vision)
}

impl Translator {
    /// The name of the provider that `selection` names.
    #[must_use]
    pub fn model(selection: &ModelSelection) -> (id: &'static str)
        ensures
            id == selection.provider_id,
    {
        selection.provider_id
    }

    /// Whether the selected model is to see the image. `local_vision` tells
    /// whether it could, were it a local model.
    #[must_use]
    pub fn supports_vision(
        selection: &ModelSelection,
        generation: &GenerationConfig,
        local_vision: bool,
    ) -> (supported: bool)
        ensures
            supported == sees_image(selection, generation, local_vision),
    {
        generation.vision.unwrap_or(false) && (selection.provider != Provider::Local
            || local_vision)
    }

    /// Whether the selected model is ready. `slot` is `None` while another task
    /// has it: that task is using a model, or loading one.
    #[must_use]
    pub fn loaded<T>(slot: Option<&LocalSlot<T>>, selection: &ModelSelection) -> (ready: bool)
        ensures
            ready == (selection.provider == Provider::Local ==> match slot {
                Some(slot) => slot.holds(selection),
                None => true,
            }),
    {
        if selection.provider != Provider::Local {
            return true;
        }
        match slot {
            Some(slot) => slot.find(selection).is_some(),
            None => true,
        }
    }

    /// Lets go of the loaded model, and tells whether there was one. `slot` is
    /// `None` while another task has it: then nothing happens.
    pub fn unload<T>(slot: Option<&mut LocalSlot<T>>) -> (unloaded: bool)
        ensures
            match slot {
                Some(slot) => unloaded == (slot.loaded is Some) && final(slot).loaded is None,
                None => !unloaded,
            },
    {
        match slot {
            Some(slot) => slot.take(),
            None => false,
        }
    }

    /// Whether the selected model runs on this machine, and so has to be in the
    /// slot before it is used.
    pub fn load_model(selection: &ModelSelection) -> (local: bool)
        ensures
            local == (selection.provider == Provider::Local),
    {
        selection.provider == Provider::Local
    }

    /// Starts a translation. `generation` is what holds for the selected model.
    pub fn translate(
        selection: &ModelSelection,
        generation: &GenerationConfig,
        local_vision: bool,
        request: TranslationRequest,
    ) -> (start: Start)
        ensures
            match start {
                Start::Skipped(provider_id, segments) => {
                    &&& request.segments@.len() == 0
                    &&& provider_id == selection.provider_id
                    &&& segments == request.segments
                },
                Start::Begin { with_image, translation } => {
                    &&& request.segments@.len() > 0
                    &&& with_image == sees_image(selection, generation, local_vision)
                    &&& translation@ == first_attempt(
                        selection.provider,
                        selection.provider_id@,
                        texts(request.segments@),
                        optional_rules(request.validator),
                        request.target_language@,
                    )
                    &&& in_order(translation@)
                },
            },
    {
        let provider_id = Self::model(selection);
        if request.segments.is_empty() {
            return Start::Skipped(provider_id, request.segments);
        }
        let with_image = Self::supports_vision(selection, generation, local_vision);
        let translation = Translation::new(
            selection.provider,
            provider_id,
            request.segments,
            request.target_language,
            request.validator,
        );
        Start::Begin { with_image, translation }
    }
}

} // verus!
