//! The one local model that is kept loaded.

use crate::model::ModelSelection;
use crate::text::optional_text;
use std::sync::Arc;
use vstd::prelude::*;

verus! {

/// A loaded local model, and the selection that it was loaded for.
pub struct LoadedLocal<T> {
    pub model: Option<String>,
    pub quantization: Option<String>,
    pub translator: Arc<T>,
}

/// Both strings are there and equal, or both are missing.
fn same_text(left: &Option<String>, right: &Option<String>) -> (same: bool)
    ensures
        same == (optional_text(*left) == optional_text(*right)),
{
    match (left, right) {
        (Some(left), Some(right)) => *left == *right,
        (None, None) => true,
        _ => false,
    }
}

fn copy_text(text: &Option<String>) -> (copy: Option<String>)
    ensures
        copy == *text,
{
    match text {
        Some(text) => Some(text.clone()),
        None => None,
    }
}

impl<T> LoadedLocal<T> {
    /// The model and the quantization are those of `selection`.
    pub open spec fn serves(&self, selection: &ModelSelection) -> bool {
        &&& optional_text(self.model) == optional_text(selection.model)
        &&& optional_text(self.quantization) == optional_text(selection.quantization)
    }

    /// Whether this model is the one that `selection` asks for.
    pub fn matches(&self, selection: &ModelSelection) -> (matched: bool)
        ensures
            matched == self.serves(selection),
    {
        same_text(&self.model, &selection.model) && same_text(
            &self.quantization,
            &selection.quantization,
        )
    }
}

/// Room for one loaded local model.
pub struct LocalSlot<T> {
    pub loaded: Option<LoadedLocal<T>>,
}

impl<T> LocalSlot<T> {
    /// The slot holds the model that `selection` asks for.
    pub open spec fn holds(&self, selection: &ModelSelection) -> bool {
        self.loaded matches Some(loaded) && loaded.serves(selection)
    }

    /// An empty slot.
    pub fn new() -> (slot: Self)
        ensures
            slot.loaded is None,
    {
        LocalSlot { loaded: None }
    }

    /// The loaded model, if it is the one that `selection` asks for. Otherwise
    /// the model has to be loaded and stored.
    pub fn find(&self, selection: &ModelSelection) -> (found: Option<&Arc<T>>)
        ensures
            match found {
                Some(translator) => self.holds(selection) && *translator
                    == self.loaded->0.translator,
                None => !self.holds(selection),
            },
    {
        match &self.loaded {
            Some(loaded) => if loaded.matches(selection) {
                Some(&loaded.translator)
            } else {
                None
            },
            None => None,
        }
    }

    /// Keeps the model that was loaded for `selection`, in the place of any
    /// other.
    pub fn store(&mut self, selection: &ModelSelection, translator: Arc<T>)
        ensures
            final(self).loaded == Some(
                (LoadedLocal {
                    model: selection.model,
                    quantization: selection.quantization,
                    translator,
                }),
            ),
    {
        self.loaded = Some(
            LoadedLocal {
                model: copy_text(&selection.model),
                quantization: copy_text(&selection.quantization),
                translator,
            },
        );
    }

    /// Empties the slot, and tells whether it held a model.
    pub fn take(&mut self) -> (held: bool)
        ensures
            held == (old(self).loaded is Some),
            final(self).loaded is None,
    {
        self.loaded.take().is_some()
    }
}

} // verus!
