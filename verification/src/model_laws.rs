//! What the models that contracts speak of have to do with the values they
//! stand for, and which providers are treated how.

use crate::error::{TranslationError, TranslationErrorModel};
use crate::language::Language;
use crate::local::{LoadedLocal, LocalSlot};
use crate::model::{GenerationConfig, ModelSelection, Provider};
use crate::pattern::{compiled, compiles_to, regex_new};
use crate::positions::numbers;
use crate::retry::{reads_feedback, retry_allowed};
use crate::run::{optional_rules, picked, Step, StepModel};
use crate::text::{optional_text, texts};
use crate::translator::sees_image;
use crate::validation::{
    fits, rows, rule_models, RuleError, RuleErrorModel, TranslationValidationRule,
    TranslationValidator,
};
use vstd::prelude::*;

verus! {

/// Lists are modelled item by item.
pub proof fn law_lists_are_modelled_item_by_item(
    strings: Seq<String>,
    indices: Seq<usize>,
    table: Seq<Vec<bool>>,
    rules: Seq<TranslationValidationRule>,
)
    ensures
        texts(strings).len() == strings.len(),
        forall|i: int| 0 <= i < strings.len() ==> #[trigger] texts(strings)[i] == strings[i]@,
        numbers(indices).len() == indices.len(),
        forall|i: int| 0 <= i < indices.len() ==> #[trigger] numbers(indices)[i] == indices[i],
        rows(table).len() == table.len(),
        forall|i: int| 0 <= i < table.len() ==> #[trigger] rows(table)[i] == table[i]@,
        rule_models(rules).len() == rules.len(),
        forall|i: int|
            0 <= i < rules.len() ==> (#[trigger] rule_models(rules)[i]).name == rules[i].name@
                && rule_models(rules)[i].pattern == rules[i].pattern@,
{
}

/// Picking takes the item at each position, in the order of the positions.
pub proof fn law_picking_goes_by_position<A>(items: Seq<A>, positions: Seq<int>)
    ensures
        picked(items, positions).len() == positions.len(),
        forall|k: int|
            0 <= k < positions.len() ==> #[trigger] picked(items, positions)[k]
                == items[positions[k]],
{
}

/// A table fits rules and texts if it has a row per text and a column per rule.
pub proof fn law_table_shape(table: Seq<Seq<bool>>, rules: nat, texts: nat)
    ensures
        fits(table, rules, texts) <==> table.len() == texts && forall|i: int|
            0 <= i < texts ==> (#[trigger] table[i]).len() == rules,
{
}

/// Single values are modelled by all of their characters.
pub proof fn law_values_are_modelled_whole(
    language: Language,
    rule: TranslationValidationRule,
    string: String,
    validator: TranslationValidator,
)
    ensures
        language@ == language.name@,
        rule@.name == rule.name@,
        rule@.pattern == rule.pattern@,
        optional_text(Some(string)) == Some(string@),
        optional_text(None) == None::<Seq<char>>,
        optional_rules(Some(validator)) == Some(validator@),
        optional_rules(None) is None,
{
}

/// Errors and steps are modelled by all that they hold.
pub proof fn law_errors_and_steps_are_modelled_whole(
    rule_error: RuleError,
    error: TranslationError,
    step: Step,
)
    ensures
        match rule_error {
            RuleError::EmptyName => rule_error@ == RuleErrorModel::EmptyName,
            RuleError::EmptyPattern { name } => rule_error@ == (RuleErrorModel::EmptyPattern {
                name: name@,
            }),
            RuleError::InvalidPattern { name, source } => rule_error@ == (
            RuleErrorModel::InvalidPattern { name: name@, source }),
        },
        match error {
            TranslationError::SegmentCount { provider, expected, actual } => error@ == (
            TranslationErrorModel::SegmentCount {
                provider: provider@,
                expected: expected as nat,
                actual: actual as nat,
            }),
            TranslationError::Validation { provider, message } => error@ == (
            TranslationErrorModel::Validation { provider: provider@, message: message@ }),
        },
        match step {
            Step::Send(translation) => step@ == StepModel::Send(translation@),
            Step::Done(Ok((provider_id, translated))) => step@ == StepModel::Done(
                Ok((provider_id@, texts(translated@))),
            ),
            Step::Done(Err(error)) => step@ == StepModel::Done(Err(error@)),
        },
{
}

/// Every provider reads feedback but three, and one that does is asked again
/// after its first and its second attempt, never after its third.
pub proof fn law_who_is_asked_again(provider: Provider, attempt: nat)
    ensures
        reads_feedback(provider) <==> !(provider is DeepL || provider is GoogleCloudTranslation
            || provider is Caiyun),
        retry_allowed(provider, attempt) <==> (attempt == 0 || attempt == 1) && !(provider is DeepL
            || provider is GoogleCloudTranslation || provider is Caiyun),
{
}

/// A hosted model sees the image exactly where vision is set, whichever
/// provider hosts it and whatever local models can do. A local model sees it
/// exactly where vision is set and the model can.
pub proof fn law_who_sees_the_image(
    selection: ModelSelection,
    generation: GenerationConfig,
    local_vision: bool,
)
    ensures
        !(selection.provider is Local) ==> (sees_image(&selection, &generation, local_vision)
            <==> generation.vision == Some(true)),
        selection.provider is Local ==> (sees_image(&selection, &generation, local_vision)
            <==> generation.vision == Some(true) && local_vision),
{
}

/// A loaded model serves a selection that names the same model, or likewise
/// none, and the same quantization, or likewise none; and no other. A slot
/// holds what the model in it serves.
pub proof fn law_loaded_model_serves_its_like<T>(loaded: LoadedLocal<T>, selection: ModelSelection)
    ensures
        loaded.serves(&selection) <==> {
            &&& loaded.model is Some <==> selection.model is Some
            &&& loaded.model is Some ==> loaded.model->0@ == selection.model->0@
            &&& loaded.quantization is Some <==> selection.quantization is Some
            &&& loaded.quantization is Some ==> loaded.quantization->0@
                == selection.quantization->0@
        },
        (LocalSlot { loaded: Some(loaded) }).holds(&selection) <==> loaded.serves(&selection),
        !(LocalSlot::<T> { loaded: None }).holds(&selection),
{
}

/// A pattern is compiled as it is written.
pub proof fn law_pattern_is_compiled_as_written(pattern: Seq<char>, expression: regex::Regex)
    ensures
        compiled(pattern) == regex_new(pattern, usize::BITS as nat),
        compiles_to(pattern, expression) <==> match regex_new(pattern, usize::BITS as nat) {
            Ok(found) => found == expression,
            Err(_) => false,
        },
{
}

} // verus!
