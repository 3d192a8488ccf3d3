//! When to ask a provider again, and what to do with its second answer.

use crate::model::Provider;
use crate::positions::numbers;
use crate::text::texts;
use vstd::prelude::*;

verus! {

/// How often a provider is asked for one translation at most.
pub const MAX_VALIDATION_ATTEMPTS: usize = 3;

/// The provider reads corrective feedback. Plain translation services do not.
pub open spec fn reads_feedback(provider: Provider) -> bool {
    provider != Provider::DeepL && provider != Provider::GoogleCloudTranslation && provider
        != Provider::Caiyun
}

/// Whether asking `provider` again, with feedback, can help.
pub fn retries_with_feedback(provider: Provider) -> (retries: bool)
    ensures
        retries == reads_feedback(provider),
{
    !matches!(
        provider,
        Provider::DeepL | Provider::GoogleCloudTranslation | Provider::Caiyun
    )
}

/// The attempt numbered `attempt`, counted from zero, may be followed by
/// another.
pub open spec fn retry_allowed(provider: Provider, attempt: nat) -> bool {
    attempt + 1 < MAX_VALIDATION_ATTEMPTS && reads_feedback(provider)
}

/// Whether to ask `provider` again when the attempt numbered `attempt`,
/// counted from zero, is found wanting.
pub fn should_retry_validation(provider: Provider, attempt: usize) -> (retry: bool)
    requires
        attempt < usize::MAX,
    ensures
        retry == retry_allowed(provider, attempt as nat),
{
    attempt + 1 < MAX_VALIDATION_ATTEMPTS && retries_with_feedback(provider)
}

/// `base` with the text at `indices[k]` replaced by `replacements[k]`, for each
/// `k` in turn.
pub open spec fn merged(
    base: Seq<Seq<char>>,
    indices: Seq<int>,
    replacements: Seq<Seq<char>>,
) -> Seq<Seq<char>>
    decreases indices.len(),
{
    if indices.len() == 0 {
        base
    } else {
        merged(base, indices.drop_last(), replacements.drop_last()).update(
            indices.last(),
            replacements.last(),
        )
    }
}

/// Puts the second answers in the place of the first.
pub fn merge_retry_translations(
    translated: &mut [String],
    indices: &[usize],
    replacements: Vec<String>,
)
    requires
        indices@.len() == replacements@.len(),
        forall|k: int| 0 <= k < indices@.len() ==> #[trigger] indices@[k] < old(translated)@.len(),
    ensures
        final(translated)@.len() == old(translated)@.len(),
        texts(final(translated)@) == merged(
            texts(old(translated)@),
            numbers(indices@),
            texts(replacements@),
        ),
{
    let ghost base = texts(translated@);
    let ghost positions = numbers(indices@);
    let ghost news = texts(replacements@);
    let mut k: usize = 0;
    assert(positions.take(0) =~= Seq::<int>::empty());
    for replacement in it: replacements
        invariant
            k == it.index(),
            it.seq() == replacements@,
            indices@.len() == replacements@.len(),
            forall|k: int| 0 <= k < indices@.len() ==> #[trigger] indices@[k] < translated@.len(),
            translated@.len() == old(translated)@.len(),
            positions == numbers(indices@),
            news == texts(replacements@),
            texts(translated@) == merged(base, positions.take(k as int), news.take(k as int)),
    {
        let ghost before = texts(translated@);
        let index: usize = indices[k];
        translated[index] = replacement;
        proof {
            assert(texts(translated@) =~= before.update(index as int, news[k as int]));
            assert(positions.take(k + 1).drop_last() =~= positions.take(k as int));
            assert(news.take(k + 1).drop_last() =~= news.take(k as int));
        }
        k = k + 1;
    }
    assert(positions.take(k as int) =~= positions);
    assert(news.take(k as int) =~= news);
}

} // verus!
