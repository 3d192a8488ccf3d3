//! What holds of a run: what is asked, where replies go, and how it ends.

use crate::error::TranslationErrorModel;
use crate::feedback_laws::{
    any_match, law_feedback_wording, law_invalid_positions_are_those_of_matches,
};
use crate::laws::{
    law_attempts_are_bounded, law_feedback_iff_invalid, law_invalid_positions, outcome,
};
use crate::model::Provider;
use crate::retry::merged;
use crate::run::{
    advanced, attempt_feedback, attempt_segments, first_attempt, in_order, judged,
    lemma_picked_flagged, lemma_picked_table, picked, with_reply, RunModel, StepModel,
};
use crate::validation::{
    feedback, feedback_of, fits, flagged_positions, invalid_positions, match_table, violates,
    RuleModel,
};
use vstd::prelude::*;

verus! {

/// A replacement takes its place unless a later one has the same place, and
/// what no replacement is for stays.
pub proof fn law_last_replacement_stays(
    base: Seq<Seq<char>>,
    indices: Seq<int>,
    replacements: Seq<Seq<char>>,
)
    requires
        indices.len() == replacements.len(),
        forall|k: int| 0 <= k < indices.len() ==> 0 <= #[trigger] indices[k] < base.len(),
    ensures
        merged(base, indices, replacements).len() == base.len(),
        forall|k: int|
            0 <= k < indices.len() && (forall|l: int|
                k < l < indices.len() ==> #[trigger] indices[l] != indices[k]) ==> merged(
                base,
                indices,
                replacements,
            )[#[trigger] indices[k]] == replacements[k],
        forall|i: int|
            0 <= i < base.len() && (forall|l: int|
                0 <= l < indices.len() ==> #[trigger] indices[l] != i) ==> #[trigger] merged(
                base,
                indices,
                replacements,
            )[i] == base[i],
    decreases indices.len(),
{
    if indices.len() > 0 {
        let front = indices.drop_last();
        let fronts = replacements.drop_last();
        law_last_replacement_stays(base, front, fronts);
        let before = merged(base, front, fronts);
        let after = merged(base, indices, replacements);
        let last = indices.len() - 1;
        assert(after == before.update(indices[last], replacements[last]));
        assert forall|k: int|
            0 <= k < indices.len() && (forall|l: int|
                k < l < indices.len() ==> #[trigger] indices[l] != indices[k]) implies after[
        #[trigger] indices[k]] == replacements[k] by {
            if k < last {
                assert(indices[last] != indices[k]);
                assert(front[k] == indices[k]);
                assert forall|l: int| k < l < front.len() implies #[trigger] front[l]
                    != front[k] by {
                    assert(front[l] == indices[l]);
                }
                assert(before[front[k]] == fronts[k]);
            }
        }
        assert forall|i: int|
            0 <= i < base.len() && (forall|l: int|
                0 <= l < indices.len() ==> #[trigger] indices[l] != i) implies after[i]
            == base[i] by {
            assert(indices[last] != i);
            assert forall|l: int| 0 <= l < front.len() implies #[trigger] front[l] != i by {
                assert(front[l] == indices[l]);
            }
        }
    }
}

/// A run starts with what it was given. Its first request is for every segment,
/// without feedback, and its first reply is taken whole.
pub proof fn law_first_request_is_for_everything(
    provider: Provider,
    provider_id: Seq<char>,
    segments: Seq<Seq<char>>,
    rules: Option<Seq<RuleModel>>,
    language: Seq<char>,
    reply: Seq<Seq<char>>,
)
    ensures
        ({
            let run = first_attempt(provider, provider_id, segments, rules, language);
            &&& run.provider == provider
            &&& run.provider_id == provider_id
            &&& run.segments == segments
            &&& run.rules == rules
            &&& run.language == language
            &&& run.attempt == 0
            &&& run.retry is None
            &&& attempt_segments(run) == segments
            &&& attempt_feedback(run) is None
            &&& with_reply(run, reply) == reply
            &&& segments.len() > 0 ==> in_order(run)
        }),
{
}

/// A retry asks for the segments at its positions, in their order, and sends
/// its feedback.
pub proof fn law_retry_sends_what_it_holds(run: RunModel)
    requires
        run.retry is Some,
    ensures
        attempt_segments(run).len() == run.retry->0.indices.len(),
        forall|k: int|
            0 <= k < run.retry->0.indices.len() ==> #[trigger] attempt_segments(run)[k]
                == run.segments[run.retry->0.indices[k]],
        attempt_feedback(run) == Some(run.retry->0.feedback),
{
}

/// A retry in order asks for the segments at its positions, in their order, and
/// sends the feedback on the translations that these have.
pub proof fn law_retry_asks_and_tells(run: RunModel)
    requires
        in_order(run),
        run.retry is Some,
    ensures
        ({
            let retry = run.retry->0;
            &&& run.rules is Some
            &&& attempt_segments(run).len() == retry.indices.len()
            &&& forall|k: int|
                0 <= k < retry.indices.len() ==> #[trigger] attempt_segments(run)[k]
                    == run.segments[retry.indices[k]]
            &&& attempt_feedback(run) is Some
            &&& attempt_feedback(run) == feedback(
                run.rules->0,
                Seq::new(retry.indices.len(), |k: int| retry.translated[retry.indices[k]]),
                run.language,
            )
        }),
{
    let retry = run.retry->0;
    assert(picked(retry.translated, retry.indices) =~= Seq::new(
        retry.indices.len(),
        |k: int| retry.translated[retry.indices[k]],
    ));
}

/// Each text of a reply to a retry becomes the translation of the segment that
/// it was asked for, and the other translations stay.
pub proof fn law_reply_lands_where_it_was_asked_for(run: RunModel, reply: Seq<Seq<char>>)
    requires
        run.retry is Some,
        reply.len() == run.retry->0.indices.len(),
        forall|k: int|
            0 <= k < run.retry->0.indices.len() ==> 0 <= #[trigger] run.retry->0.indices[k]
                < run.retry->0.translated.len(),
        forall|k: int, l: int|
            0 <= k < l < run.retry->0.indices.len() ==> #[trigger] run.retry->0.indices[k]
                != #[trigger] run.retry->0.indices[l],
    ensures
        with_reply(run, reply).len() == run.retry->0.translated.len(),
        forall|k: int|
            0 <= k < reply.len() ==> with_reply(run, reply)[#[trigger] run.retry->0.indices[k]]
                == reply[k],
        forall|i: int|
            0 <= i < run.retry->0.translated.len() && !run.retry->0.indices.contains(i)
                ==> #[trigger] with_reply(run, reply)[i] == run.retry->0.translated[i],
{
    let retry = run.retry->0;
    law_last_replacement_stays(retry.translated, retry.indices, reply);
    assert forall|k: int| 0 <= k < reply.len() implies with_reply(run, reply)[
    #[trigger] retry.indices[k]] == reply[k] by {
        assert forall|l: int| k < l < retry.indices.len() implies #[trigger] retry.indices[l]
            != retry.indices[k] by {}
    }
    assert forall|i: int|
        0 <= i < retry.translated.len() && !retry.indices.contains(
            i,
        ) implies #[trigger] with_reply(run, reply)[i] == retry.translated[i] by {
        assert forall|l: int| 0 <= l < retry.indices.len() implies #[trigger] retry.indices[l]
            != i by {
            if retry.indices[l] == i {
                assert(retry.indices.contains(i));
            }
        }
    }
}

/// What a run in order has: something to translate, fewer than three attempts
/// behind it, and, from the second attempt on, a translation for every segment,
/// rules, and a retry of exactly the translations that a rule matches.
pub proof fn law_run_in_order(run: RunModel)
    requires
        in_order(run),
    ensures
        run.segments.len() > 0,
        run.attempt <= 2,
        run.retry is Some <==> run.attempt > 0,
        run.retry matches Some(retry) ==> {
            &&& run.rules is Some
            &&& !(run.provider is DeepL || run.provider is GoogleCloudTranslation
                || run.provider is Caiyun)
            &&& retry.translated.len() == run.segments.len()
            &&& retry.indices.len() > 0
            &&& forall|k: int|
                0 <= k < retry.indices.len() ==> 0 <= #[trigger] retry.indices[k]
                    < run.segments.len()
            &&& forall|k: int, l: int|
                0 <= k < l < retry.indices.len() ==> #[trigger] retry.indices[k]
                    < #[trigger] retry.indices[l]
            &&& forall|i: int|
                0 <= i < run.segments.len() ==> (retry.indices.contains(i) <==> violates(
                    run.rules->0,
                    #[trigger] retry.translated[i],
                ))
        },
{
    if run.retry is Some {
        let retry = run.retry->0;
        let rules = run.rules->0;
        law_invalid_positions_are_those_of_matches(rules, retry.translated);
        assert forall|i: int| 0 <= i < run.segments.len() implies (retry.indices.contains(i)
            <==> violates(rules, #[trigger] retry.translated[i])) by {
            assert(invalid_positions(rules, retry.translated).contains(i) == retry.indices.contains(
                i,
            ));
        }
    }
}

/// A reply with another number of texts than were asked for ends the run with
/// both numbers.
pub proof fn law_wrong_number_of_texts(run: RunModel, reply: Seq<Seq<char>>)
    requires
        reply.len() != attempt_segments(run).len(),
    ensures
        advanced(run, reply) == StepModel::Done(
            Err(
                TranslationErrorModel::SegmentCount {
                    provider: run.provider_id,
                    expected: attempt_segments(run).len(),
                    actual: reply.len(),
                },
            ),
        ),
{
}

/// A reply that leaves no translation that a rule matches is a success, whoever
/// the provider is and whichever attempt it answers.
pub proof fn law_valid_reply_is_a_success(run: RunModel, reply: Seq<Seq<char>>)
    requires
        reply.len() == attempt_segments(run).len(),
        run.rules matches Some(rules) ==> forall|i: int|
            0 <= i < with_reply(run, reply).len() ==> !violates(
                rules,
                #[trigger] with_reply(run, reply)[i],
            ),
    ensures
        advanced(run, reply) == StepModel::Done(Ok((run.provider_id, with_reply(run, reply)))),
{
    if run.rules is Some {
        let rules = run.rules->0;
        let translated = with_reply(run, reply);
        law_feedback_iff_invalid(rules, translated, run.language);
        law_invalid_positions(rules, translated);
        if invalid_positions(rules, translated).len() > 0 {
            assert(violates(rules, translated[invalid_positions(rules, translated)[0]]));
        }
    }
}

/// A reply that leaves a translation that a rule matches is followed, where the
/// provider reads feedback and this was the first or the second attempt, by a
/// retry of exactly such translations, with feedback on them; and otherwise by
/// an error that holds the feedback on all translations.
pub proof fn law_invalid_reply_is_retried_or_reported(
    run: RunModel,
    reply: Seq<Seq<char>>,
    bad: int,
)
    requires
        reply.len() == attempt_segments(run).len(),
        run.rules is Some,
        0 <= bad < with_reply(run, reply).len(),
        violates(run.rules->0, with_reply(run, reply)[bad]),
    ensures
        feedback(run.rules->0, with_reply(run, reply), run.language) is Some,
        (run.attempt == 0 || run.attempt == 1) && !(run.provider is DeepL
            || run.provider is GoogleCloudTranslation || run.provider is Caiyun) ==> {
            let translated = with_reply(run, reply);
            let next = advanced(run, reply)->Send_0;
            let again = next.retry->0;
            &&& advanced(run, reply) is Send
            &&& next.provider == run.provider
            &&& next.provider_id == run.provider_id
            &&& next.segments == run.segments
            &&& next.rules == run.rules
            &&& next.language == run.language
            &&& next.attempt == run.attempt + 1
            &&& next.retry is Some
            &&& again.translated == translated
            &&& forall|k: int|
                0 <= k < again.indices.len() ==> 0 <= #[trigger] again.indices[k]
                    < translated.len()
            &&& forall|k: int, l: int|
                0 <= k < l < again.indices.len() ==> #[trigger] again.indices[k]
                    < #[trigger] again.indices[l]
            &&& forall|i: int|
                0 <= i < translated.len() ==> (again.indices.contains(i) <==> violates(
                    run.rules->0,
                    #[trigger] translated[i],
                ))
            &&& attempt_segments(next) == Seq::new(
                again.indices.len(),
                |k: int| run.segments[again.indices[k]],
            )
            &&& attempt_feedback(next) is Some
            &&& attempt_feedback(next) == feedback(
                run.rules->0,
                Seq::new(again.indices.len(), |k: int| translated[again.indices[k]]),
                run.language,
            )
        },
        run.attempt > 1 || run.provider is DeepL || run.provider is GoogleCloudTranslation
            || run.provider is Caiyun ==> advanced(run, reply) == StepModel::Done(
            Err(
                TranslationErrorModel::Validation {
                    provider: run.provider_id,
                    message: feedback(
                        run.rules->0,
                        with_reply(run, reply),
                        run.language,
                    )->0,
                },
            ),
        ),
{
    let rules = run.rules->0;
    let translated = with_reply(run, reply);
    let table = match_table(rules, translated);
    law_feedback_iff_invalid(rules, translated, run.language);
    law_invalid_positions(rules, translated);
    law_invalid_positions_are_those_of_matches(rules, translated);
    assert(violates(rules, translated[bad]));
    assert(invalid_positions(rules, translated).contains(bad));
    if (run.attempt == 0 || run.attempt == 1) && !(run.provider is DeepL
        || run.provider is GoogleCloudTranslation || run.provider is Caiyun) {
        let next = advanced(run, reply)->Send_0;
        let again = next.retry->0;
        lemma_picked_flagged(table, rules.len());
        lemma_picked_table(rules, translated, flagged_positions(table));
        assert forall|i: int| 0 <= i < translated.len() implies (again.indices.contains(i)
            <==> violates(rules, #[trigger] translated[i])) by {
            assert(invalid_positions(rules, translated).contains(i) == again.indices.contains(i));
        }
        assert(attempt_segments(next) =~= Seq::new(
            again.indices.len(),
            |k: int| run.segments[again.indices[k]],
        ));
        assert(picked(translated, again.indices) =~= Seq::new(
            again.indices.len(),
            |k: int| translated[again.indices[k]],
        ));
    }
}

/// A decision goes by what matched. Where nothing did, the translations are the
/// result. Where something did, they are sent back, as far as the provider
/// reads feedback and attempts are left, with feedback on exactly what matched,
/// and are reported otherwise.
pub proof fn law_decision_goes_by_matches(
    run: RunModel,
    translated: Seq<Seq<char>>,
    table: Seq<Seq<bool>>,
)
    requires
        run.rules is Some,
        table.len() == translated.len(),
        forall|i: int|
            0 <= i < table.len() ==> (#[trigger] table[i]).len() == run.rules->0.len(),
    ensures
        !any_match(table) ==> judged(run, translated, table) == StepModel::Done(
            Ok((run.provider_id, translated)),
        ),
        any_match(table) && (run.attempt == 0 || run.attempt == 1) && !(run.provider is DeepL
            || run.provider is GoogleCloudTranslation || run.provider is Caiyun) ==> {
            let next = judged(run, translated, table)->Send_0;
            let again = next.retry->0;
            &&& judged(run, translated, table) is Send
            &&& next.provider == run.provider
            &&& next.provider_id == run.provider_id
            &&& next.segments == run.segments
            &&& next.rules == run.rules
            &&& next.language == run.language
            &&& next.attempt == run.attempt + 1
            &&& next.retry is Some
            &&& again.translated == translated
            &&& again.indices == flagged_positions(table)
            &&& attempt_feedback(next) is Some
            &&& attempt_feedback(next) == feedback_of(
                run.rules->0,
                Seq::new(again.indices.len(), |k: int| table[again.indices[k]]),
                Seq::new(again.indices.len(), |k: int| translated[again.indices[k]]),
                run.language,
            )
        },
        any_match(table) && (run.attempt > 1 || run.provider is DeepL
            || run.provider is GoogleCloudTranslation || run.provider is Caiyun) ==> {
            &&& feedback_of(run.rules->0, table, translated, run.language) is Some
            &&& judged(run, translated, table) == StepModel::Done(
                Err(
                    TranslationErrorModel::Validation {
                        provider: run.provider_id,
                        message: feedback_of(run.rules->0, table, translated, run.language)->0,
                    },
                ),
            )
        },
{
    let rules = run.rules->0;
    assert(fits(table, rules.len(), table.len()));
    law_feedback_wording(rules, table, translated, run.language);
    if any_match(table) {
        lemma_picked_flagged(table, rules.len());
        let indices = flagged_positions(table);
        assert(picked(table, indices) =~= Seq::new(indices.len(), |k: int| table[indices[k]]));
        assert(picked(translated, indices) =~= Seq::new(
            indices.len(),
            |k: int| translated[indices[k]],
        ));
    }
}

/// Without rules, translations are the result whatever matched.
pub proof fn law_no_rules_no_objection(
    run: RunModel,
    translated: Seq<Seq<char>>,
    table: Seq<Seq<bool>>,
)
    requires
        run.rules is None,
    ensures
        judged(run, translated, table) == StepModel::Done(Ok((run.provider_id, translated))),
{
}

/// Three replies bring any translation to its end.
pub proof fn law_three_replies_are_enough(
    provider: Provider,
    provider_id: Seq<char>,
    segments: Seq<Seq<char>>,
    rules: Option<Seq<RuleModel>>,
    language: Seq<char>,
    replies: Seq<Seq<Seq<char>>>,
)
    requires
        segments.len() > 0,
        replies.len() == 3,
    ensures
        outcome(first_attempt(provider, provider_id, segments, rules, language), replies) is Some,
{
    law_attempts_are_bounded(
        first_attempt(provider, provider_id, segments, rules, language),
        replies,
    );
}

} // verus!
