//! What holds of the library as a whole.

use crate::local::{LoadedLocal, LocalSlot};
use crate::model::ModelSelection;
use crate::pattern::regex_is_match;
use crate::positions::lemma_positions_where;
use crate::retry::{merged, reads_feedback, MAX_VALIDATION_ATTEMPTS};
use crate::run::{
    advanced, attempt_feedback, attempt_segments, in_order, lemma_next_in_order, picked,
    with_reply, Outcome, RunModel, StepModel,
};
use crate::text::{
    decimal, digit, is_white_space, join_lines, json_char, json_chars, optional_text, trimmed, without_leading_space,
    without_trailing_space,
};
use crate::validation::{
    feedback, feedback_message, flagged_positions, invalid_positions, kept_rule,
    lemma_violated_iff_flagged, match_table, rule_error, rule_line,
    rule_lines, rule_violated, segment_line, segment_lines, text_flagged, violated_positions,
    violates, RuleModel,
};
use vstd::prelude::*;

verus! {

proof fn lemma_flagged(rules: Seq<RuleModel>, texts: Seq<Seq<char>>)
    ensures
        forall|i: int|
            0 <= i < texts.len() ==> #[trigger] text_flagged(match_table(rules, texts))(i)
                == violates(rules, texts[i]),
{
    let table = match_table(rules, texts);
    assert forall|i: int| 0 <= i < texts.len() implies #[trigger] text_flagged(table)(i)
        == violates(rules, texts[i]) by {
        if table[i].contains(true) {
            let j = choose|j: int| 0 <= j < table[i].len() && table[i][j] == true;
            assert(regex_is_match(rules[j].pattern, texts[i]));
        }
        if violates(rules, texts[i]) {
            let j = choose|j: int|
                0 <= j < rules.len() && #[trigger] regex_is_match(rules[j].pattern, texts[i]);
            assert(table[i][j] == true);
        }
    }
}

/// The invalid positions are exactly those of the texts that some rule
/// matches, each once, in ascending order.
pub proof fn law_invalid_positions(rules: Seq<RuleModel>, texts: Seq<Seq<char>>)
    ensures
        forall|k: int|
            0 <= k < invalid_positions(rules, texts).len() ==> 0 <= #[trigger] invalid_positions(
                rules,
                texts,
            )[k] < texts.len() && violates(rules, texts[invalid_positions(rules, texts)[k]]),
        forall|i: int|
            0 <= i < texts.len() && violates(rules, #[trigger] texts[i]) ==> invalid_positions(
                rules,
                texts,
            ).contains(i),
        forall|k: int, l: int|
            0 <= k < l < invalid_positions(rules, texts).len() ==> #[trigger] invalid_positions(
                rules,
                texts,
            )[k] < #[trigger] invalid_positions(rules, texts)[l],
{
    let table = match_table(rules, texts);
    lemma_flagged(rules, texts);
    lemma_positions_where(table.len(), text_flagged(table));
    assert forall|i: int| 0 <= i < texts.len() && violates(rules, #[trigger] texts[i]) implies
        invalid_positions(rules, texts).contains(i) by {
        assert(text_flagged(table)(i));
    }
}

/// There is feedback if and only if there is an invalid translation.
pub proof fn law_feedback_iff_invalid(
    rules: Seq<RuleModel>,
    texts: Seq<Seq<char>>,
    language: Seq<char>,
)
    ensures
        feedback(rules, texts, language) is Some <==> invalid_positions(rules, texts).len() > 0,
{
    lemma_violated_iff_flagged(match_table(rules, texts), rules.len());
}

/// `haystack` holds `needle` as a run of characters.
pub open spec fn occurs_in(needle: Seq<char>, haystack: Seq<char>) -> bool {
    exists|before: Seq<char>, after: Seq<char>| haystack == #[trigger] (before + needle + after)
}

proof fn lemma_occurs_within(needle: Seq<char>, part: Seq<char>, before: Seq<char>, after: Seq<char>)
    requires
        occurs_in(needle, part),
    ensures
        occurs_in(needle, before + part + after),
{
    let (b, a) = choose|b: Seq<char>, a: Seq<char>| part == #[trigger] (b + needle + a);
    assert(before + part + after =~= (before + b) + needle + (a + after));
}

proof fn lemma_line_occurs(lines: Seq<Seq<char>>, k: int)
    requires
        0 <= k < lines.len(),
    ensures
        occurs_in(lines[k], join_lines(lines)),
    decreases lines.len(),
{
    let none = Seq::<char>::empty();
    if lines.len() == 1 {
        assert(join_lines(lines) =~= none + lines[k] + none);
    } else {
        let head = join_lines(lines.drop_last());
        if k == lines.len() - 1 {
            assert(join_lines(lines) =~= (head + seq!['\n']) + lines[k] + none);
        } else {
            lemma_line_occurs(lines.drop_last(), k);
            lemma_occurs_within(lines[k], head, none, seq!['\n'] + lines.last());
            assert(join_lines(lines) =~= none + head + (seq!['\n'] + lines.last()));
        }
    }
}

/// Feedback names every rule that is violated and every translation that
/// violates one, and asks for the target language.
pub proof fn law_feedback_names_every_violation(
    rules: Seq<RuleModel>,
    texts: Seq<Seq<char>>,
    language: Seq<char>,
    i: int,
    j: int,
)
    requires
        0 <= i < texts.len(),
        0 <= j < rules.len(),
        regex_is_match(rules[j].pattern, texts[i]),
    ensures
        feedback(rules, texts, language) is Some,
        occurs_in(rule_line(rules[j]), feedback(rules, texts, language)->0),
        occurs_in(segment_line(i, texts[i]), feedback(rules, texts, language)->0),
        occurs_in(
            "Translate every segment completely into "@ + language,
            feedback(rules, texts, language)->0,
        ),
{
    let table = match_table(rules, texts);
    let violated = violated_positions(table, rules.len());
    let flagged = flagged_positions(table);
    lemma_positions_where(rules.len(), rule_violated(table));
    lemma_positions_where(table.len(), text_flagged(table));
    assert(table[i][j]);
    assert(table[i][j] == true);
    assert(rule_violated(table)(j));
    assert(text_flagged(table)(i));
    let c = choose|c: int| 0 <= c < violated.len() && violated[c] == j;
    let r = choose|r: int| 0 <= r < flagged.len() && flagged[r] == i;
    let violations = join_lines(rule_lines(rules, violated));
    let segments = join_lines(segment_lines(texts, flagged));
    lemma_line_occurs(rule_lines(rules, violated), c);
    lemma_line_occurs(segment_lines(texts, flagged), r);
    let opening =
        "Your previous response was invalid because one or more translated `text` fields matched forbidden validation rules:\n"@;
    let heading = "\n\nInvalid translated fields:\n"@;
    let order =
        "\n\nRegenerate the entire JSON response.\nTranslate every segment completely into "@;
    let closing = ".\nNo listed forbidden pattern is allowed in any `text` field."@;
    let message = feedback_message(violations, segments, language);
    assert(feedback(rules, texts, language) == Some(message));
    let rest = heading + segments + order + language + closing;
    lemma_occurs_within(rule_line(rules[j]), violations, opening, rest);
    assert(message =~= opening + violations + rest);
    let start = opening + violations + heading;
    lemma_occurs_within(segment_line(i, texts[i]), segments, start, order + language + closing);
    assert(message =~= start + segments + (order + language + closing));
    reveal_strlit(
        "\n\nRegenerate the entire JSON response.\nTranslate every segment completely into ",
    );
    reveal_strlit("Translate every segment completely into ");
    let call = "Translate every segment completely into "@;
    let before = order.take(order.len() - call.len());
    assert(order =~= before + call);
    assert(message =~= (start + segments + before) + (call + language) + closing);
}

/// Feedback is about the invalid translations only: it stays the same whatever
/// valid text stands in the other places.
pub proof fn law_feedback_ignores_valid_translations(
    rules: Seq<RuleModel>,
    left: Seq<Seq<char>>,
    right: Seq<Seq<char>>,
    language: Seq<char>,
)
    requires
        left.len() == right.len(),
        forall|i: int|
            0 <= i < left.len() ==> #[trigger] left[i] == right[i] || !violates(rules, left[i])
                && !violates(rules, right[i]),
    ensures
        feedback(rules, left, language) == feedback(rules, right, language),
        invalid_positions(rules, left) == invalid_positions(rules, right),
{
    let a = match_table(rules, left);
    let b = match_table(rules, right);
    assert forall|i: int, j: int| 0 <= i < left.len() && 0 <= j < rules.len() implies a[i][j]
        == b[i][j] by {
        if left[i] != right[i] {
            if a[i][j] {
                assert(regex_is_match(rules[j].pattern, left[i]));
            }
            if b[i][j] {
                assert(regex_is_match(rules[j].pattern, right[i]));
            }
        }
    }
    assert forall|i: int| 0 <= i < a.len() implies a[i] == b[i] by {
        assert(a[i] =~= b[i]);
    }
    assert(a =~= b);
    let flagged = flagged_positions(a);
    law_invalid_positions(rules, left);
    assert forall|k: int| 0 <= k < flagged.len() implies left[flagged[k]] == right[flagged[k]] by {
        assert(violates(rules, left[invalid_positions(rules, left)[k]]));
    }
    assert(segment_lines(left, flagged) =~= segment_lines(right, flagged));
}

proof fn lemma_decimal_is_one_line(n: nat)
    ensures
        !decimal(n).contains('\n'),
    decreases n,
{
    if n >= 10 {
        lemma_decimal_is_one_line(n / 10);
        assert(digit(n % 10) != '\n');
        assert forall|k: int| 0 <= k < decimal(n).len() implies decimal(n)[k] != '\n' by {
            if k < decimal(n / 10).len() {
                assert(decimal(n / 10)[k] == decimal(n)[k]);
            }
        }
    } else {
        assert(digit(n) != '\n');
    }
}

proof fn lemma_json_is_one_line(text: Seq<char>)
    ensures
        !json_chars(text).contains('\n'),
    decreases text.len(),
{
    if text.len() > 0 {
        lemma_json_is_one_line(text.drop_last());
        let head = json_chars(text.drop_last());
        let tail = json_char(text.last());
        assert(!tail.contains('\n'));
        assert forall|k: int| 0 <= k < json_chars(text).len() implies json_chars(text)[k]
            != '\n' by {
            if k < head.len() {
                assert(head[k] == json_chars(text)[k]);
            } else {
                assert(tail[k - head.len()] == json_chars(text)[k]);
            }
        }
    }
}

/// A flagged translation takes one line of the feedback, whatever text it is.
pub proof fn law_segment_takes_one_line(position: int, text: Seq<char>)
    requires
        position >= 0,
    ensures
        !segment_line(position, text).contains('\n'),
{
    let number = decimal(position as nat);
    let inside = json_chars(text);
    lemma_decimal_is_one_line(position as nat);
    lemma_json_is_one_line(text);
    reveal_strlit("- segment ");
    reveal_strlit(": ");
    let line = segment_line(position, text);
    let heading = "- segment "@.len();
    let start = heading + number.len() + ": "@.len() + 1;
    assert forall|k: int| 0 <= k < line.len() implies line[k] != '\n' by {
        if heading <= k < heading + number.len() {
            assert(number[k - heading] == line[k]);
        }
        if start <= k < start + inside.len() {
            assert(inside[k - start] == line[k]);
        }
    }
}

proof fn lemma_trailing(text: Seq<char>)
    ensures
        without_trailing_space(text).len() <= text.len(),
        without_trailing_space(text) == text.take(without_trailing_space(text).len() as int),
        without_trailing_space(text).len() > 0 ==> !is_white_space(
            without_trailing_space(text).last(),
        ),
    decreases text.len(),
{
    if text.len() > 0 && is_white_space(text.last()) {
        lemma_trailing(text.drop_last());
        let rest = without_trailing_space(text);
        assert(rest =~= text.take(rest.len() as int));
    } else {
        assert(text =~= text.take(text.len() as int));
    }
}

proof fn lemma_leading(text: Seq<char>)
    ensures
        without_leading_space(text).len() > 0 ==> !is_white_space(
            without_leading_space(text).first(),
        ),
    decreases text.len(),
{
    if text.len() > 0 && is_white_space(text.first()) {
        lemma_leading(text.drop_first());
    }
}

proof fn lemma_trimmed(text: Seq<char>)
    ensures
        trimmed(text).len() > 0 ==> !is_white_space(trimmed(text).first()) && !is_white_space(
            trimmed(text).last(),
        ),
        trimmed(trimmed(text)) == trimmed(text),
{
    let tail = without_leading_space(text);
    lemma_leading(text);
    lemma_trailing(tail);
    if trimmed(text).len() > 0 {
        assert(trimmed(text).first() == tail.first());
    }
}

/// The name of an accepted rule is kept without white space at its ends and is
/// not empty, nor is its pattern; and the rule as it is kept is accepted again,
/// unchanged.
pub proof fn law_accepted_rule(rule: RuleModel)
    requires
        rule_error(rule) is None,
    ensures
        kept_rule(rule).name.len() > 0,
        !is_white_space(kept_rule(rule).name.first()),
        !is_white_space(kept_rule(rule).name.last()),
        kept_rule(rule).pattern == rule.pattern,
        rule.pattern.len() > 0,
        rule_error(kept_rule(rule)) is None,
        kept_rule(kept_rule(rule)) == kept_rule(rule),
{
    lemma_trimmed(rule.name);
}

/// A merge replaces the texts at `indices`, which are distinct, by the
/// replacements, and leaves all others.
pub proof fn law_merge_replaces_only_indices(
    base: Seq<Seq<char>>,
    indices: Seq<int>,
    replacements: Seq<Seq<char>>,
)
    requires
        indices.len() == replacements.len(),
        forall|k: int| 0 <= k < indices.len() ==> 0 <= #[trigger] indices[k] < base.len(),
        forall|k: int, l: int|
            0 <= k < l < indices.len() ==> #[trigger] indices[k] != #[trigger] indices[l],
    ensures
        merged(base, indices, replacements).len() == base.len(),
        forall|k: int|
            0 <= k < indices.len() ==> merged(base, indices, replacements)[#[trigger] indices[k]]
                == replacements[k],
        forall|i: int|
            0 <= i < base.len() && !indices.contains(i) ==> #[trigger] merged(
                base,
                indices,
                replacements,
            )[i] == base[i],
    decreases indices.len(),
{
    if indices.len() > 0 {
        let front = indices.drop_last();
        let front_replacements = replacements.drop_last();
        law_merge_replaces_only_indices(base, front, front_replacements);
        let before = merged(base, front, front_replacements);
        let after = merged(base, indices, replacements);
        assert(after == before.update(indices.last(), replacements.last()));
        assert forall|k: int| 0 <= k < indices.len() implies after[#[trigger] indices[k]]
            == replacements[k] by {
            if k < indices.len() - 1 {
                assert(front[k] == indices[k]);
                assert(front_replacements[k] == replacements[k]);
            }
        }
        assert forall|i: int| 0 <= i < base.len() && !indices.contains(i) implies after[i]
            == base[i] by {
            assert(indices.contains(indices.last())) by {
                assert(indices[indices.len() - 1] == indices.last());
            }
            if front.contains(i) {
                let k = choose|k: int| 0 <= k < front.len() && front[k] == i;
                assert(indices[k] == i);
            }
        }
    }
}

/// The end of a translation that gets `replies`, one after the other, if they
/// bring it to its end.
pub open spec fn outcome(run: RunModel, replies: Seq<Seq<Seq<char>>>) -> Option<Outcome>
    decreases replies.len(),
{
    if replies.len() == 0 {
        None
    } else {
        match advanced(run, replies[0]) {
            StepModel::Done(end) => Some(end),
            StepModel::Send(next) => outcome(next, replies.drop_first()),
        }
    }
}

proof fn lemma_reply_fits(run: RunModel, reply: Seq<Seq<char>>)
    requires
        in_order(run),
        reply.len() == attempt_segments(run).len(),
    ensures
        with_reply(run, reply).len() == run.segments.len(),
        run.retry matches Some(retry) ==> forall|i: int|
            0 <= i < run.segments.len() && !retry.indices.contains(i) ==> #[trigger] with_reply(
                run,
                reply,
            )[i] == retry.translated[i],
{
    if run.retry is Some {
        let retry = run.retry->0;
        law_invalid_positions(run.rules->0, retry.translated);
        law_merge_replaces_only_indices(retry.translated, retry.indices, reply);
    }
}

/// A reply that is followed by another request is followed by one that is in
/// order, of the same translation, one attempt later. It asks for at least one
/// segment, for those segments only whose translations are invalid, and gives
/// feedback.
pub proof fn law_retry_is_targeted(run: RunModel, reply: Seq<Seq<char>>)
    requires
        in_order(run),
        advanced(run, reply) is Send,
    ensures
        ({
            let next = advanced(run, reply)->Send_0;
            let translated = with_reply(run, reply);
            &&& in_order(next)
            &&& next == (RunModel { attempt: run.attempt + 1, retry: next.retry, ..run })
            &&& attempt_feedback(next) is Some
            &&& attempt_segments(next).len() > 0
            &&& attempt_segments(next) == picked(
                run.segments,
                invalid_positions(run.rules->0, translated),
            )
            &&& next.retry->0.translated == translated
        }),
{
    lemma_reply_fits(run, reply);
    lemma_next_in_order(run, with_reply(run, reply));
}

/// A translation ends, whatever the replies are, by the last attempt allowed.
pub proof fn law_attempts_are_bounded(run: RunModel, replies: Seq<Seq<Seq<char>>>)
    requires
        in_order(run),
        run.attempt + replies.len() >= MAX_VALIDATION_ATTEMPTS,
    ensures
        outcome(run, replies) is Some,
    decreases replies.len(),
{
    if advanced(run, replies[0]) is Send {
        law_retry_is_targeted(run, replies[0]);
        law_attempts_are_bounded(advanced(run, replies[0])->Send_0, replies.drop_first());
    }
}

/// A provider that reads no feedback is asked once.
pub proof fn law_no_retry_without_feedback(run: RunModel, reply: Seq<Seq<char>>)
    requires
        !reads_feedback(run.provider),
    ensures
        advanced(run, reply) is Done,
{
}

/// A provider that reads feedback is reported for its translations only once
/// every attempt is used up.
pub proof fn law_every_attempt_is_made(run: RunModel, replies: Seq<Seq<Seq<char>>>)
    requires
        in_order(run),
        reads_feedback(run.provider),
        outcome(run, replies) matches Some(Err(error)) && error is Validation,
    ensures
        run.attempt + replies.len() >= MAX_VALIDATION_ATTEMPTS,
    decreases replies.len(),
{
    if advanced(run, replies[0]) is Send {
        law_retry_is_targeted(run, replies[0]);
        law_every_attempt_is_made(advanced(run, replies[0])->Send_0, replies.drop_first());
    }
}

/// A translation that succeeds has a text for every segment, none of which
/// violates a rule, and is labelled with its provider.
pub proof fn law_success_is_complete_and_valid(run: RunModel, replies: Seq<Seq<Seq<char>>>)
    requires
        in_order(run),
        outcome(run, replies) matches Some(Ok(_)),
    ensures
        ({
            let (provider_id, translated) = outcome(run, replies)->0->Ok_0;
            &&& provider_id == run.provider_id
            &&& translated.len() == run.segments.len()
            &&& run.rules matches Some(rules) ==> forall|i: int|
                0 <= i < translated.len() ==> !violates(rules, #[trigger] translated[i])
        }),
    decreases replies.len(),
{
    let reply = replies[0];
    match advanced(run, reply) {
        StepModel::Send(next) => {
            law_retry_is_targeted(run, reply);
            law_success_is_complete_and_valid(next, replies.drop_first());
        },
        StepModel::Done(_) => {
            lemma_reply_fits(run, reply);
            if run.rules is Some {
                let translated = with_reply(run, reply);
                law_feedback_iff_invalid(run.rules->0, translated, run.language);
                law_invalid_positions(run.rules->0, translated);
            }
        },
    }
}

/// What is right is never changed: where a reply leaves a translation without
/// fault, that translation is the one in the end.
pub proof fn law_valid_translations_are_kept(
    run: RunModel,
    replies: Seq<Seq<Seq<char>>>,
    i: int,
)
    requires
        in_order(run),
        run.rules is Some,
        0 <= i < run.segments.len(),
        !violates(run.rules->0, with_reply(run, replies[0])[i]),
        outcome(run, replies) matches Some(Ok(_)),
    ensures
        outcome(run, replies)->0->Ok_0.1[i] == with_reply(run, replies[0])[i],
    decreases replies.len(),
{
    let rules = run.rules->0;
    let reply = replies[0];
    if advanced(run, reply) is Send {
        law_retry_is_targeted(run, reply);
        let next = advanced(run, reply)->Send_0;
        let rest = replies.drop_first();
        let translated = with_reply(run, reply);
        let indices = next.retry->0.indices;
        law_invalid_positions(rules, translated);
        if indices.contains(i) {
            let k = choose|k: int| 0 <= k < indices.len() && indices[k] == i;
            assert(violates(rules, translated[invalid_positions(rules, translated)[k]]));
        }
        if rest.len() > 0 && rest[0].len() == attempt_segments(next).len() {
            lemma_reply_fits(next, rest[0]);
            assert(with_reply(next, rest[0])[i] == translated[i]);
            law_valid_translations_are_kept(next, rest, i);
        }
    }
}

/// Without rules the first reply is the result, if it has a text for every
/// segment.
pub proof fn law_without_rules_the_reply_is_the_result(run: RunModel, reply: Seq<Seq<char>>)
    requires
        in_order(run),
        run.rules is None,
        reply.len() == run.segments.len(),
    ensures
        advanced(run, reply) == StepModel::Done(Ok((run.provider_id, reply))),
{
}

/// A loaded model serves exactly the selections of the same model in the same
/// quantization as the one that it was loaded for, that one included. An empty
/// slot serves none.
pub proof fn law_stored_model_serves<T>(
    loaded: LoadedLocal<T>,
    stored_for: ModelSelection,
    selection: ModelSelection,
)
    requires
        loaded.model == stored_for.model,
        loaded.quantization == stored_for.quantization,
    ensures
        (LocalSlot { loaded: Some(loaded) }).holds(&selection) <==> optional_text(
            stored_for.model,
        ) == optional_text(selection.model) && optional_text(stored_for.quantization)
            == optional_text(selection.quantization),
        (LocalSlot { loaded: Some(loaded) }).holds(&stored_for),
        !(LocalSlot::<T> { loaded: None }).holds(&selection),
{
}

} // verus!
