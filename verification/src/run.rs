//! Requests and replies, until every segment is translated.

use crate::error::{TranslationError, TranslationErrorModel};
use crate::language::Language;
use crate::model::Provider;
use crate::positions::{lemma_positions_where, numbers};
use crate::retry::{
    merge_retry_translations, merged, reads_feedback, retry_allowed, should_retry_validation,
    MAX_VALIDATION_ATTEMPTS,
};
use crate::text::{optional_text, texts};
use crate::validation::{
    feedback, feedback_of, fits, flagged_indices, flagged_positions, invalid_positions,
    lemma_violated_iff_flagged, match_table, rows, text_flagged, violated_positions, RuleModel,
    TranslationValidator,
};
use vstd::prelude::*;

verus! {

/// What is to be translated.
#[derive(Debug)]
pub struct TranslationRequest {
    pub segments: Vec<String>,
    pub target_language: Language,
    pub validator: Option<TranslationValidator>,
}

/// One request to a provider: the segments to translate, and what was wrong
/// with the translations that they had.
#[derive(Debug)]
pub struct Attempt {
    pub segments: Vec<String>,
    pub feedback: Option<String>,
}

#[derive(Debug)]
struct Retry {
    indices: Vec<usize>,
    feedback: String,
    translated: Vec<String>,
}

/// A translation that waits for a provider's reply.
#[derive(Debug)]
pub struct Translation {
    provider: Provider,
    provider_id: &'static str,
    segments: Vec<String>,
    target_language: Language,
    validator: Option<TranslationValidator>,
    attempt: usize,
    retry: Option<Retry>,
}

/// What follows a reply: another request, or the end.
#[derive(Debug)]
pub enum Step {
    Send(Translation),
    Done(Result<(&'static str, Vec<String>), TranslationError>),
}

/// What a second or later attempt at a translation is about.
pub struct RetryModel {
    /// The positions of the segments that are asked for again.
    pub indices: Seq<int>,
    /// What was wrong with their translations.
    pub feedback: Seq<char>,
    /// The translations so far.
    pub translated: Seq<Seq<char>>,
}

/// A translation under way.
pub struct RunModel {
    pub provider: Provider,
    pub provider_id: Seq<char>,
    pub segments: Seq<Seq<char>>,
    /// The rules that translations are held to, if any.
    pub rules: Option<Seq<RuleModel>>,
    pub language: Seq<char>,
    /// The number of the attempt, counted from zero.
    pub attempt: nat,
    /// `None` during the first attempt.
    pub retry: Option<RetryModel>,
}

/// The end of a translation: the provider's name and the translations, or an
/// error.
pub type Outcome = Result<(Seq<char>, Seq<Seq<char>>), TranslationErrorModel>;

/// What follows a reply.
pub enum StepModel {
    Send(RunModel),
    Done(Outcome),
}

impl Retry {
    spec fn model(self) -> RetryModel {
        RetryModel {
            indices: numbers(self.indices@),
            feedback: self.feedback@,
            translated: texts(self.translated@),
        }
    }
}

impl View for Translation {
    type V = RunModel;

    closed spec fn view(&self) -> RunModel {
        RunModel {
            provider: self.provider,
            provider_id: self.provider_id@,
            segments: texts(self.segments@),
            rules: optional_rules(self.validator),
            language: self.target_language@,
            attempt: self.attempt as nat,
            retry: match self.retry {
                Some(retry) => Some(retry.model()),
                None => None,
            },
        }
    }
}

/// The rules of an optional validator.
pub open spec fn optional_rules(validator: Option<TranslationValidator>) -> Option<
    Seq<RuleModel>,
> {
    match validator {
        Some(validator) => Some(validator@),
        None => None,
    }
}

/// The characters of an end.
pub open spec fn outcome_of(
    result: Result<(&'static str, Vec<String>), TranslationError>,
) -> Outcome {
    match result {
        Ok((provider_id, translated)) => Ok((provider_id@, texts(translated@))),
        Err(error) => Err(error@),
    }
}

impl View for Step {
    type V = StepModel;

    open spec fn view(&self) -> StepModel {
        match self {
            Step::Send(translation) => StepModel::Send(translation@),
            Step::Done(result) => StepModel::Done(outcome_of(*result)),
        }
    }
}

/// The items at `positions`.
pub open spec fn picked<A>(items: Seq<A>, positions: Seq<int>) -> Seq<A> {
    Seq::new(positions.len(), |k: int| items[positions[k]])
}

/// A translation whose first request is still to be answered.
pub open spec fn first_attempt(
    provider: Provider,
    provider_id: Seq<char>,
    segments: Seq<Seq<char>>,
    rules: Option<Seq<RuleModel>>,
    language: Seq<char>,
) -> RunModel {
    RunModel { provider, provider_id, segments, rules, language, attempt: 0, retry: None }
}

/// The segments of the request: all of them at first, later only those whose
/// translations were invalid.
pub open spec fn attempt_segments(run: RunModel) -> Seq<Seq<char>> {
    match run.retry {
        Some(retry) => picked(run.segments, retry.indices),
        None => run.segments,
    }
}

/// The feedback that goes with the request.
pub open spec fn attempt_feedback(run: RunModel) -> Option<Seq<char>> {
    match run.retry {
        Some(retry) => Some(retry.feedback),
        None => None,
    }
}

/// The translations, once a reply of the right length is in.
pub open spec fn with_reply(run: RunModel, reply: Seq<Seq<char>>) -> Seq<Seq<char>> {
    match run.retry {
        Some(retry) => merged(retry.translated, retry.indices, reply),
        None => reply,
    }
}

/// What follows once every segment has a translation, given which rules match
/// which of them: the end, if none does or no further attempt is allowed, else
/// an attempt that asks again for what is flagged.
pub open spec fn judged(
    run: RunModel,
    translated: Seq<Seq<char>>,
    table: Seq<Seq<bool>>,
) -> StepModel {
    match run.rules {
        None => StepModel::Done(Ok((run.provider_id, translated))),
        Some(rules) => match feedback_of(rules, table, translated, run.language) {
            None => StepModel::Done(Ok((run.provider_id, translated))),
            Some(message) => if retry_allowed(run.provider, run.attempt) {
                let indices = flagged_positions(table);
                StepModel::Send(
                    RunModel {
                        attempt: run.attempt + 1,
                        retry: Some(
                            RetryModel {
                                indices,
                                feedback: feedback_of(
                                    rules,
                                    picked(table, indices),
                                    picked(translated, indices),
                                    run.language,
                                )->0,
                                translated,
                            },
                        ),
                        ..run
                    },
                )
            } else {
                StepModel::Done(
                    Err(
                        TranslationErrorModel::Validation { provider: run.provider_id, message },
                    ),
                )
            },
        },
    }
}

/// What the rules have to say of `translated`, if anything.
pub open spec fn complaint(run: RunModel, translated: Seq<Seq<char>>) -> Option<Seq<char>> {
    match run.rules {
        Some(rules) => feedback(rules, translated, run.language),
        None => None,
    }
}

/// The next attempt, which asks again for what is invalid in `translated`.
pub open spec fn next_attempt(run: RunModel, translated: Seq<Seq<char>>) -> RunModel {
    let rules = run.rules->0;
    let indices = invalid_positions(rules, translated);
    RunModel {
        attempt: run.attempt + 1,
        retry: Some(
            RetryModel {
                indices,
                feedback: feedback(rules, picked(translated, indices), run.language)->0,
                translated,
            },
        ),
        ..run
    }
}

/// What follows `reply`.
pub open spec fn advanced(run: RunModel, reply: Seq<Seq<char>>) -> StepModel {
    let expected = attempt_segments(run).len();
    let translated = with_reply(run, reply);
    if reply.len() != expected {
        StepModel::Done(
            Err(
                TranslationErrorModel::SegmentCount {
                    provider: run.provider_id,
                    expected,
                    actual: reply.len(),
                },
            ),
        )
    } else {
        match complaint(run, translated) {
            None => StepModel::Done(Ok((run.provider_id, translated))),
            Some(message) => if retry_allowed(run.provider, run.attempt) {
                StepModel::Send(next_attempt(run, translated))
            } else {
                StepModel::Done(
                    Err(
                        TranslationErrorModel::Validation { provider: run.provider_id, message },
                    ),
                )
            },
        }
    }
}

/// The positions of a retry are those of segments, and each segment has a
/// translation already.
pub open spec fn well_formed(run: RunModel) -> bool {
    &&& run.segments.len() > 0
    &&& run.attempt < MAX_VALIDATION_ATTEMPTS
    &&& run.retry matches Some(retry) ==> {
        &&& retry.translated.len() == run.segments.len()
        &&& forall|k: int|
            0 <= k < retry.indices.len() ==> 0 <= #[trigger] retry.indices[k] < run.segments.len()
    }
}

/// Everything that a retry rests on: it follows a first attempt, there are
/// rules, the provider reads feedback, and exactly the translations that the
/// rules forbid, of which there are some, are asked for again, with feedback
/// on them.
pub open spec fn in_order(run: RunModel) -> bool {
    &&& well_formed(run)
    &&& run.retry is Some <==> run.attempt > 0
    &&& run.retry matches Some(retry) ==> {
        &&& run.rules is Some
        &&& reads_feedback(run.provider)
        &&& retry.indices == invalid_positions(run.rules->0, retry.translated)
        &&& retry.indices.len() > 0
        &&& feedback(run.rules->0, picked(retry.translated, retry.indices), run.language) == Some(
            retry.feedback,
        )
    }
}

/// What is flagged in a table is flagged, and draws feedback, by itself.
pub proof fn lemma_picked_flagged(table: Seq<Seq<bool>>, rules: nat)
    requires
        fits(table, rules, table.len()),
        violated_positions(table, rules).len() > 0,
    ensures
        flagged_positions(table).len() > 0,
        forall|k: int|
            0 <= k < flagged_positions(table).len() ==> 0 <= #[trigger] flagged_positions(table)[k]
                < table.len(),
        fits(picked(table, flagged_positions(table)), rules, flagged_positions(table).len()),
        violated_positions(picked(table, flagged_positions(table)), rules).len() > 0,
{
    let indices = flagged_positions(table);
    let part = picked(table, indices);
    lemma_violated_iff_flagged(table, rules);
    lemma_positions_where(table.len(), text_flagged(table));
    lemma_violated_iff_flagged(part, rules);
    lemma_positions_where(part.len(), text_flagged(part));
    assert(text_flagged(table)(indices[0]));
    assert(part[0] == table[indices[0]]);
    assert(text_flagged(part)(0));
    assert(flagged_positions(part).contains(0));
}

/// Matching some of the texts gives some of the rows.
pub proof fn lemma_picked_table(
    rules: Seq<RuleModel>,
    translated: Seq<Seq<char>>,
    positions: Seq<int>,
)
    requires
        forall|k: int|
            0 <= k < positions.len() ==> 0 <= #[trigger] positions[k] < translated.len(),
    ensures
        picked(match_table(rules, translated), positions) == match_table(
            rules,
            picked(translated, positions),
        ),
{
    let left = picked(match_table(rules, translated), positions);
    let right = match_table(rules, picked(translated, positions));
    assert forall|k: int| 0 <= k < positions.len() implies left[k] == right[k] by {
        assert(left[k] =~= right[k]);
    }
    assert(left =~= right);
}

/// The next attempt asks for something, in order.
pub proof fn lemma_next_in_order(run: RunModel, translated: Seq<Seq<char>>)
    requires
        well_formed(run),
        run.rules is Some,
        translated.len() == run.segments.len(),
        complaint(run, translated) is Some,
        retry_allowed(run.provider, run.attempt),
    ensures
        in_order(next_attempt(run, translated)),
{
    let rules = run.rules->0;
    let table = match_table(rules, translated);
    lemma_picked_flagged(table, rules.len());
    lemma_picked_table(rules, translated, flagged_positions(table));
}

/// With the rules' own table, `judged` is what `advanced` says of a reply.
proof fn lemma_judged(run: RunModel, reply: Seq<Seq<char>>)
    requires
        well_formed(run),
        run.rules is Some,
        reply.len() == attempt_segments(run).len(),
        with_reply(run, reply).len() == run.segments.len(),
    ensures
        judged(run, with_reply(run, reply), match_table(run.rules->0, with_reply(run, reply)))
            == advanced(run, reply),
{
    let rules = run.rules->0;
    let translated = with_reply(run, reply);
    let table = match_table(rules, translated);
    if complaint(run, translated) is Some {
        lemma_picked_flagged(table, rules.len());
        lemma_picked_table(rules, translated, flagged_positions(table));
    }
}

fn pick(strings: &Vec<String>, indices: &Vec<usize>) -> (some: Vec<String>)
    requires
        forall|k: int| 0 <= k < indices@.len() ==> #[trigger] indices@[k] < strings@.len(),
    ensures
        texts(some@) == picked(texts(strings@), numbers(indices@)),
{
    let mut some: Vec<String> = Vec::new();
    let mut k: usize = 0;
    while k < indices.len()
        invariant
            k <= indices.len(),
            forall|k: int| 0 <= k < indices@.len() ==> #[trigger] indices@[k] < strings@.len(),
            some@.len() == k,
            forall|l: int|
                0 <= l < k ==> (#[trigger] some@[l])@ == strings@[indices@[l] as int]@,
        decreases indices.len() - k,
    {
        some.push(strings[indices[k]].clone());
        k = k + 1;
    }
    assert(texts(some@) =~= picked(texts(strings@), numbers(indices@)));
    some
}

fn copy_all(strings: &Vec<String>) -> (copies: Vec<String>)
    ensures
        texts(copies@) == texts(strings@),
{
    let mut copies: Vec<String> = Vec::new();
    let mut k: usize = 0;
    while k < strings.len()
        invariant
            k <= strings.len(),
            copies@ == strings@.take(k as int),
        decreases strings.len() - k,
    {
        copies.push(strings[k].clone());
        k = k + 1;
        assert(copies@ =~= strings@.take(k as int));
    }
    assert(copies@ =~= strings@);
    copies
}

fn pick_rows(table: &[Vec<bool>], indices: &Vec<usize>) -> (some: Vec<Vec<bool>>)
    requires
        forall|k: int| 0 <= k < indices@.len() ==> #[trigger] indices@[k] < table@.len(),
    ensures
        rows(some@) == picked(rows(table@), numbers(indices@)),
{
    let mut some: Vec<Vec<bool>> = Vec::new();
    let mut k: usize = 0;
    while k < indices.len()
        invariant
            k <= indices.len(),
            forall|k: int| 0 <= k < indices@.len() ==> #[trigger] indices@[k] < table@.len(),
            some@.len() == k,
            forall|l: int| 0 <= l < k ==> (#[trigger] some@[l])@ == table@[indices@[l] as int]@,
        decreases indices.len() - k,
    {
        let row = &table[indices[k]];
        let mut copy: Vec<bool> = Vec::new();
        let mut j: usize = 0;
        while j < row.len()
            invariant
                j <= row.len(),
                copy@ == row@.take(j as int),
            decreases row.len() - j,
        {
            copy.push(row[j]);
            j = j + 1;
            assert(copy@ =~= row@.take(j as int));
        }
        assert(copy@ =~= row@);
        some.push(copy);
        k = k + 1;
    }
    assert(rows(some@) =~= picked(rows(table@), numbers(indices@)));
    some
}

impl Translation {
    #[verifier::type_invariant]
    spec fn sound(self) -> bool {
        well_formed(self@)
    }

    /// A translation at its first attempt.
    pub(crate) fn new(
        provider: Provider,
        provider_id: &'static str,
        segments: Vec<String>,
        target_language: Language,
        validator: Option<TranslationValidator>,
    ) -> (translation: Self)
        requires
            segments@.len() > 0,
        ensures
            translation@ == first_attempt(
                provider,
                provider_id@,
                texts(segments@),
                optional_rules(validator),
                target_language@,
            ),
            in_order(translation@),
    {
        Translation {
            provider,
            provider_id,
            segments,
            target_language,
            validator,
            attempt: 0,
            retry: None,
        }
    }

    proof fn lemma_indices_in_range(self)
        requires
            self.sound(),
            self.retry is Some,
        ensures
            self.retry->0.translated@.len() == self.segments@.len(),
            forall|k: int|
                0 <= k < self.retry->0.indices@.len() ==> #[trigger] self.retry->0.indices@[k]
                    < self.segments@.len(),
    {
        let retry = self.retry->0;
        assert(self@.retry->0.translated.len() == retry.translated@.len());
        assert forall|k: int| 0 <= k < retry.indices@.len() implies #[trigger] retry.indices@[k]
            < self.segments@.len() by {
            assert(self@.retry->0.indices[k] == retry.indices@[k]);
        }
    }

    /// The request to send.
    pub fn attempt(&self) -> (attempt: Attempt)
        ensures
            texts(attempt.segments@) == attempt_segments(self@),
            optional_text(attempt.feedback) == attempt_feedback(self@),
    {
        proof {
            use_type_invariant(self);
        }
        match &self.retry {
            Some(retry) => {
                proof {
                    self.lemma_indices_in_range();
                }
                Attempt {
                    segments: pick(&self.segments, &retry.indices),
                    feedback: Some(retry.feedback.clone()),
                }
            },
            None => Attempt { segments: copy_all(&self.segments), feedback: None },
        }
    }

    /// Takes the reply to the request.
    pub fn advance(self, reply: Vec<String>) -> (step: Step)
        ensures
            step@ == advanced(self@, texts(reply@)),
            step matches Step::Send(next) ==> in_order(next@),
    {
        proof {
            use_type_invariant(&self);
        }
        let ghost run = self@;
        let ghost answer = texts(reply@);
        let expected: usize = match &self.retry {
            Some(retry) => retry.indices.len(),
            None => self.segments.len(),
        };
        assert(expected == attempt_segments(run).len());
        if reply.len() != expected {
            return Step::Done(
                Err(
                    TranslationError::SegmentCount {
                        provider: self.provider_id,
                        expected,
                        actual: reply.len(),
                    },
                ),
            );
        }
        proof {
            if self.retry is Some {
                self.lemma_indices_in_range();
            }
        }
        let Translation {
            provider,
            provider_id,
            segments,
            target_language,
            validator,
            attempt,
            retry,
        } = self;
        let translated = match retry {
            Some(retry) => {
                let mut translated = retry.translated;
                merge_retry_translations(
                    translated.as_mut_slice(),
                    retry.indices.as_slice(),
                    reply,
                );
                translated
            },
            None => reply,
        };
        assert(texts(translated@) == with_reply(run, answer));
        assert(translated@.len() == segments@.len());
        let table = match &validator {
            Some(validator) => validator.match_all(translated.as_slice()),
            None => Vec::new(),
        };
        let received = Translation {
            provider,
            provider_id,
            segments,
            target_language,
            validator,
            attempt,
            retry: None,
        };
        proof {
            if run.rules is Some {
                lemma_judged(run, answer);
                if complaint(run, texts(translated@)) is Some && retry_allowed(
                    run.provider,
                    run.attempt,
                ) {
                    lemma_next_in_order(run, texts(translated@));
                }
            }
        }
        received.judge(translated, table.as_slice())
    }

    /// Decides on `translated`, a translation of every segment, given which
    /// rules match which of them.
    pub fn judge(self, translated: Vec<String>, table: &[Vec<bool>]) -> (step: Step)
        requires
            translated@.len() == self@.segments.len(),
            self@.rules matches Some(rules) ==> fits(
                rows(table@),
                rules.len(),
                translated@.len(),
            ),
        ensures
            step@ == judged(self@, texts(translated@), rows(table@)),
    {
        proof {
            use_type_invariant(&self);
        }
        let Translation { provider, provider_id, segments, target_language, validator, attempt, .. } =
            self;
        let validator = match validator {
            Some(validator) => validator,
            None => {
                return Step::Done(Ok((provider_id, translated)));
            },
        };
        let message = match validator.feedback_on(table, translated.as_slice(), target_language) {
            Some(message) => message,
            None => {
                return Step::Done(Ok((provider_id, translated)));
            },
        };
        if !should_retry_validation(provider, attempt) {
            return Step::Done(Err(TranslationError::Validation { provider: provider_id, message }));
        }
        proof {
            lemma_picked_flagged(rows(table@), validator@.len());
        }
        let indices = flagged_indices(table);
        assert forall|k: int| 0 <= k < indices@.len() implies #[trigger] indices@[k]
            < translated@.len() by {
            assert(numbers(indices@)[k] == indices@[k]);
        }
        let invalid = pick(&translated, &indices);
        let invalid_table = pick_rows(table, &indices);
        assert(texts(invalid@).len() == numbers(indices@).len());
        let feedback = validator.feedback_on(
            invalid_table.as_slice(),
            invalid.as_slice(),
            target_language,
        ).unwrap();
        Step::Send(
            Translation {
                provider,
                provider_id,
                segments,
                target_language,
                validator: Some(validator),
                attempt: attempt + 1,
                retry: Some(Retry { indices, feedback, translated }),
            },
        )
    }
}

} // verus!
