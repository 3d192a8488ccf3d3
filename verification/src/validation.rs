//! Validation of translated text against forbidden patterns.

use crate::language::Language;
use crate::pattern::{compiled, compiles_to, regex_is_match};
use crate::positions::{lemma_positions_where, numbers, positions_where};
use crate::text::{decimal, join_lines, json_string, optional_text, push_decimal, texts, to_json_string, trimmed};
use regex::Regex;
use vstd::prelude::*;

verus! {

/// A pattern that no translation may match, and the name it is reported under.
#[derive(Debug, PartialEq, Eq)]
pub struct TranslationValidationRule {
    pub name: String,
    pub pattern: String,
}

impl Clone for TranslationValidationRule {
    fn clone(&self) -> (copy: Self)
        ensures
            copy == *self,
    {
        TranslationValidationRule { name: self.name.clone(), pattern: self.pattern.clone() }
    }
}

/// A rule by the characters of its parts.
pub struct RuleModel {
    pub name: Seq<char>,
    pub pattern: Seq<char>,
}

impl View for TranslationValidationRule {
    type V = RuleModel;

    open spec fn view(&self) -> RuleModel {
        RuleModel { name: self.name@, pattern: self.pattern@ }
    }
}

/// The models of `rules`.
pub open spec fn rule_models(rules: Seq<TranslationValidationRule>) -> Seq<RuleModel> {
    Seq::new(rules.len(), |i: int| rules[i]@)
}

/// Why a rule is not accepted.
#[derive(Debug)]
pub enum RuleError {
    /// The name is empty or all white space.
    EmptyName,
    /// The pattern is empty.
    EmptyPattern { name: String },
    /// The pattern does not compile.
    InvalidPattern { name: String, source: regex::Error },
}

/// A rule error by the characters of its name.
pub enum RuleErrorModel {
    EmptyName,
    EmptyPattern { name: Seq<char> },
    InvalidPattern { name: Seq<char>, source: regex::Error },
}

impl View for RuleError {
    type V = RuleErrorModel;

    open spec fn view(&self) -> RuleErrorModel {
        match self {
            RuleError::EmptyName => RuleErrorModel::EmptyName,
            RuleError::EmptyPattern { name } => RuleErrorModel::EmptyPattern { name: name@ },
            RuleError::InvalidPattern { name, source } => RuleErrorModel::InvalidPattern {
                name: name@,
                source: *source,
            },
        }
    }
}

/// The message of a rule error.
pub open spec fn rule_error_message(error: RuleErrorModel) -> Seq<char> {
    match error {
        RuleErrorModel::EmptyName => "translation validation rule names must not be empty"@,
        RuleErrorModel::EmptyPattern { name } => "translation validation pattern for "@ + name
            + " must not be empty"@,
        RuleErrorModel::InvalidPattern { name, .. } =>
        "invalid translation validation pattern for "@ + name,
    }
}

impl RuleError {
    /// The message of this error. The reason why a pattern does not compile is
    /// not part of it.
    pub fn to_string(&self) -> (message: String)
        ensures
            message@ == rule_error_message(self@),
    {
        match self {
            RuleError::EmptyName => "translation validation rule names must not be empty".to_owned(),
            RuleError::EmptyPattern { name } => {
                let mut message = "translation validation pattern for ".to_owned();
                message.append(name.as_str());
                message.append(" must not be empty");
                message
            },
            RuleError::InvalidPattern { name, .. } => {
                let mut message = "invalid translation validation pattern for ".to_owned();
                message.append(name.as_str());
                message
            },
        }
    }
}

/// The rule as it is kept: with white space trimmed off its name.
pub open spec fn kept_rule(rule: RuleModel) -> RuleModel {
    RuleModel { name: trimmed(rule.name), pattern: rule.pattern }
}

/// What is wrong with a rule before its pattern is compiled, if anything.
pub open spec fn shape_error(rule: RuleModel) -> Option<RuleErrorModel> {
    let name = trimmed(rule.name);
    if name.len() == 0 {
        Some(RuleErrorModel::EmptyName)
    } else if rule.pattern.len() == 0 {
        Some(RuleErrorModel::EmptyPattern { name })
    } else {
        None
    }
}

/// What is wrong with a rule, if anything.
pub open spec fn rule_error(rule: RuleModel) -> Option<RuleErrorModel> {
    match shape_error(rule) {
        Some(error) => Some(error),
        None => match compiled(rule.pattern) {
            Ok(_) => None,
            Err(source) => Some(
                RuleErrorModel::InvalidPattern { name: trimmed(rule.name), source },
            ),
        },
    }
}

/// Checks all of a rule but whether its pattern compiles, and trims its name.
pub fn check_rule(rule: &TranslationValidationRule) -> (result: Result<
    TranslationValidationRule,
    RuleError,
>)
    ensures
        match result {
            Ok(kept) => shape_error(rule@) is None && kept@ == kept_rule(rule@),
            Err(error) => shape_error(rule@) == Some(error@),
        },
{
    let name = rule.name.as_str().trim();
    if name.is_empty() {
        return Err(RuleError::EmptyName);
    }
    if rule.pattern.as_str().is_empty() {
        return Err(RuleError::EmptyPattern { name: name.to_owned() });
    }
    Ok(TranslationValidationRule { name: name.to_owned(), pattern: rule.pattern.clone() })
}

/// Takes the outcome of compiling a rule's pattern: the expression, or the
/// compiler's error under the rule's name.
pub fn admit_pattern(name: &str, outcome: Result<Regex, regex::Error>) -> (result: Result<
    Regex,
    RuleError,
>)
    ensures
        match outcome {
            Ok(expression) => result matches Ok(kept) && kept == expression,
            Err(source) => result matches Err(error) && error@ == (RuleErrorModel::InvalidPattern {
                name: name@,
                source,
            }),
        },
{
    match outcome {
        Ok(expression) => Ok(expression),
        Err(source) => Err(RuleError::InvalidPattern { name: name.to_owned(), source }),
    }
}

/// The outcome of matching: for each text, for each rule, whether the rule's
/// pattern matches the text.
pub open spec fn match_table(rules: Seq<RuleModel>, texts: Seq<Seq<char>>) -> Seq<Seq<bool>> {
    Seq::new(
        texts.len(),
        |i: int| Seq::new(rules.len(), |j: int| regex_is_match(rules[j].pattern, texts[i])),
    )
}

/// The rows of a table.
pub open spec fn rows(table: Seq<Vec<bool>>) -> Seq<Seq<bool>> {
    Seq::new(table.len(), |i: int| table[i]@)
}

/// `table` has a row per text and a column per rule.
pub open spec fn fits(table: Seq<Seq<bool>>, rules: nat, texts: nat) -> bool {
    table.len() == texts && forall|i: int| 0 <= i < texts ==> (#[trigger] table[i]).len() == rules
}

/// The texts that some rule matches.
pub open spec fn text_flagged(table: Seq<Seq<bool>>) -> spec_fn(int) -> bool {
    |i: int| table[i].contains(true)
}

/// The rules that match some text.
pub open spec fn rule_violated(table: Seq<Seq<bool>>) -> spec_fn(int) -> bool {
    |j: int| exists|i: int| 0 <= i < table.len() && #[trigger] table[i][j]
}

/// The positions of the texts that some rule matches.
pub open spec fn flagged_positions(table: Seq<Seq<bool>>) -> Seq<int> {
    positions_where(table.len(), text_flagged(table))
}

/// The positions, among `rules` rules, of those that match some text.
pub open spec fn violated_positions(table: Seq<Seq<bool>>, rules: nat) -> Seq<int> {
    positions_where(rules, rule_violated(table))
}

/// How a violated rule is reported.
pub open spec fn rule_line(rule: RuleModel) -> Seq<char> {
    "- "@ + rule.name + " (`"@ + rule.pattern + "`)"@
}

/// How a flagged text is reported.
pub open spec fn segment_line(position: int, text: Seq<char>) -> Seq<char> {
    "- segment "@ + decimal(position as nat) + ": "@ + json_string(text)
}

/// The lines for the rules at `positions`.
pub open spec fn rule_lines(rules: Seq<RuleModel>, positions: Seq<int>) -> Seq<Seq<char>> {
    Seq::new(positions.len(), |k: int| rule_line(rules[positions[k]]))
}

/// The lines for the texts at `positions`.
pub open spec fn segment_lines(texts: Seq<Seq<char>>, positions: Seq<int>) -> Seq<Seq<char>> {
    Seq::new(positions.len(), |k: int| segment_line(positions[k], texts[positions[k]]))
}

/// The message that asks for a new translation into `language`, given the
/// violated rules and the flagged texts.
pub open spec fn feedback_message(
    violations: Seq<char>,
    segments: Seq<char>,
    language: Seq<char>,
) -> Seq<char> {
    "Your previous response was invalid because one or more translated `text` fields matched forbidden validation rules:\n"@
        + violations + "\n\nInvalid translated fields:\n"@ + segments
        + "\n\nRegenerate the entire JSON response.\nTranslate every segment completely into "@
        + language + ".\nNo listed forbidden pattern is allowed in any `text` field."@
}

/// The feedback on `texts`, given which rules match which of them: none where
/// no rule matches, else a message with every violated rule and every flagged
/// text.
pub open spec fn feedback_of(
    rules: Seq<RuleModel>,
    table: Seq<Seq<bool>>,
    texts: Seq<Seq<char>>,
    language: Seq<char>,
) -> Option<Seq<char>> {
    let violated = violated_positions(table, rules.len());
    if violated.len() == 0 {
        None
    } else {
        Some(
            feedback_message(
                join_lines(rule_lines(rules, violated)),
                join_lines(segment_lines(texts, flagged_positions(table))),
                language,
            ),
        )
    }
}

proof fn lemma_join_push(lines: Seq<Seq<char>>, line: Seq<char>)
    ensures
        join_lines(lines.push(line)) == if lines.len() == 0 {
            line
        } else {
            join_lines(lines) + seq!['\n'] + line
        },
{
    assert(lines.push(line).drop_last() =~= lines);
}

/// The positions of the rows that hold `true`.
pub fn flagged_indices(table: &[Vec<bool>]) -> (indices: Vec<usize>)
    ensures
        numbers(indices@) == flagged_positions(rows(table@)),
{
    let ghost flagged = text_flagged(rows(table@));
    let mut indices: Vec<usize> = Vec::new();
    let mut i: usize = 0;
    while i < table.len()
        invariant
            i <= table.len(),
            flagged == text_flagged(rows(table@)),
            numbers(indices@) == positions_where(i as nat, flagged),
        decreases table.len() - i,
    {
        let hit = any(&table[i]);
        assert(rows(table@)[i as int] == table@[i as int]@);
        assert(hit == flagged(i as int));
        let ghost before = indices@;
        if hit {
            indices.push(i);
            assert(numbers(indices@) =~= numbers(before).push(i as int));
        }
        i = i + 1;
    }
    assert(rows(table@).len() == table.len());
    indices
}

fn any(row: &Vec<bool>) -> (found: bool)
    ensures
        found == row@.contains(true),
{
    let mut j: usize = 0;
    while j < row.len()
        invariant
            j <= row.len(),
            forall|k: int| 0 <= k < j ==> !row@[k],
        decreases row.len() - j,
    {
        if row[j] {
            assert(row@[j as int] == true);
            return true;
        }
        j = j + 1;
    }
    false
}

fn any_in_column(table: &[Vec<bool>], j: usize) -> (found: bool)
    requires
        forall|i: int| 0 <= i < table@.len() ==> j < (#[trigger] table@[i])@.len(),
    ensures
        found == rule_violated(rows(table@))(j as int),
{
    let mut i: usize = 0;
    while i < table.len()
        invariant
            i <= table.len(),
            forall|i: int| 0 <= i < table@.len() ==> j < (#[trigger] table@[i])@.len(),
            forall|k: int| 0 <= k < i ==> !(#[trigger] rows(table@)[k][j as int]),
        decreases table.len() - i,
    {
        let row = &table[i];
        assert(rows(table@)[i as int] == row@);
        if row[j] {
            assert(rows(table@)[i as int][j as int]);
            return true;
        }
        i = i + 1;
    }
    false
}

fn push_rule_line(out: &mut String, rule: &TranslationValidationRule)
    ensures
        final(out)@ == old(out)@ + rule_line(rule@),
{
    out.append("- ");
    out.append(rule.name.as_str());
    out.append(" (`");
    out.append(rule.pattern.as_str());
    out.append("`)");
    assert(out@ =~= old(out)@ + rule_line(rule@));
}

fn push_segment_line(out: &mut String, position: usize, text: &String)
    ensures
        final(out)@ == old(out)@ + segment_line(position as int, text@),
{
    out.append("- segment ");
    push_decimal(out, position);
    out.append(": ");
    let json = to_json_string(text.as_str());
    out.append(json.as_str());
    assert(out@ =~= old(out)@ + segment_line(position as int, text@));
}

fn push_line_feed(out: &mut String)
    ensures
        final(out)@ == old(out)@ + seq!['\n'],
{
    out.append("\n");
    proof {
        reveal_strlit("\n");
    }
    assert("\n"@ =~= seq!['\n']);
}

fn violation_report(rules: &[TranslationValidationRule], table: &[Vec<bool>]) -> (report: Option<
    String,
>)
    requires
        fits(rows(table@), rules@.len(), table@.len()),
    ensures
        match report {
            Some(lines) => violated_positions(rows(table@), rules@.len()).len() > 0 && lines@
                == join_lines(
                rule_lines(rule_models(rules@), violated_positions(rows(table@), rules@.len())),
            ),
            None => violated_positions(rows(table@), rules@.len()).len() == 0,
        },
{
    let ghost models = rule_models(rules@);
    let ghost violated = rule_violated(rows(table@));
    let mut report: Option<String> = None;
    let mut j: usize = 0;
    while j < rules.len()
        invariant
            j <= rules.len(),
            fits(rows(table@), rules@.len(), table@.len()),
            models == rule_models(rules@),
            violated == rule_violated(rows(table@)),
            match report {
                Some(lines) => positions_where(j as nat, violated).len() > 0 && lines@
                    == join_lines(rule_lines(models, positions_where(j as nat, violated))),
                None => positions_where(j as nat, violated).len() == 0,
            },
        decreases rules.len() - j,
    {
        assert forall|i: int| 0 <= i < table@.len() implies j < (#[trigger] table@[i])@.len() by {
            assert(rows(table@)[i].len() == rules@.len());
        }
        let ghost before = positions_where(j as nat, violated);
        if any_in_column(table, j) {
            let mut lines = match report {
                Some(lines) => {
                    let mut lines = lines;
                    push_line_feed(&mut lines);
                    lines
                },
                None => String::new(),
            };
            push_rule_line(&mut lines, &rules[j]);
            proof {
                let line = rule_line(models[j as int]);
                lemma_join_push(rule_lines(models, before), line);
                assert(rule_lines(models, before.push(j as int)) =~= rule_lines(
                    models,
                    before,
                ).push(line));
                assert(lines@ =~= join_lines(rule_lines(models, before.push(j as int))));
            }
            report = Some(lines);
        }
        j = j + 1;
    }
    report
}

fn segment_report(translations: &[String], table: &[Vec<bool>]) -> (report: String)
    requires
        table@.len() == translations@.len(),
    ensures
        report@ == join_lines(
            segment_lines(texts(translations@), flagged_positions(rows(table@))),
        ),
{
    let ghost model = texts(translations@);
    let ghost flagged = text_flagged(rows(table@));
    let mut report = String::new();
    let mut empty = true;
    let mut i: usize = 0;
    while i < translations.len()
        invariant
            i <= translations.len(),
            table@.len() == translations@.len(),
            model == texts(translations@),
            flagged == text_flagged(rows(table@)),
            empty == (positions_where(i as nat, flagged).len() == 0),
            report@ == join_lines(segment_lines(model, positions_where(i as nat, flagged))),
        decreases translations.len() - i,
    {
        let ghost before = positions_where(i as nat, flagged);
        let hit = any(&table[i]);
        assert(rows(table@)[i as int] == table@[i as int]@);
        assert(hit == flagged(i as int));
        if hit {
            if !empty {
                push_line_feed(&mut report);
            }
            push_segment_line(&mut report, i, &translations[i]);
            empty = false;
            proof {
                let line = segment_line(i as int, model[i as int]);
                lemma_join_push(segment_lines(model, before), line);
                assert(segment_lines(model, before.push(i as int)) =~= segment_lines(
                    model,
                    before,
                ).push(line));
                assert(report@ =~= join_lines(segment_lines(model, before.push(i as int))));
            }
        }
        i = i + 1;
    }
    report
}

/// Writes the feedback on `translations`, given which rules match which of
/// them.
pub fn compose_feedback(
    rules: &[TranslationValidationRule],
    table: &[Vec<bool>],
    translations: &[String],
    target_language: Language,
) -> (feedback: Option<String>)
    requires
        fits(rows(table@), rules@.len(), translations@.len()),
    ensures
        optional_text(feedback) == feedback_of(
            rule_models(rules@),
            rows(table@),
            texts(translations@),
            target_language@,
        ),
{
    match violation_report(rules, table) {
        None => None,
        Some(violations) => {
            let segments = segment_report(translations, table);
            let mut message =
                "Your previous response was invalid because one or more translated `text` fields matched forbidden validation rules:\n".to_owned();
            message.append(violations.as_str());
            message.append("\n\nInvalid translated fields:\n");
            message.append(segments.as_str());
            message.append(
                "\n\nRegenerate the entire JSON response.\nTranslate every segment completely into ",
            );
            message.append(target_language.name);
            message.append(".\nNo listed forbidden pattern is allowed in any `text` field.");
            Some(message)
        },
    }
}

/// Rejects translations that match a forbidden pattern, and words the request
/// for better ones.
#[derive(Debug)]
pub struct TranslationValidator {
    rules: Vec<TranslationValidationRule>,
    expressions: Vec<Regex>,
}

impl View for TranslationValidator {
    type V = Seq<RuleModel>;

    closed spec fn view(&self) -> Seq<RuleModel> {
        rule_models(self.rules@)
    }
}

impl Clone for TranslationValidator {
    fn clone(&self) -> (copy: Self)
        ensures
            copy@ == self@,
    {
        proof {
            use_type_invariant(self);
        }
        let mut rules: Vec<TranslationValidationRule> = Vec::new();
        let mut expressions: Vec<Regex> = Vec::new();
        let mut i: usize = 0;
        while i < self.rules.len()
            invariant
                i <= self.rules.len(),
                self.compiled_as_written(),
                rules@ == self.rules@.take(i as int),
                expressions@ == self.expressions@.take(i as int),
            decreases self.rules.len() - i,
        {
            rules.push(self.rules[i].clone());
            expressions.push(self.expressions[i].clone());
            i = i + 1;
            assert(rules@ =~= self.rules@.take(i as int));
            assert(expressions@ =~= self.expressions@.take(i as int));
        }
        assert(rules@ =~= self.rules@);
        assert(expressions@ =~= self.expressions@);
        TranslationValidator { rules, expressions }
    }
}

/// The feedback of a validator with `rules` on `texts`.
pub open spec fn feedback(
    rules: Seq<RuleModel>,
    texts: Seq<Seq<char>>,
    language: Seq<char>,
) -> Option<Seq<char>> {
    feedback_of(rules, match_table(rules, texts), texts, language)
}

/// The positions of the texts that some of `rules` matches.
pub open spec fn invalid_positions(rules: Seq<RuleModel>, texts: Seq<Seq<char>>) -> Seq<int> {
    flagged_positions(match_table(rules, texts))
}

impl TranslationValidator {
    #[verifier::type_invariant]
    spec fn compiled_as_written(self) -> bool {
        &&& self.expressions@.len() == self.rules@.len()
        &&& forall|i: int|
            0 <= i < self.rules@.len() ==> compiles_to(
                (#[trigger] self.rules@[i]).pattern@,
                self.expressions@[i],
            )
    }

    /// Compiles `rules`. The first rule that is not in order is reported.
    pub fn new(rules: &[TranslationValidationRule]) -> (result: Result<Self, RuleError>)
        ensures
            match result {
                Ok(validator) => {
                    &&& forall|i: int| 0 <= i < rules@.len() ==> rule_error(#[trigger] rules@[i]@) is None
                    &&& validator@ == Seq::new(rules@.len(), |i: int| kept_rule(rules@[i]@))
                },
                Err(error) => exists|i: int|
                    {
                        &&& 0 <= i < rules@.len()
                        &&& rule_error(#[trigger] rules@[i]@) == Some(error@)
                        &&& forall|k: int| 0 <= k < i ==> rule_error(#[trigger] rules@[k]@) is None
                    },
            },
    {
        let mut kept: Vec<TranslationValidationRule> = Vec::new();
        let mut expressions: Vec<Regex> = Vec::new();
        let mut i: usize = 0;
        while i < rules.len()
            invariant
                i <= rules.len(),
                kept@.len() == i,
                expressions@.len() == i,
                forall|k: int| 0 <= k < i ==> rule_error(#[trigger] rules@[k]@) is None,
                forall|k: int| 0 <= k < i ==> (#[trigger] kept@[k])@ == kept_rule(rules@[k]@),
                forall|k: int|
                    0 <= k < i ==> compiles_to((#[trigger] kept@[k]).pattern@, expressions@[k]),
            decreases rules.len() - i,
        {
            let rule = match check_rule(&rules[i]) {
                Ok(rule) => rule,
                Err(error) => {
                    assert(rule_error(rules@[i as int]@) == Some(error@));
                    return Err(error);
                },
            };
            let outcome = Regex::new(rule.pattern.as_str());
            let expression = match admit_pattern(rule.name.as_str(), outcome) {
                Ok(expression) => expression,
                Err(error) => {
                    assert(rule_error(rules@[i as int]@) == Some(error@));
                    return Err(error);
                },
            };
            assert(rule_error(rules@[i as int]@) is None);
            kept.push(rule);
            expressions.push(expression);
            i = i + 1;
        }
        let validator = TranslationValidator { rules: kept, expressions };
        assert(validator@ =~= Seq::new(rules@.len(), |i: int| kept_rule(rules@[i]@)));
        Ok(validator)
    }

    /// Matches every rule against every translation.
    pub fn match_all(&self, translations: &[String]) -> (table: Vec<Vec<bool>>)
        ensures
            rows(table@) == match_table(self@, texts(translations@)),
    {
        proof {
            use_type_invariant(self);
        }
        let mut table: Vec<Vec<bool>> = Vec::new();
        let mut i: usize = 0;
        while i < translations.len()
            invariant
                i <= translations.len(),
                self.compiled_as_written(),
                rows(table@) == match_table(self@, texts(translations@)).take(i as int),
            decreases translations.len() - i,
        {
            let row = self.match_one(translations[i].as_str());
            let ghost before = table@;
            table.push(row);
            assert(rows(table@) =~= rows(before).push(row@));
            assert(match_table(self@, texts(translations@))[i as int] =~= row@);
            i = i + 1;
            assert(rows(table@) =~= match_table(self@, texts(translations@)).take(i as int));
        }
        assert(match_table(self@, texts(translations@)).take(i as int) =~= match_table(
            self@,
            texts(translations@),
        ));
        table
    }

    fn match_one(&self, translation: &str) -> (row: Vec<bool>)
        ensures
            row@ == Seq::new(
                self@.len(),
                |j: int| regex_is_match(self@[j].pattern, translation@),
            ),
    {
        proof {
            use_type_invariant(self);
        }
        let mut row: Vec<bool> = Vec::new();
        let mut j: usize = 0;
        while j < self.expressions.len()
            invariant
                j <= self.expressions.len(),
                self.compiled_as_written(),
                row@.len() == j,
                forall|k: int|
                    0 <= k < j ==> #[trigger] row@[k] == regex_is_match(
                        self@[k].pattern,
                        translation@,
                    ),
            decreases self.expressions.len() - j,
        {
            assert(compiles_to(self.rules@[j as int].pattern@, self.expressions@[j as int]));
            let found = self.expressions[j].is_match(translation);
            assert(self@[j as int].pattern == self.rules@[j as int].pattern@);
            row.push(found);
            j = j + 1;
        }
        row
    }

    /// The positions of the translations that some rule matches, in ascending
    /// order.
    pub fn invalid_indices(&self, translations: &[String]) -> (indices: Vec<usize>)
        ensures
            numbers(indices@) == invalid_positions(self@, texts(translations@)),
    {
        let table = self.match_all(translations);
        flagged_indices(table.as_slice())
    }

    /// What to tell whoever wrote `translations`, if some rule matches one of
    /// them.
    #[must_use]
    pub fn feedback(&self, translations: &[String], target_language: Language) -> (message: Option<
        String,
    >)
        ensures
            optional_text(message) == feedback(self@, texts(translations@), target_language@),
    {
        let table = self.match_all(translations);
        self.feedback_on(table.as_slice(), translations, target_language)
    }

    /// What to tell whoever wrote `translations`, given which rules match which
    /// of them.
    pub(crate) fn feedback_on(
        &self,
        table: &[Vec<bool>],
        translations: &[String],
        target_language: Language,
    ) -> (message: Option<String>)
        requires
            fits(rows(table@), self@.len(), translations@.len()),
        ensures
            optional_text(message) == feedback_of(
                self@,
                rows(table@),
                texts(translations@),
                target_language@,
            ),
    {
        compose_feedback(self.rules.as_slice(), table, translations, target_language)
    }
}

/// Some of `rules` matches `text`.
pub open spec fn violates(rules: Seq<RuleModel>, text: Seq<char>) -> bool {
    exists|j: int| 0 <= j < rules.len() && #[trigger] regex_is_match(rules[j].pattern, text)
}

/// Some rule is violated if and only if some text is flagged.
pub proof fn lemma_violated_iff_flagged(table: Seq<Seq<bool>>, rules: nat)
    requires
        fits(table, rules, table.len()),
    ensures
        violated_positions(table, rules).len() > 0 <==> flagged_positions(table).len() > 0,
{
    let violated = violated_positions(table, rules);
    let flagged = flagged_positions(table);
    lemma_positions_where(rules, rule_violated(table));
    lemma_positions_where(table.len(), text_flagged(table));
    if violated.len() > 0 {
        let j = violated[0];
        assert(rule_violated(table)(j));
        let i = choose|i: int| 0 <= i < table.len() && #[trigger] table[i][j];
        assert(table[i][j] == true);
        assert(text_flagged(table)(i));
        assert(flagged.contains(i));
    }
    if flagged.len() > 0 {
        let i = flagged[0];
        assert(text_flagged(table)(i));
        let j = choose|j: int| 0 <= j < table[i].len() && table[i][j] == true;
        assert(table[i][j]);
        assert(rule_violated(table)(j));
        assert(violated.contains(j));
    }
}

} // verus!
