//! What holds of feedback: when there is some, and how it is worded.

use crate::pattern::regex_is_match;
use crate::positions::{lemma_positions_where, positions_where};
use crate::text::{decimal, join_lines, json_string};
use crate::validation::{
    feedback, feedback_message, feedback_of, fits, flagged_positions, invalid_positions,
    lemma_violated_iff_flagged, match_table, rule_line, rule_lines, rule_violated, segment_line,
    segment_lines, text_flagged, violated_positions, violates, RuleModel,
};
use vstd::prelude::*;

verus! {

/// A number is written by its digits: one character below ten, and above that
/// the tens followed by the ones.
pub proof fn law_decimal_digits(tens: nat, ones: nat)
    requires
        ones < 10,
    ensures
        decimal(ones).len() == 1,
        decimal(ones)[0] as int == '0' as int + ones,
        tens > 0 ==> decimal(10 * tens + ones) == decimal(tens) + decimal(ones),
{
    if tens > 0 {
        assert((10 * tens + ones) / 10 == tens);
        assert((10 * tens + ones) % 10 == ones);
        assert(decimal(10 * tens + ones) =~= decimal(tens) + decimal(ones));
    }
}

/// A JSON string stands between quotes, and grows by each character in turn:
/// by the character itself, or by its escape where it is a quote, a backslash
/// or a control character.
pub proof fn law_json_string_grows_by_character(text: Seq<char>, c: char)
    ensures
        json_string(Seq::empty()) == seq!['"', '"'],
        ({
            let before = json_string(text).drop_last();
            let after = json_string(text.push(c));
            let code = c as int;
            &&& c == '"' ==> after == before + seq!['\\', '"', '"']
            &&& c == '\\' ==> after == before + seq!['\\', '\\', '"']
            &&& code == 8 ==> after == before + seq!['\\', 'b', '"']
            &&& code == 9 ==> after == before + seq!['\\', 't', '"']
            &&& code == 10 ==> after == before + seq!['\\', 'n', '"']
            &&& code == 12 ==> after == before + seq!['\\', 'f', '"']
            &&& code == 13 ==> after == before + seq!['\\', 'r', '"']
            &&& code >= 32 && c != '"' && c != '\\' ==> after == before + seq![c, '"']
            &&& code < 32 && code != 8 && code != 9 && code != 10 && code != 12 && code != 13
                ==> after == before + seq![
                '\\',
                'u',
                '0',
                '0',
                "01"@[code / 16],
                "0123456789abcdef"@[code % 16],
                '"',
            ]
        }),
{
    assert(json_string(Seq::empty()) =~= seq!['"', '"']);
    let before = json_string(text).drop_last();
    let after = json_string(text.push(c));
    assert(text.push(c).drop_last() =~= text);
    assert(before =~= seq!['"'] + crate::text::json_chars(text));
    assert(after =~= before + crate::text::json_char(c) + seq!['"']);
    let code = c as int;
    if c == '"' {
        assert(after =~= before + seq!['\\', '"', '"']);
    } else if c == '\\' {
        assert(after =~= before + seq!['\\', '\\', '"']);
    } else if code == 8 {
        assert(after =~= before + seq!['\\', 'b', '"']);
    } else if code == 9 {
        assert(after =~= before + seq!['\\', 't', '"']);
    } else if code == 10 {
        assert(after =~= before + seq!['\\', 'n', '"']);
    } else if code == 12 {
        assert(after =~= before + seq!['\\', 'f', '"']);
    } else if code == 13 {
        assert(after =~= before + seq!['\\', 'r', '"']);
    } else if code >= 32 {
        assert(after =~= before + seq![c, '"']);
    } else {
        reveal_strlit("01");
        reveal_strlit("0123456789abcdef");
        assert(after =~= before + seq![
            '\\',
            'u',
            '0',
            '0',
            "01"@[code / 16],
            "0123456789abcdef"@[code % 16],
            '"',
        ]);
    }
}

/// Matching a list of texts tries every rule's pattern on every text.
pub proof fn law_every_rule_is_tried_on_every_text(rules: Seq<RuleModel>, texts: Seq<Seq<char>>)
    ensures
        match_table(rules, texts).len() == texts.len(),
        forall|i: int|
            0 <= i < texts.len() ==> (#[trigger] match_table(rules, texts)[i]).len() == rules.len(),
        forall|i: int, j: int|
            0 <= i < texts.len() && 0 <= j < rules.len() ==> #[trigger] match_table(
                rules,
                texts,
            )[i][j] == regex_is_match(rules[j].pattern, texts[i]),
{
}

/// A text violates rules if the pattern of one of them matches it.
pub proof fn law_violation_is_a_match(rules: Seq<RuleModel>, text: Seq<char>)
    ensures
        violates(rules, text) <==> exists|j: int|
            0 <= j < rules.len() && #[trigger] regex_is_match(rules[j].pattern, text),
{
}

/// What is flagged are exactly the rows in which some rule matched, in
/// ascending order.
pub proof fn law_flagged_rows(table: Seq<Seq<bool>>)
    ensures
        forall|i: int|
            0 <= i < table.len() ==> (flagged_positions(table).contains(i) <==> exists|j: int|
                0 <= j < (#[trigger] table[i]).len() && #[trigger] table[i][j]),
        forall|k: int|
            0 <= k < flagged_positions(table).len() ==> 0 <= #[trigger] flagged_positions(table)[k]
                < table.len(),
        forall|k: int, l: int|
            0 <= k < l < flagged_positions(table).len() ==> #[trigger] flagged_positions(table)[k]
                < #[trigger] flagged_positions(table)[l],
{
    let flagged = flagged_positions(table);
    lemma_positions_where(table.len(), text_flagged(table));
    assert forall|i: int| 0 <= i < table.len() implies (flagged.contains(i) <==> exists|j: int|
        0 <= j < (#[trigger] table[i]).len() && #[trigger] table[i][j]) by {
        if flagged.contains(i) {
            let k = choose|k: int| 0 <= k < flagged.len() && flagged[k] == i;
            assert(text_flagged(table)(flagged[k]));
            let j = choose|j: int| 0 <= j < table[i].len() && table[i][j] == true;
            assert(table[i][j]);
        }
        if exists|j: int| 0 <= j < table[i].len() && #[trigger] table[i][j] {
            let j = choose|j: int| 0 <= j < table[i].len() && #[trigger] table[i][j];
            assert(table[i][j] == true);
            assert(text_flagged(table)(i));
        }
    }
}

/// The invalid positions are exactly those of the texts that some rule's
/// pattern matches, in ascending order.
pub proof fn law_invalid_positions_are_those_of_matches(
    rules: Seq<RuleModel>,
    texts: Seq<Seq<char>>,
)
    ensures
        forall|i: int|
            0 <= i < texts.len() ==> (#[trigger] invalid_positions(rules, texts).contains(i)
                <==> exists|j: int|
                0 <= j < rules.len() && #[trigger] regex_is_match(rules[j].pattern, texts[i])),
        forall|k: int|
            0 <= k < invalid_positions(rules, texts).len() ==> 0 <= #[trigger] invalid_positions(
                rules,
                texts,
            )[k] < texts.len(),
        forall|k: int, l: int|
            0 <= k < l < invalid_positions(rules, texts).len() ==> #[trigger] invalid_positions(
                rules,
                texts,
            )[k] < #[trigger] invalid_positions(rules, texts)[l],
{
    let table = match_table(rules, texts);
    law_flagged_rows(table);
    assert forall|i: int| 0 <= i < texts.len() implies (#[trigger] invalid_positions(
        rules,
        texts,
    ).contains(i) <==> exists|j: int|
        0 <= j < rules.len() && #[trigger] regex_is_match(rules[j].pattern, texts[i])) by {
        assert(table[i].len() == rules.len());
        if invalid_positions(rules, texts).contains(i) {
            let j = choose|j: int| 0 <= j < table[i].len() && #[trigger] table[i][j];
            assert(regex_is_match(rules[j].pattern, texts[i]));
        }
        if exists|j: int|
            0 <= j < rules.len() && #[trigger] regex_is_match(rules[j].pattern, texts[i]) {
            let j = choose|j: int|
                0 <= j < rules.len() && #[trigger] regex_is_match(rules[j].pattern, texts[i]);
            assert(table[i][j]);
        }
    }
}

/// Some rule matched some text.
pub open spec fn any_match(table: Seq<Seq<bool>>) -> bool {
    exists|i: int, j: int|
        0 <= i < table.len() && 0 <= j < table[i].len() && #[trigger] table[i][j]
}

/// A line for each of the first `n` rules that matched some text, each after a
/// line feed.
pub open spec fn rules_told(rules: Seq<RuleModel>, table: Seq<Seq<bool>>, n: nat) -> Seq<char>
    decreases n,
{
    if n == 0 {
        Seq::empty()
    } else {
        let rule = rules[n - 1];
        rules_told(rules, table, (n - 1) as nat) + if exists|i: int|
            0 <= i < table.len() && #[trigger] table[i][n - 1] {
            "\n- "@ + rule.name + " (`"@ + rule.pattern + "`)"@
        } else {
            Seq::empty()
        }
    }
}

/// A line for each of the first `n` texts that some rule matched, each after a
/// line feed.
pub open spec fn segments_told(texts: Seq<Seq<char>>, table: Seq<Seq<bool>>, n: nat) -> Seq<char>
    decreases n,
{
    if n == 0 {
        Seq::empty()
    } else {
        segments_told(texts, table, (n - 1) as nat) + if exists|j: int|
            0 <= j < table[n - 1].len() && #[trigger] table[n - 1][j] {
            "\n- segment "@ + decimal((n - 1) as nat) + ": "@ + json_string(texts[n - 1])
        } else {
            Seq::empty()
        }
    }
}

proof fn lemma_push_line(lines: Seq<Seq<char>>, line: Seq<char>)
    ensures
        seq!['\n'] + join_lines(lines.push(line)) == (if lines.len() == 0 {
            Seq::empty()
        } else {
            seq!['\n'] + join_lines(lines)
        }) + (seq!['\n'] + line),
{
    assert(lines.push(line).drop_last() =~= lines);
    if lines.len() == 0 {
        assert(seq!['\n'] + join_lines(lines.push(line)) =~= Seq::<char>::empty() + (seq!['\n']
            + line));
    } else {
        assert(seq!['\n'] + join_lines(lines.push(line)) =~= (seq!['\n'] + join_lines(lines)) + (
        seq!['\n'] + line));
    }
}

proof fn lemma_rules_told(rules: Seq<RuleModel>, table: Seq<Seq<bool>>, n: nat)
    ensures
        rules_told(rules, table, n) == ({
            let positions = positions_where(n, rule_violated(table));
            if positions.len() == 0 {
                Seq::empty()
            } else {
                seq!['\n'] + join_lines(rule_lines(rules, positions))
            }
        }),
    decreases n,
{
    if n > 0 {
        let m = (n - 1) as nat;
        lemma_rules_told(rules, table, m);
        let before = positions_where(m, rule_violated(table));
        if rule_violated(table)(n - 1) {
            let rule = rules[n - 1];
            let line = rule_line(rule);
            assert(rule_lines(rules, before.push(n - 1)) =~= rule_lines(rules, before).push(line));
            lemma_push_line(rule_lines(rules, before), line);
            reveal_strlit("\n- ");
            reveal_strlit("- ");
            assert("\n- "@ =~= seq!['\n'] + "- "@);
            assert("\n- "@ + rule.name + " (`"@ + rule.pattern + "`)"@ =~= seq!['\n'] + line);
        } else {
            assert(rules_told(rules, table, n) =~= rules_told(rules, table, m));
        }
    }
}

proof fn lemma_segments_told(texts: Seq<Seq<char>>, table: Seq<Seq<bool>>, n: nat)
    ensures
        segments_told(texts, table, n) == ({
            let positions = positions_where(n, text_flagged(table));
            if positions.len() == 0 {
                Seq::empty()
            } else {
                seq!['\n'] + join_lines(segment_lines(texts, positions))
            }
        }),
    decreases n,
{
    if n > 0 {
        let m = (n - 1) as nat;
        lemma_segments_told(texts, table, m);
        let before = positions_where(m, text_flagged(table));
        let row = table[n - 1];
        if text_flagged(table)(n - 1) {
            let j = choose|j: int| 0 <= j < row.len() && row[j] == true;
            assert(table[n - 1][j]);
            let line = segment_line(n - 1, texts[n - 1]);
            assert(segment_lines(texts, before.push(n - 1)) =~= segment_lines(texts, before).push(
                line,
            ));
            lemma_push_line(segment_lines(texts, before), line);
            reveal_strlit("\n- segment ");
            reveal_strlit("- segment ");
            assert("\n- segment "@ =~= seq!['\n'] + "- segment "@);
            assert("\n- segment "@ + decimal(m) + ": "@ + json_string(texts[n - 1]) =~= seq!['\n']
                + line);
        } else {
            if exists|j: int| 0 <= j < table[n - 1].len() && #[trigger] table[n - 1][j] {
                let j = choose|j: int| 0 <= j < table[n - 1].len() && #[trigger] table[n - 1][j];
                assert(row[j] == true);
            }
            assert(segments_told(texts, table, n) =~= segments_told(texts, table, m));
        }
    }
}

proof fn lemma_any_match(table: Seq<Seq<bool>>, rules: nat)
    requires
        fits(table, rules, table.len()),
    ensures
        any_match(table) <==> violated_positions(table, rules).len() > 0,
{
    lemma_positions_where(rules, rule_violated(table));
    let violated = violated_positions(table, rules);
    if any_match(table) {
        let (i, j) = choose|i: int, j: int|
            0 <= i < table.len() && 0 <= j < table[i].len() && #[trigger] table[i][j];
        assert(rule_violated(table)(j));
        assert(violated.contains(j));
    }
    if violated.len() > 0 {
        let j = violated[0];
        assert(rule_violated(table)(j));
        let i = choose|i: int| 0 <= i < table.len() && #[trigger] table[i][j];
        assert(table[i].len() == rules);
        assert(table[i][j]);
    }
}

/// There is feedback exactly where some rule matched some text. It tells of
/// every rule that matched, by its whole name and pattern, and of every text
/// that was matched, by its position and as a JSON string, both in their order
/// and of nothing else, and asks for the language.
pub proof fn law_feedback_wording(
    rules: Seq<RuleModel>,
    table: Seq<Seq<bool>>,
    texts: Seq<Seq<char>>,
    language: Seq<char>,
)
    requires
        table.len() == texts.len(),
        forall|i: int| 0 <= i < table.len() ==> (#[trigger] table[i]).len() == rules.len(),
    ensures
        !any_match(table) ==> feedback_of(rules, table, texts, language) is None,
        any_match(table) ==> feedback_of(rules, table, texts, language) == Some(
            "Your previous response was invalid because one or more translated `text` fields matched forbidden validation rules:"@
                + rules_told(rules, table, rules.len()) + "\n\nInvalid translated fields:"@
                + segments_told(texts, table, texts.len())
                + "\n\nRegenerate the entire JSON response."@
                + "\nTranslate every segment completely into "@ + language + "."@
                + "\nNo listed forbidden pattern is allowed in any `text` field."@,
        ),
{
    assert(fits(table, rules.len(), table.len()));
    lemma_any_match(table, rules.len());
    if any_match(table) {
        lemma_violated_iff_flagged(table, rules.len());
        lemma_rules_told(rules, table, rules.len());
        lemma_segments_told(texts, table, texts.len());
        let violations = join_lines(rule_lines(rules, violated_positions(table, rules.len())));
        let segments = join_lines(segment_lines(texts, flagged_positions(table)));
        lemma_message(violations, segments, language);
    }
}

proof fn lemma_message(violations: Seq<char>, segments: Seq<char>, language: Seq<char>)
    ensures
        feedback_message(violations, segments, language)
            == "Your previous response was invalid because one or more translated `text` fields matched forbidden validation rules:"@
            + (seq!['\n'] + violations) + "\n\nInvalid translated fields:"@ + (seq!['\n'] + segments)
            + "\n\nRegenerate the entire JSON response."@
            + "\nTranslate every segment completely into "@ + language + "."@
            + "\nNo listed forbidden pattern is allowed in any `text` field."@,
{
    let feed = seq!['\n'];
    let opening =
        "Your previous response was invalid because one or more translated `text` fields matched forbidden validation rules:"@;
    let opening_feed =
        "Your previous response was invalid because one or more translated `text` fields matched forbidden validation rules:\n"@;
    reveal_strlit(
        "Your previous response was invalid because one or more translated `text` fields matched forbidden validation rules:",
    );
    reveal_strlit(
        "Your previous response was invalid because one or more translated `text` fields matched forbidden validation rules:\n",
    );
    assert(opening_feed =~= opening + feed);
    let heading = "\n\nInvalid translated fields:"@;
    let heading_feed = "\n\nInvalid translated fields:\n"@;
    reveal_strlit("\n\nInvalid translated fields:");
    reveal_strlit("\n\nInvalid translated fields:\n");
    assert(heading_feed =~= heading + feed);
    let again = "\n\nRegenerate the entire JSON response."@;
    let into = "\nTranslate every segment completely into "@;
    let again_into =
        "\n\nRegenerate the entire JSON response.\nTranslate every segment completely into "@;
    reveal_strlit("\n\nRegenerate the entire JSON response.");
    reveal_strlit("\nTranslate every segment completely into ");
    reveal_strlit(
        "\n\nRegenerate the entire JSON response.\nTranslate every segment completely into ",
    );
    assert(again_into =~= again + into);
    let stop = "."@;
    let closing = "\nNo listed forbidden pattern is allowed in any `text` field."@;
    let stop_closing = ".\nNo listed forbidden pattern is allowed in any `text` field."@;
    reveal_strlit(".");
    reveal_strlit("\nNo listed forbidden pattern is allowed in any `text` field.");
    reveal_strlit(".\nNo listed forbidden pattern is allowed in any `text` field.");
    assert(stop_closing =~= stop + closing);
    lemma_regroup(
        opening,
        feed,
        violations,
        heading,
        segments,
        again,
        into,
        language,
        stop,
        closing,
    );
}

proof fn lemma_regroup(
    opening: Seq<char>,
    feed: Seq<char>,
    violations: Seq<char>,
    heading: Seq<char>,
    segments: Seq<char>,
    again: Seq<char>,
    into: Seq<char>,
    language: Seq<char>,
    stop: Seq<char>,
    closing: Seq<char>,
)
    ensures
        (opening + feed) + violations + (heading + feed) + segments + (again + into) + language + (
        stop + closing) == opening + (feed + violations) + heading + (feed + segments) + again
            + into + language + stop + closing,
{
    assert((opening + feed) + violations + (heading + feed) + segments + (again + into) + language
        + (stop + closing) =~= opening + (feed + violations) + heading + (feed + segments) + again
        + into + language + stop + closing);
}

/// Feedback on texts is feedback by what the rules match in them.
pub proof fn law_feedback_goes_by_matches(
    rules: Seq<RuleModel>,
    table: Seq<Seq<bool>>,
    texts: Seq<Seq<char>>,
    language: Seq<char>,
)
    requires
        table.len() == texts.len(),
        forall|i: int| 0 <= i < table.len() ==> (#[trigger] table[i]).len() == rules.len(),
        forall|i: int, j: int|
            0 <= i < texts.len() && 0 <= j < rules.len() ==> #[trigger] table[i][j]
                == regex_is_match(rules[j].pattern, texts[i]),
    ensures
        feedback(rules, texts, language) == feedback_of(rules, table, texts, language),
        invalid_positions(rules, texts) == flagged_positions(table),
{
    assert forall|i: int| 0 <= i < table.len() implies table[i] == match_table(rules, texts)[i] by {
        assert(table[i] =~= match_table(rules, texts)[i]);
    }
    assert(table =~= match_table(rules, texts));
}

proof fn lemma_whole_line(lines: Seq<Seq<char>>, k: int) -> (around: (Seq<char>, Seq<char>))
    requires
        0 <= k < lines.len(),
    ensures
        seq!['\n'] + join_lines(lines) + seq!['\n'] == around.0 + (seq!['\n'] + lines[k]
            + seq!['\n']) + around.1,
    decreases lines.len(),
{
    let feed = seq!['\n'];
    let none = Seq::<char>::empty();
    let whole = feed + join_lines(lines) + feed;
    if lines.len() == 1 {
        assert(whole =~= none + (feed + lines[k] + feed) + none);
        (none, none)
    } else {
        let head = join_lines(lines.drop_last());
        if k == lines.len() - 1 {
            assert(whole =~= (feed + head) + (feed + lines[k] + feed) + none);
            (feed + head, none)
        } else {
            let (before, after) = lemma_whole_line(lines.drop_last(), k);
            assert(lines.drop_last()[k] == lines[k]);
            assert(whole =~= (feed + head + feed) + (lines.last() + feed));
            assert(whole =~= before + (feed + lines[k] + feed) + (after + (lines.last() + feed)));
            (before, after + (lines.last() + feed))
        }
    }
}

/// Where a rule matches a text, the feedback holds, each as one whole line, the
/// rule's whole name and pattern, and the text's position and the whole text as
/// a JSON string.
pub proof fn law_feedback_lines(
    rules: Seq<RuleModel>,
    texts: Seq<Seq<char>>,
    language: Seq<char>,
    i: int,
    j: int,
)
    requires
        0 <= i < texts.len(),
        0 <= j < rules.len(),
        regex_is_match(rules[j].pattern, texts[i]),
    ensures
        feedback(rules, texts, language) is Some,
        exists|before: Seq<char>, after: Seq<char>|
            feedback(rules, texts, language)->0 == #[trigger] (before + ("\n- "@ + rules[j].name
                + " (`"@ + rules[j].pattern + "`)\n"@) + after),
        exists|before: Seq<char>, after: Seq<char>|
            feedback(rules, texts, language)->0 == #[trigger] (before + ("\n- segment "@ + decimal(
                i as nat,
            ) + ": "@ + json_string(texts[i]) + "\n"@) + after),
{
    let table = match_table(rules, texts);
    let violated = violated_positions(table, rules.len());
    let flagged = flagged_positions(table);
    lemma_positions_where(rules.len(), rule_violated(table));
    lemma_positions_where(table.len(), text_flagged(table));
    assert(table[i][j]);
    assert(table[i][j] == true);
    assert(rule_violated(table)(j));
    assert(text_flagged(table)(i));
    let c = choose|c: int| 0 <= c < violated.len() && violated[c] == j;
    let r = choose|r: int| 0 <= r < flagged.len() && flagged[r] == i;
    let violations = join_lines(rule_lines(rules, violated));
    let segments = join_lines(segment_lines(texts, flagged));
    let (b1, a1) = lemma_whole_line(rule_lines(rules, violated), c);
    let (b2, a2) = lemma_whole_line(segment_lines(texts, flagged), r);
    lemma_message(violations, segments, language);
    let message = feedback_message(violations, segments, language);
    assert(feedback(rules, texts, language) == Some(message));
    let feed = seq!['\n'];
    let opening =
        "Your previous response was invalid because one or more translated `text` fields matched forbidden validation rules:"@;
    let heading = "\n\nInvalid translated fields:"@;
    let again = "\n\nRegenerate the entire JSON response."@;
    let rest = "\nTranslate every segment completely into "@ + language + "."@
        + "\nNo listed forbidden pattern is allowed in any `text` field."@;
    reveal_strlit("\n\nInvalid translated fields:");
    reveal_strlit("\n\nRegenerate the entire JSON response.");
    let heading_rest = heading.drop_first();
    let again_rest = again.drop_first();
    assert(heading =~= feed + heading_rest);
    assert(again =~= feed + again_rest);
    assert(message =~= opening + (feed + violations) + heading + (feed + segments) + again + rest);
    lemma_rule_text(rules[j]);
    lemma_segment_text(i, texts[i]);
    let tail1 = heading_rest + (feed + segments) + again + rest;
    assert(message =~= opening + (feed + violations + feed) + tail1);
    let told = feed + rule_line(rules[j]) + feed;
    assert(message =~= (opening + b1) + told + (a1 + tail1));
    let head2 = opening + (feed + violations) + heading;
    let tail2 = again_rest + rest;
    assert(message =~= head2 + (feed + segments + feed) + tail2);
    let quoted = feed + segment_line(i, texts[i]) + feed;
    assert(message =~= (head2 + b2) + quoted + (a2 + tail2));
}

proof fn lemma_rule_text(rule: RuleModel)
    ensures
        "\n- "@ + rule.name + " (`"@ + rule.pattern + "`)\n"@ == seq!['\n'] + rule_line(rule)
            + seq!['\n'],
{
    reveal_strlit("\n- ");
    reveal_strlit("- ");
    reveal_strlit("`)\n");
    reveal_strlit("`)");
    assert("\n- "@ =~= seq!['\n'] + "- "@);
    assert("`)\n"@ =~= "`)"@ + seq!['\n']);
    assert("\n- "@ + rule.name + " (`"@ + rule.pattern + "`)\n"@ =~= seq!['\n'] + rule_line(rule)
        + seq!['\n']);
}

proof fn lemma_segment_text(i: int, text: Seq<char>)
    requires
        i >= 0,
    ensures
        "\n- segment "@ + decimal(i as nat) + ": "@ + json_string(text) + "\n"@ == seq!['\n']
            + segment_line(i, text) + seq!['\n'],
{
    reveal_strlit("\n- segment ");
    reveal_strlit("- segment ");
    reveal_strlit("\n");
    assert("\n- segment "@ =~= seq!['\n'] + "- segment "@);
    assert("\n"@ =~= seq!['\n']);
    assert("\n- segment "@ + decimal(i as nat) + ": "@ + json_string(text) + "\n"@ =~= seq!['\n']
        + segment_line(i, text) + seq!['\n']);
}

} // verus!
