//! What holds of rules and of the errors that they give.

use crate::pattern::compiled;
use crate::text::{is_white_space, trimmed, without_leading_space, without_trailing_space};
use crate::validation::{
    kept_rule, rule_error, rule_error_message, shape_error, RuleErrorModel, RuleModel,
};
use vstd::prelude::*;

verus! {

/// Every character of `text` is white space.
pub open spec fn all_space(text: Seq<char>) -> bool {
    forall|k: int| 0 <= k < text.len() ==> is_white_space(#[trigger] text[k])
}

/// White space is five controls, the space, and nineteen characters beyond
/// ASCII.
pub proof fn law_white_space_characters(c: char)
    ensures
        is_white_space(c) <==> seq![
            0x9int, 0xa, 0xb, 0xc, 0xd, 0x20, 0x85, 0xa0, 0x1680, 0x2000, 0x2001, 0x2002,
            0x2003, 0x2004, 0x2005, 0x2006, 0x2007, 0x2008, 0x2009, 0x200a, 0x2028, 0x2029,
            0x202f, 0x205f, 0x3000,
        ].contains(c as int),
{
    let code = c as int;
    let codes = seq![
        0x9int, 0xa, 0xb, 0xc, 0xd, 0x20, 0x85, 0xa0, 0x1680, 0x2000, 0x2001, 0x2002,
        0x2003, 0x2004, 0x2005, 0x2006, 0x2007, 0x2008, 0x2009, 0x200a, 0x2028, 0x2029,
        0x202f, 0x205f, 0x3000,
    ];
    if is_white_space(c) {
        let k = if code <= 0xd {
            code - 0x9
        } else if code == 0x20 {
            5
        } else if code == 0x85 {
            6
        } else if code == 0xa0 {
            7
        } else if code == 0x1680 {
            8
        } else if code <= 0x200a {
            code - 0x2000 + 9
        } else if code == 0x2028 {
            20
        } else if code == 0x2029 {
            21
        } else if code == 0x202f {
            22
        } else if code == 0x205f {
            23
        } else {
            24
        };
        assert(codes[k] == code);
    }
}

proof fn lemma_leading_split(text: Seq<char>) -> (lead: Seq<char>)
    ensures
        text == lead + without_leading_space(text),
        all_space(lead),
        without_leading_space(text).len() > 0 ==> !is_white_space(
            without_leading_space(text).first(),
        ),
    decreases text.len(),
{
    if text.len() > 0 && is_white_space(text.first()) {
        let rest = lemma_leading_split(text.drop_first());
        let lead = seq![text.first()] + rest;
        let kept = without_leading_space(text);
        assert(text =~= seq![text.first()] + text.drop_first());
        assert(seq![text.first()] + (rest + kept) =~= lead + kept);
        lead
    } else {
        assert(text =~= Seq::<char>::empty() + text);
        Seq::empty()
    }
}

proof fn lemma_trailing_split(text: Seq<char>) -> (trail: Seq<char>)
    ensures
        text == without_trailing_space(text) + trail,
        all_space(trail),
        without_trailing_space(text).len() > 0 ==> !is_white_space(
            without_trailing_space(text).last(),
        ),
    decreases text.len(),
{
    if text.len() > 0 && is_white_space(text.last()) {
        let rest = lemma_trailing_split(text.drop_last());
        let trail = rest.push(text.last());
        let kept = without_trailing_space(text);
        assert(text =~= text.drop_last().push(text.last()));
        assert((kept + rest).push(text.last()) =~= kept + trail);
        trail
    } else {
        assert(text =~= text + Seq::<char>::empty());
        Seq::empty()
    }
}

/// Trimming takes off white space at both ends and nothing else, and leaves none
/// there.
pub proof fn law_trimming_takes_only_outer_space(text: Seq<char>)
    ensures
        exists|lead: Seq<char>, trail: Seq<char>| #![trigger lead + trimmed(text) + trail]
            text == lead + trimmed(text) + trail && all_space(lead) && all_space(trail),
        trimmed(text).len() > 0 ==> !is_white_space(trimmed(text).first()) && !is_white_space(
            trimmed(text).last(),
        ),
        trimmed(text).len() == 0 <==> all_space(text),
{
    let lead = lemma_leading_split(text);
    let rest = without_leading_space(text);
    let trail = lemma_trailing_split(rest);
    assert(text =~= lead + trimmed(text) + trail);
    if trimmed(text).len() > 0 {
        assert(trimmed(text).first() == rest.first());
        assert(text[lead.len() as int] == trimmed(text).first());
    } else {
        assert forall|k: int| 0 <= k < text.len() implies is_white_space(#[trigger] text[k]) by {
            if k < lead.len() {
                assert(text[k] == lead[k]);
            } else {
                assert(text[k] == trail[k - lead.len()]);
            }
        }
    }
}

/// A rule is kept with its whole pattern, and with its whole name but for the
/// white space around it.
pub proof fn law_rule_is_kept_whole(rule: RuleModel)
    ensures
        kept_rule(rule).pattern == rule.pattern,
        exists|lead: Seq<char>, trail: Seq<char>|
            #![trigger lead + kept_rule(rule).name + trail]
            rule.name == lead + kept_rule(rule).name + trail && all_space(lead) && all_space(trail),
        kept_rule(rule).name.len() > 0 ==> !is_white_space(kept_rule(rule).name.first())
            && !is_white_space(kept_rule(rule).name.last()),
{
    law_trimming_takes_only_outer_space(rule.name);
    let (lead, trail) = choose|lead: Seq<char>, trail: Seq<char>|
        #![trigger lead + trimmed(rule.name) + trail]
        rule.name == lead + trimmed(rule.name) + trail && all_space(lead) && all_space(trail);
    assert(rule.name == lead + kept_rule(rule).name + trail);
}

/// A rule is refused for its name exactly where that is all white space; else
/// for its pattern exactly where that is empty; else, with the compiler's own
/// error, exactly where the pattern does not compile; and otherwise accepted.
/// The last two errors carry the name under which the rule would be kept.
pub proof fn law_rule_errors(rule: RuleModel)
    ensures
        all_space(rule.name) ==> rule_error(rule) == Some(RuleErrorModel::EmptyName),
        !all_space(rule.name) && rule.pattern.len() == 0 ==> rule_error(rule) == Some(
            RuleErrorModel::EmptyPattern { name: kept_rule(rule).name },
        ),
        !all_space(rule.name) && rule.pattern.len() > 0 ==> match compiled(rule.pattern) {
            Ok(_) => rule_error(rule) is None,
            Err(source) => rule_error(rule) == Some(
                RuleErrorModel::InvalidPattern { name: kept_rule(rule).name, source },
            ),
        },
        !all_space(rule.name) && rule.pattern.len() > 0 <==> shape_error(rule) is None,
        shape_error(rule) is Some ==> rule_error(rule) == shape_error(rule),
{
    law_trimming_takes_only_outer_space(rule.name);
}

/// What the errors say. A message holds the whole name.
pub proof fn law_rule_error_messages(name: Seq<char>, source: regex::Error)
    ensures
        rule_error_message(RuleErrorModel::EmptyName)
            == "translation validation rule names must not be empty"@,
        rule_error_message(RuleErrorModel::EmptyPattern { name })
            == "translation validation pattern for "@ + name + " must not be empty"@,
        rule_error_message(RuleErrorModel::InvalidPattern { name, source })
            == "invalid translation validation pattern for "@ + name,
{
}

} // verus!
