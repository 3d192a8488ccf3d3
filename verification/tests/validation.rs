use koharu_translator::{
    admit_pattern, check_rule, compose_feedback, flagged_indices, Language, RuleError,
    TranslationValidationRule, TranslationValidator,
};
use regex::Regex;

const RUSSIAN: Language = Language { name: "Russian" };

fn rule(name: &str, pattern: &str) -> TranslationValidationRule {
    TranslationValidationRule {
        name: name.to_owned(),
        pattern: pattern.to_owned(),
    }
}

fn strings(texts: &[&str]) -> Vec<String> {
    texts.iter().map(|text| (*text).to_owned()).collect()
}

#[test]
fn detects_forbidden_latin_script_in_translation_text() {
    let validator = TranslationValidator::new(&[TranslationValidationRule {
        name: "Latin-script letters".to_owned(),
        pattern: "[A-Za-z]".to_owned(),
    }])
    .unwrap();

    let feedback = validator
        .feedback(&["Если я'll make him...".to_owned()], RUSSIAN)
        .unwrap();

    assert!(feedback.contains("Regenerate the entire JSON response"));
    assert!(feedback.contains("Translate every segment completely into Russian"));
    assert!(feedback.contains("- Latin-script letters (`[A-Za-z]`)"));
}

#[test]
fn corrective_feedback_identifies_only_invalid_translated_fields() {
    let validator = TranslationValidator::new(&[TranslationValidationRule {
        name: "Latin-script letters".to_owned(),
        pattern: "[A-Za-z]".to_owned(),
    }])
    .unwrap();

    let feedback = validator
        .feedback(
            &[
                "Чистый перевод".to_owned(),
                "Если я'll make him...".to_owned(),
            ],
            RUSSIAN,
        )
        .unwrap();

    assert!(feedback.contains(r#"- segment 1: "Если я'll make him...""#));
    assert!(!feedback.contains("Чистый перевод"));
}

#[test]
fn reports_every_violated_rule_in_one_retry() {
    let validator = TranslationValidator::new(&[
        TranslationValidationRule {
            name: "Latin-script letters".to_owned(),
            pattern: "[A-Za-z]".to_owned(),
        },
        TranslationValidationRule {
            name: "Japanese kana".to_owned(),
            pattern: r"[\p{Hiragana}\p{Katakana}]".to_owned(),
        },
    ])
    .unwrap();

    let feedback = validator
        .feedback(&["English と日本語".to_owned()], RUSSIAN)
        .unwrap();

    assert!(feedback.contains("Latin-script letters"));
    assert!(feedback.contains("Japanese kana"));
}

#[test]
fn rejects_invalid_regular_expression() {
    let error = TranslationValidator::new(&[TranslationValidationRule {
        name: "Broken".to_owned(),
        pattern: "[".to_owned(),
    }])
    .unwrap_err();

    assert!(error
        .to_string()
        .contains("invalid translation validation pattern"));
}

#[test]
fn invalid_pattern_keeps_its_name_and_cause() {
    let error = TranslationValidator::new(&[rule("  Broken\t", "[")]).unwrap_err();
    assert_eq!(
        error.to_string(),
        "invalid translation validation pattern for Broken"
    );
    match error {
        RuleError::InvalidPattern { name, source } => {
            assert_eq!(name, "Broken");
            assert!(source == Regex::new("[").unwrap_err());
        }
        other => panic!("{other:?}"),
    }
}

#[test]
fn empty_names_and_patterns_are_rejected_in_that_order() {
    let error = TranslationValidator::new(&[rule(" \u{3000}\n", "")]).unwrap_err();
    assert!(matches!(error, RuleError::EmptyName));
    assert_eq!(
        error.to_string(),
        "translation validation rule names must not be empty"
    );

    let error = TranslationValidator::new(&[rule(" Kana ", "")]).unwrap_err();
    assert!(matches!(error, RuleError::EmptyPattern { .. }));
    assert_eq!(
        error.to_string(),
        "translation validation pattern for Kana must not be empty"
    );
}

#[test]
fn the_first_rule_in_error_is_the_one_reported() {
    let rules = [rule("Fine", "a"), rule("Empty", ""), rule("Broken", "[")];
    let error = TranslationValidator::new(&rules).unwrap_err();
    assert_eq!(
        error.to_string(),
        "translation validation pattern for Empty must not be empty"
    );
}

#[test]
fn names_are_trimmed_of_unicode_white_space_only() {
    let kept = check_rule(&rule(" \u{9}\u{85}\u{a0}\u{1680}\u{2003}A B\u{200b}\u{2028}\u{202f}\u{205f}", " x ")).unwrap();
    assert_eq!(kept.name, "A B\u{200b}");
    assert_eq!(kept.pattern, " x ");
    assert_eq!(check_rule(&kept).unwrap(), kept);
    assert_eq!(check_rule(&rule("\u{feff}", "x")).unwrap().name, "\u{feff}");
}

#[test]
fn an_expression_is_admitted_as_it_is() {
    let expression = admit_pattern("Digits", Regex::new(r"\d+")).unwrap();
    assert_eq!(expression.as_str(), r"\d+");
    let error = admit_pattern("Digits", Regex::new("(")).unwrap_err();
    assert_eq!(
        error.to_string(),
        "invalid translation validation pattern for Digits"
    );
}

#[test]
fn no_rules_no_feedback() {
    let validator = TranslationValidator::new(&[]).unwrap();
    assert_eq!(validator.feedback(&strings(&["anything"]), RUSSIAN), None);
    assert!(validator.invalid_indices(&strings(&["anything"])).is_empty());
}

#[test]
fn valid_translations_draw_no_feedback() {
    let validator = TranslationValidator::new(&[rule("Latin", "[A-Za-z]")]).unwrap();
    assert_eq!(validator.feedback(&[], RUSSIAN), None);
    assert_eq!(validator.feedback(&strings(&["Да", "Нет"]), RUSSIAN), None);
    assert!(validator.invalid_indices(&strings(&["Да", "Нет"])).is_empty());
}

#[test]
fn invalid_indices_are_ascending() {
    let validator =
        TranslationValidator::new(&[rule("Latin", "[A-Za-z]"), rule("Digits", "[0-9]")]).unwrap();
    let translations = strings(&["ok", "Да", "7", "Нет", "a1"]);
    assert_eq!(validator.invalid_indices(&translations), [0, 2, 4]);
    assert_eq!(
        validator.match_all(&translations),
        [
            [true, false],
            [false, false],
            [false, true],
            [false, false],
            [true, true]
        ]
    );
}

#[test]
fn feedback_is_worded_exactly() {
    let validator = TranslationValidator::new(&[
        rule(" Latin ", "[A-Za-z]"),
        rule("Tabs", r"\t"),
        rule("Digits", "[0-9]"),
    ])
    .unwrap();
    let feedback = validator
        .feedback(&strings(&["a \"b\" \\", "Да", "12"]), RUSSIAN)
        .unwrap();
    assert_eq!(
        feedback,
        "Your previous response was invalid because one or more translated `text` fields matched \
         forbidden validation rules:\n\
         - Latin (`[A-Za-z]`)\n\
         - Digits (`[0-9]`)\n\
         \n\
         Invalid translated fields:\n\
         - segment 0: \"a \\\"b\\\" \\\\\"\n\
         - segment 2: \"12\"\n\
         \n\
         Regenerate the entire JSON response.\n\
         Translate every segment completely into Russian.\n\
         No listed forbidden pattern is allowed in any `text` field."
    );
}

#[test]
fn feedback_does_not_depend_on_valid_translations() {
    let validator = TranslationValidator::new(&[rule("Latin", "[A-Za-z]")]).unwrap();
    assert_eq!(
        validator.feedback(&strings(&["Да", "no", "Нет"]), RUSSIAN),
        validator.feedback(&strings(&["", "no", "Может быть"]), RUSSIAN)
    );
}

#[test]
fn a_copy_validates_alike() {
    let validator = TranslationValidator::new(&[rule("Latin", "[A-Za-z]")]).unwrap();
    let copy = validator.clone();
    let translations = strings(&["Да", "no"]);
    assert_eq!(
        copy.feedback(&translations, RUSSIAN),
        validator.feedback(&translations, RUSSIAN)
    );
    assert_eq!(copy.invalid_indices(&translations), [1]);
}

#[test]
fn segments_are_quoted_as_json() {
    let rules = [rule("Any", "x")];
    let text = "\u{0}\u{1f}\u{8}\t\n\u{c}\r\"\\/\u{7f}é😀";
    let feedback = compose_feedback(
        &rules,
        &[vec![true]],
        &[text.to_owned()],
        Language { name: "Klingon" },
    )
    .unwrap();
    assert!(feedback.contains(
        "- segment 0: \"\\u0000\\u001f\\b\\t\\n\\f\\r\\\"\\\\/\u{7f}é😀\"\n"
    ));
    assert!(feedback.contains("completely into Klingon.\n"));
}

#[test]
fn segments_are_numbered_in_decimal() {
    let rules = [rule("Any", "x")];
    let count = 1011;
    let mut table = vec![vec![false]; count];
    table[9][0] = true;
    table[10][0] = true;
    table[1010][0] = true;
    let translations = vec!["x".to_owned(); count];
    let feedback = compose_feedback(&rules, &table, &translations, RUSSIAN).unwrap();
    assert!(feedback.contains(
        "fields:\n- segment 9: \"x\"\n- segment 10: \"x\"\n- segment 1010: \"x\"\n\nRegenerate"
    ));
}

#[test]
fn feedback_goes_by_the_table() {
    let rules = [rule("One", "1"), rule("Two", "2")];
    let translations = strings(&["a", "b"]);
    let clear = [vec![false, false], vec![false, false]];
    assert_eq!(compose_feedback(&rules, &clear, &translations, RUSSIAN), None);
    let table = [vec![false, false], vec![false, true]];
    let feedback = compose_feedback(&rules, &table, &translations, RUSSIAN).unwrap();
    assert!(feedback.contains("rules:\n- Two (`2`)\n\nInvalid translated fields:\n- segment 1: \"b\"\n\n"));
}

#[test]
fn flagged_rows_are_found() {
    assert!(flagged_indices(&[]).is_empty());
    assert_eq!(
        flagged_indices(&[vec![false, true], vec![], vec![false], vec![true, true]]),
        [0, 3]
    );
}
