use koharu_translator::{
    merge_retry_translations, retries_with_feedback, should_retry_validation, GenerationConfig,
    Language, LoadedLocal, LocalSlot, ModelSelection, Provider, Start, Step, Translation,
    TranslationError, TranslationRequest, TranslationValidationRule, TranslationValidator,
    Translator, MAX_VALIDATION_ATTEMPTS,
};
use std::sync::Arc;

const RUSSIAN: Language = Language { name: "Russian" };

fn local_selection(model: &str) -> ModelSelection {
    ModelSelection {
        provider: Provider::Local,
        provider_id: "local",
        model: Some(model.to_owned()),
        quantization: None,
        vision: true,
        reasoning: true,
    }
}

fn hosted_selection(provider: Provider) -> ModelSelection {
    ModelSelection {
        provider,
        provider_id: "hosted",
        model: None,
        quantization: None,
        vision: false,
        reasoning: false,
    }
}

fn strings(texts: &[&str]) -> Vec<String> {
    texts.iter().map(|text| (*text).to_owned()).collect()
}

fn no_latin() -> TranslationValidator {
    TranslationValidator::new(&[TranslationValidationRule {
        name: "Latin".to_owned(),
        pattern: "[A-Za-z]".to_owned(),
    }])
    .unwrap()
}

fn begin(
    selection: &ModelSelection,
    segments: &[&str],
    validator: Option<TranslationValidator>,
) -> Translation {
    let request = TranslationRequest {
        segments: strings(segments),
        target_language: RUSSIAN,
        validator,
    };
    let generation = GenerationConfig { vision: None };
    match Translator::translate(selection, &generation, false, request) {
        Start::Begin {
            with_image,
            translation,
        } => {
            assert!(!with_image);
            translation
        }
        other => panic!("{other:?}"),
    }
}

fn next(step: Step) -> Translation {
    match step {
        Step::Send(translation) => translation,
        other => panic!("{other:?}"),
    }
}

fn done(step: Step) -> (&'static str, Vec<String>) {
    match step {
        Step::Done(result) => result.unwrap(),
        other => panic!("{other:?}"),
    }
}

fn failed(step: Step) -> TranslationError {
    match step {
        Step::Done(result) => result.unwrap_err(),
        other => panic!("{other:?}"),
    }
}

#[test]
fn local_vision_requires_capability_and_generation_setting() {
    assert!(Translator::supports_vision(
        &local_selection("gemma4-e2b-it"),
        &GenerationConfig { vision: Some(true) },
        true
    ));
    assert!(!Translator::supports_vision(
        &local_selection("gemma4-e2b-it"),
        &GenerationConfig {
            vision: Some(false)
        },
        true
    ));
    assert!(!Translator::supports_vision(
        &local_selection("lfm2.5-1.2b-instruct"),
        &GenerationConfig { vision: Some(true) },
        false
    ));
}

#[test]
fn hosted_vision_requires_only_the_setting() {
    let selection = hosted_selection(Provider::OpenAiCompatible);
    let set = |vision| GenerationConfig { vision };
    assert!(Translator::supports_vision(&selection, &set(Some(true)), false));
    assert!(!Translator::supports_vision(&selection, &set(Some(false)), false));
    assert!(!Translator::supports_vision(&selection, &set(None), true));
}

#[test]
fn targeted_retry_replaces_only_invalid_translations() {
    let mut translated = vec![
        "Первый перевод".to_owned(),
        "Если я'll make him...".to_owned(),
        "Третий перевод".to_owned(),
    ];

    merge_retry_translations(
        &mut translated,
        &[1],
        vec!["Если я заставлю его...".to_owned()],
    );

    assert_eq!(
        translated,
        ["Первый перевод", "Если я заставлю его...", "Третий перевод"]
    );
}

#[test]
fn the_last_replacement_of_a_position_wins() {
    let mut translated = strings(&["a", "b"]);
    merge_retry_translations(&mut translated, &[1, 0, 1], strings(&["x", "y", "z"]));
    assert_eq!(translated, ["y", "z"]);
    merge_retry_translations(&mut translated, &[], Vec::new());
    assert_eq!(translated, ["y", "z"]);
}

#[test]
fn validation_retries_are_bounded_and_provider_aware() {
    assert!(should_retry_validation(Provider::OpenAiCompatible, 0));
    assert!(should_retry_validation(Provider::OpenAiCompatible, 1));
    assert!(!should_retry_validation(Provider::OpenAiCompatible, 2));
    assert!(!should_retry_validation(Provider::DeepL, 0));
}

#[test]
fn plain_translation_services_read_no_feedback() {
    assert!(retries_with_feedback(Provider::Local));
    assert!(retries_with_feedback(Provider::OpenAiCompatible));
    assert!(retries_with_feedback(Provider::Other));
    assert!(!retries_with_feedback(Provider::DeepL));
    assert!(!retries_with_feedback(Provider::GoogleCloudTranslation));
    assert!(!retries_with_feedback(Provider::Caiyun));
    assert_eq!(MAX_VALIDATION_ATTEMPTS, 3);
}

#[test]
fn nothing_to_translate_is_skipped() {
    let request = TranslationRequest {
        segments: Vec::new(),
        target_language: RUSSIAN,
        validator: Some(no_latin()),
    };
    let generation = GenerationConfig { vision: Some(true) };
    let selection = local_selection("gemma4-e2b-it");
    match Translator::translate(&selection, &generation, true, request) {
        Start::Skipped(provider_id, segments) => {
            assert_eq!(provider_id, "local");
            assert!(segments.is_empty());
        }
        other => panic!("{other:?}"),
    }
}

#[test]
fn the_image_goes_to_models_that_see() {
    for local_vision in [true, false] {
        let request = TranslationRequest {
            segments: strings(&["a"]),
            target_language: RUSSIAN,
            validator: None,
        };
        let generation = GenerationConfig { vision: Some(true) };
        let selection = local_selection("any");
        match Translator::translate(&selection, &generation, local_vision, request) {
            Start::Begin { with_image, .. } => assert_eq!(with_image, local_vision),
            other => panic!("{other:?}"),
        }
    }
}

#[test]
fn without_a_validator_the_reply_is_the_result() {
    let translation = begin(&hosted_selection(Provider::DeepL), &["a", "b"], None);
    let attempt = translation.attempt();
    assert_eq!(attempt.segments, ["a", "b"]);
    assert_eq!(attempt.feedback, None);
    assert_eq!(
        done(translation.advance(strings(&["x", "y"]))),
        ("hosted", strings(&["x", "y"]))
    );
}

#[test]
fn a_reply_of_the_wrong_length_is_an_error() {
    let selection = hosted_selection(Provider::OpenAiCompatible);
    let translation = begin(&selection, &["a", "b"], Some(no_latin()));
    match failed(translation.advance(strings(&["Да"]))) {
        TranslationError::SegmentCount {
            provider,
            expected,
            actual,
        } => assert_eq!((provider, expected, actual), ("hosted", 2, 1)),
        other => panic!("{other:?}"),
    }
    let retry = next(
        begin(&selection, &["a", "b"], Some(no_latin())).advance(strings(&["Да", "no"])),
    );
    match failed(retry.advance(strings(&["Да", "Нет"]))) {
        TranslationError::SegmentCount {
            expected, actual, ..
        } => assert_eq!((expected, actual), (1, 2)),
        other => panic!("{other:?}"),
    }
}

#[test]
fn a_retry_asks_for_the_invalid_segments_and_keeps_the_others() {
    let validator = no_latin();
    let translation = begin(
        &hosted_selection(Provider::OpenAiCompatible),
        &["one", "two", "three", "four"],
        Some(validator.clone()),
    );

    let retry = next(translation.advance(strings(&["Раз", "two", "Три", "four"])));
    let attempt = retry.attempt();
    assert_eq!(attempt.segments, ["two", "four"]);
    assert_eq!(
        attempt.feedback,
        validator.feedback(&strings(&["two", "four"]), RUSSIAN)
    );

    let last = next(retry.advance(strings(&["2", "f"])));
    assert_eq!(last.attempt().segments, ["four"]);
    assert_eq!(
        last.attempt().feedback,
        validator.feedback(&strings(&["f"]), RUSSIAN)
    );

    assert_eq!(
        done(last.advance(strings(&["Четыре"]))),
        ("hosted", strings(&["Раз", "2", "Три", "Четыре"]))
    );
}

#[test]
fn the_third_invalid_reply_is_the_last() {
    let validator = no_latin();
    let mut translation = begin(
        &local_selection("any"),
        &["one", "two"],
        Some(validator.clone()),
    );
    translation = next(translation.advance(strings(&["Раз", "x"])));
    translation = next(translation.advance(strings(&["y"])));
    match failed(translation.advance(strings(&["z"]))) {
        TranslationError::Validation { provider, message } => {
            assert_eq!(provider, "local");
            assert_eq!(
                Some(message),
                validator.feedback(&strings(&["Раз", "z"]), RUSSIAN)
            );
        }
        other => panic!("{other:?}"),
    }
}

#[test]
fn a_plain_translation_service_is_asked_once() {
    for provider in [
        Provider::DeepL,
        Provider::GoogleCloudTranslation,
        Provider::Caiyun,
    ] {
        let translation = begin(&hosted_selection(provider), &["one"], Some(no_latin()));
        assert!(matches!(
            failed(translation.advance(strings(&["x"]))),
            TranslationError::Validation { .. }
        ));
    }
}

#[test]
fn the_decision_goes_by_the_table() {
    let start = || {
        begin(
            &hosted_selection(Provider::Other),
            &["one", "two"],
            Some(no_latin()),
        )
    };
    assert_eq!(
        done(start().judge(strings(&["a", "b"]), &[vec![false], vec![false]])),
        ("hosted", strings(&["a", "b"]))
    );
    let retry = next(start().judge(strings(&["a", "b"]), &[vec![true], vec![false]]));
    let attempt = retry.attempt();
    assert_eq!(attempt.segments, ["one"]);
    assert!(attempt.feedback.unwrap().contains("- segment 0: \"a\"\n\n"));
}

#[test]
fn a_loaded_model_serves_its_own_selection() {
    let mut slot: LocalSlot<u32> = LocalSlot::new();
    let selection = local_selection("a");
    let other = local_selection("b");
    let quantized = ModelSelection {
        quantization: Some("q4".to_owned()),
        ..local_selection("a")
    };
    assert!(slot.find(&selection).is_none());
    assert!(!Translator::loaded(Some(&slot), &selection));
    assert!(Translator::load_model(&selection));

    slot.store(&selection, Arc::new(7));
    assert_eq!(slot.find(&selection).map(|found| **found), Some(7));
    assert!(Translator::loaded(Some(&slot), &selection));
    assert!(!Translator::loaded(Some(&slot), &other));
    assert!(!Translator::loaded(Some(&slot), &quantized));

    slot.store(&quantized, Arc::new(8));
    assert!(slot.find(&selection).is_none());
    assert_eq!(slot.find(&quantized).map(|found| **found), Some(8));

    assert!(Translator::unload(Some(&mut slot)));
    assert!(!Translator::loaded(Some(&slot), &quantized));
    assert!(!Translator::unload(Some(&mut slot)));
}

#[test]
fn a_slot_in_use_counts_as_loaded_and_is_not_emptied() {
    assert!(Translator::loaded::<u32>(None, &local_selection("a")));
    assert!(!Translator::unload::<u32>(None));
}

#[test]
fn hosted_models_are_always_loaded() {
    let slot: LocalSlot<u32> = LocalSlot::new();
    let selection = hosted_selection(Provider::Caiyun);
    assert!(Translator::loaded(Some(&slot), &selection));
    assert!(!Translator::load_model(&selection));
    assert_eq!(Translator::model(&selection), "hosted");
}

#[test]
fn a_match_needs_model_and_quantization() {
    let loaded = LoadedLocal {
        model: Some("a".to_owned()),
        quantization: None,
        translator: Arc::new(()),
    };
    assert!(loaded.matches(&local_selection("a")));
    assert!(!loaded.matches(&local_selection("b")));
    assert!(!loaded.matches(&ModelSelection {
        model: None,
        ..local_selection("a")
    }));
    assert!(!loaded.matches(&ModelSelection {
        quantization: Some(String::new()),
        ..local_selection("a")
    }));
}
