use lingua_fast::json::{parse_json, to_serde, JsonValue};
use lingua_fast::validate::{
    dedupe_terms, schema_verdict, validate_and_fix_meanings, ValidationErrorType, Validator,
};
use serde_json::Value;

const BASE: &str = r#"{
    "word": "ignored",
    "baseForm": "ignore",
    "phonetic": "ɪgˈnɔːd",
    "difficulty": "beginner",
    "language": "english",
    "meanings": [
        {
            "partOfSpeech": "noun",
            "definition": "This is a sufficiently long definition string for schema.",
            "exampleSentence": "An example sentence that is valid.",
            "grammarTip": "A short grammar tip.",
            "synonyms": ["Alpha", "alpha", "BETA"],
            "antonyms": ["Opposite", "opposite"],
            "translations": {
                "es": "x", "fr": "x", "de": "x", "zh": "x", "ja": "x",
                "it": "x", "pt": "x", "ru": "x", "ar": "x"
            }
        }
    ]
}"#;

const SECOND_NOUN: &str = r#"{
    "partOfSpeech": "noun",
    "definition": "Another sufficiently long definition string for schema validity.",
    "exampleSentence": "Another example.",
    "grammarTip": "Another tip.",
    "synonyms": [],
    "antonyms": [],
    "translations": {
        "es": "x", "fr": "x", "de": "x", "zh": "x", "ja": "x",
        "it": "x", "pt": "x", "ru": "x", "ar": "x"
    }
}"#;

fn doc(text: &str) -> Value {
    serde_json::from_str(text).unwrap()
}

fn parse(v: &Value) -> JsonValue {
    parse_json(serde_json::to_vec(v).unwrap().as_slice()).unwrap()
}

fn validator() -> Validator {
    Validator::new("").unwrap()
}

fn run(v: Value, word: &str) -> Result<Value, ValidationErrorType> {
    validator().validate_and_fix(parse(&v), word).map(|x| to_serde(&x))
}

fn base_with(key: &str, value: Value) -> Value {
    let mut v = doc(BASE);
    v.as_object_mut().unwrap().insert(key.to_string(), value);
    v
}

fn meaning_with(key: &str, value: Value) -> Value {
    let mut v = doc(BASE);
    v["meanings"][0].as_object_mut().unwrap().insert(key.to_string(), value);
    v
}

fn strings(v: &Value) -> Vec<String> {
    v.as_array().unwrap().iter().map(|x| x.as_str().unwrap().to_string()).collect()
}

#[test]
fn sets_surface_word_and_dedupes() {
    let v = doc(BASE);
    let out = run(v, "Surface").unwrap();
    assert_eq!(out["word"], "Surface");
    let syn = out["meanings"][0]["synonyms"].as_array().unwrap();
    assert_eq!(syn, &vec![Value::String("alpha".into()), Value::String("beta".into())]);
    let ant = out["meanings"][0]["antonyms"].as_array().unwrap();
    assert_eq!(ant, &vec![Value::String("opposite".into())]);
}

#[test]
fn duplicate_pos_errors() {
    let mut v = doc(BASE);
    v["meanings"].as_array_mut().unwrap().push(doc(SECOND_NOUN));
    let res = run(v, "Surface");
    assert!(res.is_err(), "expected error on duplicate partOfSpeech");
}

#[test]
fn duplicate_pos_is_final_and_names_the_category() {
    let mut v = doc(BASE);
    let mut second = doc(SECOND_NOUN);
    second["partOfSpeech"] = Value::String("Noun".into());
    v["meanings"].as_array_mut().unwrap().push(second);
    let e = run(v, "Surface").unwrap_err();
    assert!(matches!(&e, ValidationErrorType::DuplicatePartOfSpeech(p) if p == "Noun"));
    assert!(!e.is_retryable());
    assert_eq!(e.describe(), "Duplicate part of speech: Noun");
}

#[test]
fn synonyms_are_normalized_in_first_seen_order() {
    let v = meaning_with("synonyms", doc(r#"["Alpha", "alpha", "BETA"]"#));
    let out = run(v, "w").unwrap();
    assert_eq!(strings(&out["meanings"][0]["synonyms"]), vec!["alpha", "beta"]);
}

#[test]
fn terms_are_trimmed_and_empty_ones_dropped() {
    let v = meaning_with("synonyms", doc(r#"["  Gamma ", "", "   ", 7, "gamma", "Delta"]"#));
    let out = run(v, "w").unwrap();
    assert_eq!(strings(&out["meanings"][0]["synonyms"]), vec!["gamma", "delta"]);
}

#[test]
fn absent_term_lists_become_empty_arrays() {
    let mut v = doc(BASE);
    v["meanings"][0].as_object_mut().unwrap().remove("antonyms");
    let out = run(v, "w").unwrap();
    assert_eq!(out["meanings"][0]["antonyms"], doc("[]"));
}

#[test]
fn dedupe_terms_keeps_first_occurrences() {
    let terms = vec!["b".to_string(), "".to_string(), "a".to_string(), "b".to_string()];
    assert_eq!(dedupe_terms(&terms), vec!["b".to_string(), "a".to_string()]);
}

#[test]
fn phonetic_forms_repair_to_one_pair_of_slashes() {
    for p in ["wɜːd", "/wɜːd/", "wɜːd/", "  //wɜːd// "] {
        let out = run(base_with("phonetic", Value::String(p.into())), "w").unwrap();
        assert_eq!(out["phonetic"], "/wɜːd/", "input {:?}", p);
    }
}

#[test]
fn unknown_difficulty_becomes_intermediate() {
    let out = run(base_with("difficulty", Value::String("expert".into())), "w").unwrap();
    assert_eq!(out["difficulty"], "intermediate");
    let out = run(base_with("difficulty", Value::String("advanced".into())), "w").unwrap();
    assert_eq!(out["difficulty"], "advanced");
}

#[test]
fn language_is_forced_to_english() {
    let out = run(base_with("language", Value::String("french".into())), "w").unwrap();
    assert_eq!(out["language"], "english");
}

#[test]
fn part_of_speech_is_lowercased() {
    let out = run(meaning_with("partOfSpeech", Value::String("VERB".into())), "w").unwrap();
    assert_eq!(out["meanings"][0]["partOfSpeech"], "verb");
}

#[test]
fn missing_top_level_field_is_final() {
    let mut v = doc(BASE);
    v.as_object_mut().unwrap().remove("difficulty");
    let e = run(v, "w").unwrap_err();
    assert!(matches!(&e, ValidationErrorType::MissingRequiredField(f) if f == "difficulty"));
    assert!(!e.is_retryable());
    assert_eq!(e.describe(), "Missing required field: difficulty");
}

#[test]
fn root_must_be_an_object() {
    let e = run(doc("[1, 2]"), "w").unwrap_err();
    assert!(matches!(&e, ValidationErrorType::SchemaValidation(m) if m == "Expected JSON object at root"));
    assert!(e.is_retryable());
}

#[test]
fn non_string_phonetic_is_rejected() {
    let e = run(base_with("phonetic", doc("5")), "w").unwrap_err();
    assert!(matches!(&e, ValidationErrorType::InvalidPhonetic(_)));
    assert!(e.is_retryable());
}

#[test]
fn empty_meanings_are_insufficient() {
    let e = run(base_with("meanings", doc("[]")), "w").unwrap_err();
    assert!(matches!(e, ValidationErrorType::InsufficientMeanings));
    assert_eq!(e.describe(), "At least one meaning is required");
}

#[test]
fn meanings_that_are_not_an_array_count_as_missing() {
    let e = run(base_with("meanings", doc("{}")), "w").unwrap_err();
    assert!(matches!(&e, ValidationErrorType::MissingRequiredField(f) if f == "meanings"));
}

#[test]
fn invalid_part_of_speech_is_final() {
    let e = run(meaning_with("partOfSpeech", Value::String("Thing".into())), "w").unwrap_err();
    match &e {
        ValidationErrorType::InvalidFieldValue { field, reason } => {
            assert_eq!(field, "partOfSpeech");
            assert_eq!(reason, "'Thing' is not a valid part of speech");
        }
        other => panic!("unexpected {:?}", other),
    }
    assert!(!e.is_retryable());
    assert_eq!(e.describe(), "Invalid value for partOfSpeech: 'Thing' is not a valid part of speech");
}

#[test]
fn meaning_field_missing_names_its_position() {
    let mut v = doc(BASE);
    v["meanings"].as_array_mut().unwrap().push(doc(SECOND_NOUN));
    v["meanings"][1]["partOfSpeech"] = Value::String("verb".into());
    v["meanings"][1].as_object_mut().unwrap().remove("grammarTip");
    let e = run(v, "w").unwrap_err();
    assert!(matches!(&e, ValidationErrorType::MissingRequiredField(f) if f == "grammarTip in meaning 1"));
}

#[test]
fn missing_translation_is_rejected_not_filled() {
    let mut v = doc(BASE);
    v["meanings"][0]["translations"].as_object_mut().unwrap().remove("ru");
    let e = run(v, "w").unwrap_err();
    assert!(matches!(&e, ValidationErrorType::MissingRequiredField(f) if f == "translation for 'ru' in meaning 0"));
    assert!(!e.is_retryable());
}

#[test]
fn meaning_that_is_not_an_object_is_retryable() {
    let e = run(base_with("meanings", doc(r#"["noun"]"#)), "w").unwrap_err();
    assert!(matches!(&e, ValidationErrorType::SchemaValidation(m) if m == "Meaning 0 must be an object"));
    assert!(e.is_retryable());
}

#[test]
fn schema_rejects_extra_translation_keys() {
    let mut v = doc(BASE);
    v["meanings"][0]["translations"]["xx"] = Value::String("y".into());
    let e = run(v, "w").unwrap_err();
    assert!(matches!(&e, ValidationErrorType::SchemaValidation(_)));
    assert!(e.is_retryable());
}

#[test]
fn schema_verdict_reports_at_most_five_messages() {
    let errors: Vec<String> = (1..=7).map(|i| format!("e{}", i)).collect();
    let e = schema_verdict(JsonValue::Null, &errors).unwrap_err();
    assert!(matches!(&e, ValidationErrorType::SchemaValidation(m) if m == "e1; e2; e3; e4; e5"));
    let e = schema_verdict(JsonValue::Null, &vec!["only".to_string()]).unwrap_err();
    assert_eq!(e.describe(), "Schema validation failed: only");
    assert!(schema_verdict(JsonValue::Bool(true), &Vec::new()).is_ok());
}

#[test]
fn validator_always_holds_the_word_schema() {
    // The argument is not read: a self-referencing schema cannot slip in.
    let v = Validator::new(r##"{"$ref": "#"}"##).unwrap();
    assert!(v.validate_and_fix(parse(&doc(BASE)), "w").is_ok());
    let bad = base_with("language", doc("7"));
    let fixed = v.validate_and_fix(parse(&bad), "w").unwrap();
    assert_eq!(to_serde(&fixed)["language"], "english");
}

#[test]
fn meanings_step_rejects_an_empty_list() {
    let e = validate_and_fix_meanings(Vec::new()).unwrap_err();
    assert!(matches!(e, ValidationErrorType::InsufficientMeanings));
    assert!(!e.is_retryable());
}

#[test]
fn translations_that_are_not_an_object_are_missing_every_code() {
    let e = run(meaning_with("translations", doc(r#""hola""#)), "w").unwrap_err();
    assert!(matches!(&e, ValidationErrorType::MissingRequiredField(f) if f == "translation for 'es' in meaning 0"));
    assert!(!e.is_retryable());
}

#[test]
fn schema_rejects_more_than_four_meanings() {
    let mut v = doc(BASE);
    for pos in ["verb", "adjective", "adverb", "pronoun"] {
        let mut m = doc(SECOND_NOUN);
        m["partOfSpeech"] = Value::String(pos.into());
        v["meanings"].as_array_mut().unwrap().push(m);
    }
    let e = run(v, "w").unwrap_err();
    assert!(matches!(&e, ValidationErrorType::SchemaValidation(_)));
}

#[test]
fn validation_is_deterministic_and_idempotent() {
    let a = run(doc(BASE), "Surface").unwrap();
    let b = run(doc(BASE), "Surface").unwrap();
    assert_eq!(a, b);
    let again = run(a.clone(), "Surface").unwrap();
    assert_eq!(again, a);
}
