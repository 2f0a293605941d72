use lingua_fast::api::{batch_items, check_word, concurrency_limit, error_response, BatchItem};
use lingua_fast::batch::{BatchScheduler, PipelineOutcome};
use lingua_fast::errors::ApiErrorType;
use lingua_fast::json::to_serde;
use lingua_fast::policy::{decide, run_attempt, AttemptError, Step, MAX_ATTEMPTS};
use lingua_fast::validate::{ValidationErrorType, Validator};

fn entry_for(word: &str) -> String {
    format!(
        r#"Here you go: {{
            "word": "{w}",
            "baseForm": "{l}",
            "phonetic": "tÉ›st",
            "difficulty": "beginner",
            "language": "english",
            "meanings": [
                {{
                    "partOfSpeech": "noun",
                    "definition": "This is a long enough definition to satisfy schema.",
                    "exampleSentence": "A valid example sentence.",
                    "grammarTip": "A short useful tip.",
                    "synonyms": ["Alpha", "alpha", "BETA"],
                    "antonyms": ["Opposite", "opposite"],
                    "translations": {{
                        "es": "x", "fr": "x", "de": "x", "zh": "x", "ja": "x",
                        "it": "x", "pt": "x", "ru": "x", "ar": "x"
                    }}
                }}
            ]
        }} Enjoy."#,
        w = word,
        l = word.to_lowercase()
    )
}

/// A stand-in gateway: "fail" always errors, "dup" repeats a part of speech,
/// "junk" is not JSON, anything else gets a valid entry wrapped in chatter.
fn fake_gateway(word: &str) -> Result<Vec<u8>, String> {
    match word {
        "fail" => Err("backend failure for test word".to_string()),
        "junk" => Ok(b"no json here".to_vec()),
        "dup" => {
            let mut v: serde_json::Value = serde_json::from_str(
                lingua_fast::model::extract_json_bytes(&entry_for(word))
                    .map(|b| String::from_utf8(b).unwrap())
                    .unwrap()
                    .as_str(),
            )
            .unwrap();
            let m = v["meanings"][0].clone();
            v["meanings"].as_array_mut().unwrap().push(m);
            Ok(serde_json::to_vec(&v).unwrap())
        }
        _ => {
            let text = entry_for(word);
            Ok(lingua_fast::model::extract_json_bytes(&text).unwrap())
        }
    }
}

/// Runs one word's pipeline to its end, counting gateway calls.
fn run_word(v: &Validator, word: &str, calls: &mut usize) -> PipelineOutcome {
    let mut attempt: u32 = 1;
    loop {
        *calls += 1;
        let result = run_attempt(v, word, fake_gateway(word));
        match decide(attempt, result) {
            Step::Done(o) => return o,
            Step::Retry => attempt += 1,
        }
    }
}

/// Runs a batch under the scheduler; pipelines complete in the order that
/// `pick` chooses among the running ones. Returns the items and the largest
/// number of pipelines seen running at once.
fn run_batch(words: &[&str], limit: usize, pick: fn(&[usize]) -> usize) -> (Vec<BatchItem>, usize) {
    let v = Validator::new("").unwrap();
    let mut sched = BatchScheduler::new(words.len(), limit);
    let mut running: Vec<usize> = Vec::new();
    let mut peak = 0;
    loop {
        while let Some(i) = sched.start_next() {
            running.push(i);
        }
        peak = peak.max(sched.running());
        assert_eq!(sched.running(), running.len());
        if sched.is_finished() {
            break;
        }
        let k = pick(&running);
        let i = running.remove(k);
        let mut calls = 0;
        let outcome = run_word(&v, words[i], &mut calls);
        assert!(sched.is_running(i));
        sched.complete(i, outcome);
    }
    let words: Vec<String> = words.iter().map(|w| w.to_string()).collect();
    (batch_items(&words, sched.into_outcomes()), peak)
}

fn first(_: &[usize]) -> usize {
    0
}

fn last(r: &[usize]) -> usize {
    r.len() - 1
}

#[test]
fn single_word_ok() {
    let v = Validator::new("").unwrap();
    let mut calls = 0;
    let out = run_word(&v, "Test", &mut calls).unwrap();
    let out = to_serde(&out);
    assert!(out.get("word").is_some());
    assert!(out.get("meanings").is_some());
    assert_eq!(out["word"], "Test");
    assert_eq!(calls, 1);
}

#[test]
fn single_word_backend_error() {
    let v = Validator::new("").unwrap();
    let mut calls = 0;
    let e = run_word(&v, "fail", &mut calls).unwrap_err();
    assert_eq!(e.status_code(), 503);
    assert_eq!(calls, 3);
}

#[test]
fn batch_mixed_results() {
    let (arr, _) = run_batch(&["ok1", "fail", "ok2"], 8, first);
    assert_eq!(arr.len(), 3);
    assert_eq!(arr[0].word, "ok1");
    assert!(arr[0].ok);
    assert!(matches!(arr[0].data, Some(lingua_fast::json::JsonValue::Object(_))));
    assert!(!arr[1].ok);
    assert_eq!(arr[2].word, "ok2");
    assert!(arr[2].ok);
}

#[test]
fn failing_gateway_is_tried_three_times_then_reported() {
    let v = Validator::new("").unwrap();
    let mut calls = 0;
    let e = run_word(&v, "fail", &mut calls).unwrap_err();
    assert_eq!(calls, MAX_ATTEMPTS as usize);
    assert_eq!(e.error_type_str(), "inference_error");
    assert!(e.should_retry());
    assert_eq!(e.message(), "LLM inference failed after 3 attempts: backend failure for test word");
    let r = error_response("fail", &e);
    assert_eq!(r.error_type, "inference_error");
    assert!(r.retry_suggested);
    assert_eq!(r.word.as_deref(), Some("fail"));
    let (items, _) = run_batch(&["fail"], 2, first);
    assert!(!items[0].ok);
    assert_eq!(items[0].error_type.as_deref(), Some("inference_error"));
    assert_eq!(items[0].retry_suggested, Some(true));
}

#[test]
fn duplicate_part_of_speech_stops_after_one_attempt() {
    let v = Validator::new("").unwrap();
    let mut calls = 0;
    let e = run_word(&v, "dup", &mut calls).unwrap_err();
    assert_eq!(calls, 1);
    assert_eq!(e.error_type_str(), "validation_error");
    assert!(!e.should_retry());
    assert_eq!(e.status_code(), 422);
    assert_eq!(e.message(), "Duplicate part of speech: noun");
}

#[test]
fn unparsable_output_is_retried_then_reported() {
    let v = Validator::new("").unwrap();
    let mut calls = 0;
    let e = run_word(&v, "junk", &mut calls).unwrap_err();
    assert_eq!(calls, 3);
    assert_eq!(e.error_type_str(), "json_parse_error");
    assert_eq!(e.status_code(), 422);
    assert!(e.message().starts_with("Failed to parse JSON response after 3 attempts: "));
}

#[test]
fn decide_retries_only_retryable_failures_before_the_last_attempt() {
    let schema = || AttemptError::Validation(ValidationErrorType::SchemaValidation("x".to_string()));
    assert!(matches!(decide(1, Err(schema())), Step::Retry));
    assert!(matches!(decide(2, Err(AttemptError::JsonParse("p".to_string()))), Step::Retry));
    match decide(3, Err(schema())) {
        Step::Done(Err(ApiErrorType::Validation(m))) => {
            assert_eq!(m, "Validation failed after 3 attempts: Schema validation failed: x")
        }
        other => panic!("unexpected {:?}", other),
    }
    let missing = AttemptError::Validation(ValidationErrorType::MissingRequiredField("baseForm".to_string()));
    match decide(1, Err(missing)) {
        Step::Done(Err(ApiErrorType::Validation(m))) => {
            assert_eq!(m, "Missing required field: baseForm")
        }
        other => panic!("unexpected {:?}", other),
    }
    assert!(matches!(decide(1, Ok(lingua_fast::json::JsonValue::Null)), Step::Done(Ok(_))));
}

#[test]
fn batch_of_any_size_has_one_item_per_word() {
    let words = ["a", "fail", "b", "c", "junk"];
    for n in 0..=words.len() {
        let (items, _) = run_batch(&words[..n], 2, last);
        assert_eq!(items.len(), n);
    }
}

#[test]
fn empty_batch_starts_nothing() {
    let mut sched = BatchScheduler::new(0, 3);
    assert!(sched.is_finished());
    assert_eq!(sched.start_next(), None);
    assert!(sched.into_outcomes().is_empty());
}

#[test]
fn items_keep_input_order_whatever_the_completion_order() {
    let words = ["w0", "fail", "w2", "w3", "w4", "w5"];
    for pick in [first as fn(&[usize]) -> usize, last] {
        let (items, _) = run_batch(&words, 3, pick);
        for (i, item) in items.iter().enumerate() {
            assert_eq!(item.word, words[i]);
            assert_eq!(item.ok, words[i] != "fail");
            if let Some(d) = &item.data {
                assert_eq!(to_serde(d)["word"], words[i]);
            }
        }
    }
}

#[test]
fn no_more_than_the_cap_run_at_once() {
    let mut sched = BatchScheduler::new(5, 2);
    assert_eq!(sched.start_next(), Some(0));
    assert_eq!(sched.start_next(), Some(1));
    assert_eq!(sched.start_next(), None);
    assert_eq!(sched.running(), 2);
    sched.complete(1, Err(ApiErrorType::Internal("aborted".to_string())));
    assert_eq!(sched.start_next(), Some(2));
    assert_eq!(sched.start_next(), None);
    let (_, peak) = run_batch(&["a", "b", "c", "d", "e"], 2, last);
    assert_eq!(peak, 2);
}

#[test]
fn status_codes_follow_the_error_class() {
    assert_eq!(ApiErrorType::Validation("v".into()).status_code(), 422);
    assert_eq!(ApiErrorType::JsonParse("j".into()).status_code(), 422);
    assert_eq!(ApiErrorType::Inference("i".into()).status_code(), 503);
    assert_eq!(ApiErrorType::Internal("x".into()).status_code(), 500);
    assert_eq!(ApiErrorType::Internal("x".into()).error_type_str(), "internal_error");
    assert!(ApiErrorType::Internal("x".into()).should_retry());
}

#[test]
fn blank_and_long_words_are_refused() {
    let r = check_word("  \t ").unwrap();
    assert_eq!(r.error, "Word cannot be empty");
    assert_eq!(r.error_type, "validation_error");
    assert!(!r.retry_suggested);
    let long = "x".repeat(101);
    assert_eq!(check_word(&long).unwrap().error, "Word too long (max 100 characters)");
    assert!(check_word(&"x".repeat(100)).is_none());
    assert!(check_word(" word ").is_none());
}

#[test]
fn concurrency_limit_defaults_to_cpus_capped_at_eight() {
    assert_eq!(concurrency_limit(3, 16), 3);
    assert_eq!(concurrency_limit(0, 4), 4);
    assert_eq!(concurrency_limit(0, 32), 8);
    assert_eq!(concurrency_limit(0, 0), 1);
}
