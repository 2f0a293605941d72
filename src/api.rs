//! The request and response shapes of the two endpoints, and the decisions
//! that fill them.
use vstd::prelude::*;
use vstd::string::*;
use crate::batch::PipelineOutcome;
use crate::errors::{error_type_of, message_of, retry_suggested_of, ApiErrorType};
use crate::json::JsonValue;
use crate::text::{owned, trim_spaces, trim_white_space};

verus! {

/// The body of a single-word request.
#[derive(Debug)]
pub struct WordReq {
    pub word: String,
}

/// The body of a batch request.
#[derive(Debug)]
pub struct BatchReq {
    pub words: Vec<String>,
}

/// The body of a failed single-word response.
#[derive(Debug)]
pub struct ErrorResponse {
    pub error: String,
    pub error_type: String,
    pub word: Option<String>,
    pub retry_suggested: bool,
}

/// One element of a batch response.
#[derive(Debug)]
pub struct BatchItem {
    pub word: String,
    pub ok: bool,
    pub data: Option<JsonValue>,
    pub error: Option<String>,
    pub error_type: Option<String>,
    pub retry_suggested: Option<bool>,
}

/// The status of a request refused before any work.
pub const BAD_REQUEST: u16 = 400;

/// The longest word accepted, in bytes.
pub const MAX_WORD_BYTES: usize = 100;

/// The most pipelines a batch runs at once when none is configured.
pub const DEFAULT_CONCURRENCY_CAP: usize = 8;

/// The response to a request refused before any work: a validation error
/// that a retry will not cure.
pub open spec fn refusal(r: ErrorResponse, word: Seq<char>, error: Seq<char>) -> bool {
    &&& r.error@ == error
    &&& r.error_type@ == "validation_error"@
    &&& r.word is Some && r.word->Some_0@ == word
    &&& !r.retry_suggested
}

/// Refuses a single word that is blank or longer than `MAX_WORD_BYTES`.
pub fn check_word(word: &str) -> (r: Option<ErrorResponse>)
    ensures
        trim_spaces(word@).len() == 0 ==> r is Some && refusal(
            r->Some_0,
            word@,
            "Word cannot be empty"@,
        ),
        trim_spaces(word@).len() != 0 && word.len() > MAX_WORD_BYTES ==> r is Some
            && refusal(r->Some_0, word@, "Word too long (max 100 characters)"@),
        trim_spaces(word@).len() != 0 && word.len() <= MAX_WORD_BYTES ==> r is None,
{
    let t = trim_white_space(word);
    if t.as_str().is_empty() {
        return Some(
            ErrorResponse {
                error: owned("Word cannot be empty"),
                error_type: owned("validation_error"),
                word: Some(owned(word)),
                retry_suggested: false,
            },
        );
    }
    if word.len() > MAX_WORD_BYTES {
        return Some(
            ErrorResponse {
                error: owned("Word too long (max 100 characters)"),
                error_type: owned("validation_error"),
                word: Some(owned(word)),
                retry_suggested: false,
            },
        );
    }
    None
}

/// The body of a failed single-word response.
pub fn error_response(word: &str, e: &ApiErrorType) -> (r: ErrorResponse)
    ensures
        r.error@ == message_of(e@),
        r.error_type@ == error_type_of(e@),
        r.word is Some && r.word->Some_0@ == word@,
        r.retry_suggested == retry_suggested_of(e@),
{
    ErrorResponse {
        error: owned(e.message()),
        error_type: owned(e.error_type_str()),
        word: Some(owned(word)),
        retry_suggested: e.should_retry(),
    }
}

/// `item` reports `outcome` for `word`.
pub open spec fn reports(item: BatchItem, word: Seq<char>, outcome: PipelineOutcome) -> bool {
    &&& item.word@ == word
    &&& item.ok == outcome is Ok
    &&& match outcome {
        Ok(v) => {
            &&& item.data == Some(v)
            &&& item.error is None
            &&& item.error_type is None
            &&& item.retry_suggested is None
        },
        Err(e) => {
            &&& item.data is None
            &&& item.error is Some && item.error->Some_0@ == message_of(e@)
            &&& item.error_type is Some && item.error_type->Some_0@ == error_type_of(e@)
            &&& item.retry_suggested == Some(retry_suggested_of(e@))
        },
    }
}

/// The batch element for one word's outcome.
pub fn batch_item(word: &str, outcome: PipelineOutcome) -> (r: BatchItem)
    ensures
        reports(r, word@, outcome),
{
    match outcome {
        Ok(v) => BatchItem {
            word: owned(word),
            ok: true,
            data: Some(v),
            error: None,
            error_type: None,
            retry_suggested: None,
        },
        Err(e) => BatchItem {
            word: owned(word),
            ok: false,
            data: None,
            error: Some(owned(e.message())),
            error_type: Some(owned(e.error_type_str())),
            retry_suggested: Some(e.should_retry()),
        },
    }
}

/// The batch response: element `i` reports outcome `i` for word `i`.
pub fn batch_items(words: &Vec<String>, outcomes: Vec<PipelineOutcome>) -> (r: Vec<BatchItem>)
    requires
        words@.len() == outcomes@.len(),
    ensures
        r@.len() == words@.len(),
        forall|i: int| 0 <= i < r@.len() ==> reports(#[trigger] r@[i], words@[i]@, outcomes@[i]),
{
    let ghost orig = outcomes@;
    let n = outcomes.len();
    let mut outcomes = outcomes;
    let mut out: Vec<BatchItem> = Vec::new();
    let mut k: usize = 0;
    while outcomes.len() > 0
        invariant
            orig.len() == n,
            words@.len() == n,
            0 <= k <= n,
            outcomes@ == orig.subrange(k as int, n as int),
            out@.len() == k,
            forall|i: int| 0 <= i < k ==> reports(#[trigger] out@[i], words@[i]@, orig[i]),
        decreases outcomes.len(),
    {
        let o = outcomes.remove(0);
        out.push(batch_item(words[k].as_str(), o));
        k = k + 1;
    }
    out
}

/// The concurrency cap of a batch: the configured one when it is positive,
/// else the smaller of `DEFAULT_CONCURRENCY_CAP` and the logical CPU count,
/// and never below one.
pub fn concurrency_limit(configured: usize, cpus: usize) -> (r: usize)
    ensures
        r >= 1,
        configured > 0 ==> r == configured,
        configured == 0 && 1 <= cpus <= DEFAULT_CONCURRENCY_CAP ==> r == cpus,
        configured == 0 && cpus > DEFAULT_CONCURRENCY_CAP ==> r == DEFAULT_CONCURRENCY_CAP,
        configured == 0 && cpus == 0 ==> r == 1,
{
    if configured > 0 {
        configured
    } else if cpus == 0 {
        1
    } else if cpus < DEFAULT_CONCURRENCY_CAP {
        cpus
    } else {
        DEFAULT_CONCURRENCY_CAP
    }
}

} // verus!
