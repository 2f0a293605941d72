//! The retry and classification policy of one word's pipeline: each attempt
//! builds the prompt, asks the gateway, parses and validates; a failure is
//! classified and either retried after a fixed delay or reported.
use vstd::prelude::*;
use crate::errors::{error_type_of, retry_suggested_of, status_of, ApiErrorType, ApiFault};
use crate::json::{json_of, parse_json, JsonModel, JsonValue};
use crate::text::{cat3, decimal, decimal_text};
use crate::validate::{
    checked, fault_text, is_final_fault, ValidationErrorType, ValidationFault, Validator,
};

verus! {

/// Attempts per word, the first included.
pub const MAX_ATTEMPTS: u32 = 3;

/// The pause before asking the gateway again, in milliseconds.
pub const RETRY_DELAY_MS: u64 = 500;

/// How one attempt failed.
#[derive(Debug)]
pub enum AttemptError {
    /// The gateway call failed.
    Inference(String),
    /// The gateway's bytes are not JSON.
    JsonParse(String),
    /// The engine rejected the output.
    Validation(ValidationErrorType),
}

/// The model of an `AttemptError`.
pub enum AttemptFault {
    Inference(Seq<char>),
    JsonParse(Seq<char>),
    Validation(ValidationFault),
}

impl View for AttemptError {
    type V = AttemptFault;

    open spec fn view(&self) -> AttemptFault {
        match self {
            AttemptError::Inference(m) => AttemptFault::Inference(m@),
            AttemptError::JsonParse(m) => AttemptFault::JsonParse(m@),
            AttemptError::Validation(e) => AttemptFault::Validation(e@),
        }
    }
}

/// Whether asking again may help: every failure but a named-rule rejection.
pub open spec fn is_retryable_fault(f: AttemptFault) -> bool {
    match f {
        AttemptFault::Validation(v) => !is_final_fault(v),
        _ => true,
    }
}

impl AttemptError {
    pub fn is_retryable(&self) -> (r: bool)
        ensures
            r == is_retryable_fault(self@),
    {
        match self {
            AttemptError::Validation(e) => e.is_retryable(),
            _ => true,
        }
    }
}

/// The error that ends a pipeline whose attempt number `attempt` failed
/// with `f`: a retryable failure is annotated with the attempt count.
pub open spec fn final_fault(attempt: nat, f: AttemptFault) -> ApiFault {
    match f {
        AttemptFault::Inference(m) => ApiFault::Inference(
            "LLM inference failed after "@ + decimal(attempt) + " attempts: "@ + m,
        ),
        AttemptFault::JsonParse(m) => ApiFault::JsonParse(
            "Failed to parse JSON response after "@ + decimal(attempt) + " attempts: "@ + m,
        ),
        AttemptFault::Validation(v) => if is_final_fault(v) {
            ApiFault::Validation(fault_text(v))
        } else {
            ApiFault::Validation(
                "Validation failed after "@ + decimal(attempt) + " attempts: "@ + fault_text(v),
            )
        },
    }
}

/// What to do after an attempt.
#[derive(Debug)]
pub enum Step {
    /// Wait `RETRY_DELAY_MS`, then make the next attempt with the same prompt.
    Retry,
    /// The pipeline is over, with this outcome.
    Done(Result<JsonValue, ApiErrorType>),
}

/// What an attempt's result leads to: `None` for another attempt, or the
/// pipeline's outcome.
pub open spec fn step_of(attempt: nat, r: Result<JsonModel, AttemptFault>) -> Option<
    Result<JsonModel, ApiFault>,
> {
    match r {
        Ok(v) => Some(Ok(v)),
        Err(f) => if is_retryable_fault(f) && attempt < MAX_ATTEMPTS {
            None
        } else {
            Some(Err(final_fault(attempt, f)))
        },
    }
}

pub open spec fn attempt_view(r: Result<JsonValue, AttemptError>) -> Result<JsonModel, AttemptFault> {
    match r {
        Ok(v) => Ok(v@),
        Err(e) => Err(e@),
    }
}

pub open spec fn outcome_view(r: Result<JsonValue, ApiErrorType>) -> Result<JsonModel, ApiFault> {
    match r {
        Ok(v) => Ok(v@),
        Err(e) => Err(e@),
    }
}

fn annotated(head: &str, attempt: u32, tail: &str, m: &str) -> (r: String)
    ensures
        r@ == head@ + decimal(attempt as nat) + tail@ + m@,
{
    let d = decimal_text(attempt as usize);
    let mut s = cat3(head, d.as_str(), tail);
    s.append(m);
    s
}

/// The policy's decision after attempt number `attempt` (counted from one)
/// gave `result`, in the manner of `step_of`.
pub fn decide(attempt: u32, result: Result<JsonValue, AttemptError>) -> (r: Step)
    requires
        1 <= attempt <= MAX_ATTEMPTS,
    ensures
        match step_of(attempt as nat, attempt_view(result)) {
            None => r is Retry,
            Some(o) => r is Done && outcome_view(r->Done_0) == o,
        },
{
    match result {
        Ok(v) => Step::Done(Ok(v)),
        Err(e) => {
            if e.is_retryable() && attempt < MAX_ATTEMPTS {
                return Step::Retry;
            }
            let err = match e {
                AttemptError::Inference(m) => ApiErrorType::Inference(
                    annotated("LLM inference failed after ", attempt, " attempts: ", m.as_str()),
                ),
                AttemptError::JsonParse(m) => ApiErrorType::JsonParse(
                    annotated(
                        "Failed to parse JSON response after ",
                        attempt,
                        " attempts: ",
                        m.as_str(),
                    ),
                ),
                AttemptError::Validation(v) => {
                    let text = v.describe();
                    if v.is_retryable() {
                        ApiErrorType::Validation(
                            annotated(
                                "Validation failed after ",
                                attempt,
                                " attempts: ",
                                text.as_str(),
                            ),
                        )
                    } else {
                        ApiErrorType::Validation(text)
                    }
                },
            };
            Step::Done(Err(err))
        },
    }
}

/// An engine verdict as the result of an attempt.
pub open spec fn engine_attempt(c: Result<JsonModel, ValidationFault>) -> Result<
    JsonModel,
    AttemptFault,
> {
    match c {
        Ok(x) => Ok(x),
        Err(e) => Err(AttemptFault::Validation(e)),
    }
}

/// The result of an attempt whose reply was read as `parsed`.
pub open spec fn parsed_attempt(parsed: Result<JsonModel, Seq<char>>, word: Seq<char>) -> Result<
    JsonModel,
    AttemptFault,
> {
    match parsed {
        Err(m) => Err(AttemptFault::JsonParse(m)),
        Ok(v) => engine_attempt(checked(v, word)),
    }
}

pub open spec fn parsed_view(p: Result<JsonValue, String>) -> Result<JsonModel, Seq<char>> {
    match p {
        Ok(v) => Ok(v@),
        Err(m) => Err(m@),
    }
}

/// The result of one attempt once the gateway's bytes have been read: a
/// read failure is a parse failure; otherwise the engine decides.
pub fn classify_parsed(validator: &Validator, word: &str, parsed: Result<JsonValue, String>) -> (r:
    Result<JsonValue, AttemptError>)
    ensures
        attempt_view(r) == parsed_attempt(parsed_view(parsed), word@),
{
    match parsed {
        Err(m) => Err(AttemptError::JsonParse(m)),
        Ok(v) => match validator.validate_and_fix(v, word) {
            Ok(x) => Ok(x),
            Err(e) => Err(AttemptError::Validation(e)),
        },
    }
}

/// One attempt, given what the gateway replied: its error message, or the
/// bytes it generated.
pub fn run_attempt(validator: &Validator, word: &str, reply: Result<Vec<u8>, String>) -> (r: Result<
    JsonValue,
    AttemptError,
>)
    ensures
        reply is Err ==> r is Err && r->Err_0@ == AttemptFault::Inference(reply->Err_0@),
        reply is Ok && json_of(reply->Ok_0@) is None ==> r is Err && r->Err_0 is JsonParse,
        reply is Ok && json_of(reply->Ok_0@) is Some ==> attempt_view(r) == engine_attempt(
            checked(json_of(reply->Ok_0@)->Some_0, word@),
        ),
{
    match reply {
        Err(m) => Err(AttemptError::Inference(m)),
        Ok(bytes) => classify_parsed(validator, word, parse_json(bytes.as_slice())),
    }
}

/// The attempt number that ends a pipeline whose attempts from number
/// `attempt` on give `rs[attempt - 1]`, `rs[attempt]`, ..., with its outcome.
pub open spec fn run_from(rs: Seq<Result<JsonModel, AttemptFault>>, attempt: nat) -> (
    nat,
    Result<JsonModel, ApiFault>,
)
    decreases MAX_ATTEMPTS - attempt,
{
    if attempt == 0 || attempt > MAX_ATTEMPTS || attempt > rs.len() {
        (attempt, Err(ApiFault::Internal("Unexpected end of retry loop"@)))
    } else {
        match step_of(attempt, rs[attempt - 1]) {
            Some(o) => (attempt, o),
            None => run_from(rs, attempt + 1),
        }
    }
}

/// The whole pipeline run, when attempt `a` gives `rs[a - 1]`.
pub open spec fn run_policy(rs: Seq<Result<JsonModel, AttemptFault>>) -> (
    nat,
    Result<JsonModel, ApiFault>,
) {
    run_from(rs, 1)
}

/// Attempt number `a` failed in a way that leads to another attempt.
pub open spec fn retried(rs: Seq<Result<JsonModel, AttemptFault>>, a: nat) -> bool {
    step_of(a, rs[a - 1]) is None
}

/// A pipeline makes between one and `MAX_ATTEMPTS` attempts; every attempt
/// before the last one was retried, and the last one gives the outcome.
pub proof fn lemma_attempts_bounded(rs: Seq<Result<JsonModel, AttemptFault>>)
    requires
        rs.len() == MAX_ATTEMPTS,
    ensures
        1 <= run_policy(rs).0 <= MAX_ATTEMPTS,
        forall|a: nat| 1 <= a < run_policy(rs).0 ==> #[trigger] retried(rs, a),
        step_of(run_policy(rs).0, rs[run_policy(rs).0 - 1]) == Some(run_policy(rs).1),
{
    reveal_with_fuel(run_from, 4);
    assert(step_of(3, rs[2]) is Some);
}

/// A word whose gateway call always fails: exactly `MAX_ATTEMPTS` calls,
/// then an inference error that suggests a retry, reported as
/// "inference_error" with status 503.
pub proof fn lemma_gateway_always_fails(rs: Seq<Result<JsonModel, AttemptFault>>)
    requires
        rs.len() == MAX_ATTEMPTS,
        forall|i: int| 0 <= i < rs.len() ==> #[trigger] rs[i] is Err && rs[i]->Err_0 is Inference,
    ensures
        run_policy(rs).0 == MAX_ATTEMPTS,
        run_policy(rs).1 is Err,
        run_policy(rs).1->Err_0 is Inference,
        status_of(run_policy(rs).1->Err_0) == 503,
        retry_suggested_of(run_policy(rs).1->Err_0),
        error_type_of(run_policy(rs).1->Err_0) == "inference_error"@,
{
    reveal_with_fuel(run_from, 4);
    assert(rs[0] is Err && rs[1] is Err && rs[2] is Err);
}

/// A named-rule rejection (a missing field, an invalid value, a repeated
/// part of speech, no meanings) ends the pipeline at that attempt, with a
/// validation error that does not suggest a retry.
pub proof fn lemma_final_rejection_stops(rs: Seq<Result<JsonModel, AttemptFault>>, a: nat)
    requires
        rs.len() == MAX_ATTEMPTS,
        1 <= a <= MAX_ATTEMPTS,
        forall|b: nat| 1 <= b < a ==> #[trigger] retried(rs, b),
        rs[a - 1] is Err,
        rs[a - 1]->Err_0 is Validation,
        is_final_fault(rs[a - 1]->Err_0->Validation_0),
    ensures
        run_policy(rs).0 == a,
        run_policy(rs).1 == Err::<JsonModel, _>(
            ApiFault::Validation(fault_text(rs[a - 1]->Err_0->Validation_0)),
        ),
        !retry_suggested_of(run_policy(rs).1->Err_0),
        error_type_of(run_policy(rs).1->Err_0) == "validation_error"@,
        status_of(run_policy(rs).1->Err_0) == 422,
{
    reveal_with_fuel(run_from, 4);
    if a >= 2 {
        assert(retried(rs, 1));
    }
    if a >= 3 {
        assert(retried(rs, 2));
    }
}

} // verus!
