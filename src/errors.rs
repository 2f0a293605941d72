//! Error kinds of a word pipeline, as reported to callers.
use vstd::prelude::*;

verus! {

/// The class of a failed word pipeline, with its message.
#[derive(Debug, Clone)]
pub enum ApiErrorType {
    Validation(String),
    Inference(String),
    JsonParse(String),
    Internal(String),
}

/// The model of an `ApiErrorType`.
pub enum ApiFault {
    Validation(Seq<char>),
    Inference(Seq<char>),
    JsonParse(Seq<char>),
    Internal(Seq<char>),
}

impl View for ApiErrorType {
    type V = ApiFault;

    open spec fn view(&self) -> ApiFault {
        match self {
            ApiErrorType::Validation(m) => ApiFault::Validation(m@),
            ApiErrorType::Inference(m) => ApiFault::Inference(m@),
            ApiErrorType::JsonParse(m) => ApiFault::JsonParse(m@),
            ApiErrorType::Internal(m) => ApiFault::Internal(m@),
        }
    }
}

/// The HTTP status of a single-word failure of this class.
pub open spec fn status_of(f: ApiFault) -> u16 {
    match f {
        ApiFault::Validation(_) => 422,
        ApiFault::JsonParse(_) => 422,
        ApiFault::Inference(_) => 503,
        ApiFault::Internal(_) => 500,
    }
}

/// Whether a client is told that asking again may help.
pub open spec fn retry_suggested_of(f: ApiFault) -> bool {
    !(f is Validation)
}

/// The machine-readable name of the class.
pub open spec fn error_type_of(f: ApiFault) -> Seq<char> {
    match f {
        ApiFault::Validation(_) => "validation_error"@,
        ApiFault::JsonParse(_) => "json_parse_error"@,
        ApiFault::Inference(_) => "inference_error"@,
        ApiFault::Internal(_) => "internal_error"@,
    }
}

pub open spec fn message_of(f: ApiFault) -> Seq<char> {
    match f {
        ApiFault::Validation(m) => m,
        ApiFault::JsonParse(m) => m,
        ApiFault::Inference(m) => m,
        ApiFault::Internal(m) => m,
    }
}

impl ApiErrorType {
    /// Whether a client may usefully ask again: every class but a
    /// validation failure, which the same model output would repeat.
    pub fn should_retry(&self) -> (r: bool)
        ensures
            r == retry_suggested_of(self@),
    {
        !matches!(self, ApiErrorType::Validation(_))
    }

    /// The HTTP status of a single-word failure.
    pub fn status_code(&self) -> (r: u16)
        ensures
            r == status_of(self@),
    {
        match self {
            ApiErrorType::Validation(_) => 422,
            ApiErrorType::JsonParse(_) => 422,
            ApiErrorType::Inference(_) => 503,
            ApiErrorType::Internal(_) => 500,
        }
    }

    /// The machine-readable class name.
    pub fn error_type_str(&self) -> (r: &'static str)
        ensures
            r@ == error_type_of(self@),
    {
        match self {
            ApiErrorType::Validation(_) => "validation_error",
            ApiErrorType::JsonParse(_) => "json_parse_error",
            ApiErrorType::Inference(_) => "inference_error",
            ApiErrorType::Internal(_) => "internal_error",
        }
    }

    /// The human-readable message carried by the error.
    pub fn message(&self) -> (r: &str)
        ensures
            r@ == message_of(self@),
    {
        match self {
            ApiErrorType::Validation(m) => m.as_str(),
            ApiErrorType::JsonParse(m) => m.as_str(),
            ApiErrorType::Inference(m) => m.as_str(),
            ApiErrorType::Internal(m) => m.as_str(),
        }
    }
}

} // verus!
