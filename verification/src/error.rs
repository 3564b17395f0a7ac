use vstd::prelude::*;

use crate::text::same_text;

verus! {

/// Errors surfaced to the consumer of a response stream.
#[derive(Debug)]
pub enum ApiError {
    ContextWindowExceeded,
    QuotaExceeded,
    Retryable { message: String, delay: Option<std::time::Duration> },
    InvalidRequest { message: String },
    Stream(String),
}

/// Abstract value of an [`ApiError`]: strings are taken by their characters.
pub enum ApiErrorModel {
    ContextWindowExceeded,
    QuotaExceeded,
    Retryable { message: Seq<char>, delay: Option<std::time::Duration> },
    InvalidRequest { message: Seq<char> },
    Stream(Seq<char>),
}

impl View for ApiError {
    type V = ApiErrorModel;

    open spec fn view(&self) -> ApiErrorModel {
        match self {
            ApiError::ContextWindowExceeded => ApiErrorModel::ContextWindowExceeded,
            ApiError::QuotaExceeded => ApiErrorModel::QuotaExceeded,
            ApiError::Retryable { message, delay } => ApiErrorModel::Retryable { message: message@, delay: *delay },
            ApiError::InvalidRequest { message } => ApiErrorModel::InvalidRequest { message: message@ },
            ApiError::Stream(message) => ApiErrorModel::Stream(message@),
        }
    }
}

/// The error that a provider error `code` with the given `message` stands for.
pub open spec fn chat_error_model(code: Option<Seq<char>>, message: Seq<char>) -> ApiErrorModel {
    if code == Some("context_length_exceeded"@) {
        ApiErrorModel::ContextWindowExceeded
    } else if code == Some("insufficient_quota"@) {
        ApiErrorModel::QuotaExceeded
    } else if code == Some("rate_limit_exceeded"@) || code == Some("server_error"@) {
        ApiErrorModel::Retryable { message, delay: None }
    } else if code == Some("invalid_request_error"@) {
        ApiErrorModel::InvalidRequest { message }
    } else {
        ApiErrorModel::Stream(message)
    }
}

/// Maps the `code` of a provider error payload to the error reported downstream.
pub fn categorize_chat_error(code: Option<&str>, message: &str) -> (err: ApiError)
    ensures
        err@ == chat_error_model(
            match code { Some(c) => Some(c@), None => None },
            message@,
        ),
{
    proof {
        reveal_strlit("context_length_exceeded");
        reveal_strlit("insufficient_quota");
        reveal_strlit("rate_limit_exceeded");
        reveal_strlit("invalid_request_error");
        reveal_strlit("server_error");
    }
    match code {
        Some(c) => {
            if same_text(c, "context_length_exceeded") {
                ApiError::ContextWindowExceeded
            } else if same_text(c, "insufficient_quota") {
                ApiError::QuotaExceeded
            } else if same_text(c, "rate_limit_exceeded") {
                ApiError::Retryable { message: String::from_str(message), delay: None }
            } else if same_text(c, "invalid_request_error") {
                assert("invalid_request_error"@.len() != "server_error"@.len());
                ApiError::InvalidRequest { message: String::from_str(message) }
            } else if same_text(c, "server_error") {
                ApiError::Retryable { message: String::from_str(message), delay: None }
            } else {
                ApiError::Stream(String::from_str(message))
            }
        },
        None => ApiError::Stream(String::from_str(message)),
    }
}

} // verus!
