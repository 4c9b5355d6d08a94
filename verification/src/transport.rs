//! Transport replies: a service result becomes an ok response or a coded error.
use vstd::prelude::*;

use crate::contract::CoreResponse;
use crate::core_service::{service_error_text, ServiceError};
use crate::text;

verus! {

/// The kinds of error a client can tell apart.
#[derive(Debug, Clone, Copy, PartialEq, Eq, Structural)]
pub enum ErrorCode {
    InvalidJson,
    InvalidRequest,
    ItemNotFound,
    Launch,
    Store,
    Config,
    Provider,
}

#[derive(Debug, Clone, PartialEq, Eq)]
pub struct ErrorResponse {
    pub code: ErrorCode,
    pub message: String,
}

#[derive(Debug, Clone, PartialEq, Eq)]
pub enum TransportResponse {
    Success { response: CoreResponse },
    Failure { error: ErrorResponse },
}

/// The code of a service error.
pub open spec fn error_code(e: ServiceError) -> ErrorCode {
    match e {
        ServiceError::InvalidRequest(_) => ErrorCode::InvalidRequest,
        ServiceError::ItemNotFound(_) => ErrorCode::ItemNotFound,
        ServiceError::Launch(_) => ErrorCode::Launch,
        ServiceError::Store(_) => ErrorCode::Store,
        ServiceError::Config(_) => ErrorCode::Config,
        ServiceError::Provider(_) => ErrorCode::Provider,
    }
}

/// The message sent with a service error: the bare text for requests, missing
/// items and configuration; the inner error's own text for the others.
pub open spec fn error_message(e: ServiceError) -> Seq<char> {
    match e {
        ServiceError::InvalidRequest(m) => m@,
        ServiceError::ItemNotFound(m) => m@,
        ServiceError::Launch(l) => crate::action_executor::launch_error_text(l),
        ServiceError::Store(m) => m@,
        ServiceError::Config(m) => m@,
        ServiceError::Provider(p) => p.text(),
    }
}

pub fn map_service_error(error: ServiceError) -> (r: ErrorResponse)
    ensures
        r.code == error_code(error),
        r.message@ == error_message(error),
{
    match error {
        ServiceError::InvalidRequest(message) => ErrorResponse { code: ErrorCode::InvalidRequest, message },
        ServiceError::ItemNotFound(message) => ErrorResponse { code: ErrorCode::ItemNotFound, message },
        ServiceError::Launch(l) => ErrorResponse { code: ErrorCode::Launch, message: l.message() },
        ServiceError::Store(message) => ErrorResponse { code: ErrorCode::Store, message },
        ServiceError::Config(message) => ErrorResponse { code: ErrorCode::Config, message },
        ServiceError::Provider(p) => ErrorResponse { code: ErrorCode::Provider, message: p.message() },
    }
}

/// The reply to a handled request (the wire names the two cases `ok` and `err`): its response, or its error coded.
pub fn transport_response(result: Result<CoreResponse, ServiceError>) -> (r: TransportResponse)
    ensures
        match result {
            Ok(resp) => r == TransportResponse::Success { response: resp },
            Err(e) => r matches TransportResponse::Failure { error } && error.code == error_code(e)
                && error.message@ == error_message(e),
        },
{
    match result {
        Ok(response) => TransportResponse::Success { response },
        Err(error) => TransportResponse::Failure { error: map_service_error(error) },
    }
}

/// The reply to a payload that is not valid JSON.
pub fn invalid_json_response(message: String) -> (r: TransportResponse)
    ensures
        r matches TransportResponse::Failure { error } && error.code == ErrorCode::InvalidJson && error.message
            == message,
{
    TransportResponse::Failure { error: ErrorResponse { code: ErrorCode::InvalidJson, message } }
}

} // verus!
