//! Decisions of the bridge's HTTP API:
//!
//! - POST /api/extensions/register — register an external extension
//! - GET  /api/extensions — list all active extensions
//! - GET  /api/extensions/:id — get a single extension
//! - DELETE /api/extensions/:id — remove an extension
use vstd::prelude::*;

use crate::types::{ApiError, BridgeState, HttpExtension, RegisterRequest};
use crate::validation::{validate_request, validation_error};

verus! {

/// What registering an extension does, given what is stored under its id.
#[derive(Debug)]
pub enum RegistrationStep {
    /// Nothing live is stored under the id: store the registration.
    Insert,
    /// A removed extension is stored under the id: delete its record, then
    /// store the registration.
    ReplaceRemoved,
    /// A live extension holds the id: refuse.
    Conflict(ApiError),
}

/// The answer to a registration request that fails validation: 400 with
/// the validation message; none for a valid request.
pub fn check_registration(req: &RegisterRequest) -> (r: Result<(), ApiError>)
    ensures
        match r {
            Ok(()) => validation_error(*req) is None,
            Err(e) => e.status == 400 && validation_error(*req) == Some(e.message@),
        },
{
    match validate_request(req) {
        Ok(()) => Ok(()),
        Err(message) => Err(ApiError { status: 400, message }),
    }
}

/// The answer when no database connection could be had.
pub fn db_unavailable(error: &str) -> (r: ApiError)
    ensures
        r.status == 500 && r.message@ == "db: "@ + error@,
{
    ApiError { status: 500, message: String::from_str("db: ").concat(error) }
}

/// The answer when a database operation failed with `error`.
pub fn internal_error(error: String) -> (r: ApiError)
    ensures
        r.status == 500 && r.message@ == error@,
{
    ApiError { status: 500, message: error }
}

/// The answer for an id that names no extension.
pub fn not_found(id: &str) -> (r: ApiError)
    ensures
        r.status == 404 && r.message@ == "extension '"@ + id@ + "' not found"@,
{
    ApiError {
        status: 404,
        message: String::from_str("extension '").concat(id).concat("' not found"),
    }
}

/// The registration step for `id`, given the state stored under it (or the
/// error the lookup gave, which does not stop the registration).
pub fn registration_step(id: &str, existing: Result<Option<BridgeState>, String>) -> (r:
    RegistrationStep)
    ensures
        match existing {
            Ok(Some(s)) => if s == BridgeState::Removed {
                r is ReplaceRemoved
            } else {
                r matches RegistrationStep::Conflict(e) && e.status == 409 && e.message@
                    == "extension '"@ + id@ + "' already registered"@
            },
            _ => r is Insert,
        },
{
    match existing {
        Ok(Some(s)) => {
            if matches!(s, BridgeState::Removed) {
                RegistrationStep::ReplaceRemoved
            } else {
                RegistrationStep::Conflict(
                    ApiError {
                        status: 409,
                        message: String::from_str("extension '").concat(id).concat(
                            "' already registered",
                        ),
                    },
                )
            }
        },
        _ => RegistrationStep::Insert,
    }
}

/// The status answered for a registration, given whether storing it
/// succeeded: 201 when it did, else the storage error.
pub fn registration_reply(stored: Result<(), String>) -> (r: Result<u16, ApiError>)
    ensures
        match stored {
            Ok(()) => r == Ok::<u16, ApiError>(201),
            Err(e) => r matches Err(err) && err.status == 500 && err.message@ == e@,
        },
{
    match stored {
        Ok(()) => Ok(201),
        Err(e) => Err(internal_error(e)),
    }
}

/// The answer to a request for one extension, given the lookup.
pub fn lookup_reply(id: &str, found: Result<Option<HttpExtension>, String>) -> (r: Result<
    HttpExtension,
    ApiError,
>)
    ensures
        match found {
            Ok(Some(ext)) => r matches Ok(x) && x == ext,
            Ok(None) => r matches Err(err) && err.status == 404 && err.message@ == "extension '"@
                + id@ + "' not found"@,
            Err(e) => r matches Err(err) && err.status == 500 && err.message@ == e@,
        },
{
    match found {
        Ok(Some(ext)) => Ok(ext),
        Ok(None) => Err(not_found(id)),
        Err(e) => Err(internal_error(e)),
    }
}

/// The status answered for a removal, given whether a record was marked
/// removed: 204 when one was, 404 when the id names no extension.
pub fn removal_reply(id: &str, removed: Result<bool, String>) -> (r: Result<u16, ApiError>)
    ensures
        match removed {
            Ok(true) => r == Ok::<u16, ApiError>(204),
            Ok(false) => r matches Err(err) && err.status == 404 && err.message@ == "extension '"@
                + id@ + "' not found"@,
            Err(e) => r matches Err(err) && err.status == 500 && err.message@ == e@,
        },
{
    match removed {
        Ok(true) => Ok(204),
        Ok(false) => Err(not_found(id)),
        Err(e) => Err(internal_error(e)),
    }
}

} // verus!
