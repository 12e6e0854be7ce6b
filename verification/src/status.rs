//! The status of a response, as `httpstatus` defines it.

use vstd::prelude::*;
use httpstatus::StatusCode;

verus! {

/// `httpstatus::StatusCode`. Of a status no more is known than what the
/// items below say of it.
#[verifier::external_type_specification]
#[verifier::external_body]
pub struct ExStatusCode(StatusCode);

/// The number of a status, as `StatusCode::as_u16` gives it.
pub uninterp spec fn status_number(status: StatusCode) -> u16;

/// The reason phrase of a status, as `StatusCode::reason_phrase` gives it.
pub uninterp spec fn status_reason(status: StatusCode) -> Seq<char>;

/// `StatusCode::as_u16`: the number of the status.
#[verifier::external_body]
pub(crate) fn number_of(status: &StatusCode) -> (n: u16)
    ensures
        n == status_number(*status),
{
    status.as_u16()
}

/// `StatusCode::reason_phrase`: the reason phrase of the status.
#[verifier::external_body]
pub(crate) fn reason_of(status: &StatusCode) -> (reason: &'static str)
    ensures
        reason@ == status_reason(*status),
{
    status.reason_phrase()
}

/// `StatusCode::Ok`, whose number is 200 and whose reason phrase is `OK`.
#[verifier::external_body]
pub(crate) fn status_ok() -> (status: StatusCode)
    ensures
        status_number(status) == 200,
        status_reason(status) == "OK"@,
{
    StatusCode::Ok
}

/// `StatusCode::NotFound`, whose number is 404 and whose reason phrase is
/// `Not Found`.
#[verifier::external_body]
pub(crate) fn status_not_found() -> (status: StatusCode)
    ensures
        status_number(status) == 404,
        status_reason(status) == "Not Found"@,
{
    StatusCode::NotFound
}

/// `StatusCode::InternalServerError`, whose number is 500 and whose reason
/// phrase is `Internal Server Error`.
#[verifier::external_body]
pub(crate) fn status_internal_server_error() -> (status: StatusCode)
    ensures
        status_number(status) == 500,
        status_reason(status) == "Internal Server Error"@,
{
    StatusCode::InternalServerError
}

} // verus!
