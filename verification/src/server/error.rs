//! The error envelope of the HTTP interface.

use vstd::prelude::*;

verus! {

/// An error reply: HTTP status and message.
#[derive(Debug)]
pub struct ApiError {
    pub code: u16,
    pub message: String,
}

/// What an [`ApiError`] holds.
pub struct ApiErrorModel {
    pub code: int,
    pub message: Seq<char>,
}

impl View for ApiError {
    type V = ApiErrorModel;

    open spec fn view(&self) -> ApiErrorModel {
        ApiErrorModel { code: self.code as int, message: self.message@ }
    }
}

/// The reply to a request without a valid token.
pub open spec fn unauthorized_error() -> ApiErrorModel {
    ApiErrorModel { code: 401, message: "未携带有效 Token"@ }
}

/// The reply while no index is ready.
pub open spec fn not_ready_error() -> ApiErrorModel {
    ApiErrorModel { code: 503, message: "服务正在建立索引，请稍后重试"@ }
}

impl ApiError {
    /// No valid token was sent.
    pub fn unauthorized() -> (r: Self)
        ensures
            r@ == unauthorized_error(),
    {
        ApiError { code: 401, message: "未携带有效 Token".to_owned() }
    }

    /// The index is still being built.
    pub fn not_ready() -> (r: Self)
        ensures
            r@ == not_ready_error(),
    {
        ApiError { code: 503, message: "服务正在建立索引，请稍后重试".to_owned() }
    }

    /// A parameter is missing or invalid.
    pub fn bad_request(message: &str) -> (r: Self)
        ensures
            r@ == (ApiErrorModel { code: 400, message: message@ }),
    {
        ApiError { code: 400, message: message.to_owned() }
    }

    /// What was asked for does not exist.
    pub fn not_found(message: &str) -> (r: Self)
        ensures
            r@ == (ApiErrorModel { code: 404, message: message@ }),
    {
        ApiError { code: 404, message: message.to_owned() }
    }

    /// Something failed inside.
    pub fn internal(message: &str) -> (r: Self)
        ensures
            r@ == (ApiErrorModel { code: 500, message: message@ }),
    {
        ApiError { code: 500, message: message.to_owned() }
    }
}

/// Whether a request is served: a valid token is asked for first, then readiness.
pub fn gate(authorized: bool, ready: bool) -> (r: Result<(), ApiError>)
    ensures
        r is Ok == (authorized && ready),
        r is Err ==> r->Err_0@ == if !authorized {
            unauthorized_error()
        } else {
            not_ready_error()
        },
{
    if !authorized {
        Err(ApiError::unauthorized())
    } else if !ready {
        Err(ApiError::not_ready())
    } else {
        Ok(())
    }
}

/// A request without a valid token is answered 401, one that comes too early 503.
pub proof fn law_refusals()
    ensures
        unauthorized_error().code == 401,
        not_ready_error().code == 503,
        unauthorized_error().message == "未携带有效 Token"@,
        not_ready_error().message == "服务正在建立索引，请稍后重试"@,
{
}

/// An error is seen as what its fields hold, each under its own name.
pub proof fn law_error_view(v: ApiError)
    ensures
        v@.code == v.code,
        v@.message == v.message@,
{
}

} // verus!
