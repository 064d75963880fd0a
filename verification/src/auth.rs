//! Payload types of the companion authentication API: the request and
//! response bodies, the claims subject carried in a session token, and the
//! error taxonomy its handlers report. The transport and storage around
//! them live outside this crate; the shapes and the fixed response rules
//! are stated here.

use vstd::prelude::*;

verus! {

/// What an API handler reports when a request cannot be served.
#[derive(Debug, Clone, PartialEq, Eq)]
pub enum ApiError {
    BadRequest(String),
    Conflict(String),
    Notfound(String),
    InternalServerError(String),
}

impl ApiError {
    /// The human-readable message the error carries.
    pub open spec fn message_text(&self) -> Seq<char> {
        match self {
            ApiError::BadRequest(m) => m@,
            ApiError::Conflict(m) => m@,
            ApiError::Notfound(m) => m@,
            ApiError::InternalServerError(m) => m@,
        }
    }

    /// Reads the carried message, whichever variant holds it.
    pub fn message(&self) -> (r: &String)
        ensures
            r@ == self.message_text(),
    {
        match self {
            ApiError::BadRequest(m) => m,
            ApiError::Conflict(m) => m,
            ApiError::Notfound(m) => m,
            ApiError::InternalServerError(m) => m,
        }
    }

    /// The HTTP status a response for this error carries: conflicts answer
    /// 409, everything else answers 400.
    pub fn status_code(&self) -> (r: u16)
        ensures
            *self is Conflict ==> r == 409,
            !(*self is Conflict) ==> r == 400,
    {
        match self {
            ApiError::Conflict(_) => 409,
            _ => 400,
        }
    }
}

/// The uniform envelope every API response is wrapped in.
#[derive(Debug, Clone, PartialEq, Eq)]
pub struct TypeResponse<T> {
    pub code: u16,
    pub success: bool,
    pub message: String,
    pub data: Option<T>,
}

impl<T> TypeResponse<T> {
    /// Builds the success envelope for a handler's answer.
    pub fn send(code: u16, data: Option<T>, message: &str) -> (r: TypeResponse<T>)
        ensures
            r.code == code,
            r.success == true,
            r.message@ == message@,
            r.data == data,
    {
        TypeResponse { code, success: true, message: message.to_owned(), data }
    }
}

/// The request body for creating an account.
#[derive(Debug, Clone, PartialEq, Eq)]
pub struct SignupRequestDto {
    pub username: String,
    pub email: String,
    pub password: String,
}

/// The request body for signing in.
#[derive(Debug, Clone, PartialEq, Eq)]
pub struct SigninRequestDto {
    pub email: String,
    pub password: String,
}

/// The response body for a successful sign-in.
#[derive(Debug, Clone, PartialEq, Eq)]
pub struct SigninResponseDto {
    pub id: i32,
    pub username: String,
    pub email: String,
    pub token: String,
}

/// The subject a session token speaks for.
#[derive(Debug, Clone, PartialEq, Eq)]
pub struct JwtUserSubject {
    pub id: i32,
    pub username: String,
    pub email: String,
}

/// The handlers behind the authentication routes; their transport and
/// storage live with the I/O layer.
pub struct AuthServices;

} // verus!
