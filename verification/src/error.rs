use vstd::prelude::*;
use crate::text::decimal;
use crate::net::decimal_bytes;
use crate::net::ascii_string;

verus! {

/// `std::io::Error`, carried by `HttpError::IoError`.
#[verifier::external_type_specification]
#[verifier::external_body]
pub struct ExIoError(std::io::Error);

/// `hyper::Error`, carried by `HttpError::HyperError`.
#[verifier::external_type_specification]
#[verifier::external_body]
pub struct ExHyperError(hyper::Error);

/// `anyhow::Error`, the error of the application's own fallible steps.
#[verifier::external_type_specification]
#[verifier::external_body]
pub struct ExAnyhowError(anyhow::Error);

/// The text of an anyhow error (`Display`). It is the wrapped error's own
/// text, which may be the operating system's or any other code's, so
/// nothing is claimed of it.
#[verifier::external_body]
fn anyhow_text(e: &anyhow::Error) -> String {
    e.to_string()
}

/// Errors of request handling.
#[derive(Debug)]
pub enum HttpError {
    /// the request body is not the JSON that was expected
    BodyNotJson,
    /// an I/O error
    IoError(std::io::Error),
    /// an HTTP protocol error
    HyperError(hyper::Error),
    /// an error with its own message
    Custom(String),
    /// an internal error of the request with this id
    Unknown(u32),
}

/// Result of request handling.
pub type HttpResult<T> = Result<T, HttpError>;

/// The text of an I/O error (`Display`). It depends on the operating
/// system's description of the error, so nothing is claimed of it.
#[verifier::external_body]
fn io_error_text(e: &std::io::Error) -> String {
    e.to_string()
}

/// The text that a hyper error displays: the fixed description of its
/// kind.
pub uninterp spec fn hyper_display(e: hyper::Error) -> Seq<char>;

/// `hyper::Error`'s `Display` through `to_string`: the description of the
/// error's kind (`hyper_display`), which depends on the error value alone.
#[verifier::external_body]
fn hyper_error_text(e: &hyper::Error) -> (s: String)
    ensures
        s@ == hyper_display(*e),
{
    e.to_string()
}

/// The message of an error with no payload to show.
pub open spec fn body_not_json_text() -> Seq<char> {
    "请求参数格式错误"@
}

/// The message of `Unknown(id)`.
pub open spec fn unknown_text(id: u32) -> Seq<char> {
    "内部错误: "@ + decimal(id as nat).map_values(|x: u8| x as char)
}

impl HttpError {
    /// An error of the application's own, carried with its message.
    pub fn from_anyhow(e: anyhow::Error) -> (r: HttpError)
        ensures
            r is Custom,
    {
        HttpError::Custom(anyhow_text(&e))
    }

    /// The message shown for the error. For `IoError` it is the operating
    /// system's text of the error, of which nothing is claimed; for
    /// `HyperError` it is hyper's description of the error's kind.
    pub fn message(&self) -> (s: String)
        ensures
            self is BodyNotJson ==> s@ == body_not_json_text(),
            self matches HttpError::Custom(m) ==> s@ == m@,
            self matches HttpError::Unknown(id) ==> s@ == unknown_text(*id),
            self matches HttpError::HyperError(e) ==> s@ == hyper_display(*e),
    {
        match self {
            HttpError::BodyNotJson => String::from_str("请求参数格式错误"),
            HttpError::IoError(e) => io_error_text(e),
            HttpError::HyperError(e) => hyper_error_text(e),
            HttpError::Custom(m) => m.clone(),
            HttpError::Unknown(id) => {
                let mut s = String::from_str("内部错误: ");
                let digits = decimal_bytes(*id);
                let tail = ascii_string(digits.as_slice());
                s.append(tail.as_str());
                s
            },
        }
    }
}

/// Turning any error into an internal error of a request.
pub trait HttpErr<T, E> {
    /// The value, or `Unknown(rid)` in place of the error.
    fn http_err(self, rid: u32) -> HttpResult<T>;
}

impl<T, E> HttpErr<T, E> for Result<T, E> {
    fn http_err(self, rid: u32) -> (r: HttpResult<T>)
        ensures
            self matches Ok(v) ==> r == Ok::<T, HttpError>(v),
            self is Err ==> (r matches Err(HttpError::Unknown(id)) && id == rid),
    {
        match self {
            Ok(v) => Ok(v),
            Err(_) => Err(HttpError::Unknown(rid)),
        }
    }
}

} // verus!
