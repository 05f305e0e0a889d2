use vstd::prelude::*;

verus! {

/// Code that marks a successful result.
pub const CODE_OK: u32 = 200;

/// Code used by `ApiResult::fail`.
pub const CODE_FAIL: u32 = 500;

/// A result made by `fail` never reports success, while one made by `ok` or
/// `ok_with_empty` always does: the two codes differ, and `is_ok` and
/// `is_fail` read the code alone.
pub proof fn lemma_fail_is_never_ok()
    ensures
        CODE_FAIL != CODE_OK,
{
}

/// Universal API result: a code, an optional message and optional data.
pub struct ApiResult<T> {
    /// result code (200 means success, 500 failure)
    pub code: u32,
    /// error message, present on failure
    pub message: Option<String>,
    /// result data, present on success when there is data
    pub data: Option<T>,
}

impl<T> ApiResult<T> {
    /// A success result carrying `data`.
    pub fn ok(data: T) -> (r: Self)
        ensures
            r.code == CODE_OK,
            r.message is None,
            r.data == Some(data),
    {
        ApiResult { code: CODE_OK, message: None, data: Some(data) }
    }

    /// A success result without data.
    pub fn ok_with_empty() -> (r: Self)
        ensures
            r.code == CODE_OK,
            r.message is None,
            r.data is None,
    {
        ApiResult { code: CODE_OK, message: None, data: None }
    }

    /// A failure result with code 500 and the given message.
    pub fn fail(msg: String) -> (r: Self)
        ensures
            r.code == CODE_FAIL,
            r.message == Some(msg),
            r.data is None,
    {
        ApiResult { code: CODE_FAIL, message: Some(msg), data: None }
    }

    /// A failure result with the given code and message.
    pub fn fail_with_code(code: u32, msg: String) -> (r: Self)
        ensures
            r.code == code,
            r.message == Some(msg),
            r.data is None,
    {
        ApiResult { code, message: Some(msg), data: None }
    }

    /// Whether the result reports success (code 200).
    pub fn is_ok(&self) -> (b: bool)
        ensures
            b == (self.code == CODE_OK),
    {
        self.code == CODE_OK
    }

    /// Whether the result reports failure (any code but 200).
    pub fn is_fail(&self) -> (b: bool)
        ensures
            b == (self.code != CODE_OK),
    {
        self.code != CODE_OK
    }
}

} // verus!
