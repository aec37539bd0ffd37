//! The errors of the library, and the model by which contracts speak of them.

use vstd::prelude::*;

verus! {

#[verifier::external_type_specification]
#[verifier::external_body]
pub struct ExJsonError(serde_json::Error);

/// What can go wrong between a value and its JSON text.
#[derive(Debug)]
pub enum JSONError {
    /// The text is not JSON.
    Parse(serde_json::Error),
    /// The value could not be written.
    Stringify(serde_json::Error),
    /// The object has no entry of this name.
    NotFound(String),
    /// The value to look into is not an object.
    DeadEnd,
}

/// What can go wrong between a message and its ciphertext.
#[derive(Debug, Clone, Copy, PartialEq, Eq, Structural)]
pub enum CryptoError {
    /// The cipher or its random source cannot be used on this machine.
    Unavailable,
    /// The key does not have the length that the cipher takes.
    BadKey,
    /// The message is longer than one nonce may cover.
    TooLong,
    /// The ciphertext is too short to hold a nonce.
    BadData,
    /// The ciphertext was not made with this key, or was altered since.
    Authentication,
    /// The text is not base64.
    Base64,
}

/// The error type of the library.
#[derive(Debug)]
pub enum TError {
    BadValue(String),
    MissingField(String),
    Crypto(CryptoError),
    Json(JSONError),
    /// Bytes that should hold text are not UTF-8.
    Utf8,
    /// An error of the surrounding program, by its message.
    Msg(String),
}

pub type TResult<T> = Result<T, TError>;

/// The mathematical content of a [`TError`].
pub enum ErrorView {
    BadValue(Seq<char>),
    MissingField(Seq<char>),
    Crypto(CryptoError),
    JsonParse,
    JsonStringify,
    JsonNotFound(Seq<char>),
    JsonDeadEnd,
    Utf8,
    Msg(Seq<char>),
}

impl View for JSONError {
    type V = ErrorView;

    open spec fn view(&self) -> ErrorView {
        match self {
            JSONError::Parse(_) => ErrorView::JsonParse,
            JSONError::Stringify(_) => ErrorView::JsonStringify,
            JSONError::NotFound(s) => ErrorView::JsonNotFound(s@),
            JSONError::DeadEnd => ErrorView::JsonDeadEnd,
        }
    }
}

impl View for TError {
    type V = ErrorView;

    open spec fn view(&self) -> ErrorView {
        match self {
            TError::BadValue(s) => ErrorView::BadValue(s@),
            TError::MissingField(s) => ErrorView::MissingField(s@),
            TError::Crypto(e) => ErrorView::Crypto(*e),
            TError::Json(e) => e@,
            TError::Utf8 => ErrorView::Utf8,
            TError::Msg(s) => ErrorView::Msg(s@),
        }
    }
}

/// The content of an error is its sort and what it says.
pub proof fn errors_show_their_sorts(
    s: String,
    e: CryptoError,
    cause: serde_json::Error,
    inner: JSONError,
)
    ensures
        TError::BadValue(s)@ == ErrorView::BadValue(s@),
        TError::MissingField(s)@ == ErrorView::MissingField(s@),
        TError::Crypto(e)@ == ErrorView::Crypto(e),
        TError::Utf8@ == ErrorView::Utf8,
        TError::Msg(s)@ == ErrorView::Msg(s@),
        TError::Json(inner)@ == inner@,
        JSONError::Parse(cause)@ == ErrorView::JsonParse,
        JSONError::Stringify(cause)@ == ErrorView::JsonStringify,
        JSONError::NotFound(s)@ == ErrorView::JsonNotFound(s@),
        JSONError::DeadEnd@ == ErrorView::JsonDeadEnd,
{
}

} // verus!
