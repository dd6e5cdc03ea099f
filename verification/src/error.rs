use vstd::prelude::*;
use vstd::string::*;

verus! {

/// The kinds of failure that the service reports.
#[derive(Debug, Clone, PartialEq, Eq)]
pub enum ErrorCode {
    GameNotFound,
    GameFull,
    PlayerNotFound,
    PlayerAlreadyExists,
    InvalidGameCode,
    PlayerAlreadyInGame,
    UsernameTaken,
    InvalidInput(String),
    InvalidGameMode,
    InternalServerError,
}

/// An `ErrorCode` with its text taken as a sequence of characters.
pub ghost enum ErrorCodeView {
    GameNotFound,
    GameFull,
    PlayerNotFound,
    PlayerAlreadyExists,
    InvalidGameCode,
    PlayerAlreadyInGame,
    UsernameTaken,
    InvalidInput(Seq<char>),
    InvalidGameMode,
    InternalServerError,
}

impl View for ErrorCode {
    type V = ErrorCodeView;

    open spec fn view(&self) -> ErrorCodeView {
        match self {
            ErrorCode::GameNotFound => ErrorCodeView::GameNotFound,
            ErrorCode::GameFull => ErrorCodeView::GameFull,
            ErrorCode::PlayerNotFound => ErrorCodeView::PlayerNotFound,
            ErrorCode::PlayerAlreadyExists => ErrorCodeView::PlayerAlreadyExists,
            ErrorCode::InvalidGameCode => ErrorCodeView::InvalidGameCode,
            ErrorCode::PlayerAlreadyInGame => ErrorCodeView::PlayerAlreadyInGame,
            ErrorCode::UsernameTaken => ErrorCodeView::UsernameTaken,
            ErrorCode::InvalidInput(reason) => ErrorCodeView::InvalidInput(reason@),
            ErrorCode::InvalidGameMode => ErrorCodeView::InvalidGameMode,
            ErrorCode::InternalServerError => ErrorCodeView::InternalServerError,
        }
    }
}

/// A failure as it is handed to a caller: its kind and a message for people.
#[derive(Debug, Clone, PartialEq, Eq)]
pub struct ErrorResponse {
    pub error: ErrorCode,
    pub message: String,
}

pub ghost struct ErrorResponseView {
    pub error: ErrorCodeView,
    pub message: Seq<char>,
}

impl View for ErrorResponse {
    type V = ErrorResponseView;

    open spec fn view(&self) -> ErrorResponseView {
        ErrorResponseView { error: self.error@, message: self.message@ }
    }
}

/// What stands before the builder's own words in the message of a key
/// building failure.
pub open spec fn key_error_prefix() -> Seq<char> {
    "Key building error (programming bug): "@
}

/// The failure that a key building error turns into.
pub open spec fn key_error(detail: Seq<char>) -> ErrorResponseView {
    ErrorResponseView {
        error: ErrorCodeView::InternalServerError,
        message: key_error_prefix() + detail,
    }
}

impl ErrorResponse {
    /// A failure of the given kind with the given message.
    pub fn new(error: ErrorCode, message: &str) -> (r: ErrorResponse)
        ensures
            r@ == (ErrorResponseView { error: error@, message: message@ }),
    {
        ErrorResponse { error, message: String::from_str(message) }
    }

    /// A key that could not be built is a fault of the program, so it is
    /// reported as an internal error that quotes the builder's message.
    pub fn from_key_error(error_message: String) -> (r: ErrorResponse)
        ensures
            r@ == key_error(error_message@),
    {
        let mut message = String::from_str("Key building error (programming bug): ");
        message.append(error_message.as_str());
        ErrorResponse { error: ErrorCode::InternalServerError, message }
    }

    /// The message, which is what the failure shows when it is printed.
    pub fn to_string(&self) -> (r: String)
        ensures
            r@ == self@.message,
    {
        self.message.clone()
    }
}

} // verus!
