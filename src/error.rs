//! The error kinds of the store, the parser and the dispatcher.

use vstd::prelude::*;
use crate::messaging::Response;
use crate::number::{append_decimal, decimal_of};
use crate::text::{push_str_chars, string_of};

verus! {

/// Everything that can go wrong while validating, storing, parsing or
/// dispatching a request.
#[derive(Debug, Clone, PartialEq, Eq)]
pub enum Error {
    KeyTooShort,
    KeyWrongFormat,
    CheckExistsFail,
    CreateDirFail,
    FileWriteFail,
    FileReadFail,
    FileRemoveFail,
    DirRemoveFail,
    GetKeyFail,
    DeleteKeyFail,
    UIntParseFail,
    SendFail,
    RecvFail,
    RecvTimeout,
    CommandNotFound,
    /// A statement that could not be parsed: message, line, column.
    CommandError(String, usize, usize),
    PermissionFailure,
}

/// The human-readable text of an error.
pub open spec fn error_text(e: Error) -> Seq<char> {
    match e {
        Error::KeyTooShort => "Key length must be longer than two (2) characters"@,
        Error::KeyWrongFormat => "Key must be a valid alphanumeric character"@,
        Error::CheckExistsFail => "Unknown error while checking key"@,
        Error::CreateDirFail => "Unknown error while creating key"@,
        Error::FileWriteFail => "Setting key failed (probably invalid key)"@,
        Error::FileReadFail => "Getting key failed (probably invalid key)"@,
        Error::FileRemoveFail => "Deleting key failed (probably invalid key)"@,
        Error::DirRemoveFail => "Removing a directory failed due to filesystem error"@,
        Error::GetKeyFail => "Getting key failed"@,
        Error::DeleteKeyFail => "Deleting key failed"@,
        Error::UIntParseFail => "Value must be a valid unsigned integer"@,
        Error::SendFail => "Sending message failed"@,
        Error::RecvFail => "Receive message failed"@,
        Error::RecvTimeout => "Receive message timeout"@,
        Error::CommandNotFound => "Nothing to execute"@,
        Error::CommandError(msg, line, column) => msg@ + " (line "@ + decimal_of(line as nat)
            + ", column "@ + decimal_of(column as nat) + ")"@,
        Error::PermissionFailure => "You don't have a permission to perform this operation"@,
    }
}

fn fixed_text(e: &Error) -> (r: &'static str)
    requires
        !(e is CommandError),
    ensures
        r@ == error_text(*e),
{
    match e {
        Error::KeyTooShort => "Key length must be longer than two (2) characters",
        Error::KeyWrongFormat => "Key must be a valid alphanumeric character",
        Error::CheckExistsFail => "Unknown error while checking key",
        Error::CreateDirFail => "Unknown error while creating key",
        Error::FileWriteFail => "Setting key failed (probably invalid key)",
        Error::FileReadFail => "Getting key failed (probably invalid key)",
        Error::FileRemoveFail => "Deleting key failed (probably invalid key)",
        Error::DirRemoveFail => "Removing a directory failed due to filesystem error",
        Error::GetKeyFail => "Getting key failed",
        Error::DeleteKeyFail => "Deleting key failed",
        Error::UIntParseFail => "Value must be a valid unsigned integer",
        Error::SendFail => "Sending message failed",
        Error::RecvFail => "Receive message failed",
        Error::RecvTimeout => "Receive message timeout",
        Error::CommandNotFound => "Nothing to execute",
        Error::CommandError(..) => "",
        Error::PermissionFailure => "You don't have a permission to perform this operation",
    }
}

impl Error {
    /// A copy of this error.
    pub fn duplicate(&self) -> (r: Error)
        ensures
            r == *self,
    {
        match self {
            Error::KeyTooShort => Error::KeyTooShort,
            Error::KeyWrongFormat => Error::KeyWrongFormat,
            Error::CheckExistsFail => Error::CheckExistsFail,
            Error::CreateDirFail => Error::CreateDirFail,
            Error::FileWriteFail => Error::FileWriteFail,
            Error::FileReadFail => Error::FileReadFail,
            Error::FileRemoveFail => Error::FileRemoveFail,
            Error::DirRemoveFail => Error::DirRemoveFail,
            Error::GetKeyFail => Error::GetKeyFail,
            Error::DeleteKeyFail => Error::DeleteKeyFail,
            Error::UIntParseFail => Error::UIntParseFail,
            Error::SendFail => Error::SendFail,
            Error::RecvFail => Error::RecvFail,
            Error::RecvTimeout => Error::RecvTimeout,
            Error::CommandNotFound => Error::CommandNotFound,
            Error::CommandError(msg, line, column) => Error::CommandError(msg.clone(), *line, *column),
            Error::PermissionFailure => Error::PermissionFailure,
        }
    }

    /// The error as a response carried back to a caller.
    pub fn as_response(&self) -> (r: Response)
        ensures
            r == Response::Error(*self),
    {
        Response::Error(self.duplicate())
    }

    /// The human-readable text of the error; a parse error names its line
    /// and column.
    pub fn message(&self) -> (r: String)
        ensures
            r@ == error_text(*self),
    {
        let mut out: Vec<char> = Vec::new();
        match self {
            Error::CommandError(msg, line, column) => {
                push_str_chars(&mut out, msg.as_str());
                push_str_chars(&mut out, " (line ");
                append_decimal(&mut out, *line);
                push_str_chars(&mut out, ", column ");
                append_decimal(&mut out, *column);
                push_str_chars(&mut out, ")");
            },
            _ => {
                push_str_chars(&mut out, fixed_text(self));
            },
        }
        string_of(&out)
    }
}

} // verus!
