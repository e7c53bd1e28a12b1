//! Errors as the catalog reports them to the one who asked.

use crate::text::push_signed_decimal;
use vstd::prelude::*;
use vstd::string::*;

verus! {

/// An error with a code and a message.
#[derive(Debug, Clone)]
pub struct GeneralError {
    pub code: i32,
    pub message: String,
}

/// An error of the database engine, as far as it told its code and its
/// message.
#[derive(Debug, Clone)]
pub struct SqliteError {
    pub code: Option<i64>,
    pub message: Option<String>,
}

/// `std::io::Error`: a failure of reading or writing. The library carries
/// it and never looks inside.
#[verifier::external_type_specification]
#[verifier::external_body]
pub struct ExIoError(std::io::Error);

/// An error of the catalog: one of its own, one of the database engine, or
/// one of reading and writing.
#[derive(Debug)]
pub enum ServerError {
    General(GeneralError),
    Sqlite(SqliteError),
    Io(std::io::Error),
}

impl ServerError {
    /// An error of the catalog's own, with a code and a message.
    pub fn new(code: i32, message: &str) -> (error: ServerError)
        ensures
            error matches ServerError::General(e) && e.code == code && e.message@ == message@,
    {
        ServerError::General(GeneralError { code, message: String::from_str(message) })
    }
}

/// How an error is shown: the code, `: ` and the message.
pub open spec fn status_line(code: int, message: Seq<char>) -> Seq<char> {
    crate::text::signed_decimal(code) + ": "@ + message
}

fn status_text(code: i64, message: &str) -> (line: String)
    ensures
        line@ == status_line(code as int, message@),
{
    let mut line: String = String::new();
    push_signed_decimal(&mut line, code);
    line.append(": ");
    line.append(message);
    proof {
        assert(line@ =~= status_line(code as int, message@));
    }
    line
}

impl GeneralError {
    /// The line that is sent for this error.
    pub fn body(&self) -> (line: String)
        ensures
            line@ == status_line(self.code as int, self.message@),
    {
        status_text(self.code as i64, self.message.as_str())
    }
}

impl SqliteError {
    /// The code of the error, or 1 where the engine gave none.
    pub fn code_or_default(&self) -> (code: i64)
        ensures
            code == match self.code {
                Some(c) => c,
                None => 1,
            },
    {
        match self.code {
            Some(c) => c,
            None => 1,
        }
    }

    /// The message of the error, or `Unknown SQLITE error` where the engine
    /// gave none.
    pub open spec fn message_or_default(&self) -> Seq<char> {
        match self.message {
            Some(m) => m@,
            None => "Unknown SQLITE error"@,
        }
    }

    /// The line that is sent for this error.
    pub fn body(&self) -> (line: String)
        ensures
            line@ == status_line(
                match self.code {
                    Some(c) => c as int,
                    None => 1,
                },
                self.message_or_default(),
            ),
    {
        match &self.message {
            Some(m) => status_text(self.code_or_default(), m.as_str()),
            None => status_text(self.code_or_default(), "Unknown SQLITE error"),
        }
    }
}

} // verus!
