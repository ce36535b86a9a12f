//! The errors of the library and their messages.

use vstd::prelude::*;

use crate::shell::{format_of, Shell};
use crate::text::{decimal, push_decimal, push_signed_decimal, push_str, signed_decimal};

verus! {

/// Everything that can go wrong in the library.
#[derive(Debug)]
pub enum Error {
    /// An execution's directory is not valid UTF-8.
    InvalidExecutionDirectory,
    /// A history timestamp does not fit in nanoseconds.
    TimestampOverflow { line: usize },
    /// A history duration does not fit in nanoseconds.
    DurationOverflow { line: usize },
    /// The counter that orders untimestamped history entries ran out.
    PlainTimestampOverflow,
    /// A zsh history ends inside a metafied byte pair.
    IncompleteMetafiedByte,
    /// A command limit exceeds the range of SQLite integers.
    CommandLimitOverflow,
    /// An execution limit exceeds the range of SQLite integers.
    ExecutionLimitOverflow,
    /// The database was written by an unknown schema version.
    UnsupportedSchema { version: i64 },
    /// A database migration failed.
    Migration { version: usize, cause: String },
    /// A history holds more records than an import can track.
    TooManyRecords,
    /// The records of an earlier import are too many to compare.
    TooManyPreviousRecords,
    /// The records of this import are too many to compare.
    TooManyCurrentRecords,
    /// A freshly generated execution ID was already taken.
    DuplicateExecutionId { id: String },
    /// A stored execution ID is not a UUID.
    InvalidExecutionId { id: String },
    /// The write-ahead log could not be truncated because it is in use.
    BusyWriteAheadLog,
    /// No history path was given and none can be derived from the environment.
    UnknownHistoryPath { shell: Shell },
    /// SQLite reported an error.
    Sqlite { message: String },
}

/// The message of `error`, as the command-line tool prints it.
pub open spec fn error_message(error: Error) -> Seq<char> {
    match error {
        Error::InvalidExecutionDirectory => "execution directory is not valid UTF-8"@,
        Error::TimestampOverflow { line } => "timestamp on history line "@ + decimal(line as nat)
            + " overflows nanoseconds"@,
        Error::DurationOverflow { line } => "duration on history line "@ + decimal(line as nat)
            + " overflows nanoseconds"@,
        Error::PlainTimestampOverflow => "plain history timestamp exceeds SQLite integer range"@,
        Error::IncompleteMetafiedByte => "zsh history ends with an incomplete metafied byte"@,
        Error::CommandLimitOverflow => "command limit exceeds SQLite integer range"@,
        Error::ExecutionLimitOverflow => "execution limit exceeds SQLite integer range"@,
        Error::UnsupportedSchema { version } => "database schema version "@ + signed_decimal(
            version as int,
        ) + " is unsupported; expected 1"@,
        Error::Migration { version, cause } => "failed to apply database migration "@ + decimal(
            version as nat,
        ),
        Error::TooManyRecords => "history contains too many records"@,
        Error::TooManyPreviousRecords => "previous history contains too many records"@,
        Error::TooManyCurrentRecords => "current history contains too many records"@,
        Error::DuplicateExecutionId { id } => "generated duplicate execution ID `"@ + id@ + "`"@,
        Error::InvalidExecutionId { id } => "invalid execution ID `"@ + id@ + "`"@,
        Error::BusyWriteAheadLog => "failed to truncate database write-ahead log because it is busy"@,
        Error::UnknownHistoryPath { shell } => if shell == Shell::Fish {
            "failed to determine fish history path; pass --path or set XDG_DATA_HOME or HOME"@
        } else {
            "failed to determine "@ + format_of(shell) + " history path; pass --path or set HOME"@
        },
        Error::Sqlite { message } => message@,
    }
}

impl Error {
    /// The message of this error.
    pub fn message(&self) -> (m: String)
        ensures
            m@ == error_message(*self),
    {
        let mut m = String::new();
        match self {
            Error::InvalidExecutionDirectory => push_str(
                &mut m,
                "execution directory is not valid UTF-8",
            ),
            Error::TimestampOverflow { line } => {
                push_str(&mut m, "timestamp on history line ");
                push_decimal(&mut m, *line as u64);
                push_str(&mut m, " overflows nanoseconds");
            },
            Error::DurationOverflow { line } => {
                push_str(&mut m, "duration on history line ");
                push_decimal(&mut m, *line as u64);
                push_str(&mut m, " overflows nanoseconds");
            },
            Error::PlainTimestampOverflow => push_str(
                &mut m,
                "plain history timestamp exceeds SQLite integer range",
            ),
            Error::IncompleteMetafiedByte => push_str(
                &mut m,
                "zsh history ends with an incomplete metafied byte",
            ),
            Error::CommandLimitOverflow => push_str(
                &mut m,
                "command limit exceeds SQLite integer range",
            ),
            Error::ExecutionLimitOverflow => push_str(
                &mut m,
                "execution limit exceeds SQLite integer range",
            ),
            Error::UnsupportedSchema { version } => {
                push_str(&mut m, "database schema version ");
                push_signed_decimal(&mut m, *version);
                push_str(&mut m, " is unsupported; expected 1");
            },
            Error::Migration { version, cause } => {
                push_str(&mut m, "failed to apply database migration ");
                push_decimal(&mut m, *version as u64);
            },
            Error::TooManyRecords => push_str(&mut m, "history contains too many records"),
            Error::TooManyPreviousRecords => push_str(
                &mut m,
                "previous history contains too many records",
            ),
            Error::TooManyCurrentRecords => push_str(
                &mut m,
                "current history contains too many records",
            ),
            Error::DuplicateExecutionId { id } => {
                push_str(&mut m, "generated duplicate execution ID `");
                push_str(&mut m, id.as_str());
                push_str(&mut m, "`");
            },
            Error::InvalidExecutionId { id } => {
                push_str(&mut m, "invalid execution ID `");
                push_str(&mut m, id.as_str());
                push_str(&mut m, "`");
            },
            Error::BusyWriteAheadLog => push_str(
                &mut m,
                "failed to truncate database write-ahead log because it is busy",
            ),
            Error::UnknownHistoryPath { shell } => {
                if *shell == Shell::Fish {
                    push_str(
                        &mut m,
                        "failed to determine fish history path; pass --path or set XDG_DATA_HOME or HOME",
                    );
                } else {
                    push_str(&mut m, "failed to determine ");
                    push_str(&mut m, shell.format());
                    push_str(&mut m, " history path; pass --path or set HOME");
                }
            },
            Error::Sqlite { message } => push_str(&mut m, message.as_str()),
        }
        assert(m@ =~= error_message(*self));
        m
    }
}

} // verus!
