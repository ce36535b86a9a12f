//! Executions: one run of a command, as a shell reports it.

use vstd::prelude::*;
use vstd::utf8::*;

use crate::error::Error;
use crate::text::{decode_utf8_exact, push_signed_decimal, push_str, signed_decimal};

verus! {

/// One run of a shell command.
#[derive(Clone, Debug, Default, PartialEq, Eq)]
pub struct Execution {
    pub command: String,
    /// The working directory, as the bytes of a path.
    pub directory: Option<Vec<u8>>,
    pub duration_ns: Option<i64>,
    pub exit_code: Option<i32>,
    pub hostname: Option<String>,
    pub session: Option<String>,
    pub shell: Option<String>,
    pub timestamp_ns: i64,
}

/// The mathematical value of an [`Execution`].
pub struct ExecutionView {
    pub command: Seq<char>,
    pub directory: Option<Seq<u8>>,
    pub duration_ns: Option<i64>,
    pub exit_code: Option<i32>,
    pub hostname: Option<Seq<char>>,
    pub session: Option<Seq<char>>,
    pub shell: Option<Seq<char>>,
    pub timestamp_ns: i64,
}

pub open spec fn text_view(text: Option<String>) -> Option<Seq<char>> {
    match text {
        Some(t) => Some(t@),
        None => None,
    }
}

pub open spec fn bytes_view(bytes: Option<Vec<u8>>) -> Option<Seq<u8>> {
    match bytes {
        Some(b) => Some(b@),
        None => None,
    }
}

impl View for Execution {
    type V = ExecutionView;

    open spec fn view(&self) -> ExecutionView {
        ExecutionView {
            command: self.command@,
            directory: bytes_view(self.directory),
            duration_ns: self.duration_ns,
            exit_code: self.exit_code,
            hostname: text_view(self.hostname),
            session: text_view(self.session),
            shell: text_view(self.shell),
            timestamp_ns: self.timestamp_ns,
        }
    }
}

/// An execution of `command` at `timestamp_ns` with nothing else known.
pub open spec fn bare_execution(command: Seq<char>, timestamp_ns: i64) -> ExecutionView {
    ExecutionView {
        command,
        directory: None,
        duration_ns: None,
        exit_code: None,
        hostname: None,
        session: None,
        shell: None,
        timestamp_ns,
    }
}

/// The line that lists an execution: its timestamp, its exit code (empty
/// when unknown) and its command, separated by tabs.
pub open spec fn listing_text(e: ExecutionView) -> Seq<char> {
    signed_decimal(e.timestamp_ns as int) + "\t"@ + match e.exit_code {
        Some(code) => signed_decimal(code as int),
        None => seq![],
    } + "\t"@ + e.command
}

impl Execution {
    /// An execution of `command` at `timestamp_ns`, optionally lasting
    /// `duration_ns`, with nothing else known.
    pub fn bare(command: String, timestamp_ns: i64, duration_ns: Option<i64>) -> (e: Execution)
        ensures
            e@ == (ExecutionView { duration_ns, ..bare_execution(command@, timestamp_ns) }),
    {
        Execution {
            command,
            directory: None,
            duration_ns,
            exit_code: None,
            hostname: None,
            session: None,
            shell: None,
            timestamp_ns,
        }
    }

    /// Returns the execution directory as UTF-8.
    ///
    /// Fails with [`Error::InvalidExecutionDirectory`] exactly when the
    /// directory is present and its bytes are not valid UTF-8.
    pub fn directory(&self) -> (r: Result<Option<&str>, Error>)
        ensures
            match self.directory {
                None => r matches Ok(None),
                Some(d) => if valid_utf8(d@) {
                    r matches Ok(Some(s)) && s@ == decode_utf8(d@)
                } else {
                    r matches Err(Error::InvalidExecutionDirectory)
                },
            },
    {
        match &self.directory {
            None => Ok(None),
            Some(d) => match decode_utf8_exact(d.as_slice()) {
                Some(s) => Ok(Some(s)),
                None => Err(Error::InvalidExecutionDirectory),
            },
        }
    }

    /// The line that lists the execution: timestamp, exit code (empty when
    /// unknown) and command, separated by tabs.
    pub fn listing(&self) -> (r: String)
        ensures
            r@ == listing_text(self@),
    {
        let mut r = String::new();
        push_signed_decimal(&mut r, self.timestamp_ns);
        push_str(&mut r, "\t");
        match self.exit_code {
            Some(code) => push_signed_decimal(&mut r, code as i64),
            None => {},
        }
        push_str(&mut r, "\t");
        push_str(&mut r, self.command.as_str());
        assert(r@ =~= listing_text(self@));
        r
    }
}

} // verus!
