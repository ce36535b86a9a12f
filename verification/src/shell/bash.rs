//! Bash history: one command per line, or, with `HISTTIMEFORMAT`, a
//! `#<seconds>` line before the lines of each command.

use vstd::prelude::*;

use crate::error::Error;
use crate::lines::{split_lines, to_vec};
use crate::parser::{history, option_seq, scan, Parser};
use crate::record::{plain_record, timestamped_record, Record, RecordView};
use crate::text::{
    decode_lossy, digit_run, lossy_utf8, leading_digits, seconds_to_nanoseconds, seconds_to_ns, all_digits,
};

verus! {

/// Reads a bash history.
pub struct BashParser {
    command: Vec<u8>,
    command_line: Option<usize>,
    plain_timestamp_ns: i64,
    timestamp: Option<(Option<i64>, usize)>,
}

/// The state of a [`BashParser`]: the lines of the pending command, the line
/// it began on, the order given to the last untimestamped command, and the
/// last timestamp in nanoseconds (`None` when it overflows) with its line.
pub struct BashState {
    pub command: Seq<u8>,
    pub command_line: Option<usize>,
    pub plain_timestamp_ns: i64,
    pub timestamp: Option<(Option<i64>, usize)>,
}

impl View for BashParser {
    type V = BashState;

    closed spec fn view(&self) -> BashState {
        BashState {
            command: self.command@,
            command_line: self.command_line,
            plain_timestamp_ns: self.plain_timestamp_ns,
            timestamp: self.timestamp,
        }
    }
}

/// The state in which a bash history begins.
pub open spec fn bash_start() -> BashState {
    BashState { command: seq![], command_line: None, plain_timestamp_ns: 0, timestamp: None }
}

/// The seconds of a timestamp line: `#` followed by at least one digit; what
/// follows the digits is ignored.
pub open spec fn bash_timestamp(line: Seq<u8>) -> Option<Seq<u8>> {
    let rest = line.drop_first();
    if line.len() > 0 && line[0] == 35u8 && digit_run(rest) > 0 {
        Some(rest.take(digit_run(rest) as int))
    } else {
        None
    }
}

/// Completes the pending command, if there is one.
pub open spec fn bash_complete(state: BashState) -> Result<(BashState, Option<RecordView>), Error> {
    let cleared = BashState { command_line: None, ..state };
    if state.command.len() == 0 {
        Ok((cleared, None))
    } else {
        let command = lossy_utf8(state.command);
        let taken = BashState { command: seq![], ..cleared };
        match state.timestamp {
            Some((Some(ns), _)) => Ok((taken, Some(timestamped_record(command, ns)))),
            Some((None, line)) => Err(Error::TimestampOverflow { line }),
            None => if state.plain_timestamp_ns < i64::MAX {
                let order = (state.plain_timestamp_ns + 1) as i64;
                Ok(
                    (
                        BashState { plain_timestamp_ns: order, ..taken },
                        Some(plain_record(command, order)),
                    ),
                )
            } else {
                Err(Error::PlainTimestampOverflow)
            },
        }
    }
}

/// Reads one line of a bash history.
pub open spec fn bash_step(state: BashState, line: Seq<u8>, number: usize) -> Result<
    (BashState, Option<RecordView>),
    Error,
> {
    match bash_timestamp(line) {
        Some(digits) => match bash_complete(state) {
            Err(e) => Err(e),
            Ok((s, record)) => Ok(
                (BashState { timestamp: Some((seconds_to_ns(digits), number)), ..s }, record),
            ),
        },
        None => {
            let joined = if state.timestamp is Some && state.command_line is Some {
                state.command.push(10u8)
            } else {
                state.command
            };
            let s = BashState {
                command: joined + line,
                command_line: Some(
                    match state.command_line {
                        Some(n) => n,
                        None => number,
                    },
                ),
                ..state
            };
            if state.timestamp is Some {
                Ok((s, None))
            } else {
                bash_complete(s)
            }
        },
    }
}

impl BashParser {
    pub fn new() -> (p: BashParser)
        ensures
            p@ == bash_start(),
    {
        BashParser {
            command: Vec::new(),
            command_line: None,
            plain_timestamp_ns: 0,
            timestamp: None,
        }
    }

    fn timestamp(line: &[u8]) -> (r: Option<&[u8]>)
        ensures
            r matches Some(t) ==> bash_timestamp(line@) == Some(t@) && all_digits(t@),
            r is None ==> bash_timestamp(line@) is None,
    {
        if line.len() == 0 || line[0] != 35u8 {
            return None;
        }
        let rest = &line[1..line.len()];
        assert(rest@ =~= line@.drop_first());
        let length = leading_digits(rest);
        if length == 0 {
            return None;
        }
        assert(rest@.take(length as int) =~= rest@.subrange(0, length as int));
        Some(&rest[0..length])
    }

    fn complete(&mut self) -> (r: Result<Option<Record>, Error>)
        ensures
            match bash_complete(old(self)@) {
                Ok((s, o)) => final(self)@ == s && (r matches Ok(x) && crate::parser::option_view(
                    x,
                ) == o),
                Err(e) => r == Err::<Option<Record>, Error>(e),
            },
    {
        self.command_line = None;
        if self.command.len() == 0 {
            return Ok(None);
        }
        let mut bytes: Vec<u8> = Vec::new();
        std::mem::swap(&mut bytes, &mut self.command);
        let command = decode_lossy(bytes.as_slice());
        match self.timestamp {
            Some((Some(ns), _)) => Ok(Some(Record::timestamped(command, ns))),
            Some((None, line)) => Err(Error::TimestampOverflow { line }),
            None => match self.plain_timestamp_ns.checked_add(1) {
                Some(order) => {
                    self.plain_timestamp_ns = order;
                    Ok(Some(Record::plain(command, order)))
                },
                None => Err(Error::PlainTimestampOverflow),
            },
        }
    }
}

impl Parser for BashParser {
    open spec fn step(state: BashState, line: Seq<u8>, number: usize) -> Result<
        (BashState, Option<RecordView>),
        Error,
    > {
        bash_step(state, line, number)
    }

    open spec fn end(state: BashState) -> Result<Option<RecordView>, Error> {
        match bash_complete(state) {
            Ok((_, record)) => Ok(record),
            Err(e) => Err(e),
        }
    }

    fn parse(&mut self, line: &[u8], number: usize) -> (r: Result<Option<Record>, Error>) {
        match Self::timestamp(line) {
            Some(digits) => {
                match self.complete() {
                    Ok(record) => {
                        self.timestamp = Some((seconds_to_nanoseconds(digits), number));
                        Ok(record)
                    },
                    Err(e) => Err(e),
                }
            },
            None => {
                if self.timestamp.is_some() && self.command_line.is_some() {
                    self.command.push(10u8);
                }
                if self.command_line.is_none() {
                    self.command_line = Some(number);
                }
                self.command.extend_from_slice(line);
                assert(self.command@ =~= (if old(self)@.timestamp is Some && old(
                    self,
                )@.command_line is Some {
                    old(self)@.command.push(10u8)
                } else {
                    old(self)@.command
                }) + line@);
                if self.timestamp.is_some() {
                    Ok(None)
                } else {
                    self.complete()
                }
            },
        }
    }

    fn finish(&mut self) -> (r: Result<Option<Record>, Error>) {
        self.complete()
    }
}

/// The number of nonempty lines.
pub open spec fn nonempty_count(lines: Seq<Seq<u8>>) -> nat
    decreases lines.len(),
{
    if lines.len() == 0 {
        0
    } else {
        nonempty_count(lines.drop_last()) + if lines.last().len() > 0 {
            1nat
        } else {
            0nat
        }
    }
}

/// One untimestamped record per nonempty line, ordered 1, 2, 3, ...
pub open spec fn plain_records(lines: Seq<Seq<u8>>) -> Seq<RecordView>
    decreases lines.len(),
{
    if lines.len() == 0 {
        seq![]
    } else {
        plain_records(lines.drop_last()) + if lines.last().len() > 0 {
            seq![plain_record(lossy_utf8(lines.last()), nonempty_count(lines) as i64)]
        } else {
            seq![]
        }
    }
}

pub open spec fn no_timestamp_lines(lines: Seq<Seq<u8>>) -> bool {
    forall|i: int| 0 <= i < lines.len() ==> #[trigger] bash_timestamp(lines[i]) is None
}

proof fn lemma_plain_scan(lines: Seq<Seq<u8>>)
    requires
        no_timestamp_lines(lines),
        lines.len() < i64::MAX,
    ensures
        nonempty_count(lines) <= lines.len(),
        scan::<BashParser>(bash_start(), lines) == Ok::<(BashState, Seq<RecordView>), Error>(
            (
                BashState {
                    command: seq![],
                    command_line: None,
                    plain_timestamp_ns: nonempty_count(lines) as i64,
                    timestamp: None,
                },
                plain_records(lines),
            ),
        ),
    decreases lines.len(),
{
    if lines.len() > 0 {
        let prefix = lines.drop_last();
        assert(no_timestamp_lines(prefix)) by {
            assert forall|i: int| 0 <= i < prefix.len() implies #[trigger] bash_timestamp(
                prefix[i],
            ) is None by {
                assert(prefix[i] == lines[i]);
            }
        }
        lemma_plain_scan(prefix);
        assert(bash_timestamp(lines[lines.len() - 1]) is None);
        let line = lines.last();
        assert(Seq::<u8>::empty() + line =~= line);
        if line.len() == 0 {
            assert(Seq::<u8>::empty() + line =~= Seq::<u8>::empty());
        }
    }
}

/// A bash history without timestamp lines gives one untimestamped record per
/// nonempty line, in order, ordered 1, 2, 3, ...; empty lines give none.
pub proof fn untimestamped_lines_are_plain_records(bytes: Seq<u8>)
    requires
        no_timestamp_lines(split_lines(bytes)),
        split_lines(bytes).len() < i64::MAX,
    ensures
        history::<BashParser>(bash_start(), bytes) == Ok::<Seq<RecordView>, Error>(
            plain_records(split_lines(bytes)),
        ),
{
    lemma_plain_scan(split_lines(bytes));
    assert(plain_records(split_lines(bytes)) + option_seq(None) =~= plain_records(
        split_lines(bytes),
    ));
}

} // verus!
