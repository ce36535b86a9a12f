//! Fish history: a YAML-like list of `- cmd:` entries, each optionally
//! followed by an indented `when:` line with its start time in seconds.

use vstd::prelude::*;

use crate::error::Error;
use crate::lines::split_lines;
use crate::parser::{history, option_seq, scan, Parser};
use crate::shell::bash::{nonempty_count, plain_records};
use crate::record::{plain_record, timestamped_record, Record, RecordView};
use crate::text::{
    decode_lossy, has_prefix, lossy_utf8, parse_i64, parse_signed, strip_prefix, trim_ascii_start,
    trim_start,
};

verus! {

/// Reads a fish history.
pub struct FishParser {
    command: Option<Vec<u8>>,
    plain_timestamp_ns: i64,
    timestamp: Option<(Option<i64>, usize)>,
}

/// The state of a [`FishParser`]: the pending command, if an entry is open;
/// the order given to the last untimestamped command; and the seconds of the
/// entry's `when:` line (`None` when they do not parse) with its line number.
pub struct FishState {
    pub command: Option<Seq<u8>>,
    pub plain_timestamp_ns: i64,
    pub timestamp: Option<(Option<i64>, usize)>,
}

impl View for FishParser {
    type V = FishState;

    closed spec fn view(&self) -> FishState {
        FishState {
            command: match self.command {
                Some(c) => Some(c@),
                None => None,
            },
            plain_timestamp_ns: self.plain_timestamp_ns,
            timestamp: self.timestamp,
        }
    }
}

/// The state in which a fish history begins.
pub open spec fn fish_start() -> FishState {
    FishState { command: None, plain_timestamp_ns: 0, timestamp: None }
}

/// `- cmd:`
pub open spec fn cmd_prefix() -> Seq<u8> {
    seq![45u8, 32u8, 99u8, 109u8, 100u8, 58u8]
}

/// `  when:`
pub open spec fn when_prefix() -> Seq<u8> {
    seq![32u8, 32u8, 119u8, 104u8, 101u8, 110u8, 58u8]
}

/// Fish's escapes undone: `\\` is a backslash and `\n` a line feed; any other
/// backslash ends the command.
pub open spec fn unescape(s: Seq<u8>) -> Seq<u8>
    decreases s.len(),
{
    if s.len() == 0 {
        seq![]
    } else if s[0] != 92u8 {
        seq![s[0]] + unescape(s.drop_first())
    } else if s.len() >= 2 && s[1] == 92u8 {
        seq![92u8] + unescape(s.skip(2))
    } else if s.len() >= 2 && s[1] == 110u8 {
        seq![10u8] + unescape(s.skip(2))
    } else {
        seq![]
    }
}

/// A command escaped as fish writes it in its history: a backslash doubled,
/// a line feed written as `\n`.
pub open spec fn escape(s: Seq<u8>) -> Seq<u8>
    decreases s.len(),
{
    if s.len() == 0 {
        seq![]
    } else {
        (if s[0] == 92u8 {
            seq![92u8, 92u8]
        } else if s[0] == 10u8 {
            seq![92u8, 110u8]
        } else {
            seq![s[0]]
        }) + escape(s.drop_first())
    }
}

/// Reading an escaped command gives back the command.
pub proof fn unescape_undoes_escape(s: Seq<u8>)
    ensures
        unescape(escape(s)) == s,
    decreases s.len(),
{
    if s.len() > 0 {
        let e = escape(s);
        let rest = escape(s.drop_first());
        unescape_undoes_escape(s.drop_first());
        if s[0] == 92u8 || s[0] == 10u8 {
            assert(e.skip(2) =~= rest);
        } else {
            assert(e.drop_first() =~= rest);
        }
        assert(seq![s[0]] + s.drop_first() =~= s);
    }
}

/// Completes the open entry, if there is one.
pub open spec fn fish_complete(state: FishState) -> Result<(FishState, Option<RecordView>), Error> {
    match state.command {
        None => Ok((state, None)),
        Some(command) => {
            let closed = FishState { command: None, timestamp: None, ..state };
            if command.len() == 0 {
                Ok((closed, None))
            } else {
                let text = lossy_utf8(command);
                match state.timestamp {
                    Some((Some(seconds), line)) => if i64::MIN <= seconds * 1_000_000_000
                        <= i64::MAX {
                        Ok(
                            (
                                closed,
                                Some(
                                    timestamped_record(text, (seconds * 1_000_000_000) as i64),
                                ),
                            ),
                        )
                    } else {
                        Err(Error::TimestampOverflow { line })
                    },
                    _ => if state.plain_timestamp_ns < i64::MAX {
                        let order = (state.plain_timestamp_ns + 1) as i64;
                        Ok(
                            (
                                FishState { plain_timestamp_ns: order, ..closed },
                                Some(plain_record(text, order)),
                            ),
                        )
                    } else {
                        Err(Error::PlainTimestampOverflow)
                    },
                }
            }
        },
    }
}

/// Reads one line of a fish history.
pub open spec fn fish_step(state: FishState, line: Seq<u8>, number: usize) -> Result<
    (FishState, Option<RecordView>),
    Error,
> {
    if has_prefix(line, cmd_prefix()) {
        match fish_complete(state) {
            Err(e) => Err(e),
            Ok((s, record)) => Ok(
                (
                    FishState {
                        command: Some(unescape(trim_start(line.skip(cmd_prefix().len() as int)))),
                        ..s
                    },
                    record,
                ),
            ),
        }
    } else if state.command is None {
        Ok((state, None))
    } else if has_prefix(line, when_prefix()) {
        Ok(
            (
                FishState {
                    timestamp: Some(
                        (
                            match parse_i64(trim_start(line.skip(when_prefix().len() as int))) {
                                Some(v) => Some(v as i64),
                                None => None,
                            },
                            number,
                        ),
                    ),
                    ..state
                },
                None,
            ),
        )
    } else {
        Ok((state, None))
    }
}

/// Undoes fish's escapes in `s`.
pub fn unescape_bytes(s: &[u8]) -> (r: Vec<u8>)
    ensures
        r@ == unescape(s@),
{
    let mut out: Vec<u8> = Vec::new();
    let mut i: usize = 0;
    assert(s@.skip(0) =~= s@);
    while i < s.len()
        invariant
            i <= s.len(),
            unescape(s@) == out@ + unescape(s@.skip(i as int)),
        decreases s.len() - i,
    {
        let ghost rest = s@.skip(i as int);
        let byte = s[i];
        if byte != 92u8 {
            out.push(byte);
            assert(rest.drop_first() =~= s@.skip(i + 1));
            i += 1;
        } else if i + 1 < s.len() && s[i + 1] == 92u8 {
            out.push(92u8);
            assert(rest.skip(2) =~= s@.skip(i + 2));
            i += 2;
        } else if i + 1 < s.len() && s[i + 1] == 110u8 {
            out.push(10u8);
            assert(rest.skip(2) =~= s@.skip(i + 2));
            i += 2;
        } else {
            assert(unescape(rest) =~= Seq::<u8>::empty());
            assert(out@ + unescape(rest) =~= out@);
            return out;
        }
        assert(unescape(s@) =~= out@ + unescape(s@.skip(i as int)));
    }
    assert(s@.skip(i as int) =~= Seq::<u8>::empty());
    assert(unescape(s@) =~= out@);
    out
}

impl FishParser {
    pub fn new() -> (p: FishParser)
        ensures
            p@ == fish_start(),
    {
        FishParser { command: None, plain_timestamp_ns: 0, timestamp: None }
    }

    fn complete(&mut self) -> (r: Result<Option<Record>, Error>)
        ensures
            match fish_complete(old(self)@) {
                Ok((s, o)) => final(self)@ == s && (r matches Ok(x) && crate::parser::option_view(
                    x,
                ) == o),
                Err(e) => r == Err::<Option<Record>, Error>(e),
            },
    {
        let command = match self.command.take() {
            Some(command) => command,
            None => return Ok(None),
        };
        if command.len() == 0 {
            self.timestamp = None;
            return Ok(None);
        }
        let text = decode_lossy(command.as_slice());
        let timestamp = self.timestamp.take();
        match timestamp {
            Some((Some(seconds), line)) => match seconds.checked_mul(1_000_000_000i64) {
                Some(ns) => Ok(Some(Record::timestamped(text, ns))),
                None => Err(Error::TimestampOverflow { line }),
            },
            _ => match self.plain_timestamp_ns.checked_add(1) {
                Some(order) => {
                    self.plain_timestamp_ns = order;
                    Ok(Some(Record::plain(text, order)))
                },
                None => Err(Error::PlainTimestampOverflow),
            },
        }
    }
}

impl Parser for FishParser {
    open spec fn step(state: FishState, line: Seq<u8>, number: usize) -> Result<
        (FishState, Option<RecordView>),
        Error,
    > {
        fish_step(state, line, number)
    }

    open spec fn end(state: FishState) -> Result<Option<RecordView>, Error> {
        match fish_complete(state) {
            Ok((_, record)) => Ok(record),
            Err(e) => Err(e),
        }
    }

    fn parse(&mut self, line: &[u8], number: usize) -> (r: Result<Option<Record>, Error>) {
        let cmd: Vec<u8> = vec![45u8, 32u8, 99u8, 109u8, 100u8, 58u8];
        assert(cmd@ =~= cmd_prefix());
        if let Some(rest) = strip_prefix(line, cmd.as_slice()) {
            match self.complete() {
                Ok(completed) => {
                    self.command = Some(unescape_bytes(trim_ascii_start(rest)));
                    return Ok(completed);
                },
                Err(e) => return Err(e),
            }
        }
        if self.command.is_none() {
            return Ok(None);
        }
        let when: Vec<u8> = vec![32u8, 32u8, 119u8, 104u8, 101u8, 110u8, 58u8];
        assert(when@ =~= when_prefix());
        if let Some(rest) = strip_prefix(line, when.as_slice()) {
            self.timestamp = Some((parse_signed(trim_ascii_start(rest)), number));
        }
        Ok(None)
    }

    fn finish(&mut self) -> (r: Result<Option<Record>, Error>) {
        self.complete()
    }
}

/// The commands of the `- cmd:` lines among `lines`, unescaped, in order.
pub open spec fn fish_commands(lines: Seq<Seq<u8>>) -> Seq<Seq<u8>>
    decreases lines.len(),
{
    if lines.len() == 0 {
        seq![]
    } else if has_prefix(lines.last(), cmd_prefix()) {
        fish_commands(lines.drop_last()).push(
            unescape(trim_start(lines.last().skip(cmd_prefix().len() as int))),
        )
    } else {
        fish_commands(lines.drop_last())
    }
}

/// Lines none of which is a `when:` line.
pub open spec fn no_when_lines(lines: Seq<Seq<u8>>) -> bool {
    forall|i: int| 0 <= i < lines.len() ==> !has_prefix(#[trigger] lines[i], when_prefix())
}

proof fn lemma_fish_commands_len(lines: Seq<Seq<u8>>)
    ensures
        fish_commands(lines).len() <= lines.len(),
    decreases lines.len(),
{
    if lines.len() > 0 {
        lemma_fish_commands_len(lines.drop_last());
    }
}

proof fn lemma_nonempty_count_len(lines: Seq<Seq<u8>>)
    ensures
        nonempty_count(lines) <= lines.len(),
    decreases lines.len(),
{
    if lines.len() > 0 {
        lemma_nonempty_count_len(lines.drop_last());
    }
}

proof fn lemma_untimed_scan(lines: Seq<Seq<u8>>)
    requires
        no_when_lines(lines),
        lines.len() < i64::MAX,
    ensures
        ({
            let c = fish_commands(lines);
            if c.len() == 0 {
                scan::<FishParser>(fish_start(), lines) == Ok::<(FishState, Seq<RecordView>), Error>(
                    (fish_start(), seq![]),
                )
            } else {
                scan::<FishParser>(fish_start(), lines) == Ok::<(FishState, Seq<RecordView>), Error>(
                    (
                        FishState {
                            command: Some(c.last()),
                            plain_timestamp_ns: nonempty_count(c.drop_last()) as i64,
                            timestamp: None,
                        },
                        plain_records(c.drop_last()),
                    ),
                )
            }
        }),
    decreases lines.len(),
{
    if lines.len() > 0 {
        let prefix = lines.drop_last();
        let line = lines.last();
        assert(no_when_lines(prefix)) by {
            assert forall|i: int| 0 <= i < prefix.len() implies !has_prefix(
                #[trigger] prefix[i],
                when_prefix(),
            ) by {
                assert(prefix[i] == lines[i]);
            }
        }
        assert(!has_prefix(lines[lines.len() - 1], when_prefix()));
        lemma_untimed_scan(prefix);
        lemma_fish_commands_len(prefix);
        let p = fish_commands(prefix);
        if p.len() > 0 {
            lemma_nonempty_count_len(p);
            lemma_nonempty_count_len(p.drop_last());
        }
        if has_prefix(line, cmd_prefix()) {
            let c = fish_commands(lines);
            assert(c == p.push(unescape(trim_start(line.skip(cmd_prefix().len() as int)))));
            assert(c.drop_last() =~= p);
            if p.len() > 0 {
                assert(p.drop_last().push(p.last()) =~= p);
            }
        }
    }
}

/// A fish history without `when:` lines gives one untimestamped record per
/// `- cmd:` entry with a nonempty command, in order, ordered 1, 2, 3, ...
pub proof fn untimed_entries_are_plain_records(bytes: Seq<u8>)
    requires
        no_when_lines(split_lines(bytes)),
        split_lines(bytes).len() < i64::MAX,
    ensures
        history::<FishParser>(fish_start(), bytes) == Ok::<Seq<RecordView>, Error>(
            plain_records(fish_commands(split_lines(bytes))),
        ),
{
    let lines = split_lines(bytes);
    lemma_untimed_scan(lines);
    lemma_fish_commands_len(lines);
    let c = fish_commands(lines);
    if c.len() == 0 {
        assert(plain_records(c) =~= Seq::<RecordView>::empty());
        assert(Seq::<RecordView>::empty() + option_seq(None) =~= Seq::<RecordView>::empty());
    } else {
        lemma_nonempty_count_len(c.drop_last());
        assert(c.drop_last().push(c.last()) =~= c);
        assert(c.drop_last() =~= c.drop_last());
        if c.last().len() == 0 {
            assert(plain_records(c.drop_last()) + option_seq(None) =~= plain_records(c));
        } else {
            assert(plain_records(c.drop_last()) + option_seq(
                Some(plain_record(lossy_utf8(c.last()), nonempty_count(c) as i64)),
            ) =~= plain_records(c));
        }
    }
}

} // verus!
