//! Zsh history: metafied bytes; each entry either a plain command or, with
//! `EXTENDED_HISTORY`, `: <start>:<elapsed>;<command>`; a line ending in a
//! backslash continues on the next line.

use vstd::prelude::*;

use crate::error::Error;
use crate::lines::split_lines;
use crate::parser::{history, option_seq, scan, Parser};
use crate::shell::bash::{nonempty_count, plain_records};
use crate::record::{extended_record, plain_record, Record, RecordView};
use crate::text::{
    all_digits, decode_lossy, digit_run, has_prefix, leading_digits, lemma_digit_run_bounds,
    lossy_utf8, seconds_to_nanoseconds, seconds_to_ns,
};

verus! {

/// The byte that announces a metafied byte in a zsh history.
pub open spec fn meta() -> u8 {
    0x83u8
}

/// A zsh history with its metafied bytes restored, and whether it ends in the
/// middle of a metafied pair.
pub open spec fn unmetafy(s: Seq<u8>) -> (Seq<u8>, bool)
    decreases s.len(),
{
    if s.len() == 0 {
        (seq![], false)
    } else if s[0] == meta() {
        if s.len() == 1 {
            (seq![], true)
        } else {
            let (rest, incomplete) = unmetafy(s.skip(2));
            (seq![s[1] ^ 0x20u8] + rest, incomplete)
        }
    } else {
        let (rest, incomplete) = unmetafy(s.drop_first());
        (seq![s[0]] + rest, incomplete)
    }
}

/// `bytes` metafied as zsh writes its history: each byte for which `special`
/// holds is written as the meta byte followed by the byte with bit 5 flipped.
pub open spec fn metafy(bytes: Seq<u8>, special: spec_fn(u8) -> bool) -> Seq<u8>
    decreases bytes.len(),
{
    if bytes.len() == 0 {
        seq![]
    } else {
        (if special(bytes[0]) {
            seq![meta(), bytes[0] ^ 0x20u8]
        } else {
            seq![bytes[0]]
        }) + metafy(bytes.drop_first(), special)
    }
}

/// Reading a metafied history gives back what was metafied, whatever bytes
/// zsh chose to metafy, so long as the meta byte itself is among them.
pub proof fn unmetafy_undoes_metafy(bytes: Seq<u8>, special: spec_fn(u8) -> bool)
    requires
        special(meta()),
    ensures
        unmetafy(metafy(bytes, special)) == (bytes, false),
    decreases bytes.len(),
{
    if bytes.len() > 0 {
        let b = bytes[0];
        let rest = metafy(bytes.drop_first(), special);
        unmetafy_undoes_metafy(bytes.drop_first(), special);
        let s = metafy(bytes, special);
        if special(b) {
            assert(s.skip(2) =~= rest);
            assert((b ^ 0x20u8) ^ 0x20u8 == b) by (bit_vector);
            assert(s[0] == meta());
            assert(seq![(b ^ 0x20u8) ^ 0x20u8] + bytes.drop_first() =~= bytes);
        } else {
            assert(b != meta());
            assert(s.drop_first() =~= rest);
            assert(seq![b] + bytes.drop_first() =~= bytes);
        }
    }
}

/// Restores the metafied bytes of a zsh history; also tells whether the
/// history ends in the middle of a metafied pair.
pub fn unmetafy_bytes(s: &[u8]) -> (r: (Vec<u8>, bool))
    ensures
        (r.0@, r.1) == unmetafy(s@),
{
    let mut out: Vec<u8> = Vec::new();
    let mut i: usize = 0;
    assert(s@.skip(0) =~= s@);
    while i < s.len()
        invariant
            i <= s.len(),
            unmetafy(s@).0 == out@ + unmetafy(s@.skip(i as int)).0,
            unmetafy(s@).1 == unmetafy(s@.skip(i as int)).1,
        decreases s.len() - i,
    {
        let ghost rest = s@.skip(i as int);
        if s[i] == 0x83u8 {
            if i + 1 == s.len() {
                assert(unmetafy(s@).0 =~= out@);
                return (out, true);
            }
            out.push(s[i + 1] ^ 0x20u8);
            assert(rest.skip(2) =~= s@.skip(i + 2));
            i += 2;
        } else {
            out.push(s[i]);
            assert(rest.drop_first() =~= s@.skip(i + 1));
            i += 1;
        }
        assert(unmetafy(s@).0 =~= out@ + unmetafy(s@.skip(i as int)).0);
    }
    assert(s@.skip(i as int) =~= Seq::<u8>::empty());
    assert(unmetafy(s@).0 =~= out@);
    (out, false)
}

/// Reads a zsh history (already unmetafied).
pub struct ZshParser {
    command: Vec<u8>,
    continued: bool,
    plain_timestamp_ns: i64,
    timestamp: Option<(Option<i64>, Option<i64>, usize)>,
}

/// The state of a [`ZshParser`]: the pending command; whether its last line
/// ended in a backslash; the order given to the last plain command; and the
/// start and elapsed time of the pending entry in nanoseconds (`None` when
/// they overflow) with the line of its header.
pub struct ZshState {
    pub command: Seq<u8>,
    pub continued: bool,
    pub plain_timestamp_ns: i64,
    pub timestamp: Option<(Option<i64>, Option<i64>, usize)>,
}

impl View for ZshParser {
    type V = ZshState;

    closed spec fn view(&self) -> ZshState {
        ZshState {
            command: self.command@,
            continued: self.continued,
            plain_timestamp_ns: self.plain_timestamp_ns,
            timestamp: self.timestamp,
        }
    }
}

/// The state in which a zsh history begins.
pub open spec fn zsh_start() -> ZshState {
    ZshState { command: seq![], continued: false, plain_timestamp_ns: 0, timestamp: None }
}

/// The start seconds, elapsed seconds and command of an extended history line
/// `: <start>:<elapsed>;<command>`, each number having at least one digit.
pub open spec fn zsh_header(line: Seq<u8>) -> Option<(Seq<u8>, Seq<u8>, Seq<u8>)> {
    let a = line.skip(2);
    let n1 = digit_run(a) as int;
    let b = a.skip(n1 + 1);
    let n2 = digit_run(b) as int;
    if has_prefix(line, seq![58u8, 32u8]) && n1 > 0 && n1 < a.len() && a[n1] == 58u8 && n2 > 0
        && n2 < b.len() && b[n2] == 59u8 {
        Some((a.take(n1), b.take(n2), b.skip(n2 + 1)))
    } else {
        None
    }
}

/// Completes the pending entry, if it has a command.
pub open spec fn zsh_complete(state: ZshState) -> Result<(ZshState, Option<RecordView>), Error> {
    let cleared = ZshState { command: seq![], continued: false, ..state };
    if state.command.len() == 0 {
        Ok((cleared, None))
    } else {
        let text = lossy_utf8(state.command);
        match state.timestamp {
            Some((Some(start), Some(elapsed), _)) => Ok(
                (cleared, Some(extended_record(text, start, elapsed))),
            ),
            Some((None, _, line)) => Err(Error::TimestampOverflow { line }),
            Some((Some(_), None, line)) => Err(Error::DurationOverflow { line }),
            None => if state.plain_timestamp_ns < i64::MAX {
                let order = (state.plain_timestamp_ns + 1) as i64;
                Ok(
                    (
                        ZshState { plain_timestamp_ns: order, ..cleared },
                        Some(plain_record(text, order)),
                    ),
                )
            } else {
                Err(Error::PlainTimestampOverflow)
            },
        }
    }
}

/// Reads one line of a zsh history.
pub open spec fn zsh_step(state: ZshState, line: Seq<u8>, number: usize) -> Result<
    (ZshState, Option<RecordView>),
    Error,
> {
    let (opened, body) = if state.continued {
        (state, line)
    } else {
        match zsh_header(line) {
            Some((start, elapsed, body)) => (
                ZshState {
                    timestamp: Some((seconds_to_ns(start), seconds_to_ns(elapsed), number)),
                    ..state
                },
                body,
            ),
            None => (ZshState { timestamp: None, ..state }, line),
        }
    };
    if body.len() > 0 && body.last() == 92u8 {
        Ok(
            (
                ZshState {
                    command: opened.command + body.drop_last() + seq![10u8],
                    continued: true,
                    ..opened
                },
                None,
            ),
        )
    } else {
        zsh_complete(ZshState { command: opened.command + body, continued: false, ..opened })
    }
}

/// Splits an extended history line into its start seconds, elapsed seconds
/// and command.
fn header(line: &[u8]) -> (r: Option<(&[u8], &[u8], &[u8])>)
    ensures
        match zsh_header(line@) {
            Some((s, e, c)) => r matches Some((s2, e2, c2)) && s2@ == s && e2@ == e && c2@ == c
                && all_digits(s) && all_digits(e),
            None => r is None,
        },
{
    if line.len() < 2 || line[0] != 58u8 || line[1] != 32u8 {
        assert(!has_prefix(line@, seq![58u8, 32u8])) by {
            if has_prefix(line@, seq![58u8, 32u8]) {
                assert(line@.take(2)[0] == 58u8);
                assert(line@.take(2)[1] == 32u8);
            }
        }
        return None;
    }
    assert(line@.take(2) =~= seq![58u8, 32u8]);
    let a = &line[2..line.len()];
    assert(a@ =~= line@.skip(2));
    let n1 = leading_digits(a);
    if n1 == 0 || n1 >= a.len() || a[n1] != 58u8 {
        return None;
    }
    let b = &a[n1 + 1..a.len()];
    assert(b@ =~= a@.skip(n1 + 1));
    let n2 = leading_digits(b);
    if n2 == 0 || n2 >= b.len() || b[n2] != 59u8 {
        return None;
    }
    let start = &a[0..n1];
    let elapsed = &b[0..n2];
    let command = &b[n2 + 1..b.len()];
    assert(start@ =~= a@.take(n1 as int));
    assert(elapsed@ =~= b@.take(n2 as int));
    assert(command@ =~= b@.skip(n2 + 1));
    Some((start, elapsed, command))
}

impl ZshParser {
    pub fn new() -> (p: ZshParser)
        ensures
            p@ == zsh_start(),
    {
        ZshParser { command: Vec::new(), continued: false, plain_timestamp_ns: 0, timestamp: None }
    }

    fn complete(&mut self) -> (r: Result<Option<Record>, Error>)
        ensures
            match zsh_complete(old(self)@) {
                Ok((s, o)) => final(self)@ == s && (r matches Ok(x) && crate::parser::option_view(
                    x,
                ) == o),
                Err(e) => r == Err::<Option<Record>, Error>(e),
            },
    {
        self.continued = false;
        if self.command.len() == 0 {
            assert(self.command@ =~= Seq::<u8>::empty());
            return Ok(None);
        }
        let mut bytes: Vec<u8> = Vec::new();
        std::mem::swap(&mut bytes, &mut self.command);
        let text = decode_lossy(bytes.as_slice());
        match self.timestamp {
            Some((Some(start), Some(elapsed), _)) => Ok(Some(Record::extended(text, start, elapsed))),
            Some((None, _, line)) => Err(Error::TimestampOverflow { line }),
            Some((Some(_), None, line)) => Err(Error::DurationOverflow { line }),
            None => match self.plain_timestamp_ns.checked_add(1) {
                Some(order) => {
                    self.plain_timestamp_ns = order;
                    Ok(Some(Record::plain(text, order)))
                },
                None => Err(Error::PlainTimestampOverflow),
            },
        }
    }
}

impl Parser for ZshParser {
    open spec fn step(state: ZshState, line: Seq<u8>, number: usize) -> Result<
        (ZshState, Option<RecordView>),
        Error,
    > {
        zsh_step(state, line, number)
    }

    open spec fn end(state: ZshState) -> Result<Option<RecordView>, Error> {
        match zsh_complete(state) {
            Ok((_, record)) => Ok(record),
            Err(e) => Err(e),
        }
    }

    fn parse(&mut self, line: &[u8], number: usize) -> (r: Result<Option<Record>, Error>) {
        let body: &[u8] = if self.continued {
            line
        } else {
            match header(line) {
                Some((start, elapsed, command)) => {
                    self.timestamp = Some(
                        (seconds_to_nanoseconds(start), seconds_to_nanoseconds(elapsed), number),
                    );
                    command
                },
                None => {
                    self.timestamp = None;
                    line
                },
            }
        };
        if body.len() > 0 && body[body.len() - 1] == 92u8 {
            self.command.extend_from_slice(&body[0..body.len() - 1]);
            self.command.push(10u8);
            self.continued = true;
            assert(self.command@ =~= old(self)@.command + body@.drop_last() + seq![10u8]);
            Ok(None)
        } else {
            self.command.extend_from_slice(body);
            self.continued = false;
            assert(self.command@ =~= old(self)@.command + body@);
            self.complete()
        }
    }

    fn finish(&mut self) -> (r: Result<Option<Record>, Error>) {
        self.complete()
    }
}

/// Lines that are neither extended history headers nor continued.
pub open spec fn simple_lines(lines: Seq<Seq<u8>>) -> bool {
    forall|i: int|
        0 <= i < lines.len() ==> #[trigger] zsh_header(lines[i]) is None && !(lines[i].len() > 0
            && lines[i].last() == 92u8)
}

proof fn lemma_simple_scan(lines: Seq<Seq<u8>>)
    requires
        simple_lines(lines),
        lines.len() < i64::MAX,
    ensures
        nonempty_count(lines) <= lines.len(),
        scan::<ZshParser>(zsh_start(), lines) == Ok::<(ZshState, Seq<RecordView>), Error>(
            (
                ZshState {
                    command: seq![],
                    continued: false,
                    plain_timestamp_ns: nonempty_count(lines) as i64,
                    timestamp: None,
                },
                plain_records(lines),
            ),
        ),
    decreases lines.len(),
{
    if lines.len() > 0 {
        let prefix = lines.drop_last();
        assert(simple_lines(prefix)) by {
            assert forall|i: int| 0 <= i < prefix.len() implies #[trigger] zsh_header(prefix[i])
                is None && !(prefix[i].len() > 0 && prefix[i].last() == 92u8) by {
                assert(prefix[i] == lines[i]);
            }
        }
        lemma_simple_scan(prefix);
        assert(zsh_header(lines[lines.len() - 1]) is None);
        let line = lines.last();
        assert(Seq::<u8>::empty() + line =~= line);
    }
}

/// A zsh history of plain, single-line entries gives one untimestamped record
/// per nonempty line, in order, ordered 1, 2, 3, ...
pub proof fn plain_entries_are_plain_records(bytes: Seq<u8>)
    requires
        simple_lines(split_lines(bytes)),
        split_lines(bytes).len() < i64::MAX,
    ensures
        history::<ZshParser>(zsh_start(), bytes) == Ok::<Seq<RecordView>, Error>(
            plain_records(split_lines(bytes)),
        ),
{
    lemma_simple_scan(split_lines(bytes));
    assert(plain_records(split_lines(bytes)) + option_seq(None) =~= plain_records(
        split_lines(bytes),
    ));
}

/// Whether `record` is an untimestamped record.
pub open spec fn is_plain(record: RecordView) -> bool {
    record == plain_record(record.execution.command, record.execution.timestamp_ns)
}

/// How many of `records` are untimestamped.
pub open spec fn plain_count(records: Seq<RecordView>) -> nat
    decreases records.len(),
{
    if records.len() == 0 {
        0
    } else {
        plain_count(records.drop_last()) + if is_plain(records.last()) {
            1nat
        } else {
            0nat
        }
    }
}

proof fn lemma_plain_count_push(records: Seq<RecordView>, record: RecordView)
    ensures
        plain_count(records.push(record)) == plain_count(records) + if is_plain(record) {
            1nat
        } else {
            0nat
        },
{
    assert(records.push(record).drop_last() =~= records);
}

/// Between lines, the parser holds no command unless the last line went on,
/// and its count of untimestamped entries is the number of untimestamped
/// records it gave.
proof fn lemma_zsh_scan(lines: Seq<Seq<u8>>)
    ensures
        scan::<ZshParser>(zsh_start(), lines) matches Ok((s, out)) ==> {
            &&& !s.continued ==> s.command == Seq::<u8>::empty()
            &&& s.plain_timestamp_ns == plain_count(out)
        },
    decreases lines.len(),
{
    if lines.len() > 0 {
        let prefix = lines.drop_last();
        lemma_zsh_scan(prefix);
        if let Ok((s0, out0)) = scan::<ZshParser>(zsh_start(), prefix) {
            if let Ok((s1, o)) = zsh_step(s0, lines.last(), lines.len() as usize) {
                match o {
                    Some(r) => {
                        lemma_plain_count_push(out0, r);
                        assert(out0 + option_seq(o) =~= out0.push(r));
                        if r.execution.duration_ns is Some {
                            assert(!is_plain(r));
                        }
                    },
                    None => {
                        assert(out0 + option_seq(o) =~= out0);
                    },
                }
            }
        }
    }
}

/// A zsh line that is not an extended history header, and that does not go
/// on from the line before, is an entry of its own: it gives an
/// untimestamped record of its text, numbered one past the untimestamped
/// records before it, whatever entries came before; or, past the last
/// number, an overflow error.
pub proof fn plain_line_is_plain_record(before: Seq<Seq<u8>>, line: Seq<u8>)
    requires
        scan::<ZshParser>(zsh_start(), before) matches Ok((s, _)) && !s.continued,
        zsh_header(line) is None,
        line.len() > 0,
        line.last() != 92u8,
    ensures
        scan::<ZshParser>(zsh_start(), before) matches Ok((_, out)) && (if plain_count(out)
            < i64::MAX {
            scan::<ZshParser>(zsh_start(), before.push(line)) matches Ok((s2, out2)) && !s2.continued
                && out2 == out.push(plain_record(lossy_utf8(line), (plain_count(out) + 1) as i64))
        } else {
            scan::<ZshParser>(zsh_start(), before.push(line)) == Err::<
                (ZshState, Seq<RecordView>),
                Error,
            >(Error::PlainTimestampOverflow)
        }),
{
    lemma_zsh_scan(before);
    let lines = before.push(line);
    assert(lines.drop_last() =~= before);
    assert(lines.last() == line);
    let (s, out) = scan::<ZshParser>(zsh_start(), before)->Ok_0;
    assert(s.command + line =~= line);
    if plain_count(out) < i64::MAX {
        assert(out + option_seq(Some(plain_record(lossy_utf8(line), (plain_count(out) + 1) as i64)))
            =~= out.push(plain_record(lossy_utf8(line), (plain_count(out) + 1) as i64)));
    }
}

/// A zsh extended history line `: <start>:<elapsed>;<command>` that does not
/// go on from the line before, and whose command neither is empty nor goes
/// on, gives a record of that command run at `start` seconds for `elapsed`
/// seconds, whatever entries came before; the untimestamped numbering does
/// not move.
pub proof fn extended_line_is_extended_record(
    before: Seq<Seq<u8>>,
    line: Seq<u8>,
    start_ns: i64,
    elapsed_ns: i64,
)
    requires
        scan::<ZshParser>(zsh_start(), before) matches Ok((s, _)) && !s.continued,
        zsh_header(line) matches Some((start, elapsed, command)) && command.len() > 0
            && command.last() != 92u8 && seconds_to_ns(start) == Some(start_ns) && seconds_to_ns(
            elapsed,
        ) == Some(elapsed_ns),
    ensures
        scan::<ZshParser>(zsh_start(), before) matches Ok((_, out)) && scan::<ZshParser>(
            zsh_start(),
            before.push(line),
        ) matches Ok((s2, out2)) && !s2.continued && plain_count(out2) == plain_count(out)
            && out2 == out.push(
            extended_record(lossy_utf8(zsh_header(line)->Some_0.2), start_ns, elapsed_ns),
        ),
{
    lemma_zsh_scan(before);
    let lines = before.push(line);
    assert(lines.drop_last() =~= before);
    assert(lines.last() == line);
    let (s, out) = scan::<ZshParser>(zsh_start(), before)->Ok_0;
    let command = zsh_header(line)->Some_0.2;
    assert(s.command + command =~= command);
    let r = extended_record(lossy_utf8(command), start_ns, elapsed_ns);
    assert(out + option_seq(Some(r)) =~= out.push(r));
    lemma_plain_count_push(out, r);
    assert(r.execution.duration_ns is Some);
    assert(!is_plain(r));
}

} // verus!
