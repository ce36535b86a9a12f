//! History parsers: line-by-line state machines that turn a history into
//! records.

use vstd::prelude::*;

use crate::error::Error;
use crate::lines::{lines, split_lines};
use crate::record::{Record, RecordView};

verus! {

pub open spec fn option_view(o: Option<Record>) -> Option<RecordView> {
    match o {
        Some(r) => Some(r@),
        None => None,
    }
}

pub open spec fn option_seq(o: Option<RecordView>) -> Seq<RecordView> {
    match o {
        Some(r) => seq![r],
        None => seq![],
    }
}

/// `r` is what a parser step that should give `expected` returned, leaving the
/// parser in `state`.
pub open spec fn stepped<S>(
    expected: Result<(S, Option<RecordView>), Error>,
    state: S,
    r: Result<Option<Record>, Error>,
) -> bool {
    match expected {
        Ok((s, o)) => state == s && (r matches Ok(x) && option_view(x) == o),
        Err(e) => r == Err::<Option<Record>, Error>(e),
    }
}

/// `r` is what the end of a history that should give `expected` returned.
pub open spec fn ended(
    expected: Result<Option<RecordView>, Error>,
    r: Result<Option<Record>, Error>,
) -> bool {
    match expected {
        Ok(o) => r matches Ok(x) && option_view(x) == o,
        Err(e) => r == Err::<Option<Record>, Error>(e),
    }
}

/// A history parser: it reads a history one numbered line at a time, and may
/// complete a record at each line and at the end.
pub trait Parser: View + Sized {
    /// What reading `line`, numbered `number`, does in `state`.
    spec fn step(state: Self::V, line: Seq<u8>, number: usize) -> Result<
        (Self::V, Option<RecordView>),
        Error,
    >;

    /// What the end of the history gives in `state`.
    spec fn end(state: Self::V) -> Result<Option<RecordView>, Error>;

    /// Reads one line.
    fn parse(&mut self, line: &[u8], number: usize) -> (r: Result<Option<Record>, Error>)
        ensures
            stepped(Self::step(old(self)@, line@, number), final(self)@, r),
    ;

    /// Completes what is pending at the end of the history.
    fn finish(&mut self) -> (r: Result<Option<Record>, Error>)
        ensures
            ended(Self::end(old(self)@), r),
    ;
}

/// Reading `lines`, numbered from 1, from `state`: the state reached and the
/// records completed on the way.
pub open spec fn scan<P: Parser>(state: P::V, lines: Seq<Seq<u8>>) -> Result<
    (P::V, Seq<RecordView>),
    Error,
>
    decreases lines.len(),
{
    if lines.len() == 0 {
        Ok((state, seq![]))
    } else {
        match scan::<P>(state, lines.drop_last()) {
            Err(e) => Err(e),
            Ok((s, out)) => match P::step(s, lines.last(), lines.len() as usize) {
                Err(e) => Err(e),
                Ok((s2, o)) => Ok((s2, out + option_seq(o))),
            },
        }
    }
}

/// The records of the whole history `bytes`, read from `state`.
pub open spec fn history<P: Parser>(state: P::V, bytes: Seq<u8>) -> Result<Seq<RecordView>, Error> {
    match scan::<P>(state, split_lines(bytes)) {
        Err(e) => Err(e),
        Ok((s, out)) => match P::end(s) {
            Err(e) => Err(e),
            Ok(o) => Ok(out + option_seq(o)),
        },
    }
}

pub open spec fn records_view(records: Seq<Record>) -> Seq<RecordView> {
    records.map_values(|r: Record| r@)
}

/// `r` is the outcome `expected`.
pub open spec fn matches_records(
    expected: Result<Seq<RecordView>, Error>,
    r: Result<Vec<Record>, Error>,
) -> bool {
    match expected {
        Ok(out) => r matches Ok(v) && records_view(v@) == out,
        Err(e) => r == Err::<Vec<Record>, Error>(e),
    }
}

/// Reads the lines of `bytes` with `parser`, numbered from 1, stopping at the
/// first error; returns the completed records.
pub fn scan_lines<P: Parser>(parser: &mut P, bytes: &[u8]) -> (r: Result<Vec<Record>, Error>)
    ensures
        match scan::<P>(old(parser)@, split_lines(bytes@)) {
            Ok((s, out)) => final(parser)@ == s && (r matches Ok(v) && records_view(v@) == out),
            Err(e) => r == Err::<Vec<Record>, Error>(e),
        },
{
    let all = lines(bytes);
    let ghost start = parser@;
    let mut out: Vec<Record> = Vec::new();
    let mut i: usize = 0;
    assert(all.deep_view().take(0) =~= Seq::<Seq<u8>>::empty());
    assert(records_view(out@) =~= Seq::<RecordView>::empty());
    while i < all.len()
        invariant
            i <= all.len(),
            start == old(parser)@,
            all.deep_view() == split_lines(bytes@),
            scan::<P>(start, all.deep_view().take(i as int)) == Ok::<
                (P::V, Seq<RecordView>),
                Error,
            >((parser@, records_view(out@))),
        decreases all.len() - i,
    {
        let ghost prefix = all.deep_view().take(i as int);
        let ghost line = all.deep_view()[i as int];
        assert(all.deep_view().take(i + 1).drop_last() =~= prefix);
        assert(all.deep_view().take(i + 1).last() == line);
        assert(all[i as int]@ == line);
        let step = parser.parse(all[i].as_slice(), i + 1);
        match step {
            Err(e) => {
                proof {
                    assert(scan::<P>(start, all.deep_view().take(i + 1)) == Err::<
                        (P::V, Seq<RecordView>),
                        Error,
                    >(e));
                    lemma_scan_error_persists::<P>(start, all.deep_view(), i + 1);
                    assert(all.deep_view().take(all.deep_view().len() as int) =~= all.deep_view());
                }
                return Err(e);
            },
            Ok(o) => {
                let ghost before = out@;
                match o {
                    Some(record) => {
                        out.push(record);
                    },
                    None => {},
                }
                assert(records_view(out@) =~= records_view(before) + option_seq(option_view(o)));
            },
        }
        i += 1;
    }
    assert(all.deep_view().take(all.len() as int) =~= all.deep_view());
    Ok(out)
}

/// Once reading a prefix of the lines fails, reading all of them fails the same way.
proof fn lemma_scan_error_persists<P: Parser>(state: P::V, lines: Seq<Seq<u8>>, k: int)
    requires
        0 <= k <= lines.len(),
        scan::<P>(state, lines.take(k)) is Err,
    ensures
        scan::<P>(state, lines) == scan::<P>(state, lines.take(k)),
    decreases lines.len() - k,
{
    if k < lines.len() {
        assert(lines.take(k + 1).drop_last() =~= lines.take(k));
        lemma_scan_error_persists::<P>(state, lines, k + 1);
    } else {
        assert(lines.take(k) =~= lines);
    }
}

/// Reads the whole history `bytes` with `parser`.
pub fn parse_history<P: Parser>(parser: &mut P, bytes: &[u8]) -> (r: Result<Vec<Record>, Error>)
    ensures
        matches_records(history::<P>(old(parser)@, bytes@), r),
{
    let mut out = scan_lines(parser, bytes)?;
    let last = parser.finish()?;
    let ghost before = out@;
    match last {
        Some(record) => out.push(record),
        None => {},
    }
    assert(records_view(out@) =~= records_view(before) + option_seq(option_view(last)));
    Ok(out)
}

} // verus!
