//! Records: an execution read from a history file, with the fingerprint by
//! which later imports of the same file recognise it.

use vstd::prelude::*;
use vstd::utf8::*;

use crate::execution::{bare_execution, Execution, ExecutionView};
use crate::text::{be_bytes, i64_be_bytes, i64_to_be_bytes, pow256, push_be_u64, utf8_bytes, lemma_be_bytes_injective, lemma_be_bytes_len};

verus! {

/// An execution read from a history, with its fingerprint.
#[derive(Clone, Debug, Default, PartialEq, Eq)]
pub struct Record {
    pub execution: Execution,
    pub fingerprint: Vec<u8>,
}

/// The mathematical value of a [`Record`].
pub struct RecordView {
    pub execution: ExecutionView,
    pub fingerprint: Seq<u8>,
}

impl View for Record {
    type V = RecordView;

    open spec fn view(&self) -> RecordView {
        RecordView { execution: self.execution@, fingerprint: self.fingerprint@ }
    }
}

/// `bytes`, preceded by their length in eight big-endian bytes.
pub open spec fn frame(bytes: Seq<u8>) -> Seq<u8> {
    be_bytes(bytes.len(), 8) + bytes
}

/// The frames of `parts`, one after the other.
pub open spec fn frames(parts: Seq<Seq<u8>>) -> Seq<u8>
    decreases parts.len(),
{
    if parts.len() == 0 {
        seq![]
    } else {
        frames(parts.drop_last()) + frame(parts.last())
    }
}

/// The fingerprint of a record of the given kind, made from the given parts.
pub open spec fn fingerprint(kind: Seq<u8>, parts: Seq<Seq<u8>>) -> Seq<u8> {
    frames(seq![kind] + parts)
}

/// The kind of records that carry no timestamp of their own.
pub open spec fn plain_kind() -> Seq<u8> {
    seq![112u8, 108u8, 97u8, 105u8, 110u8]
}

/// The kind of records that carry a timestamp.
pub open spec fn timestamped_kind() -> Seq<u8> {
    seq![116u8, 105u8, 109u8, 101u8, 115u8, 116u8, 97u8, 109u8, 112u8, 101u8, 100u8]
}

/// The kind of records that carry a timestamp and a duration.
pub open spec fn extended_kind() -> Seq<u8> {
    seq![101u8, 120u8, 116u8, 101u8, 110u8, 100u8, 101u8, 100u8]
}

/// The record of `command`, read without a timestamp, placed at `order`.
pub open spec fn plain_record(command: Seq<char>, order: i64) -> RecordView {
    RecordView {
        execution: bare_execution(command, order),
        fingerprint: fingerprint(plain_kind(), seq![encode_utf8(command)]),
    }
}

/// The record of `command`, run at `timestamp_ns`.
pub open spec fn timestamped_record(command: Seq<char>, timestamp_ns: i64) -> RecordView {
    RecordView {
        execution: bare_execution(command, timestamp_ns),
        fingerprint: fingerprint(
            timestamped_kind(),
            seq![encode_utf8(command), i64_be_bytes(timestamp_ns as int)],
        ),
    }
}

/// The record of `command`, run at `timestamp_ns` for `duration_ns`.
pub open spec fn extended_record(
    command: Seq<char>,
    timestamp_ns: i64,
    duration_ns: i64,
) -> RecordView {
    RecordView {
        execution: ExecutionView {
            duration_ns: Some(duration_ns),
            ..bare_execution(command, timestamp_ns)
        },
        fingerprint: fingerprint(
            extended_kind(),
            seq![
                encode_utf8(command),
                i64_be_bytes(timestamp_ns as int),
                i64_be_bytes(duration_ns as int),
            ],
        ),
    }
}

/// Appends the frame of `bytes` to `out`.
fn push_frame(out: &mut Vec<u8>, bytes: &[u8])
    ensures
        final(out)@ == old(out)@ + frame(bytes@),
{
    push_be_u64(out, bytes.len() as u64);
    out.extend_from_slice(bytes);
    assert(final(out)@ =~= old(out)@ + frame(bytes@));
}

impl Record {
    /// A record of `execution` whose fingerprint is made of `kind` and `parts`.
    pub fn new(execution: Execution, kind: &[u8], parts: &Vec<Vec<u8>>) -> (r: Record)
        ensures
            r.execution == execution,
            r.fingerprint@ == fingerprint(kind@, parts.deep_view()),
    {
        let mut out: Vec<u8> = Vec::new();
        push_frame(&mut out, kind);
        assert(seq![kind@].drop_last() =~= Seq::<Seq<u8>>::empty());
        assert(frames(Seq::<Seq<u8>>::empty()) =~= Seq::<u8>::empty());
        assert(seq![kind@].last() == kind@);
        assert(frames(seq![kind@]) == frames(seq![kind@].drop_last()) + frame(kind@));
        assert(out@ =~= frames(seq![kind@]));
        assert(seq![kind@] + parts.deep_view().take(0) =~= seq![kind@]);
        let mut i: usize = 0;
        while i < parts.len()
            invariant
                i <= parts.len(),
                out@ == frames(seq![kind@] + parts.deep_view().take(i as int)),
            decreases parts.len() - i,
        {
            let ghost prefix = seq![kind@] + parts.deep_view().take(i as int);
            push_frame(&mut out, parts[i].as_slice());
            assert((seq![kind@] + parts.deep_view().take(i + 1)).drop_last() =~= prefix);
            i += 1;
        }
        assert(parts.deep_view().take(parts.len() as int) =~= parts.deep_view());
        Record { execution, fingerprint: out }
    }

    /// The record of `command`, read without a timestamp, placed at `order`.
    pub fn plain(command: String, order: i64) -> (r: Record)
        ensures
            r@ == plain_record(command@, order),
    {
        let bytes = utf8_bytes(command.as_str());
        let ghost b = bytes@;
        let parts = vec![bytes];
        assert(parts.deep_view()[0] =~= b);
        let kind: Vec<u8> = vec![112u8, 108u8, 97u8, 105u8, 110u8];
        assert(kind@ =~= plain_kind());
        let r = Record::new(Execution::bare(command, order, None), kind.as_slice(), &parts);
        assert(parts.deep_view() =~= seq![encode_utf8(r.execution.command@)]);
        r
    }

    /// The record of `command`, run at `timestamp_ns`.
    pub fn timestamped(command: String, timestamp_ns: i64) -> (r: Record)
        ensures
            r@ == timestamped_record(command@, timestamp_ns),
    {
        let bytes = utf8_bytes(command.as_str());
        let stamp = i64_to_be_bytes(timestamp_ns);
        let ghost b = bytes@;
        let ghost t = stamp@;
        let parts = vec![bytes, stamp];
        assert(parts.deep_view()[0] =~= b);
        assert(parts.deep_view()[1] =~= t);
        let kind: Vec<u8> = vec![116u8, 105u8, 109u8, 101u8, 115u8, 116u8, 97u8, 109u8, 112u8, 101u8, 100u8];
        assert(kind@ =~= timestamped_kind());
        let r = Record::new(Execution::bare(command, timestamp_ns, None), kind.as_slice(), &parts);
        assert(parts.deep_view() =~= seq![
            encode_utf8(r.execution.command@),
            i64_be_bytes(timestamp_ns as int),
        ]);
        r
    }

    /// The record of `command`, run at `timestamp_ns` for `duration_ns`.
    pub fn extended(command: String, timestamp_ns: i64, duration_ns: i64) -> (r: Record)
        ensures
            r@ == extended_record(command@, timestamp_ns, duration_ns),
    {
        let bytes = utf8_bytes(command.as_str());
        let stamp = i64_to_be_bytes(timestamp_ns);
        let duration = i64_to_be_bytes(duration_ns);
        let ghost b = bytes@;
        let ghost t = stamp@;
        let ghost d = duration@;
        let parts = vec![bytes, stamp, duration];
        assert(parts.deep_view()[0] =~= b);
        assert(parts.deep_view()[1] =~= t);
        assert(parts.deep_view()[2] =~= d);
        let kind: Vec<u8> = vec![101u8, 120u8, 116u8, 101u8, 110u8, 100u8, 101u8, 100u8];
        assert(kind@ =~= extended_kind());
        let r = Record::new(
            Execution::bare(command, timestamp_ns, Some(duration_ns)),
            kind.as_slice(),
            &parts,
        );
        assert(parts.deep_view() =~= seq![
            encode_utf8(r.execution.command@),
            i64_be_bytes(timestamp_ns as int),
            i64_be_bytes(duration_ns as int),
        ]);
        r
    }
}

/// Frames read from the front: the first frame, then the frames of the rest.
proof fn lemma_frames_front(parts: Seq<Seq<u8>>)
    requires
        parts.len() > 0,
    ensures
        frames(parts) == frame(parts[0]) + frames(parts.drop_first()),
    decreases parts.len(),
{
    if parts.len() == 1 {
        assert(parts.drop_last() =~= Seq::<Seq<u8>>::empty());
        assert(parts.drop_first() =~= Seq::<Seq<u8>>::empty());
        assert(frames(parts) =~= frame(parts[0]) + frames(parts.drop_first()));
    } else {
        lemma_frames_front(parts.drop_last());
        assert(parts.drop_last().drop_first() =~= parts.drop_first().drop_last());
        assert(parts.drop_first().last() == parts.last());
        assert(frames(parts) =~= frame(parts[0]) + frames(parts.drop_first()));
    }
}

pub open spec fn small(parts: Seq<Seq<u8>>) -> bool {
    forall|i: int| 0 <= i < parts.len() ==> #[trigger] parts[i].len() < pow256(8)
}

proof fn lemma_frame_prefix(x: Seq<u8>, y: Seq<u8>, r1: Seq<u8>, r2: Seq<u8>)
    requires
        frame(x) + r1 == frame(y) + r2,
        x.len() < pow256(8),
        y.len() < pow256(8),
    ensures
        x == y,
        r1 == r2,
{
    lemma_be_bytes_len(x.len(), 8);
    lemma_be_bytes_len(y.len(), 8);
    let a = frame(x) + r1;
    assert(a.take(8) =~= be_bytes(x.len(), 8));
    assert((frame(y) + r2).take(8) =~= be_bytes(y.len(), 8));
    lemma_be_bytes_injective(x.len(), y.len(), 8);
    assert(a.subrange(8, 8 + x.len() as int) =~= x);
    assert((frame(y) + r2).subrange(8, 8 + y.len() as int) =~= y);
    assert(a.skip(8 + x.len() as int) =~= r1);
    assert((frame(y) + r2).skip(8 + y.len() as int) =~= r2);
}

proof fn lemma_frames_injective(p1: Seq<Seq<u8>>, p2: Seq<Seq<u8>>)
    requires
        frames(p1) == frames(p2),
        small(p1),
        small(p2),
    ensures
        p1 == p2,
    decreases p1.len(),
{
    if p1.len() == 0 {
        if p2.len() > 0 {
            lemma_frames_front(p2);
            lemma_be_bytes_len(p2[0].len(), 8);
            assert(frames(p2).len() >= 8);
        }
        assert(p1 =~= p2);
    } else if p2.len() == 0 {
        lemma_frames_front(p1);
        lemma_be_bytes_len(p1[0].len(), 8);
        assert(frames(p1).len() >= 8);
    } else {
        lemma_frames_front(p1);
        lemma_frames_front(p2);
        lemma_frame_prefix(p1[0], p2[0], frames(p1.drop_first()), frames(p2.drop_first()));
        assert(small(p1.drop_first()));
        assert(small(p2.drop_first()));
        lemma_frames_injective(p1.drop_first(), p2.drop_first());
        assert(p1 =~= seq![p1[0]] + p1.drop_first());
        assert(p2 =~= seq![p2[0]] + p2.drop_first());
    }
}

/// A fingerprint determines the kind and the parts it was made from.
pub proof fn fingerprint_determines_kind_and_parts(
    kind1: Seq<u8>,
    parts1: Seq<Seq<u8>>,
    kind2: Seq<u8>,
    parts2: Seq<Seq<u8>>,
)
    requires
        fingerprint(kind1, parts1) == fingerprint(kind2, parts2),
        kind1.len() < pow256(8),
        kind2.len() < pow256(8),
        small(parts1),
        small(parts2),
    ensures
        kind1 == kind2,
        parts1 == parts2,
{
    let a = seq![kind1] + parts1;
    let b = seq![kind2] + parts2;
    assert(small(a));
    assert(small(b));
    lemma_frames_injective(a, b);
    assert(a[0] == kind1);
    assert(b[0] == kind2);
    assert(a.drop_first() =~= parts1);
    assert(b.drop_first() =~= parts2);
}

} // verus!
