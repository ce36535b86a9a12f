//! Splitting a history into lines.

use vstd::prelude::*;

verus! {

pub open spec fn newline() -> u8 {
    10u8
}

/// The number of bytes of `s` before its first line feed, or its length when
/// it has none.
pub open spec fn line_len(s: Seq<u8>) -> nat
    decreases s.len(),
{
    if s.len() == 0 {
        0
    } else if s[0] == newline() {
        0
    } else {
        1 + line_len(s.drop_first())
    }
}

pub proof fn lemma_line_len_bound(s: Seq<u8>)
    ensures
        line_len(s) <= s.len(),
    decreases s.len(),
{
    if s.len() > 0 && s[0] != newline() {
        lemma_line_len_bound(s.drop_first());
    }
}

/// The lines of `s`: the pieces between line feeds, without the line feeds,
/// and without the empty piece that follows a final line feed.
pub open spec fn split_lines(s: Seq<u8>) -> Seq<Seq<u8>>
    decreases s.len(),
{
    if s.len() == 0 {
        seq![]
    } else {
        let k = line_len(s);
        proof {
            lemma_line_len_bound(s);
        }
        if k >= s.len() {
            seq![s]
        } else {
            seq![s.take(k as int)] + split_lines(s.skip(k as int + 1))
        }
    }
}

proof fn lemma_line_len_at(s: Seq<u8>, j: int)
    requires
        0 <= j <= s.len(),
        forall|i: int| 0 <= i < j ==> s[i] != newline(),
        j < s.len() ==> s[j] == newline(),
    ensures
        line_len(s) == j,
    decreases j,
{
    if j > 0 {
        lemma_line_len_at(s.drop_first(), j - 1);
    }
}

/// Copies `s` into a new vector.
pub fn to_vec(s: &[u8]) -> (v: Vec<u8>)
    ensures
        v@ == s@,
{
    let mut v: Vec<u8> = Vec::new();
    v.extend_from_slice(s);
    assert(v@ =~= s@);
    v
}

/// The lines of `bytes`.
pub fn lines(bytes: &[u8]) -> (r: Vec<Vec<u8>>)
    ensures
        r.deep_view() == split_lines(bytes@),
{
    let mut out: Vec<Vec<u8>> = Vec::new();
    let mut start: usize = 0;
    let mut i: usize = 0;
    assert(bytes@.skip(0) =~= bytes@);
    while i < bytes.len()
        invariant
            start <= i <= bytes.len(),
            split_lines(bytes@) == out.deep_view() + split_lines(bytes@.skip(start as int)),
            forall|j: int| start <= j < i ==> bytes@[j] != newline(),
        decreases bytes.len() - i,
    {
        if bytes[i] == 10u8 {
            let ghost rest = bytes@.skip(start as int);
            proof {
                lemma_line_len_at(rest, i - start);
                assert(rest.take(i - start) =~= bytes@.subrange(start as int, i as int));
                assert(rest.skip(i - start + 1) =~= bytes@.skip(i + 1));
            }
            let line = to_vec(&bytes[start..i]);
            let ghost before = out.deep_view();
            out.push(line);
            assert(out@.last().deep_view() =~= bytes@.subrange(start as int, i as int));
            assert(out.deep_view() =~= before.push(bytes@.subrange(start as int, i as int)));
            assert(split_lines(rest) == seq![rest.take(i - start)] + split_lines(
                rest.skip(i - start + 1),
            ));
            assert(split_lines(bytes@) =~= out.deep_view() + split_lines(bytes@.skip(i + 1)));
            start = i + 1;
        }
        i += 1;
    }
    if start < bytes.len() {
        let ghost rest = bytes@.skip(start as int);
        proof {
            lemma_line_len_at(rest, rest.len() as int);
        }
        let line = to_vec(&bytes[start..bytes.len()]);
        let ghost before = out.deep_view();
        out.push(line);
        assert(rest =~= bytes@.subrange(start as int, bytes@.len() as int));
        assert(out@.last().deep_view() =~= rest);
        assert(out.deep_view() =~= before.push(rest));
        assert(split_lines(bytes@) =~= out.deep_view());
    } else {
        assert(bytes@.skip(start as int) =~= Seq::<u8>::empty());
        assert(split_lines(bytes@) =~= out.deep_view());
    }
    out
}

} // verus!
