//! Matching the records of an import against those of the previous import of
//! the same history, so that unchanged records keep their executions.

use vstd::prelude::*;

use crate::error::Error;
use crate::record::Record;

verus! {

/// The tokens of `tokens` whose flag in `changed` is false, in order.
pub open spec fn kept(tokens: Seq<Seq<u8>>, changed: Seq<bool>) -> Seq<Seq<u8>>
    decreases tokens.len(),
{
    if tokens.len() == 0 || changed.len() == 0 {
        seq![]
    } else {
        kept(tokens.drop_last(), changed.drop_last()) + if changed.last() {
            seq![]
        } else {
            seq![tokens.last()]
        }
    }
}

/// The number of true flags.
pub open spec fn count_true(flags: Seq<bool>) -> nat
    decreases flags.len(),
{
    if flags.len() == 0 {
        0
    } else {
        count_true(flags.drop_last()) + if flags.last() {
            1nat
        } else {
            0nat
        }
    }
}

/// `removed` and `added` form an edit script from `before` to `after`: one
/// flag per token, and the tokens that are neither removed nor added are the
/// same on both sides, in the same order.
pub open spec fn is_edit_script(
    before: Seq<Seq<u8>>,
    after: Seq<Seq<u8>>,
    removed: Seq<bool>,
    added: Seq<bool>,
) -> bool {
    &&& removed.len() == before.len()
    &&& added.len() == after.len()
    &&& kept(before, removed) == kept(after, added)
}

/// The length of the longest common prefix of `a` and `b`.
pub open spec fn common_prefix_len(a: Seq<Seq<u8>>, b: Seq<Seq<u8>>) -> nat
    decreases a.len(),
{
    if a.len() > 0 && b.len() > 0 && a[0] == b[0] {
        1 + common_prefix_len(a.drop_first(), b.drop_first())
    } else {
        0
    }
}

/// The length of the longest common suffix of `a` and `b`.
pub open spec fn common_suffix_len(a: Seq<Seq<u8>>, b: Seq<Seq<u8>>) -> nat
    decreases a.len(),
{
    if a.len() > 0 && b.len() > 0 && a.last() == b.last() {
        1 + common_suffix_len(a.drop_last(), b.drop_last())
    } else {
        0
    }
}

/// The flags leave untouched the longest common prefix of `before` and
/// `after` and, of what follows it on each side, the longest common suffix.
pub open spec fn keeps_common_ends(
    before: Seq<Seq<u8>>,
    after: Seq<Seq<u8>>,
    removed: Seq<bool>,
    added: Seq<bool>,
) -> bool {
    let p = common_prefix_len(before, after);
    let s = common_suffix_len(before.skip(p as int), after.skip(p as int));
    &&& forall|i: int|
        0 <= i < removed.len() && (i < p || i >= before.len() - s) ==> !#[trigger] removed[i]
    &&& forall|j: int|
        0 <= j < added.len() && (j < p || j >= after.len() - s) ==> !#[trigger] added[j]
}

/// What `imara_diff` computes: an edit script that keeps the common ends.
pub open spec fn is_diff(
    before: Seq<Seq<u8>>,
    after: Seq<Seq<u8>>,
    removed: Seq<bool>,
    added: Seq<bool>,
) -> bool {
    &&& is_edit_script(before, after, removed, added)
    &&& keeps_common_ends(before, after, removed, added)
}

/// The removal and addition flags that `imara_diff` computes with
/// `Algorithm::MyersMinimal` from `before` to `after`.
pub uninterp spec fn myers_diff(before: Seq<Seq<u8>>, after: Seq<Seq<u8>>) -> (
    Seq<bool>,
    Seq<bool>,
);

pub open spec fn previous_fingerprints(previous: Seq<(Vec<u8>, String)>) -> Seq<Seq<u8>> {
    previous.map_values(|p: (Vec<u8>, String)| p.0@)
}

pub open spec fn previous_ids(previous: Seq<(Vec<u8>, String)>) -> Seq<Seq<char>> {
    previous.map_values(|p: (Vec<u8>, String)| p.1@)
}

pub open spec fn record_fingerprints(records: Seq<Record>) -> Seq<Seq<u8>> {
    records.map_values(|r: Record| r.fingerprint@)
}

/// Interns the fingerprints of `previous` and `records` and diffs them with
/// `imara_diff::Diff::compute(Algorithm::MyersMinimal, ..)`, returning for
/// each previous record whether it was removed and for each current record
/// whether it was added.
///
/// The crate documents the result as an edit script from the first sequence
/// to the second, with its flags stored one per token. Before diffing,
/// `Diff::compute_with` strips the longest common prefix and then the
/// longest common suffix of what remains, leaving their flags false. The
/// diff of the middle (after the crate's pruning of frequent tokens) is
/// named by `myers_diff` and not otherwise stated: in particular it is not
/// stated to be minimal. The crate asserts that both sides have fewer than
/// `i32::MAX` tokens.
#[verifier::external_body]
pub(crate) fn diff_fingerprints(previous: &Vec<(Vec<u8>, String)>, records: &Vec<Record>) -> (r: (
    Vec<bool>,
    Vec<bool>,
))
    requires
        previous.len() < i32::MAX,
        records.len() < i32::MAX,
    ensures
        (r.0@, r.1@) == myers_diff(previous_fingerprints(previous@), record_fingerprints(records@)),
        is_diff(
            previous_fingerprints(previous@),
            record_fingerprints(records@),
            r.0@,
            r.1@,
        ),
{
    let mut input = imara_diff::InternedInput::default();
    input.reserve(previous.len() as u32, records.len() as u32);
    input.update_before(previous.iter().map(|p| p.0.as_slice()));
    input.update_after(records.iter().map(|r| r.fingerprint.as_slice()));
    let diff = imara_diff::Diff::compute(imara_diff::Algorithm::MyersMinimal, &input);
    let removed = (0..previous.len() as u32).map(|i| diff.is_removed(i)).collect();
    let added = (0..records.len() as u32).map(|i| diff.is_added(i)).collect();
    (removed, added)
}

/// The execution IDs given to the current records: walking both sides in
/// order, removed previous records are passed over, an added record gets
/// none (`None`), and any other record takes the ID of the next previous
/// record that is not removed.
pub open spec fn assign(
    ids: Seq<Seq<char>>,
    removed: Seq<bool>,
    added: Seq<bool>,
) -> Seq<Option<Seq<char>>>
    decreases removed.len() + added.len(),
{
    if added.len() == 0 {
        seq![]
    } else if removed.len() > 0 && removed[0] {
        assign(ids.drop_first(), removed.drop_first(), added)
    } else if added[0] {
        seq![None] + assign(ids, removed, added.drop_first())
    } else if removed.len() > 0 {
        seq![Some(ids[0])] + assign(ids.drop_first(), removed.drop_first(), added.drop_first())
    } else {
        seq![None] + assign(ids, removed, added.drop_first())
    }
}

/// The number of false flags.
pub open spec fn count_false(flags: Seq<bool>) -> nat {
    (flags.len() - count_true(flags)) as nat
}

pub proof fn lemma_count_true_bound(flags: Seq<bool>)
    ensures
        count_true(flags) <= flags.len(),
    decreases flags.len(),
{
    if flags.len() > 0 {
        lemma_count_true_bound(flags.drop_last());
    }
}

/// Counting from the front gives the same count as counting from the back.
pub proof fn lemma_count_true_front(flags: Seq<bool>)
    requires
        flags.len() > 0,
    ensures
        count_true(flags) == count_true(flags.drop_first()) + if flags[0] {
            1nat
        } else {
            0nat
        },
    decreases flags.len(),
{
    if flags.len() > 1 {
        lemma_count_true_front(flags.drop_last());
        assert(flags.drop_last().drop_first() =~= flags.drop_first().drop_last());
        assert(flags.drop_first().last() == flags.last());
        assert(flags.drop_last()[0] == flags[0]);
        assert(count_true(flags.drop_first()) == count_true(flags.drop_first().drop_last()) + if flags.last() {
            1nat
        } else {
            0nat
        });
    } else {
        assert(flags.drop_first().len() == 0);
        assert(flags.drop_last().len() == 0);
        assert(count_true(flags) == count_true(flags.drop_last()) + if flags.last() {
            1nat
        } else {
            0nat
        });
        assert(flags.last() == flags[0]);
    }
}

proof fn lemma_kept_len(tokens: Seq<Seq<u8>>, changed: Seq<bool>)
    requires
        tokens.len() == changed.len(),
    ensures
        kept(tokens, changed).len() == count_false(changed),
    decreases tokens.len(),
{
    lemma_count_true_bound(changed);
    if tokens.len() > 0 {
        lemma_kept_len(tokens.drop_last(), changed.drop_last());
        lemma_count_true_bound(changed.drop_last());
    }
}

/// An edit script leaves as many tokens on each side.
pub proof fn lemma_edit_script_aligned(
    before: Seq<Seq<u8>>,
    after: Seq<Seq<u8>>,
    removed: Seq<bool>,
    added: Seq<bool>,
)
    requires
        is_edit_script(before, after, removed, added),
    ensures
        count_false(removed) == count_false(added),
{
    lemma_kept_len(before, removed);
    lemma_kept_len(after, added);
}

/// The IDs that the current records take from the previous ones, given the
/// removal and addition flags of a diff between them.
pub fn assign_identifiers(
    previous: &Vec<(Vec<u8>, String)>,
    removed: &Vec<bool>,
    added: &Vec<bool>,
) -> (r: Vec<Option<String>>)
    requires
        removed.len() == previous.len(),
        count_false(removed@) == count_false(added@),
    ensures
        r.len() == added.len(),
        r@.map_values(|o: Option<String>| crate::execution::text_view(o)) == assign(
            previous_ids(previous@),
            removed@,
            added@,
        ),
{
    let ghost ids = previous_ids(previous@);
    let mut out: Vec<Option<String>> = Vec::new();
    let mut before: usize = 0;
    let mut after: usize = 0;
    proof {
        assert(ids.skip(0) =~= ids);
        assert(removed@.skip(0) =~= removed@);
        assert(added@.skip(0) =~= added@);
        lemma_count_true_bound(removed@);
        lemma_count_true_bound(added@);
    }
    while after < added.len()
        invariant
            before <= removed.len() == previous.len(),
            after <= added.len(),
            ids == previous_ids(previous@),
            out.len() == after,
            count_false(removed@.skip(before as int)) == count_false(added@.skip(after as int)),
            out@.map_values(|o: Option<String>| crate::execution::text_view(o)) + assign(
                ids.skip(before as int),
                removed@.skip(before as int),
                added@.skip(after as int),
            ) == assign(ids, removed@, added@),
        decreases added.len() - after,
    {
        while before < removed.len() && removed[before]
            invariant
                before <= removed.len() == previous.len(),
                after < added.len(),
                ids == previous_ids(previous@),
                out.len() == after,
                count_false(removed@.skip(before as int)) == count_false(
                    added@.skip(after as int),
                ),
                out@.map_values(|o: Option<String>| crate::execution::text_view(o)) + assign(
                    ids.skip(before as int),
                    removed@.skip(before as int),
                    added@.skip(after as int),
                ) == assign(ids, removed@, added@),
            decreases removed.len() - before,
        {
            proof {
                let r = removed@.skip(before as int);
                lemma_count_true_front(r);
                lemma_count_true_bound(r.drop_first());
                assert(r.drop_first() =~= removed@.skip(before + 1));
                assert(ids.skip(before as int).drop_first() =~= ids.skip(before + 1));
            }
            before += 1;
        }
        let ghost view_before = out@.map_values(|o: Option<String>| crate::execution::text_view(o));
        let ghost r = removed@.skip(before as int);
        let ghost a = added@.skip(after as int);
        proof {
            lemma_count_true_front(a);
            lemma_count_true_bound(a);
            lemma_count_true_bound(a.drop_first());
            lemma_count_true_bound(r);
            if r.len() > 0 {
                lemma_count_true_front(r);
                lemma_count_true_bound(r.drop_first());
            }
            assert(a.drop_first() =~= added@.skip(after + 1));
        }
        if added[after] {
            out.push(None);
            assert(out@.map_values(|o: Option<String>| crate::execution::text_view(o))
                =~= view_before.push(None));
        } else {
            assert(before < removed.len());
            let id = previous[before].1.clone();
            out.push(Some(id));
            proof {
                assert(r.drop_first() =~= removed@.skip(before + 1));
                assert(ids.skip(before as int).drop_first() =~= ids.skip(before + 1));
                assert(ids.skip(before as int)[0] == previous@[before as int].1@);
                assert(out@.map_values(|o: Option<String>| crate::execution::text_view(o))
                    =~= view_before.push(Some(previous@[before as int].1@)));
            }
            before += 1;
        }
        after += 1;
    }
    proof {
        assert(added@.skip(after as int) =~= Seq::<bool>::empty());
        assert(out@.map_values(|o: Option<String>| crate::execution::text_view(o)) =~= assign(
            ids,
            removed@,
            added@,
        ));
    }
    out
}

/// The number of records that get no ID.
pub open spec fn count_none(ids: Seq<Option<Seq<char>>>) -> nat
    decreases ids.len(),
{
    if ids.len() == 0 {
        0
    } else {
        count_none(ids.drop_first()) + if ids[0] is None {
            1nat
        } else {
            0nat
        }
    }
}

pub proof fn lemma_count_none_push(s: Seq<Option<Seq<char>>>, x: Option<Seq<char>>)
    ensures
        count_none(s.push(x)) == count_none(s) + if x is None {
            1nat
        } else {
            0nat
        },
    decreases s.len(),
{
    if s.len() > 0 {
        assert(s.push(x).drop_first() =~= s.drop_first().push(x));
        assert(s.push(x)[0] == s[0]);
        lemma_count_none_push(s.drop_first(), x);
    } else {
        assert(s.push(x).drop_first() =~= Seq::<Option<Seq<char>>>::empty());
        assert(s.push(x)[0] == x);
        assert(count_none(Seq::<Option<Seq<char>>>::empty()) == 0);
    }
}

/// When as many previous records are kept as current records, exactly the
/// added records get no ID: an import inserts one execution per addition.
pub proof fn new_records_are_the_additions(
    ids: Seq<Seq<char>>,
    removed: Seq<bool>,
    added: Seq<bool>,
)
    requires
        ids.len() == removed.len(),
        count_false(removed) == count_false(added),
    ensures
        count_none(assign(ids, removed, added)) == count_true(added),
    decreases removed.len() + added.len(),
{
    lemma_count_true_bound(removed);
    lemma_count_true_bound(added);
    if added.len() == 0 {
    } else {
        lemma_count_true_front(added);
        lemma_count_true_bound(added.drop_first());
        if removed.len() > 0 {
            lemma_count_true_front(removed);
            lemma_count_true_bound(removed.drop_first());
        }
        let result = assign(ids, removed, added);
        if removed.len() > 0 && removed[0] {
            new_records_are_the_additions(ids.drop_first(), removed.drop_first(), added);
        } else if added[0] {
            new_records_are_the_additions(ids, removed, added.drop_first());
            assert(result.drop_first() =~= assign(ids, removed, added.drop_first()));
        } else if removed.len() > 0 {
            new_records_are_the_additions(
                ids.drop_first(),
                removed.drop_first(),
                added.drop_first(),
            );
            assert(result.drop_first() =~= assign(
                ids.drop_first(),
                removed.drop_first(),
                added.drop_first(),
            ));
        } else {
            assert(false);
        }
    }
}

pub open spec fn all_false(n: nat) -> Seq<bool> {
    Seq::new(n, |i: int| false)
}

proof fn lemma_assign_unchanged(ids: Seq<Seq<char>>, n: nat)
    requires
        ids.len() == n,
    ensures
        assign(ids, all_false(n), all_false(n)) == ids.map_values(|id: Seq<char>| Some(id)),
    decreases n,
{
    if n > 0 {
        let m = (n - 1) as nat;
        assert(all_false(n).drop_first() =~= all_false(m));
        lemma_assign_unchanged(ids.drop_first(), m);
        assert(assign(ids, all_false(n), all_false(n)) =~= ids.map_values(
            |id: Seq<char>| Some(id),
        ));
    }
}

/// The longest common prefix is at most as long as either side.
proof fn lemma_prefix_bound(a: Seq<Seq<u8>>, b: Seq<Seq<u8>>)
    ensures
        common_prefix_len(a, b) <= a.len(),
        common_prefix_len(a, b) <= b.len(),
    decreases a.len(),
{
    if a.len() > 0 && b.len() > 0 && a[0] == b[0] {
        lemma_prefix_bound(a.drop_first(), b.drop_first());
    }
}

/// Sides that agree on their first `k` tokens have a common prefix of at
/// least `k`.
proof fn lemma_prefix_at_least(a: Seq<Seq<u8>>, b: Seq<Seq<u8>>, k: nat)
    requires
        k <= a.len(),
        k <= b.len(),
        forall|i: int| 0 <= i < k ==> a[i] == b[i],
    ensures
        common_prefix_len(a, b) >= k,
    decreases k,
{
    if k > 0 {
        assert(a[0] == b[0]);
        assert forall|i: int| 0 <= i < k - 1 implies a.drop_first()[i] == b.drop_first()[i] by {
            assert(a[i + 1] == b[i + 1]);
        }
        lemma_prefix_at_least(a.drop_first(), b.drop_first(), (k - 1) as nat);
    }
}

/// The token `i` places before the last one.
spec fn from_end(s: Seq<Seq<u8>>, i: int) -> Seq<u8> {
    s[s.len() - 1 - i]
}

/// Sides that agree on their last `k` tokens have a common suffix of at
/// least `k`.
proof fn lemma_suffix_at_least(a: Seq<Seq<u8>>, b: Seq<Seq<u8>>, k: nat)
    requires
        k <= a.len(),
        k <= b.len(),
        forall|i: int| 0 <= i < k ==> #[trigger] from_end(a, i) == from_end(b, i),
    ensures
        common_suffix_len(a, b) >= k,
    decreases k,
{
    if k > 0 {
        assert(from_end(a, 0) == from_end(b, 0));
        assert forall|i: int| 0 <= i < k - 1 implies #[trigger] from_end(a.drop_last(), i)
            == from_end(b.drop_last(), i) by {
            assert(from_end(a, i + 1) == from_end(b, i + 1));
        }
        lemma_suffix_at_least(a.drop_last(), b.drop_last(), (k - 1) as nat);
    }
}

/// Flags that are all false.
proof fn lemma_none_set(flags: Seq<bool>)
    requires
        forall|i: int| 0 <= i < flags.len() ==> !flags[i],
    ensures
        flags == all_false(flags.len()),
        count_true(flags) == 0,
{
    assert(flags =~= all_false(flags.len()));
    lemma_all_false_count(flags.len());
}

proof fn lemma_all_false_count(n: nat)
    ensures
        count_true(all_false(n)) == 0,
    decreases n,
{
    if n > 0 {
        assert(all_false(n).drop_last() =~= all_false((n - 1) as nat));
        lemma_all_false_count((n - 1) as nat);
    }
}

/// Importing a history whose fingerprints are those of the previous import,
/// in the same order, gives every record the ID it had: nothing is new.
pub proof fn unchanged_history_keeps_every_id(
    fingerprints: Seq<Seq<u8>>,
    ids: Seq<Seq<char>>,
    removed: Seq<bool>,
    added: Seq<bool>,
)
    requires
        ids.len() == fingerprints.len(),
        is_diff(fingerprints, fingerprints, removed, added),
    ensures
        assign(ids, removed, added) == ids.map_values(|id: Seq<char>| Some(id)),
        count_true(added) == 0,
{
    let n = fingerprints.len();
    lemma_prefix_bound(fingerprints, fingerprints);
    lemma_prefix_at_least(fingerprints, fingerprints, n);
    assert forall|i: int| 0 <= i < removed.len() implies !removed[i] by {}
    assert forall|i: int| 0 <= i < added.len() implies !added[i] by {}
    lemma_none_set(removed);
    lemma_none_set(added);
    lemma_assign_unchanged(ids, n);
}

/// The IDs of the previous records that `removed` does not remove, in order.
pub open spec fn kept_ids(ids: Seq<Seq<char>>, removed: Seq<bool>) -> Seq<Seq<char>>
    decreases ids.len(),
{
    if ids.len() == 0 || removed.len() == 0 {
        seq![]
    } else if removed[0] {
        kept_ids(ids.drop_first(), removed.drop_first())
    } else {
        seq![ids[0]] + kept_ids(ids.drop_first(), removed.drop_first())
    }
}

/// Reading kept tokens from the front.
proof fn lemma_kept_front(tokens: Seq<Seq<u8>>, changed: Seq<bool>)
    requires
        tokens.len() == changed.len(),
        tokens.len() > 0,
    ensures
        kept(tokens, changed) == (if changed[0] {
            Seq::<Seq<u8>>::empty()
        } else {
            seq![tokens[0]]
        }) + kept(tokens.drop_first(), changed.drop_first()),
    decreases tokens.len(),
{
    if tokens.len() == 1 {
        assert(tokens.drop_first().len() == 0);
        assert(kept(tokens.drop_last(), changed.drop_last()) == Seq::<Seq<u8>>::empty());
        assert(tokens.last() == tokens[0]);
        assert(changed.last() == changed[0]);
        assert(kept(tokens, changed) =~= (if changed[0] {
            Seq::<Seq<u8>>::empty()
        } else {
            seq![tokens[0]]
        }) + kept(tokens.drop_first(), changed.drop_first()));
    } else {
        lemma_kept_front(tokens.drop_last(), changed.drop_last());
        assert(tokens.drop_last().drop_first() =~= tokens.drop_first().drop_last());
        assert(changed.drop_last().drop_first() =~= changed.drop_first().drop_last());
        assert(tokens.drop_first().last() == tokens.last());
        assert(changed.drop_first().last() == changed.last());
        assert(tokens.drop_last()[0] == tokens[0]);
        assert(changed.drop_last()[0] == changed[0]);
        assert(kept(tokens, changed) =~= (if changed[0] {
            Seq::<Seq<u8>>::empty()
        } else {
            seq![tokens[0]]
        }) + kept(tokens.drop_first(), changed.drop_first()));
    }
}

proof fn lemma_assign_len(ids: Seq<Seq<char>>, removed: Seq<bool>, added: Seq<bool>)
    ensures
        assign(ids, removed, added).len() == added.len(),
    decreases removed.len() + added.len(),
{
    if added.len() == 0 {
    } else if removed.len() > 0 && removed[0] {
        lemma_assign_len(ids.drop_first(), removed.drop_first(), added);
    } else if added[0] {
        lemma_assign_len(ids, removed, added.drop_first());
    } else if removed.len() > 0 {
        lemma_assign_len(ids.drop_first(), removed.drop_first(), added.drop_first());
    } else {
        lemma_assign_len(ids, removed, added.drop_first());
    }
}

/// Every ID handed to a current record is that of a previous record.
pub open spec fn takes_ids_of_equal_records(
    before: Seq<Seq<u8>>,
    after: Seq<Seq<u8>>,
    ids: Seq<Seq<char>>,
    assigned: Seq<Option<Seq<char>>>,
) -> bool {
    forall|j: int|
        0 <= j < assigned.len() && #[trigger] assigned[j] is Some ==> exists|i: int|
            0 <= i < before.len() && assigned[j] == Some(ids[i]) && before[i] == after[j]
}

/// Through an edit script, a current record only ever takes the ID of a
/// previous record with the same fingerprint.
pub proof fn ids_go_to_equal_fingerprints(
    before: Seq<Seq<u8>>,
    after: Seq<Seq<u8>>,
    ids: Seq<Seq<char>>,
    removed: Seq<bool>,
    added: Seq<bool>,
)
    requires
        is_edit_script(before, after, removed, added),
        ids.len() == before.len(),
    ensures
        takes_ids_of_equal_records(before, after, ids, assign(ids, removed, added)),
    decreases removed.len() + added.len(),
{
    let result = assign(ids, removed, added);
    lemma_assign_len(ids, removed, added);
    if added.len() == 0 {
    } else if removed.len() > 0 && removed[0] {
        lemma_kept_front(before, removed);
        ids_go_to_equal_fingerprints(
            before.drop_first(),
            after,
            ids.drop_first(),
            removed.drop_first(),
            added,
        );
        assert forall|j: int| 0 <= j < result.len() && #[trigger] result[j] is Some implies exists|
            i: int,
        | 0 <= i < before.len() && result[j] == Some(ids[i]) && before[i] == after[j] by {
            let i = choose|i: int|
                0 <= i < before.drop_first().len() && result[j] == Some(ids.drop_first()[i])
                    && before.drop_first()[i] == after[j];
            assert(result[j] == Some(ids[i + 1]) && before[i + 1] == after[j]);
        }
    } else if added[0] {
        lemma_kept_front(after, added);
        let rest = assign(ids, removed, added.drop_first());
        ids_go_to_equal_fingerprints(before, after.drop_first(), ids, removed, added.drop_first());
        assert(result =~= seq![None] + rest);
        assert forall|j: int| 0 <= j < result.len() && #[trigger] result[j] is Some implies exists|
            i: int,
        | 0 <= i < before.len() && result[j] == Some(ids[i]) && before[i] == after[j] by {
            assert(j > 0);
            assert(result[j] == rest[j - 1]);
            assert(rest[j - 1] is Some);
            let i = choose|i: int|
                0 <= i < before.len() && rest[j - 1] == Some(ids[i]) && before[i]
                    == after.drop_first()[j - 1];
            assert(after.drop_first()[j - 1] == after[j]);
            assert(before[i] == after[j]);
        }
    } else if removed.len() > 0 {
        lemma_kept_front(before, removed);
        lemma_kept_front(after, added);
        let k = kept(before, removed);
        assert(k[0] == before[0]);
        assert(k[0] == after[0]);
        assert(kept(before.drop_first(), removed.drop_first()) =~= k.drop_first());
        assert(kept(after.drop_first(), added.drop_first()) =~= k.drop_first());
        let rest = assign(ids.drop_first(), removed.drop_first(), added.drop_first());
        ids_go_to_equal_fingerprints(
            before.drop_first(),
            after.drop_first(),
            ids.drop_first(),
            removed.drop_first(),
            added.drop_first(),
        );
        assert(result =~= seq![Some(ids[0])] + rest);
        assert forall|j: int| 0 <= j < result.len() && #[trigger] result[j] is Some implies exists|
            i: int,
        | 0 <= i < before.len() && result[j] == Some(ids[i]) && before[i] == after[j] by {
            if j == 0 {
                assert(result[0] == Some(ids[0]) && before[0] == after[0]);
            } else {
                assert(result[j] == rest[j - 1]);
                assert(rest[j - 1] is Some);
                assert(after.drop_first()[j - 1] == after[j]);
                let i = choose|i: int|
                    0 <= i < before.drop_first().len() && rest[j - 1] == Some(
                        ids.drop_first()[i],
                    ) && before.drop_first()[i] == after.drop_first()[j - 1];
                assert(result[j] == Some(ids[i + 1]) && before[i + 1] == after[j]);
            }
        }
    } else {
        lemma_kept_front(after, added);
        assert(kept(before, removed) =~= Seq::<Seq<u8>>::empty());
        assert(kept(after, added).len() > 0);
    }
}

/// For each current token, the index (counted from `offset`) of the previous
/// token it is matched with, or `None` for an added one, walking both sides
/// as [`assign`] does.
pub open spec fn matching(removed: Seq<bool>, added: Seq<bool>, offset: int) -> Seq<Option<int>>
    decreases removed.len() + added.len(),
{
    if added.len() == 0 {
        seq![]
    } else if removed.len() > 0 && removed[0] {
        matching(removed.drop_first(), added, offset + 1)
    } else if added[0] {
        seq![None] + matching(removed, added.drop_first(), offset)
    } else if removed.len() > 0 {
        seq![Some(offset)] + matching(removed.drop_first(), added.drop_first(), offset + 1)
    } else {
        seq![None] + matching(removed, added.drop_first(), offset)
    }
}

/// Through an edit script, each current record that keeps an ID is matched
/// with a previous record of the same fingerprint whose ID it takes, and the
/// matched previous records come in the same order as the current ones: no
/// previous record is matched twice.
pub proof fn matches_keep_order(
    before: Seq<Seq<u8>>,
    after: Seq<Seq<u8>>,
    ids: Seq<Seq<char>>,
    removed: Seq<bool>,
    added: Seq<bool>,
    offset: int,
)
    requires
        is_edit_script(before, after, removed, added),
        ids.len() == before.len(),
    ensures
        matching(removed, added, offset).len() == after.len(),
        forall|j: int|
            0 <= j < after.len() && #[trigger] matching(removed, added, offset)[j] is Some ==> {
                let i = matching(removed, added, offset)[j]->0;
                &&& offset <= i < offset + before.len()
                &&& before[i - offset] == after[j]
                &&& assign(ids, removed, added)[j] == Some(ids[i - offset])
            },
        forall|j1: int, j2: int|
            0 <= j1 < j2 < after.len() && #[trigger] matching(removed, added, offset)[j1] is Some
                && #[trigger] matching(removed, added, offset)[j2] is Some ==> matching(
                removed,
                added,
                offset,
            )[j1]->0 < matching(removed, added, offset)[j2]->0,
    decreases removed.len() + added.len(),
{
    let m = matching(removed, added, offset);
    let a = assign(ids, removed, added);
    lemma_assign_len(ids, removed, added);
    if added.len() == 0 {
    } else if removed.len() > 0 && removed[0] {
        lemma_kept_front(before, removed);
        matches_keep_order(
            before.drop_first(),
            after,
            ids.drop_first(),
            removed.drop_first(),
            added,
            offset + 1,
        );
        assert forall|j: int| 0 <= j < after.len() && #[trigger] m[j] is Some implies {
            let i = m[j]->0;
            &&& offset <= i < offset + before.len()
            &&& before[i - offset] == after[j]
            &&& a[j] == Some(ids[i - offset])
        } by {
            let i = m[j]->0;
            assert(before.drop_first()[i - (offset + 1)] == before[i - offset]);
            assert(ids.drop_first()[i - (offset + 1)] == ids[i - offset]);
        }
    } else if added[0] {
        lemma_kept_front(after, added);
        let rest = matching(removed, added.drop_first(), offset);
        matches_keep_order(before, after.drop_first(), ids, removed, added.drop_first(), offset);
        assert(m =~= seq![None] + rest);
        assert(a =~= seq![None] + assign(ids, removed, added.drop_first()));
        assert forall|j: int| 0 <= j < after.len() && #[trigger] m[j] is Some implies {
            let i = m[j]->0;
            &&& offset <= i < offset + before.len()
            &&& before[i - offset] == after[j]
            &&& a[j] == Some(ids[i - offset])
        } by {
            assert(j > 0);
            assert(m[j] == rest[j - 1]);
            assert(rest[j - 1] is Some);
            assert(after.drop_first()[j - 1] == after[j]);
            assert(a[j] == assign(ids, removed, added.drop_first())[j - 1]);
        }
        assert forall|j1: int, j2: int|
            0 <= j1 < j2 < after.len() && #[trigger] m[j1] is Some && #[trigger] m[j2] is Some implies m[j1]->0
            < m[j2]->0 by {
            assert(m[j1] == rest[j1 - 1]);
            assert(m[j2] == rest[j2 - 1]);
            assert(rest[j1 - 1] is Some && rest[j2 - 1] is Some);
        }
    } else if removed.len() > 0 {
        lemma_kept_front(before, removed);
        lemma_kept_front(after, added);
        let k = kept(before, removed);
        assert(k[0] == before[0]);
        assert(k[0] == after[0]);
        assert(kept(before.drop_first(), removed.drop_first()) =~= k.drop_first());
        assert(kept(after.drop_first(), added.drop_first()) =~= k.drop_first());
        let rest = matching(removed.drop_first(), added.drop_first(), offset + 1);
        let arest = assign(ids.drop_first(), removed.drop_first(), added.drop_first());
        matches_keep_order(
            before.drop_first(),
            after.drop_first(),
            ids.drop_first(),
            removed.drop_first(),
            added.drop_first(),
            offset + 1,
        );
        assert(m =~= seq![Some(offset)] + rest);
        assert(a =~= seq![Some(ids[0])] + arest);
        assert forall|j: int| 0 <= j < after.len() && #[trigger] m[j] is Some implies {
            let i = m[j]->0;
            &&& offset <= i < offset + before.len()
            &&& before[i - offset] == after[j]
            &&& a[j] == Some(ids[i - offset])
        } by {
            if j > 0 {
                let i = m[j]->0;
                assert(m[j] == rest[j - 1]);
                assert(rest[j - 1] is Some);
                assert(after.drop_first()[j - 1] == after[j]);
                assert(before.drop_first()[i - (offset + 1)] == before[i - offset]);
                assert(ids.drop_first()[i - (offset + 1)] == ids[i - offset]);
                assert(a[j] == arest[j - 1]);
            }
        }
        assert forall|j1: int, j2: int|
            0 <= j1 < j2 < after.len() && #[trigger] m[j1] is Some && #[trigger] m[j2] is Some implies m[j1]->0
            < m[j2]->0 by {
            assert(m[j2] == rest[j2 - 1]);
            assert(rest[j2 - 1] is Some);
            if j1 > 0 {
                assert(m[j1] == rest[j1 - 1]);
                assert(rest[j1 - 1] is Some);
            }
        }
    } else {
        lemma_kept_front(after, added);
        assert(kept(before, removed) =~= Seq::<Seq<u8>>::empty());
        assert(kept(after, added).len() > 0);
    }
}

/// The IDs handed out, in order.
pub open spec fn handed_out(assigned: Seq<Option<Seq<char>>>) -> Seq<Seq<char>>
    decreases assigned.len(),
{
    if assigned.len() == 0 {
        seq![]
    } else {
        match assigned[0] {
            Some(id) => seq![id] + handed_out(assigned.drop_first()),
            None => handed_out(assigned.drop_first()),
        }
    }
}

/// When as many previous records are kept as current records, the current
/// records that the diff keeps receive, in order, the IDs of the previous
/// records that it keeps, and the added ones receive none; a diff keeps
/// records whose fingerprints are equal, so an execution is only ever carried
/// over to a record with the same fingerprint, in the same order.
pub proof fn kept_records_keep_their_ids(
    ids: Seq<Seq<char>>,
    removed: Seq<bool>,
    added: Seq<bool>,
)
    requires
        ids.len() == removed.len(),
        count_false(removed) == count_false(added),
    ensures
        assign(ids, removed, added).len() == added.len(),
        forall|j: int|
            0 <= j < added.len() ==> (#[trigger] assign(ids, removed, added)[j] is None) == added[j],
        handed_out(assign(ids, removed, added)) == kept_ids(ids, removed),
    decreases removed.len() + added.len(),
{
    lemma_count_true_bound(removed);
    lemma_count_true_bound(added);
    let result = assign(ids, removed, added);
    if added.len() == 0 {
        if removed.len() > 0 {
            lemma_all_removed(ids, removed);
        }
    } else {
        lemma_count_true_front(added);
        lemma_count_true_bound(added.drop_first());
        if removed.len() > 0 {
            lemma_count_true_front(removed);
            lemma_count_true_bound(removed.drop_first());
        }
        if removed.len() > 0 && removed[0] {
            kept_records_keep_their_ids(ids.drop_first(), removed.drop_first(), added);
        } else if added[0] {
            let rest = assign(ids, removed, added.drop_first());
            kept_records_keep_their_ids(ids, removed, added.drop_first());
            assert(result =~= seq![None] + rest);
            assert(result.drop_first() =~= rest);
            assert forall|j: int| 0 <= j < added.len() implies (#[trigger] result[j] is None)
                == added[j] by {
                if j > 0 {
                    assert(result[j] == rest[j - 1]);
                    assert(added[j] == added.drop_first()[j - 1]);
                }
            }
        } else if removed.len() > 0 {
            let rest = assign(ids.drop_first(), removed.drop_first(), added.drop_first());
            kept_records_keep_their_ids(ids.drop_first(), removed.drop_first(), added.drop_first());
            assert(result =~= seq![Some(ids[0])] + rest);
            assert(result.drop_first() =~= rest);
            assert forall|j: int| 0 <= j < added.len() implies (#[trigger] result[j] is None)
                == added[j] by {
                if j > 0 {
                    assert(result[j] == rest[j - 1]);
                    assert(added[j] == added.drop_first()[j - 1]);
                }
            }
        } else {
            assert(false);
        }
    }
}

/// With no current records left, and as many kept on each side, every
/// remaining previous record is removed.
proof fn lemma_all_removed(ids: Seq<Seq<char>>, removed: Seq<bool>)
    requires
        ids.len() == removed.len(),
        count_false(removed) == 0,
    ensures
        kept_ids(ids, removed) == Seq::<Seq<char>>::empty(),
    decreases removed.len(),
{
    lemma_count_true_bound(removed);
    if removed.len() > 0 {
        lemma_count_true_front(removed);
        lemma_count_true_bound(removed.drop_first());
        lemma_all_removed(ids.drop_first(), removed.drop_first());
    }
}

/// When a history only grows at its end, the diff removes nothing and adds
/// exactly the appended records: an import of it inserts one execution per
/// appended record and no other.
pub proof fn appended_records_are_new(
    before: Seq<Seq<u8>>,
    appended: Seq<Seq<u8>>,
    removed: Seq<bool>,
    added: Seq<bool>,
)
    requires
        is_diff(before, before + appended, removed, added),
    ensures
        count_true(removed) == 0,
        count_true(added) == appended.len(),
{
    let after = before + appended;
    let n = before.len();
    lemma_prefix_bound(before, after);
    lemma_prefix_at_least(before, after, n);
    assert forall|i: int| 0 <= i < removed.len() implies !removed[i] by {}
    lemma_none_set(removed);
    lemma_edit_script_aligned(before, after, removed, added);
    lemma_count_true_bound(added);
}

/// When a history lost records at its start or at its end and kept the rest,
/// the diff adds nothing: re-importing such a history inserts no execution,
/// and the kept records keep theirs.
pub proof fn truncated_history_adds_nothing(
    before: Seq<Seq<u8>>,
    start: int,
    end: int,
    removed: Seq<bool>,
    added: Seq<bool>,
)
    requires
        0 <= start <= end <= before.len(),
        start == 0 || end == before.len(),
        is_diff(before, before.subrange(start, end), removed, added),
    ensures
        count_true(added) == 0,
        count_true(removed) == before.len() - (end - start),
{
    let after = before.subrange(start, end);
    let n = before.len();
    let p = common_prefix_len(before, after);
    lemma_prefix_bound(before, after);
    if start == 0 {
        lemma_prefix_at_least(before, after, after.len());
        assert forall|j: int| 0 <= j < added.len() implies !added[j] by {}
    } else {
        let b = before.skip(p as int);
        let a = after.skip(p as int);
        let k = a.len();
        assert forall|i: int| 0 <= i < k implies #[trigger] from_end(b, i) == from_end(a, i) by {
            assert(b[b.len() - 1 - i] == before[n - 1 - i]);
            assert(a[a.len() - 1 - i] == after[after.len() - 1 - i]);
        }
        lemma_suffix_at_least(b, a, k);
        assert forall|j: int| 0 <= j < added.len() implies !added[j] by {}
    }
    lemma_none_set(added);
    lemma_edit_script_aligned(before, after, removed, added);
    lemma_count_true_bound(removed);
}

} // verus!
