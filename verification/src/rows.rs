//! What the database's queries give back, once read: the rows up to the
//! first error, and what each query makes of them.

use vstd::prelude::*;

use crate::error::Error;
use crate::execution::Execution;
use crate::sqlite::{is_uuid, parses_as_uuid, row_error_is_sqlite};

verus! {

/// The values of `rows` before the first error, and that error if there is
/// one.
pub open spec fn until_error<T>(rows: Seq<Result<T, Error>>) -> (Seq<T>, Option<Error>)
    decreases rows.len(),
{
    if rows.len() == 0 {
        (seq![], None)
    } else {
        match rows[0] {
            Err(e) => (seq![], Some(e)),
            Ok(x) => {
                let (rest, error) = until_error(rows.drop_first());
                (seq![x] + rest, error)
            },
        }
    }
}

/// The rows of a query of executions: in order, each with an ID that parses
/// as a UUID; the first row that is an error, or whose ID does not parse,
/// ends them with that error.
pub open spec fn checked_executions(rows: Seq<Result<(String, Execution), Error>>) -> Result<
    Seq<(String, Execution)>,
    Error,
>
    decreases rows.len(),
{
    if rows.len() == 0 {
        Ok(seq![])
    } else {
        match rows[0] {
            Err(e) => Err(e),
            Ok(row) => if !parses_as_uuid(row.0@) {
                Err(Error::InvalidExecutionId { id: row.0 })
            } else {
                match checked_executions(rows.drop_first()) {
                    Ok(rest) => Ok(seq![row] + rest),
                    Err(e) => Err(e),
                }
            },
        }
    }
}

/// Checked rows are all the rows, and their IDs all parse as UUIDs.
pub proof fn lemma_checked_executions(rows: Seq<Result<(String, Execution), Error>>)
    ensures
        checked_executions(rows) matches Ok(v) ==> v.len() == rows.len() && forall|i: int|
            0 <= i < v.len() ==> parses_as_uuid(#[trigger] v[i].0@),
    decreases rows.len(),
{
    if rows.len() > 0 {
        lemma_checked_executions(rows.drop_first());
        if let Ok(v) = checked_executions(rows) {
            let rest = checked_executions(rows.drop_first())->Ok_0;
            assert(v == seq![rows[0]->Ok_0] + rest);
            assert forall|i: int| 0 <= i < v.len() implies parses_as_uuid(#[trigger] v[i].0@) by {
                if i > 0 {
                    assert(v[i] == rest[i - 1]);
                }
            }
        }
    }
}

/// When every error among `rows` is SQLite's, so is the one that ends them.
pub proof fn lemma_until_error_sqlite<T>(rows: Seq<Result<T, Error>>)
    requires
        forall|i: int| 0 <= i < rows.len() ==> row_error_is_sqlite(#[trigger] rows[i]),
    ensures
        until_error(rows).1 matches Some(e) ==> e is Sqlite,
    decreases rows.len(),
{
    if rows.len() > 0 {
        assert(row_error_is_sqlite(rows[0]));
        assert forall|i: int| 0 <= i < rows.drop_first().len() implies row_error_is_sqlite(
            #[trigger] rows.drop_first()[i],
        ) by {
            assert(row_error_is_sqlite(rows[i + 1]));
        }
        lemma_until_error_sqlite(rows.drop_first());
    }
}

/// When every error among `rows` is SQLite's, checking them fails only with
/// such an error or with an ID that is not a UUID.
pub proof fn lemma_checked_executions_errors(rows: Seq<Result<(String, Execution), Error>>)
    requires
        forall|i: int| 0 <= i < rows.len() ==> row_error_is_sqlite(#[trigger] rows[i]),
    ensures
        checked_executions(rows) matches Err(e) ==> e is Sqlite || e is InvalidExecutionId,
    decreases rows.len(),
{
    if rows.len() > 0 {
        assert(row_error_is_sqlite(rows[0]));
        assert forall|i: int| 0 <= i < rows.drop_first().len() implies row_error_is_sqlite(
            #[trigger] rows.drop_first()[i],
        ) by {
            assert(row_error_is_sqlite(rows[i + 1]));
        }
        lemma_checked_executions_errors(rows.drop_first());
    }
}

/// `rows`, last first.
pub(crate) fn reversed<T>(rows: Vec<T>) -> (r: Vec<T>)
    ensures
        r.len() == rows.len(),
        forall|j: int| 0 <= j < r.len() ==> #[trigger] r@[j] == rows@[rows.len() - 1 - j],
{
    let ghost original = rows@;
    let mut rest = rows;
    let mut out: Vec<T> = Vec::new();
    while rest.len() > 0
        invariant
            rest.len() + out.len() == original.len(),
            rest@ == original.take(rest.len() as int),
            forall|j: int|
                0 <= j < out.len() ==> #[trigger] out@[j] == original[original.len() - 1 - j],
        decreases rest.len(),
    {
        let ghost before = rest@;
        let x = rest.pop().unwrap();
        assert(before.drop_last() =~= original.take(rest.len() as int));
        out.push(x);
    }
    out
}

/// The values of `rows` before the first error, and that error.
pub fn split_at_error<T>(rows: Vec<Result<T, Error>>) -> (r: (Vec<T>, Option<Error>))
    ensures
        (r.0@, r.1) == until_error(rows@),
{
    let ghost original = rows@;
    let n = rows.len();
    let mut pending = reversed(rows);
    let mut out: Vec<T> = Vec::new();
    assert(original.skip(0) =~= original);
    assert(until_error(original).0 =~= out@ + until_error(original.skip(0)).0);
    while pending.len() > 0
        invariant
            pending.len() <= n == original.len(),
            original == rows@,
            forall|j: int|
                0 <= j < pending.len() ==> #[trigger] pending@[j] == original[n - 1 - j],
            until_error(original).0 == out@ + until_error(original.skip(n - pending.len())).0,
            until_error(original).1 == until_error(original.skip(n - pending.len())).1,
        decreases pending.len(),
    {
        let k = n - pending.len();
        let ghost rest = original.skip(k as int);
        let row = pending.pop().unwrap();
        assert(rest[0] == original[k as int]);
        match row {
            Err(e) => {
                assert(until_error(rest) == (Seq::<T>::empty(), Some(e)));
                assert(out@ + Seq::<T>::empty() =~= out@);
                return (out, Some(e));
            },
            Ok(x) => {
                assert(rest.drop_first() =~= original.skip(k + 1));
                let ghost before = out@;
                out.push(x);
                assert(out@ + until_error(original.skip(k + 1)).0 =~= before + (seq![x]
                    + until_error(original.skip(k + 1)).0));
            },
        }
    }
    assert(original.skip(n as int) =~= Seq::<Result<T, Error>>::empty());
    assert(out@ + Seq::<T>::empty() =~= out@);
    (out, None)
}

/// The rows of a query of executions, checked: in order, each ID a UUID.
pub fn check_executions(rows: Vec<Result<(String, Execution), Error>>) -> (r: Result<
    Vec<(String, Execution)>,
    Error,
>)
    ensures
        match checked_executions(rows@) {
            Ok(v) => r matches Ok(w) && w@ == v,
            Err(e) => r == Err::<Vec<(String, Execution)>, Error>(e),
        },
{
    let ghost original = rows@;
    let n = rows.len();
    let mut pending = reversed(rows);
    let mut out: Vec<(String, Execution)> = Vec::new();
    assert(original.skip(0) =~= original);
    while pending.len() > 0
        invariant
            pending.len() <= n == original.len(),
            original == rows@,
            forall|j: int|
                0 <= j < pending.len() ==> #[trigger] pending@[j] == original[n - 1 - j],
            checked_executions(original) == match checked_executions(
                original.skip(n - pending.len()),
            ) {
                Ok(rest) => Ok(out@ + rest),
                Err(e) => Err::<Seq<(String, Execution)>, Error>(e),
            },
        decreases pending.len(),
    {
        let k = n - pending.len();
        let ghost rest = original.skip(k as int);
        let row = pending.pop().unwrap();
        assert(rest[0] == original[k as int]);
        assert(rest.drop_first() =~= original.skip(k + 1));
        match row {
            Err(e) => {
                assert(checked_executions(rest) == Err::<Seq<(String, Execution)>, Error>(e));
                return Err(e);
            },
            Ok(pair) => {
                if !is_uuid(pair.0.as_str()) {
                    assert(checked_executions(rest) == Err::<Seq<(String, Execution)>, Error>(
                        Error::InvalidExecutionId { id: pair.0 },
                    ));
                    return Err(Error::InvalidExecutionId { id: pair.0 });
                }
                let ghost before = out@;
                out.push(pair);
                proof {
                    match checked_executions(original.skip(k + 1)) {
                        Ok(tail) => {
                            assert(out@ + tail =~= before + (seq![out@[before.len() as int]]
                                + tail));
                        },
                        Err(_) => {},
                    }
                }
            },
        }
    }
    assert(original.skip(n as int) =~= Seq::<Result<(String, Execution), Error>>::empty());
    assert(out@ + Seq::<(String, Execution)>::empty() =~= out@);
    Ok(out)
}

} // verus!
