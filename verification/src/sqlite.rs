//! Trusted bindings to `rusqlite` and `uuid`.
//!
//! What a query returns depends on what the database holds, so these
//! bindings promise nothing of their results unless the crate documents it.

use vstd::prelude::*;

use rusqlite::Error as SqliteError;

use crate::command::Command;
use crate::error::Error;
use crate::execution::Execution;
use vstd::utf8::{encode_utf8, encode_utf8_valid_utf8, valid_utf8};

verus! {

#[verifier::external_type_specification]
#[verifier::external_body]
pub struct ExConnection(rusqlite::Connection);

#[verifier::external_type_specification]
#[verifier::external_body]
pub struct ExTransaction<'conn>(rusqlite::Transaction<'conn>);

#[verifier::external_type_specification]
#[verifier::external_body]
pub struct ExRow<'stmt>(rusqlite::Row<'stmt>);

#[verifier::external_type_specification]
#[verifier::external_body]
pub struct ExSqliteError(SqliteError);

#[verifier::external_type_specification]
#[verifier::external_body]
pub struct ExValue(rusqlite::types::Value);

/// A value bound to a parameter of a statement.
#[derive(Debug)]
pub enum SqlValue {
    Null,
    Integer(i64),
    Text(String),
    Blob(Vec<u8>),
}

impl SqlValue {
    /// A copy of the value.
    pub fn duplicate(&self) -> (r: SqlValue)
        ensures
            r@ == self@,
    {
        match self {
            SqlValue::Null => SqlValue::Null,
            SqlValue::Integer(v) => SqlValue::Integer(*v),
            SqlValue::Text(v) => SqlValue::Text(v.clone()),
            SqlValue::Blob(v) => SqlValue::Blob(v.clone()),
        }
    }
}

/// The mathematical value of a [`SqlValue`].
pub enum SqlValueView {
    Null,
    Integer(i64),
    Text(Seq<char>),
    Blob(Seq<u8>),
}

impl View for SqlValue {
    type V = SqlValueView;

    open spec fn view(&self) -> SqlValueView {
        match self {
            SqlValue::Null => SqlValueView::Null,
            SqlValue::Integer(v) => SqlValueView::Integer(*v),
            SqlValue::Text(v) => SqlValueView::Text(v@),
            SqlValue::Blob(v) => SqlValueView::Blob(v@),
        }
    }
}

/// The `rusqlite::types::Value` that `to_sql` makes of a value.
pub uninterp spec fn sql_value(value: SqlValueView) -> rusqlite::types::Value;

/// The values of `values`, in order, as `rusqlite` takes them.
pub open spec fn sql_values(values: Seq<SqlValueView>) -> Seq<rusqlite::types::Value> {
    values.map_values(|v: SqlValueView| sql_value(v))
}

pub open spec fn values_view(values: Seq<SqlValue>) -> Seq<SqlValueView> {
    values.map_values(|v: SqlValue| v@)
}

/// The `rusqlite::types::Value` of the same variant, holding the same
/// (`Value::Null`, `Value::Integer`, `Value::Text`, `Value::Blob`). What that
/// value is inside is named by `sql_value`.
#[verifier::external_body]
pub(crate) fn to_sql(value: SqlValue) -> (r: rusqlite::types::Value)
    ensures
        r == sql_value(value@),
{
    match value {
        SqlValue::Null => rusqlite::types::Value::Null,
        SqlValue::Integer(v) => rusqlite::types::Value::Integer(v),
        SqlValue::Text(v) => rusqlite::types::Value::Text(v),
        SqlValue::Blob(v) => rusqlite::types::Value::Blob(v),
    }
}

/// The parameters of a statement, in order.
pub(crate) fn bind(values: Vec<SqlValue>) -> (r: Vec<rusqlite::types::Value>)
    ensures
        r@ == sql_values(values_view(values@)),
{
    let ghost original = values@;
    let n = values.len();
    let mut rest = values;
    let mut reversed: Vec<rusqlite::types::Value> = Vec::new();
    while rest.len() > 0
        invariant
            rest.len() + reversed.len() == n == original.len(),
            rest@ == original.take(rest.len() as int),
            forall|j: int|
                0 <= j < reversed.len() ==> #[trigger] reversed@[j] == sql_value(
                    original[n - 1 - j]@,
                ),
        decreases rest.len(),
    {
        let ghost before = rest@;
        let value = rest.pop().unwrap();
        assert(before.drop_last() =~= original.take(rest.len() as int));
        reversed.push(to_sql(value));
    }
    let mut out: Vec<rusqlite::types::Value> = Vec::new();
    while reversed.len() > 0
        invariant
            out.len() + reversed.len() == n == original.len(),
            forall|j: int|
                0 <= j < reversed.len() ==> #[trigger] reversed@[j] == sql_value(
                    original[n - 1 - j]@,
                ),
            forall|j: int| 0 <= j < out.len() ==> #[trigger] out@[j] == sql_value(original[j]@),
        decreases reversed.len(),
    {
        let value = reversed.pop().unwrap();
        out.push(value);
    }
    assert(out@ =~= sql_values(values_view(original)));
    out
}

/// A nullable text as a value: the text, or `NULL`.
pub open spec fn optional_text_value(value: Option<Seq<char>>) -> SqlValueView {
    match value {
        Some(t) => SqlValueView::Text(t),
        None => SqlValueView::Null,
    }
}

/// A nullable integer as a value: the integer, or `NULL`.
pub open spec fn optional_integer_value(value: Option<i64>) -> SqlValueView {
    match value {
        Some(v) => SqlValueView::Integer(v),
        None => SqlValueView::Null,
    }
}

/// The message of a SQLite error (its `Display`).
#[verifier::external_body]
pub(crate) fn error_message(error: &SqliteError) -> String {
    error.to_string()
}

/// `Connection::open`: opens (or creates) the database at `path`.
#[verifier::external_body]
pub(crate) fn open(path: &str) -> Result<rusqlite::Connection, SqliteError> {
    rusqlite::Connection::open(path)
}

/// `Connection::open_in_memory`.
#[verifier::external_body]
pub(crate) fn open_in_memory() -> Result<rusqlite::Connection, SqliteError> {
    rusqlite::Connection::open_in_memory()
}

/// `Connection::busy_timeout`, in milliseconds; rusqlite panics when they do
/// not fit in an `i32`.
#[verifier::external_body]
pub(crate) fn busy_timeout(connection: &rusqlite::Connection, milliseconds: u64) -> (r: Result<
    (),
    SqliteError,
>)
    requires
        milliseconds <= i32::MAX,
{
    connection.busy_timeout(std::time::Duration::from_millis(milliseconds))
}

/// `Connection::pragma_update` on the main schema.
#[verifier::external_body]
pub(crate) fn pragma_update(
    connection: &rusqlite::Connection,
    name: &str,
    value: rusqlite::types::Value,
) -> Result<(), SqliteError> {
    connection.pragma_update(None, name, value)
}

/// `Transaction::new_unchecked` with `TransactionBehavior::Immediate`: the
/// transaction is rolled back when dropped uncommitted.
#[verifier::external_body]
pub(crate) fn begin_immediate(connection: &rusqlite::Connection) -> Result<
    rusqlite::Transaction<'_>,
    SqliteError,
> {
    rusqlite::Transaction::new_unchecked(connection, rusqlite::TransactionBehavior::Immediate)
}

/// `Connection::unchecked_transaction`: a deferred transaction, rolled back
/// when dropped uncommitted.
#[verifier::external_body]
pub(crate) fn begin(connection: &rusqlite::Connection) -> Result<
    rusqlite::Transaction<'_>,
    SqliteError,
> {
    connection.unchecked_transaction()
}

/// `Transaction::commit`.
#[verifier::external_body]
pub(crate) fn commit(transaction: rusqlite::Transaction<'_>) -> Result<(), SqliteError> {
    transaction.commit()
}

/// `Connection::execute`: runs one statement with positional parameters and
/// returns the number of rows it changed.
#[verifier::external_body]
pub(crate) fn execute(
    connection: &rusqlite::Connection,
    sql: &str,
    parameters: &Vec<rusqlite::types::Value>,
) -> Result<usize, SqliteError> {
    connection.execute(sql, rusqlite::params_from_iter(parameters.iter()))
}

/// `Connection::execute_batch`: runs the statements of `sql`.
#[verifier::external_body]
pub(crate) fn execute_batch(connection: &rusqlite::Connection, sql: &str) -> Result<(), SqliteError> {
    connection.execute_batch(sql)
}

/// `Connection::query_row`, reading the first column of the first row as an integer.
#[verifier::external_body]
pub(crate) fn query_integer(
    connection: &rusqlite::Connection,
    sql: &str,
    parameters: &Vec<rusqlite::types::Value>,
) -> Result<i64, SqliteError> {
    connection.query_row(sql, rusqlite::params_from_iter(parameters.iter()), |row| row.get(0))
}

/// `Connection::query_row`, reading the first column of the first row as a boolean.
#[verifier::external_body]
pub(crate) fn query_flag(
    connection: &rusqlite::Connection,
    sql: &str,
    parameters: &Vec<rusqlite::types::Value>,
) -> Result<bool, SqliteError> {
    connection.query_row(sql, rusqlite::params_from_iter(parameters.iter()), |row| row.get(0))
}

/// `Connection::query_row`, reading the first row as a text and an integer.
#[verifier::external_body]
pub(crate) fn query_text_and_integer(
    connection: &rusqlite::Connection,
    sql: &str,
    parameters: &Vec<rusqlite::types::Value>,
) -> Result<(String, i64), SqliteError> {
    connection.query_row(
        sql,
        rusqlite::params_from_iter(parameters.iter()),
        |row| Ok((row.get(0)?, row.get(1)?)),
    )
}

/// Prepares `sql` (`Connection::prepare`) and maps each row it returns
/// (`Statement::query_map`) to an execution with [`execution_row`]; an error
/// in stepping to the next row is kept, with [`row_outcome`], as the last
/// entry (rusqlite ends the rows after it). Every error among the rows is a
/// SQLite error, as `execution_row` and `row_outcome` state.
#[verifier::external_body]
pub(crate) fn query_executions(
    connection: &rusqlite::Connection,
    sql: &str,
    parameters: &Vec<rusqlite::types::Value>,
) -> (r: Result<Vec<Result<(String, Execution), Error>>, SqliteError>)
    ensures
        r matches Ok(rows) ==> forall|i: int|
            0 <= i < rows.len() ==> row_error_is_sqlite(#[trigger] rows@[i]),
{
    let mut statement = connection.prepare(sql)?;
    let rows = statement.query_map(
        rusqlite::params_from_iter(parameters.iter()),
        |row| Ok(execution_row(row)),
    )?;
    Ok(rows.map(row_outcome).collect())
}

/// Prepares `sql` (`Connection::prepare`) and maps each row it returns
/// (`Statement::query_map`) to a command with [`command_row`]; an error in
/// stepping to the next row is kept, with [`row_outcome`], as the last entry
/// (rusqlite ends the rows after it). Every error among the rows is a SQLite
/// error, as `command_row` and `row_outcome` state.
#[verifier::external_body]
pub(crate) fn query_commands(
    connection: &rusqlite::Connection,
    sql: &str,
    parameters: &Vec<rusqlite::types::Value>,
) -> (r: Result<Vec<Result<Command, Error>>, SqliteError>)
    ensures
        r matches Ok(rows) ==> forall|i: int|
            0 <= i < rows.len() ==> row_error_is_sqlite(#[trigger] rows@[i]),
{
    let mut statement = connection.prepare(sql)?;
    let rows = statement.query_map(
        rusqlite::params_from_iter(parameters.iter()),
        |row| Ok(command_row(row)),
    )?;
    Ok(rows.map(row_outcome).collect())
}

/// Prepares `sql` (`Connection::prepare`) and maps each row it returns
/// (`Statement::query_map`) to a fingerprint and an execution ID with
/// [`source_record_row`]; an error in stepping to the next row is kept, with
/// [`row_outcome`], as the last entry (rusqlite ends the rows after it).
/// Every error among the rows is a SQLite error, as `source_record_row` and
/// `row_outcome` state.
#[verifier::external_body]
pub(crate) fn query_source_records(
    connection: &rusqlite::Connection,
    sql: &str,
    parameters: &Vec<rusqlite::types::Value>,
) -> (r: Result<Vec<Result<(Vec<u8>, String), Error>>, SqliteError>)
    ensures
        r matches Ok(rows) ==> forall|i: int|
            0 <= i < rows.len() ==> row_error_is_sqlite(#[trigger] rows@[i]),
{
    let mut statement = connection.prepare(sql)?;
    let rows = statement.query_map(
        rusqlite::params_from_iter(parameters.iter()),
        |row| Ok(source_record_row(row)),
    )?;
    Ok(rows.map(row_outcome).collect())
}

/// `Connection::backup` of the main database to the file at `path`.
#[verifier::external_body]
pub(crate) fn backup(connection: &rusqlite::Connection, path: &str) -> Result<(), SqliteError> {
    connection.backup(rusqlite::MAIN_DB, path, None::<fn(rusqlite::backup::Progress)>)
}

/// `Row::get` of a text column.
#[verifier::external_body]
pub(crate) fn get_text(row: &rusqlite::Row<'_>, column: &str) -> Result<String, SqliteError> {
    row.get(column)
}

/// `Row::get` of a nullable text column.
#[verifier::external_body]
pub(crate) fn get_optional_text(row: &rusqlite::Row<'_>, column: &str) -> Result<
    Option<String>,
    SqliteError,
> {
    row.get(column)
}

/// `Row::get` of an integer column.
#[verifier::external_body]
pub(crate) fn get_integer(row: &rusqlite::Row<'_>, column: &str) -> Result<i64, SqliteError> {
    row.get(column)
}

/// `Row::get` of a nullable integer column.
#[verifier::external_body]
pub(crate) fn get_optional_integer(row: &rusqlite::Row<'_>, column: &str) -> Result<
    Option<i64>,
    SqliteError,
> {
    row.get(column)
}

/// `Row::get` of a nullable 32-bit integer column; it fails when the value
/// does not fit in an `i32`.
#[verifier::external_body]
pub(crate) fn get_optional_i32(row: &rusqlite::Row<'_>, column: &str) -> Result<
    Option<i32>,
    SqliteError,
> {
    row.get(column)
}

/// `Row::get` of a blob column.
#[verifier::external_body]
pub(crate) fn get_blob(row: &rusqlite::Row<'_>, column: &str) -> Result<Vec<u8>, SqliteError> {
    row.get(column)
}

/// Whether `uuid::Uuid::parse_str` accepts the text.
pub uninterp spec fn parses_as_uuid(text: Seq<char>) -> bool;

/// `uuid::Uuid::parse_str(text).is_ok()`.
#[verifier::external_body]
pub(crate) fn is_uuid(text: &str) -> (r: bool)
    ensures
        r == parses_as_uuid(text@),
{
    uuid::Uuid::parse_str(text).is_ok()
}

/// A fresh random (version 4) UUID in its hyphenated lowercase form
/// (`uuid::Uuid::new_v4().to_string()`); `Uuid::parse_str` accepts that form.
/// Which UUID comes out is chance and not stated.
#[verifier::external_body]
pub(crate) fn new_uuid() -> (r: String)
    ensures
        parses_as_uuid(r@),
{
    uuid::Uuid::new_v4().to_string()
}

/// A row read is a value or an error of SQLite: the row mappers and
/// [`row_outcome`] give no other error.
pub open spec fn row_error_is_sqlite<T>(row: Result<T, Error>) -> bool {
    row matches Err(e) ==> e is Sqlite
}

/// A row as read: the mapped value, or the error of reading it or of stepping
/// to it.
pub(crate) fn row_outcome<T>(row: Result<Result<T, Error>, SqliteError>) -> (r: Result<T, Error>)
    ensures
        row matches Ok(inner) ==> r == inner,
        row is Err ==> r matches Err(Error::Sqlite { .. }),
{
    match row {
        Ok(inner) => inner,
        Err(error) => Err(sqlite_error(&error)),
    }
}

/// A library error carrying the message of a SQLite error.
pub fn sqlite_error(error: &SqliteError) -> (e: Error)
    ensures
        e is Sqlite,
{
    Error::Sqlite { message: error_message(error) }
}

/// A SQLite outcome with its error turned into a library error.
pub fn checked<T>(result: Result<T, SqliteError>) -> (r: Result<T, Error>)
    ensures
        result is Ok <==> r is Ok,
        result matches Ok(v) ==> r == Ok::<T, Error>(v),
        r matches Err(e) ==> e is Sqlite,
{
    match result {
        Ok(value) => Ok(value),
        Err(error) => Err(sqlite_error(&error)),
    }
}

/// A nullable text column as a value: the text, or `NULL`.
pub(crate) fn optional_text(value: &Option<String>) -> (r: SqlValue)
    ensures
        r@ == optional_text_value(crate::execution::text_view(*value)),
{
    match value {
        Some(v) => SqlValue::Text(v.clone()),
        None => SqlValue::Null,
    }
}

/// A nullable integer column as a value: the integer, or `NULL`.
pub(crate) fn optional_integer(value: Option<i64>) -> (r: SqlValue)
    ensures
        r@ == optional_integer_value(value),
{
    match value {
        Some(v) => SqlValue::Integer(v),
        None => SqlValue::Null,
    }
}

/// Reads an execution and its ID from a row of `executions`.
pub(crate) fn execution_row(row: &rusqlite::Row<'_>) -> (r: Result<(String, Execution), Error>)
    ensures
        r matches Err(e) ==> e is Sqlite,
        r matches Ok(v) ==> stored_directory(v.1.directory),
{
    let id = checked(get_text(row, "id"))?;
    let execution = Execution::from_row(row)?;
    Ok((id, execution))
}

/// Reads a command from a row of `commands`.
pub(crate) fn command_row(row: &rusqlite::Row<'_>) -> (r: Result<Command, Error>)
    ensures
        r matches Err(e) ==> e is Sqlite,
        r matches Ok(c) ==> stored_directory(c.directory),
{
    Command::from_row(row)
}

/// Reads a fingerprint and an execution ID from a row of `source_records`.
pub(crate) fn source_record_row(row: &rusqlite::Row<'_>) -> (r: Result<(Vec<u8>, String), Error>)
    ensures
        r matches Err(e) ==> e is Sqlite,
{
    let fingerprint = checked(get_blob(row, "fingerprint"))?;
    let id = checked(get_text(row, "execution_id"))?;
    Ok((fingerprint, id))
}

/// A value that can be read from a database row.
pub trait FromRow: Sized {
    /// Reads a value from `row`; fails when a column is missing or holds
    /// something of another type.
    fn from_row(row: &rusqlite::Row<'_>) -> Result<Self, Error>;
}

/// A directory as stored (a text, when there is one) turned back into the
/// bytes of a path: its UTF-8 encoding.
pub open spec fn stored_directory(directory: Option<Vec<u8>>) -> bool {
    directory matches Some(d) ==> valid_utf8(d@)
}

/// The UTF-8 bytes of a stored directory.
fn directory_bytes(directory: Option<String>) -> (r: Option<Vec<u8>>)
    ensures
        crate::execution::bytes_view(r) == match directory {
            Some(d) => Some(encode_utf8(d@)),
            None => None::<Seq<u8>>,
        },
        stored_directory(r),
{
    match directory {
        Some(d) => {
            proof {
                encode_utf8_valid_utf8(d@);
            }
            Some(crate::text::utf8_bytes(d.as_str()))
        },
        None => None,
    }
}

impl FromRow for Execution {
    fn from_row(row: &rusqlite::Row<'_>) -> (r: Result<Execution, Error>)
        ensures
            r matches Err(e) ==> e is Sqlite,
            r matches Ok(e) ==> stored_directory(e.directory),
    {
        Ok(
            Execution {
                command: checked(get_text(row, "command"))?,
                directory: directory_bytes(checked(get_optional_text(row, "directory"))?),
                duration_ns: checked(get_optional_integer(row, "duration_ns"))?,
                exit_code: checked(get_optional_i32(row, "exit_code"))?,
                hostname: checked(get_optional_text(row, "hostname"))?,
                session: checked(get_optional_text(row, "session"))?,
                shell: checked(get_optional_text(row, "shell"))?,
                timestamp_ns: checked(get_integer(row, "timestamp_ns"))?,
            },
        )
    }
}

impl FromRow for Command {
    fn from_row(row: &rusqlite::Row<'_>) -> (r: Result<Command, Error>)
        ensures
            r matches Err(e) ==> e is Sqlite,
            r matches Ok(c) ==> stored_directory(c.directory),
    {
        Ok(
            Command {
                directory: directory_bytes(checked(get_optional_text(row, "directory"))?),
                exit_code: checked(get_optional_i32(row, "exit_code"))?,
                text: checked(get_text(row, "text"))?,
                timestamp_ns: checked(get_integer(row, "timestamp_ns"))?,
            },
        )
    }
}

} // verus!
