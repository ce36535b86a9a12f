//! The history database: executions, the latest execution of each command,
//! and what each imported history held the last time it was imported.

use vstd::prelude::*;

use crate::command::Command;
use crate::diff::{
    assign, assign_identifiers, count_none, count_true, diff_fingerprints, lemma_edit_script_aligned,
    myers_diff, new_records_are_the_additions, previous_fingerprints, previous_ids,
    record_fingerprints,
};
use crate::error::Error;
use crate::execution::{text_view, Execution, ExecutionView};
use crate::lines::to_vec;
use crate::record::Record;
use crate::rows::{
    check_executions, lemma_checked_executions, lemma_checked_executions_errors,
    lemma_until_error_sqlite, reversed, split_at_error,
};
use crate::sqlite::{
    begin, begin_immediate, bind, busy_timeout, checked, commit, execute, execute_batch, is_uuid,
    new_uuid, optional_integer, optional_text, parses_as_uuid, pragma_update, query_commands,
    query_executions, query_flag, query_integer, query_source_records, query_text_and_integer,
    optional_integer_value, optional_text_value, to_sql, values_view, SqlValue, SqlValueView,
};

verus! {

/// The schema version that this library writes.
pub const SCHEMA_VERSION: usize = 1;

/// The schema of version 1.
pub const SCHEMA: &'static str = "
CREATE TABLE executions (
  id TEXT PRIMARY KEY NOT NULL,
  command TEXT NOT NULL,
  timestamp_ns INTEGER NOT NULL,
  duration_ns INTEGER CHECK (duration_ns IS NULL OR duration_ns >= 0),
  exit_code INTEGER,
  directory TEXT,
  session TEXT,
  hostname TEXT,
  shell TEXT
);

CREATE INDEX executions_timestamp ON executions (timestamp_ns DESC, id DESC);

CREATE INDEX executions_command ON executions (command, timestamp_ns DESC, id DESC);

CREATE TABLE commands (
  text TEXT PRIMARY KEY NOT NULL,
  timestamp_ns INTEGER NOT NULL,
  execution_id TEXT NOT NULL REFERENCES executions (id),
  exit_code INTEGER,
  directory TEXT
);

CREATE INDEX commands_timestamp
  ON commands (timestamp_ns DESC, execution_id DESC, text, exit_code, directory);

CREATE TRIGGER executions_insert AFTER INSERT ON executions
BEGIN
  INSERT INTO commands (text, timestamp_ns, execution_id, exit_code, directory)
  VALUES (new.command, new.timestamp_ns, new.id, new.exit_code, new.directory)
  ON CONFLICT (text) DO UPDATE SET
    timestamp_ns = excluded.timestamp_ns,
    execution_id = excluded.execution_id,
    exit_code = excluded.exit_code,
    directory = excluded.directory
  WHERE excluded.timestamp_ns > commands.timestamp_ns
    OR (excluded.timestamp_ns = commands.timestamp_ns
      AND excluded.execution_id > commands.execution_id);
END;

CREATE TRIGGER executions_update AFTER UPDATE ON executions
WHEN old.id IS NOT new.id
  OR old.command IS NOT new.command
  OR old.timestamp_ns IS NOT new.timestamp_ns
  OR old.exit_code IS NOT new.exit_code
  OR old.directory IS NOT new.directory
BEGIN
  DELETE FROM commands WHERE text = old.command OR text = new.command;
  INSERT INTO commands (text, timestamp_ns, execution_id, exit_code, directory)
    SELECT command, timestamp_ns, id, exit_code, directory
    FROM executions
    WHERE command = old.command
    ORDER BY timestamp_ns DESC, id DESC
    LIMIT 1;
  INSERT INTO commands (text, timestamp_ns, execution_id, exit_code, directory)
    SELECT command, timestamp_ns, id, exit_code, directory
    FROM executions
    WHERE command = new.command AND new.command IS NOT old.command
    ORDER BY timestamp_ns DESC, id DESC
    LIMIT 1;
END;

CREATE TRIGGER executions_delete AFTER DELETE ON executions
BEGIN
  DELETE FROM commands WHERE text = old.command AND execution_id = old.id;
  INSERT INTO commands (text, timestamp_ns, execution_id, exit_code, directory)
    SELECT command, timestamp_ns, id, exit_code, directory
    FROM executions
    WHERE command = old.command
      AND NOT EXISTS (SELECT 1 FROM commands WHERE text = old.command)
    ORDER BY timestamp_ns DESC, id DESC
    LIMIT 1;
END;

CREATE TABLE import_sources (
  id TEXT PRIMARY KEY NOT NULL,
  format TEXT NOT NULL,
  path BLOB NOT NULL,
  generation INTEGER NOT NULL,
  UNIQUE (format, path)
);

CREATE TABLE source_records (
  source_id TEXT NOT NULL REFERENCES import_sources (id) ON DELETE CASCADE,
  position INTEGER NOT NULL,
  fingerprint BLOB NOT NULL,
  execution_id TEXT NOT NULL,
  PRIMARY KEY (source_id, position)
);
";

/// Progress of an import: records scanned so far, and how many of them were new.
#[derive(Clone, Copy, Debug, Default, PartialEq, Eq)]
pub struct Tally {
    pub inserted: usize,
    pub processed: usize,
}

/// The schema version of a database whose `user_version` is `version`, when
/// this library can open it: no newer than the version it writes.
pub open spec fn supported_version(version: i64) -> Option<usize> {
    if 0 <= version <= SCHEMA_VERSION {
        Some(version as usize)
    } else {
        None
    }
}

/// Checks the schema version of a database before it is migrated.
pub fn check_schema_version(version: i64) -> (r: Result<usize, Error>)
    ensures
        match supported_version(version) {
            Some(v) => r == Ok::<usize, Error>(v),
            None => r matches Err(Error::UnsupportedSchema { version: v }) && v == version,
        },
{
    if 0 <= version && version <= 1 {
        Ok(version as usize)
    } else {
        Err(Error::UnsupportedSchema { version })
    }
}

/// A limit for SQLite: `-1` (no limit) when absent, an error past `i64::MAX`.
pub fn command_limit(limit: Option<usize>) -> (r: Result<i64, Error>)
    ensures
        match limit {
            None => r == Ok::<i64, Error>(-1i64),
            Some(l) => if l <= i64::MAX {
                r == Ok::<i64, Error>(l as i64)
            } else {
                r matches Err(Error::CommandLimitOverflow)
            },
        },
{
    match limit {
        None => Ok(-1),
        Some(l) => if l as u64 <= 9223372036854775807u64 {
            Ok(l as i64)
        } else {
            Err(Error::CommandLimitOverflow)
        },
    }
}

/// A limit on executions for SQLite: an error past `i64::MAX`.
pub fn execution_limit(limit: usize) -> (r: Result<i64, Error>)
    ensures
        if limit <= i64::MAX {
            r == Ok::<i64, Error>(limit as i64)
        } else {
            r matches Err(Error::ExecutionLimitOverflow)
        },
{
    if limit as u64 <= 9223372036854775807u64 {
        Ok(limit as i64)
    } else {
        Err(Error::ExecutionLimitOverflow)
    }
}

/// The errors an import can meet besides those of reading the history: the
/// database's, a history too long to track, a directory that is not UTF-8, and
/// a generated execution ID that was taken.
pub open spec fn import_error(e: Error) -> bool {
    ||| e is Sqlite
    ||| e is TooManyRecords
    ||| e is TooManyPreviousRecords
    ||| e is InvalidExecutionDirectory
    ||| e is DuplicateExecutionId
}

/// Some record's directory is not valid UTF-8.
pub open spec fn has_invalid_directory(records: Seq<Record>) -> bool {
    exists|i: int|
        0 <= i < records.len() && (match (#[trigger] records[i]).execution.directory {
            Some(d) => !vstd::utf8::valid_utf8(d@),
            None => false,
        })
}

/// The errors of setting up a database: SQLite's, a schema version that is
/// negative or newer than [`SCHEMA_VERSION`], or the failure of migration 1.
pub open spec fn setup_error(e: Error) -> bool {
    match e {
        Error::Sqlite { .. } => true,
        Error::UnsupportedSchema { version } => supported_version(version) is None,
        Error::Migration { version, .. } => version == 1,
        _ => false,
    }
}

/// `n` records are new when `records` are imported over the snapshot
/// `previous`: the additions of the diff between them, which is an edit
/// script that keeps their common ends.
pub open spec fn is_import_of(n: nat, previous: Seq<Seq<u8>>, records: Seq<Seq<u8>>) -> bool {
    &&& n == additions(previous, records)
    &&& crate::diff::is_diff(
        previous,
        records,
        myers_diff(previous, records).0,
        myers_diff(previous, records).1,
    )
}

/// Importing a history over a snapshot with the same fingerprints, in the same
/// order, counts no new record.
pub proof fn reimport_counts_nothing(n: nat, fingerprints: Seq<Seq<u8>>)
    requires
        is_import_of(n, fingerprints, fingerprints),
    ensures
        n == 0,
{
    crate::diff::unchanged_history_keeps_every_id(
        fingerprints,
        Seq::new(fingerprints.len(), |i: int| Seq::<char>::empty()),
        myers_diff(fingerprints, fingerprints).0,
        myers_diff(fingerprints, fingerprints).1,
    );
}

/// Importing a history that only grew at its end counts exactly the records
/// that were appended.
pub proof fn appended_import_counts_the_appended(
    n: nat,
    previous: Seq<Seq<u8>>,
    appended: Seq<Seq<u8>>,
)
    requires
        is_import_of(n, previous, previous + appended),
    ensures
        n == appended.len(),
{
    crate::diff::appended_records_are_new(
        previous,
        appended,
        myers_diff(previous, previous + appended).0,
        myers_diff(previous, previous + appended).1,
    );
}

/// `ids` are what the current `records` take over from the snapshot
/// `previous` of the last import: one per record, as the diff of their
/// fingerprints assigns them.
pub open spec fn takes_over(
    previous: Seq<(Vec<u8>, String)>,
    records: Seq<Record>,
    ids: Seq<Option<String>>,
) -> bool {
    let (removed, added) = myers_diff(previous_fingerprints(previous), record_fingerprints(records));
    &&& ids.len() == records.len()
    &&& ids.map_values(|o: Option<String>| text_view(o)) == assign(
        previous_ids(previous),
        removed,
        added,
    )
    &&& crate::diff::is_diff(
        previous_fingerprints(previous),
        record_fingerprints(records),
        removed,
        added,
    )
}

/// The snapshot an import leaves for the next one: each record's
/// fingerprint with the ID of its execution, in order.
pub fn snapshot(records: &Vec<Record>, ids: &Vec<String>) -> (r: Vec<(Vec<u8>, String)>)
    requires
        ids.len() == records.len(),
    ensures
        r.len() == records.len(),
        forall|i: int|
            0 <= i < r.len() ==> (#[trigger] r@[i]).0@ == records@[i].fingerprint@ && r@[i].1@
                == ids@[i]@,
{
    let mut r: Vec<(Vec<u8>, String)> = Vec::new();
    let mut i: usize = 0;
    while i < records.len()
        invariant
            i <= records.len() == ids.len(),
            r.len() == i,
            forall|j: int|
                0 <= j < i ==> (#[trigger] r@[j]).0@ == records@[j].fingerprint@ && r@[j].1@
                    == ids@[j]@,
        decreases records.len() - i,
    {
        r.push((to_vec(records[i].fingerprint.as_slice()), ids[i].clone()));
        i += 1;
    }
    r
}

/// Whether a backup may be written to a path: always with `force`, and
/// otherwise only where nothing exists yet.
pub fn may_write_backup(force: bool, exists: bool) -> (r: bool)
    ensures
        r == (force || !exists),
{
    force || !exists
}

/// A tally of an import of `n` records: at least one record processed, at
/// most all of them, and no more inserted than processed.
pub open spec fn tally_within(t: Tally, n: nat) -> bool {
    1 <= t.processed <= n && t.inserted <= t.processed
}

/// The number of records of an import that are new.
pub open spec fn additions(previous: Seq<Seq<u8>>, records: Seq<Seq<u8>>) -> nat {
    count_true(myers_diff(previous, records).1)
}

/// A connection to the history database.
pub struct Database {
    connection: rusqlite::Connection,
}

/// How long a connection waits for a lock before it reports the database as
/// busy, in milliseconds.
pub const BUSY_TIMEOUT_MS: u64 = 5000;

/// The pragmas set on every connection: the write-ahead log, and foreign
/// keys enforced.
pub open spec fn connection_pragma_values() -> Seq<(Seq<char>, SqlValueView)> {
    seq![("journal_mode"@, SqlValueView::Text("WAL"@)), ("foreign_keys"@, SqlValueView::Integer(1))]
}

/// The pragmas set on every connection, by name and value.
pub fn connection_pragmas() -> (r: Vec<(&'static str, SqlValue)>)
    ensures
        r@.map_values(|p: (&'static str, SqlValue)| (p.0@, p.1@)) == connection_pragma_values(),
{
    let r = vec![
        ("journal_mode", SqlValue::Text(String::from_str("WAL"))),
        ("foreign_keys", SqlValue::Integer(1)),
    ];
    assert(r@.map_values(|p: (&'static str, SqlValue)| (p.0@, p.1@)) =~= connection_pragma_values());
    r
}

/// A schema migration: the version it brings the database to, and its
/// statements.
pub struct Migration {
    pub version: usize,
    pub script: &'static str,
}

/// The migrations that bring a database at schema `version` up to date, in
/// order: the schema itself, for a database at version 0.
pub fn migrations(version: usize) -> (r: Vec<Migration>)
    ensures
        version < 1 ==> r@.len() == 1 && r@[0].version == 1 && r@[0].script == SCHEMA,
        version >= 1 ==> r@.len() == 0,
{
    let mut r: Vec<Migration> = Vec::new();
    if version < 1 {
        r.push(Migration { version: 1, script: SCHEMA });
    }
    r
}

impl Database {
    /// The connection that the database works on.
    pub closed spec fn underlying(self) -> rusqlite::Connection {
        self.connection
    }

    /// Opens the database at `path`, creating and migrating it as needed.
    pub fn open(path: &str) -> (r: Result<Database, Error>)
        ensures
            r matches Err(e) ==> setup_error(e),
    {
        let connection = checked(crate::sqlite::open(path))?;
        Database::from_connection(connection)
    }

    /// Opens a fresh database in memory.
    pub fn open_in_memory() -> (r: Result<Database, Error>)
        ensures
            r matches Err(e) ==> setup_error(e),
    {
        let connection = checked(crate::sqlite::open_in_memory())?;
        Database::from_connection(connection)
    }

    /// Sets up `connection` (a five second busy timeout, the write-ahead log,
    /// foreign keys) and migrates its schema.
    ///
    /// Fails with [`Error::UnsupportedSchema`] when the database's
    /// `user_version` is negative or newer than [`SCHEMA_VERSION`].
    pub fn from_connection(connection: rusqlite::Connection) -> (r: Result<Database, Error>)
        ensures
            r matches Ok(d) ==> d.underlying() == connection,
            r matches Err(e) ==> setup_error(e),
    {
        checked(busy_timeout(&connection, BUSY_TIMEOUT_MS))?;
        let pragmas = connection_pragmas();
        let mut k: usize = 0;
        while k < pragmas.len()
            invariant
                k <= pragmas.len(),
            decreases pragmas.len() - k,
        {
            let (name, value) = &pragmas[k];
            checked(pragma_update(&connection, name, to_sql(value.duplicate())))?;
            k += 1;
        }
        let transaction = checked(begin_immediate(&connection))?;
        let version = checked(
            query_integer(&connection, "PRAGMA user_version", &Vec::new()),
        )?;
        let version = check_schema_version(version)?;
        let pending = migrations(version);
        let mut m: usize = 0;
        while m < pending.len()
            invariant
                m <= pending.len(),
                forall|i: int| 0 <= i < pending.len() ==> (#[trigger] pending@[i]).version == 1,
            decreases pending.len() - m,
        {
            let migration = &pending[m];
            match execute_batch(&connection, migration.script) {
                Ok(()) => {},
                Err(error) => {
                    return Err(
                        Error::Migration {
                            version: migration.version,
                            cause: crate::sqlite::error_message(&error),
                        },
                    );
                },
            }
            checked(
                pragma_update(
                    &connection,
                    "user_version",
                    to_sql(SqlValue::Integer(migration.version as i64)),
                ),
            )?;
            m += 1;
        }
        checked(commit(transaction))?;
        Ok(Database { connection })
    }

    /// The underlying connection.
    pub fn connection(&self) -> (r: &rusqlite::Connection)
        ensures
            *r == self.underlying(),
    {
        &self.connection
    }

    /// The underlying connection, given up.
    pub fn into_connection(self) -> (r: rusqlite::Connection)
        ensures
            r == self.underlying(),
    {
        self.connection
    }

    /// Copies the database to the file at `path`.
    pub fn backup(&self, path: &str) -> (r: Result<(), Error>)
        ensures
            r matches Err(e) ==> e is Sqlite,
    {
        checked(crate::sqlite::backup(&self.connection, path))
    }

    /// Deletes every execution, command and import record, then vacuums the
    /// database and truncates its write-ahead log.
    ///
    /// Fails with [`Error::BusyWriteAheadLog`] when the log is in use and
    /// cannot be truncated.
    pub fn clear(&self) -> (r: Result<(), Error>)
        ensures
            r matches Err(e) ==> e is Sqlite || e is BusyWriteAheadLog,
    {
        checked(pragma_update(&self.connection, "secure_delete", to_sql(SqlValue::Integer(1))))?;
        {
            let transaction = checked(begin(&self.connection))?;
            checked(execute(&self.connection, "DELETE FROM commands", &Vec::new()))?;
            checked(execute(&self.connection, "DELETE FROM import_sources", &Vec::new()))?;
            checked(execute(&self.connection, "DELETE FROM executions", &Vec::new()))?;
            checked(commit(transaction))?;
        }
        checked(execute_batch(&self.connection, "VACUUM"))?;
        let busy = checked(
            query_flag(&self.connection, "PRAGMA wal_checkpoint(TRUNCATE)", &Vec::new()),
        )?;
        Self::checkpoint_result(busy)
    }

    /// What clearing reports once the write-ahead log has been checkpointed:
    /// [`Error::BusyWriteAheadLog`] exactly when the checkpoint reports the log
    /// busy.
    pub fn checkpoint_result(busy: bool) -> (r: Result<(), Error>)
        ensures
            busy ==> r matches Err(Error::BusyWriteAheadLog),
            !busy ==> r is Ok,
    {
        if busy {
            Err(Error::BusyWriteAheadLog)
        } else {
            Ok(())
        }
    }

    /// Calls `callback` on the latest execution of each distinct command,
    /// most recent first, at most `limit` of them, until it returns false.
    ///
    /// Fails with [`Error::CommandLimitOverflow`], before reading anything,
    /// exactly when `limit` exceeds `i64::MAX`.
    pub fn for_each_command<F: FnMut(Command) -> bool>(
        &self,
        limit: Option<usize>,
        mut callback: F,
    ) -> (r: Result<(), Error>)
        requires
            forall|c: Command| call_requires(callback, (c,)),
        ensures
            (limit matches Some(l) && l > i64::MAX) <==> r matches Err(Error::CommandLimitOverflow),
            r matches Err(e) ==> e is CommandLimitOverflow || e is Sqlite,
    {
        let bound = command_limit(limit)?;
        let rows = checked(
            query_commands(
                &self.connection,
                "SELECT text, timestamp_ns, exit_code, directory FROM commands ORDER BY timestamp_ns DESC, execution_id DESC LIMIT ?1",
                &bind(vec![SqlValue::Integer(bound)]),
            ),
        )?;
        proof {
            lemma_until_error_sqlite(rows@);
        }
        let (commands, error) = split_at_error(rows);
        let mut pending = reversed(commands);
        while pending.len() > 0
            invariant
                !(limit matches Some(l) && l > i64::MAX),
                forall|c: Command| call_requires(callback, (c,)),
            decreases pending.len(),
        {
            let command = pending.pop().unwrap();
            if !callback(command) {
                return Ok(());
            }
        }
        match error {
            Some(e) => Err(e),
            None => Ok(()),
        }
    }

    /// Whether the database holds any execution.
    pub fn has_executions(&self) -> (r: Result<bool, Error>)
        ensures
            r matches Err(e) ==> e is Sqlite,
    {
        checked(
            query_flag(&self.connection, "SELECT EXISTS(SELECT 1 FROM executions)", &Vec::new()),
        )
    }

    /// Stores `execution` under a fresh ID, which it returns.
    ///
    /// Fails with [`Error::InvalidExecutionDirectory`], before writing
    /// anything, when the directory is not valid UTF-8.
    pub fn insert(&self, execution: &Execution) -> (r: Result<String, Error>)
        ensures
            (execution.directory matches Some(d) && !vstd::utf8::valid_utf8(d@)) ==> r matches Err(
                Error::InvalidExecutionDirectory,
            ),
            r matches Err(e) ==> e is InvalidExecutionDirectory || e is Sqlite,
            r matches Err(Error::InvalidExecutionDirectory) ==> (execution.directory matches Some(d)
                && !vstd::utf8::valid_utf8(d@)),
            r matches Ok(id) ==> parses_as_uuid(id@),
    {
        let id = new_uuid();
        let directory = execution.directory()?;
        let parameters = bind(execution_parameters(&id, execution, directory));
        checked(
            execute(
                &self.connection,
                "INSERT INTO executions (id, command, timestamp_ns, duration_ns, exit_code, directory, session, hostname, shell) VALUES (?1, ?2, ?3, ?4, ?5, ?6, ?7, ?8, ?9)",
                &parameters,
            ),
        )?;
        Ok(id)
    }

    /// The `limit` most recent executions with their IDs, most recent first.
    ///
    /// Fails with [`Error::ExecutionLimitOverflow`], before reading anything,
    /// exactly when `limit` exceeds `i64::MAX`, and with
    /// [`Error::InvalidExecutionId`] when a stored ID is not a UUID.
    pub fn recent(&self, limit: usize) -> (r: Result<Vec<(String, Execution)>, Error>)
        ensures
            limit > i64::MAX <==> r matches Err(Error::ExecutionLimitOverflow),
            r matches Err(e) ==> e is ExecutionLimitOverflow || e is Sqlite || e is InvalidExecutionId,
            r matches Ok(v) ==> v.len() <= limit && forall|i: int|
                0 <= i < v.len() ==> parses_as_uuid(#[trigger] v@[i].0@),
    {
        let bound = execution_limit(limit)?;
        let rows = checked(
            query_executions(
                &self.connection,
                "SELECT id, command, timestamp_ns, duration_ns, exit_code, directory, session, hostname, shell FROM executions ORDER BY timestamp_ns DESC, id DESC LIMIT ?1",
                &bind(vec![SqlValue::Integer(bound)]),
            ),
        )?;
        if rows.len() > limit {
            return Err(Error::Sqlite { message: String::from_str("too many rows") });
        }
        proof {
            lemma_checked_executions(rows@);
            lemma_checked_executions_errors(rows@);
        }
        check_executions(rows)
    }
}

impl Database {
    /// Matches the current `records` against the fingerprints and execution
    /// IDs that the previous import of the same history recorded: the
    /// records that the diff of fingerprints keeps take the IDs of the
    /// previous records they match, in order; the added ones get none.
    pub fn reconcile(previous: &Vec<(Vec<u8>, String)>, records: &Vec<Record>) -> (r: Result<
        Vec<Option<String>>,
        Error,
    >)
        requires
            previous.len() != i32::MAX,
            records.len() < i32::MAX || records.len() > u32::MAX,
        ensures
            previous.len() > i32::MAX ==> r matches Err(Error::TooManyPreviousRecords),
            previous.len() < i32::MAX && records.len() > u32::MAX ==> r matches Err(
                Error::TooManyCurrentRecords,
            ),
            previous.len() < i32::MAX && records.len() < i32::MAX ==> r is Ok,
            r matches Ok(ids) ==> {
                let (removed, added) = myers_diff(
                    previous_fingerprints(previous@),
                    record_fingerprints(records@),
                );
                &&& ids.len() == records.len()
                &&& ids@.map_values(|o: Option<String>| text_view(o)) == assign(
                    previous_ids(previous@),
                    removed,
                    added,
                )
                &&& crate::diff::is_diff(
                    previous_fingerprints(previous@),
                    record_fingerprints(records@),
                    removed,
                    added,
                )
                &&& crate::diff::takes_ids_of_equal_records(
                    previous_fingerprints(previous@),
                    record_fingerprints(records@),
                    previous_ids(previous@),
                    ids@.map_values(|o: Option<String>| text_view(o)),
                )
            },
            (previous.len() < i32::MAX && previous_fingerprints(previous@) == record_fingerprints(
                records@,
            )) ==> (r matches Ok(ids) && ids@.map_values(|o: Option<String>| text_view(o))
                == previous_ids(previous@).map_values(|id: Seq<char>| Some(id))),
    {
        if previous.len() > 2147483647 {
            return Err(Error::TooManyPreviousRecords);
        }
        if records.len() as u64 > 4294967295u64 {
            return Err(Error::TooManyCurrentRecords);
        }
        let (removed, added) = diff_fingerprints(previous, records);
        proof {
            lemma_edit_script_aligned(
                previous_fingerprints(previous@),
                record_fingerprints(records@),
                removed@,
                added@,
            );
            crate::diff::ids_go_to_equal_fingerprints(
                previous_fingerprints(previous@),
                record_fingerprints(records@),
                previous_ids(previous@),
                removed@,
                added@,
            );
            if previous_fingerprints(previous@) == record_fingerprints(records@) {
                crate::diff::unchanged_history_keeps_every_id(
                    record_fingerprints(records@),
                    previous_ids(previous@),
                    removed@,
                    added@,
                );
            }
        }
        Ok(assign_identifiers(previous, &removed, &added))
    }

    /// What an import does once it holds the write lock and has read the
    /// source's generation at the start (`generation`) and now (`current`),
    /// and the snapshot of its previous import: nothing (`None`) when another
    /// import of the same source began in between; else the IDs that the
    /// records take over from the snapshot, as [`Database::reconcile`] gives
    /// them.
    pub fn plan(
        generation: i64,
        current: i64,
        previous: &Vec<(Vec<u8>, String)>,
        records: &Vec<Record>,
    ) -> (r: Result<Option<Vec<Option<String>>>, Error>)
        requires
            records.len() < i32::MAX,
        ensures
            current != generation ==> r matches Ok(None),
            (current == generation && previous.len() >= i32::MAX) ==> r matches Err(
                Error::TooManyPreviousRecords,
            ),
            (current == generation && previous.len() < i32::MAX) ==> (r matches Ok(Some(ids))
                && takes_over(previous@, records@, ids@)),
    {
        if current != generation {
            return Ok(None);
        }
        if previous.len() >= 2147483647 {
            return Err(Error::TooManyPreviousRecords);
        }
        match Self::reconcile(previous, records) {
            Ok(ids) => Ok(Some(ids)),
            Err(e) => Err(e),
        }
    }

    /// Imports the `records` read from the history at `path` in `format`.
    ///
    /// The import source's generation is bumped first; if another import of
    /// the same source begins before this one takes its write lock, this one
    /// is discarded and counts nothing. Otherwise the records are reconciled
    /// with those of the previous import ([`Database::plan`]): matched records
    /// update the executions they had, new records are inserted, and the
    /// source's snapshot is replaced by [`snapshot`] of the records, all in
    /// one transaction. `progress` hears of each record as it is written, with
    /// how many have been processed and how many of them were new. Returns
    /// the number of new executions.
    pub fn import<F: FnMut(Tally)>(
        &self,
        format: &str,
        path: &[u8],
        records: Result<Vec<Record>, Error>,
        mut progress: F,
    ) -> (r: Result<usize, Error>)
        requires
            forall|t: Tally|
                (records matches Ok(v) && tally_within(t, v.len() as nat)) ==> call_requires(
                    progress,
                    (t,),
                ),
        ensures
            records is Err ==> r is Err,
            records matches Err(e) ==> (r == Err::<usize, Error>(e) || r matches Err(
                Error::Sqlite { .. },
            )),
            r matches Ok(n) ==> records matches Ok(v) && n <= v.len() && (n == 0 || exists|
                previous: Seq<Seq<u8>>,
            | is_import_of(n as nat, previous, record_fingerprints(v@))),
            (records matches Ok(v) && v.len() >= i32::MAX) ==> r is Err,
            r matches Err(e) ==> (records == Err::<Vec<Record>, Error>(e) || import_error(e)),
            (records is Ok && r matches Err(Error::TooManyRecords)) ==> (records matches Ok(v)
                && v.len() >= i32::MAX),
            (records is Ok && r matches Err(Error::InvalidExecutionDirectory)) ==> (
            records matches Ok(v) && has_invalid_directory(v@)),
    {
        let fresh = new_uuid();
        let (source_id, generation) = checked(
            query_text_and_integer(
                &self.connection,
                "INSERT INTO import_sources (id, format, path, generation) VALUES (?1, ?2, ?3, 1) ON CONFLICT (format, path) DO UPDATE SET generation = import_sources.generation + 1 RETURNING id, generation",
                &bind(vec![SqlValue::Text(fresh), SqlValue::Text(format.to_owned()), SqlValue::Blob(to_vec(path))]),
            ),
        )?;
        let list = match records {
            Ok(list) => list,
            Err(e) => return Err(e),
        };
        if list.len() >= 2147483647 {
            return Err(Error::TooManyRecords);
        }
        let transaction = checked(begin_immediate(&self.connection))?;
        let current = checked(
            query_integer(
                &self.connection,
                "SELECT generation FROM import_sources WHERE id = ?1",
                &bind(vec![SqlValue::Text(source_id.clone())]),
            ),
        )?;
        let rows = checked(
            query_source_records(
                &self.connection,
                "SELECT fingerprint, execution_id FROM source_records WHERE source_id = ?1 ORDER BY position",
                &bind(vec![SqlValue::Text(source_id.clone())]),
            ),
        )?;
        let mut previous: Vec<(Vec<u8>, String)> = Vec::new();
        let mut k: usize = 0;
        while k < rows.len()
            invariant
                k <= rows.len(),
            decreases rows.len() - k,
        {
            match &rows[k] {
                Ok((fingerprint, id)) => previous.push((fingerprint.clone(), id.clone())),
                Err(error) => return Err(Error::Sqlite { message: error.message() }),
            }
            k += 1;
        }
        let identifiers = match Self::plan(generation, current, &previous, &list)? {
            Some(identifiers) => identifiers,
            None => return Ok(0),
        };
        let ghost view = identifiers@.map_values(|o: Option<String>| text_view(o));
        proof {
            let (removed, added) = myers_diff(
                previous_fingerprints(previous@),
                record_fingerprints(list@),
            );
            lemma_edit_script_aligned(
                previous_fingerprints(previous@),
                record_fingerprints(list@),
                removed,
                added,
            );
            new_records_are_the_additions(previous_ids(previous@), removed, added);
            assert(view.take(0) =~= Seq::<Option<Seq<char>>>::empty());
        }
        let mut inserted: usize = 0;
        let mut ids: Vec<String> = Vec::new();
        let mut index: usize = 0;
        while index < list.len()
            invariant
                index <= list.len() == identifiers.len(),
                view == identifiers@.map_values(|o: Option<String>| text_view(o)),
                inserted == count_none(view.take(index as int)),
                inserted <= index,
                ids.len() == index,
                forall|j: int|
                    0 <= j < index ==> (#[trigger] identifiers@[j] matches Some(x) ==> ids@[j]@
                        == x@),
                records == Ok::<Vec<Record>, Error>(list),
                forall|t: Tally| tally_within(t, list.len() as nat) ==> call_requires(progress, (t,)),
            decreases list.len() - index,
        {
            let new = identifiers[index].is_none();
            let id = match &identifiers[index] {
                Some(id) => id.clone(),
                None => new_uuid(),
            };
            let record = &list[index];
            proof {
                assert(list@[index as int] == *record);
            }
            let directory = record.execution.directory()?;
            let mut values = execution_parameters(&id, &record.execution, directory);
            values.push(SqlValue::Integer(if new { 1 } else { 0 }));
            let parameters = bind(values);
            let changed = checked(
                execute(
                    &self.connection,
                    "INSERT INTO executions (id, command, timestamp_ns, duration_ns, exit_code, directory, session, hostname, shell) VALUES (?1, ?2, ?3, ?4, ?5, ?6, ?7, ?8, ?9) ON CONFLICT (id) DO UPDATE SET command = excluded.command, timestamp_ns = excluded.timestamp_ns, duration_ns = excluded.duration_ns, exit_code = excluded.exit_code, directory = excluded.directory, session = excluded.session, hostname = excluded.hostname, shell = excluded.shell WHERE ?10 = 0",
                    &parameters,
                ),
            )?;
            proof {
                assert(view.take(index + 1) =~= view.take(index as int).push(view[index as int]));
                crate::diff::lemma_count_none_push(view.take(index as int), view[index as int]);
            }
            if new {
                if changed == 0 {
                    return Err(Error::DuplicateExecutionId { id });
                }
                inserted += 1;
            }
            let tally = Tally { inserted, processed: index + 1 };
            assert(tally_within(tally, list.len() as nat));
            progress(tally);
            ids.push(id);
            index += 1;
        }
        checked(
            execute(
                &self.connection,
                "DELETE FROM source_records WHERE source_id = ?1",
                &bind(vec![SqlValue::Text(source_id.clone())]),
            ),
        )?;
        let rows = snapshot(&list, &ids);
        let mut position: usize = 0;
        while position < rows.len()
            invariant
                position <= rows.len() == list.len(),
                list.len() < i32::MAX,
            decreases rows.len() - position,
        {
            let parameters = bind(vec![
                SqlValue::Text(source_id.clone()),
                SqlValue::Integer(position as i64),
                SqlValue::Blob(rows[position].0.clone()),
                SqlValue::Text(rows[position].1.clone()),
            ]);
            checked(
                execute(
                    &self.connection,
                    "INSERT INTO source_records (source_id, position, fingerprint, execution_id) VALUES (?1, ?2, ?3, ?4)",
                    &parameters,
                ),
            )?;
            position += 1;
        }
        checked(commit(transaction))?;
        proof {
            assert(view.take(list.len() as int) =~= view);
            assert(inserted == additions(
                previous_fingerprints(previous@),
                record_fingerprints(list@),
            ));
            assert(is_import_of(
                inserted as nat,
                previous_fingerprints(previous@),
                record_fingerprints(list@),
            ));
        }
        Ok(inserted)
    }
}

/// A nullable exit code as a value: the code, or `NULL`.
fn optional_exit_code(value: Option<i32>) -> (r: SqlValue)
    ensures
        r@ == optional_integer_value(exit_code_integer(value)),
{
    match value {
        Some(v) => SqlValue::Integer(v as i64),
        None => SqlValue::Null,
    }
}

/// A nullable text as a value: the text, or `NULL`.
fn optional_str(value: Option<&str>) -> (r: SqlValue)
    ensures
        r@ == optional_text_value(str_view(value)),
{
    match value {
        Some(v) => SqlValue::Text(v.to_owned()),
        None => SqlValue::Null,
    }
}

pub open spec fn str_view(value: Option<&str>) -> Option<Seq<char>> {
    match value {
        Some(v) => Some(v@),
        None => None,
    }
}

pub open spec fn exit_code_integer(value: Option<i32>) -> Option<i64> {
    match value {
        Some(v) => Some(v as i64),
        None => None,
    }
}

/// The values of the row of `execution`, stored under `id` with `directory`
/// as its directory's text: ID, command, timestamp, duration, exit code,
/// directory, session, hostname and shell, in that order.
pub open spec fn execution_values(
    id: Seq<char>,
    execution: ExecutionView,
    directory: Option<Seq<char>>,
) -> Seq<SqlValueView> {
    seq![
        SqlValueView::Text(id),
        SqlValueView::Text(execution.command),
        SqlValueView::Integer(execution.timestamp_ns),
        optional_integer_value(execution.duration_ns),
        optional_integer_value(exit_code_integer(execution.exit_code)),
        optional_text_value(directory),
        optional_text_value(execution.session),
        optional_text_value(execution.hostname),
        optional_text_value(execution.shell),
    ]
}

/// The values of the row of `execution`, stored under `id` with `directory`
/// as its directory's text.
fn execution_parameters(id: &String, execution: &Execution, directory: Option<&str>) -> (r: Vec<
    SqlValue,
>)
    ensures
        values_view(r@) == execution_values(id@, execution@, str_view(directory)),
{
    let r = vec![
        SqlValue::Text(id.clone()),
        SqlValue::Text(execution.command.clone()),
        SqlValue::Integer(execution.timestamp_ns),
        optional_integer(execution.duration_ns),
        optional_exit_code(execution.exit_code),
        optional_str(directory),
        optional_text(&execution.session),
        optional_text(&execution.hostname),
        optional_text(&execution.shell),
    ];
    assert(values_view(r@) =~= execution_values(id@, execution@, str_view(directory)));
    r
}

} // verus!
