use std::collections::HashMap;

use honu::{
    database::{Database, SCHEMA_VERSION},
    record::Record,
    shell::Shell,
    Command, Execution,
};
use rusqlite::Connection;

fn memory() -> Database {
    Database::from_connection(Connection::open_in_memory().unwrap()).unwrap()
}

fn make_record(command: &str, timestamp_ns: i64, fingerprint: &[u8]) -> Record {
    Record {
        execution: Execution {
            command: command.into(),
            timestamp_ns,
            ..Default::default()
        },
        fingerprint: fingerprint.to_vec(),
    }
}

#[test]
fn clear_deletes_all_records() {
    let database = memory();

    database
        .import("foo", b"bar", Ok(vec![make_record("foo", 0, b"bar")]), |_| {})
        .unwrap();

    database.clear().unwrap();

    assert_eq!(
        database
            .connection()
            .query_row(
                "SELECT (SELECT COUNT(*) FROM commands), (SELECT COUNT(*) FROM executions), (SELECT COUNT(*) FROM import_sources), (SELECT COUNT(*) FROM source_records)",
                [],
                |row| {
                    Ok((
                        row.get::<_, i64>(0)?,
                        row.get::<_, i64>(1)?,
                        row.get::<_, i64>(2)?,
                        row.get::<_, i64>(3)?,
                    ))
                },
            )
            .unwrap(),
        (0, 0, 0, 0),
    );
}

#[test]
fn for_each_command_orders_and_limits_unique_commands() {
    let database = memory();

    for (command, timestamp_ns, directory, exit_code) in [
        ("foo", 1, "/foo", 1),
        ("bar", 2, "/bar", 2),
        ("foo", 3, "/baz", 3),
    ] {
        database
            .insert(&Execution {
                command: command.into(),
                directory: Some(directory.into()),
                exit_code: Some(exit_code),
                timestamp_ns,
                ..Default::default()
            })
            .unwrap();
    }

    let mut commands = Vec::new();

    database
        .for_each_command(None, |command| {
            commands.push(command);
            true
        })
        .unwrap();

    assert_eq!(
        commands,
        [
            Command {
                directory: Some("/baz".into()),
                exit_code: Some(3),
                text: "foo".into(),
                timestamp_ns: 3,
            },
            Command {
                directory: Some("/bar".into()),
                exit_code: Some(2),
                text: "bar".into(),
                timestamp_ns: 2,
            },
        ],
    );

    database
        .for_each_command(Some(1), |command| {
            commands.push(command);
            true
        })
        .unwrap();

    assert_eq!(
        commands,
        [
            Command {
                directory: Some("/baz".into()),
                exit_code: Some(3),
                text: "foo".into(),
                timestamp_ns: 3,
            },
            Command {
                directory: Some("/bar".into()),
                exit_code: Some(2),
                text: "bar".into(),
                timestamp_ns: 2,
            },
            Command {
                directory: Some("/baz".into()),
                exit_code: Some(3),
                text: "foo".into(),
                timestamp_ns: 3,
            },
        ],
    );

    database
        .for_each_command(Some(0), |command| {
            commands.push(command);
            true
        })
        .unwrap();

    assert_eq!(commands.len(), 3);

    assert!(database
        .connection()
        .query_row(
            "EXPLAIN QUERY PLAN SELECT text, timestamp_ns, exit_code, directory FROM commands ORDER BY timestamp_ns DESC, execution_id DESC",
            [],
            |row| row.get::<_, String>(3),
        )
        .unwrap()
        .contains("COVERING INDEX commands_timestamp"));
}

#[test]
fn for_each_command_stops_when_asked() {
    let database = memory();
    for (command, timestamp_ns) in [("foo", 1), ("bar", 2), ("baz", 3)] {
        database
            .insert(&Execution {
                command: command.into(),
                timestamp_ns,
                ..Default::default()
            })
            .unwrap();
    }
    let mut seen = Vec::new();
    database
        .for_each_command(None, |command| {
            seen.push(command.text);
            seen.len() < 2
        })
        .unwrap();
    assert_eq!(seen, ["baz", "bar"]);
}

#[test]
fn import_inserts_and_is_idempotent() {
    let database = memory();

    let records = vec![make_record("foo", 1, b"foo"), make_record("bar", 2, b"bar")];

    assert_eq!(
        database.import("test", b"foo", Ok(records.clone()), |_| {}).unwrap(),
        2,
    );

    let imported = database.recent(20).unwrap();

    database
        .connection()
        .execute_batch(
            "CREATE TABLE command_changes (operation TEXT NOT NULL);
            CREATE TRIGGER commands_insert_change AFTER INSERT ON commands BEGIN INSERT INTO command_changes VALUES ('insert'); END;
            CREATE TRIGGER commands_update_change AFTER UPDATE ON commands BEGIN INSERT INTO command_changes VALUES ('update'); END;
            CREATE TRIGGER commands_delete_change AFTER DELETE ON commands BEGIN INSERT INTO command_changes VALUES ('delete'); END;",
        )
        .unwrap();

    assert_eq!(database.import("test", b"foo", Ok(records), |_| {}).unwrap(), 0);

    assert_eq!(database.recent(20).unwrap(), imported);

    assert_eq!(
        database
            .connection()
            .query_row("SELECT COUNT(*) FROM command_changes", [], |row| row.get::<_, i64>(0))
            .unwrap(),
        0,
    );
}

#[test]
fn import_preserves_repeated_commands_and_metadata() {
    let database = memory();

    let first = Execution {
        command: "foo".into(),
        timestamp_ns: 1,
        duration_ns: Some(2),
        exit_code: Some(3),
        directory: Some("/foo".into()),
        session: Some("bar".into()),
        hostname: Some("foo".into()),
        shell: Some("zsh".into()),
    };

    let second = Execution {
        command: "foo".into(),
        timestamp_ns: 4,
        duration_ns: Some(5),
        exit_code: Some(6),
        directory: Some("/bar".into()),
        session: Some("foo".into()),
        hostname: Some("bar".into()),
        shell: Some("zsh".into()),
    };

    assert_eq!(
        database
            .import(
                "test",
                b"foo",
                Ok(vec![
                    Record {
                        execution: first.clone(),
                        fingerprint: b"foo".to_vec(),
                    },
                    Record {
                        execution: second.clone(),
                        fingerprint: b"bar".to_vec(),
                    },
                ]),
                |_| {},
            )
            .unwrap(),
        2,
    );

    assert_eq!(
        database
            .recent(20)
            .unwrap()
            .into_iter()
            .map(|(_, execution)| execution)
            .collect::<Vec<_>>(),
        vec![second, first],
    );
}

#[test]
fn import_reconciles_ordered_source_snapshots() {
    let database = memory();

    assert_eq!(
        database
            .import(
                "test",
                b"foo",
                Ok(vec![make_record("foo", 1, b"foo"), make_record("bar", 2, b"bar")]),
                |_| {},
            )
            .unwrap(),
        2,
    );

    let original = database
        .recent(20)
        .unwrap()
        .into_iter()
        .map(|(id, execution)| (execution.command, (id, execution.timestamp_ns)))
        .collect::<HashMap<_, _>>();

    assert_eq!(
        database
            .import(
                "test",
                b"foo",
                Ok(vec![
                    make_record("baz", 1, b"baz"),
                    make_record("foo", 2, b"foo"),
                    make_record("bar", 3, b"bar"),
                ]),
                |_| {},
            )
            .unwrap(),
        1,
    );

    let reconciled = database
        .recent(20)
        .unwrap()
        .into_iter()
        .map(|(id, execution)| (execution.command, (id, execution.timestamp_ns)))
        .collect::<HashMap<_, _>>();

    assert_eq!(
        (
            reconciled["foo"].0.clone(),
            reconciled["bar"].0.clone(),
            reconciled["foo"].1,
            reconciled["bar"].1,
        ),
        (original["foo"].0.clone(), original["bar"].0.clone(), 2, 3),
    );
}

#[test]
fn import_refreshes_commands() {
    let database = memory();

    for records in [
        [("foo", 3, b"foo".as_slice()), ("bar", 2, b"bar".as_slice())],
        [("foo", 1, b"foo".as_slice()), ("bar", 2, b"bar".as_slice())],
    ] {
        database
            .import(
                "test",
                b"foo",
                Ok(records
                    .iter()
                    .map(|(command, timestamp_ns, fingerprint)| {
                        make_record(command, *timestamp_ns, fingerprint)
                    })
                    .collect()),
                |_| {},
            )
            .unwrap();
    }

    let commands = database
        .connection()
        .prepare("SELECT text, timestamp_ns FROM commands ORDER BY timestamp_ns DESC, execution_id DESC")
        .unwrap()
        .query_map([], |row| Ok((row.get::<_, String>(0)?, row.get::<_, i64>(1)?)))
        .unwrap()
        .collect::<rusqlite::Result<Vec<_>>>()
        .unwrap();

    assert_eq!(commands, [("bar".into(), 2), ("foo".into(), 1)]);
}

#[test]
fn import_retains_truncated_records_and_preserves_new_duplicates() {
    let database = memory();

    assert_eq!(
        database
            .import(
                "test",
                b"foo",
                Ok(vec![make_record("foo", 1, b"foo"), make_record("bar", 2, b"bar")]),
                |_| {},
            )
            .unwrap(),
        2,
    );

    assert_eq!(
        database
            .import("test", b"foo", Ok(vec![make_record("bar", 1, b"bar")]), |_| {})
            .unwrap(),
        0,
    );

    assert_eq!(database.recent(20).unwrap().len(), 2);

    assert_eq!(
        database
            .import(
                "test",
                b"foo",
                Ok(vec![make_record("bar", 1, b"bar"), make_record("bar", 2, b"bar")]),
                |_| {},
            )
            .unwrap(),
        1,
    );

    assert_eq!(database.recent(20).unwrap().len(), 3);
}

#[test]
fn import_reports_progress() {
    let database = memory();
    let mut progress = Vec::new();
    database
        .import(
            "test",
            b"foo",
            Ok(vec![make_record("foo", 1, b"foo"), make_record("bar", 2, b"bar")]),
            |tally| progress.push((tally.processed, tally.inserted)),
        )
        .unwrap();
    assert_eq!(progress, [(1, 1), (2, 2)]);
}

#[test]
fn import_rolls_back_complete_batch_on_constraint_failure() {
    let database = memory();

    let error = database
        .import(
            "test",
            b"foo",
            Ok(vec![
                make_record("foo", 0, b"foo"),
                Record {
                    execution: Execution {
                        command: "bar".into(),
                        duration_ns: Some(-1),
                        ..Default::default()
                    },
                    fingerprint: b"bar".to_vec(),
                },
            ]),
            |_| {},
        )
        .unwrap_err();

    assert!(matches!(error, honu::Error::Sqlite { .. }));

    assert_eq!(
        (error.message(), database.recent(20).unwrap()),
        (
            "CHECK constraint failed: duration_ns IS NULL OR duration_ns >= 0".to_string(),
            Vec::new(),
        ),
    );
}

#[test]
fn insert_stores_every_execution() {
    let database = memory();

    let execution = Execution {
        command: "foo".into(),
        timestamp_ns: 1,
        duration_ns: Some(2),
        exit_code: Some(0),
        directory: Some("/foo".into()),
        session: Some("bar".into()),
        hostname: Some("foo".into()),
        shell: Some("bar".into()),
    };

    let (first, second) = (
        database.insert(&execution).unwrap(),
        database.insert(&execution).unwrap(),
    );

    assert_ne!(first, second);

    let mut expected = vec![(first, execution.clone()), (second, execution)];

    expected.sort_by(|(left, _), (right, _)| right.cmp(left));

    assert_eq!(database.recent(2).unwrap(), expected);
}

#[test]
fn negative_duration_is_rejected() {
    let database = memory();

    let error = database
        .insert(&Execution {
            command: "foo".into(),
            duration_ns: Some(-1),
            ..Default::default()
        })
        .unwrap_err();

    assert_eq!(
        error.message(),
        "CHECK constraint failed: duration_ns IS NULL OR duration_ns >= 0",
    );
}

#[test]
fn open_creates_schema() {
    let database = Database::open(":memory:").unwrap();

    let database = Database::from_connection(database.into_connection()).unwrap();

    assert_eq!(
        database
            .connection()
            .query_row("PRAGMA user_version", [], |row| row.get::<_, i64>(0))
            .unwrap(),
        i64::try_from(SCHEMA_VERSION).unwrap(),
    );
}

#[test]
fn projection_follows_execution_updates_and_deletes() {
    let database = memory();

    let first = database
        .insert(&Execution {
            command: "foo".into(),
            timestamp_ns: 1,
            ..Default::default()
        })
        .unwrap();

    let second = database
        .insert(&Execution {
            command: "foo".into(),
            timestamp_ns: 2,
            ..Default::default()
        })
        .unwrap();

    let third = database
        .insert(&Execution {
            command: "bar".into(),
            timestamp_ns: 3,
            ..Default::default()
        })
        .unwrap();

    database
        .connection()
        .execute(
            "UPDATE executions SET command = 'bar', timestamp_ns = 4, exit_code = 5, directory = '/foo' WHERE id = ?1",
            [second.to_string()],
        )
        .unwrap();

    let commands = || {
        let mut commands = Vec::new();

        database
            .for_each_command(None, |command| {
                commands.push(command);
                true
            })
            .unwrap();

        commands
    };

    assert_eq!(
        commands(),
        [
            Command {
                text: "bar".into(),
                timestamp_ns: 4,
                exit_code: Some(5),
                directory: Some("/foo".into()),
            },
            Command {
                text: "foo".into(),
                timestamp_ns: 1,
                ..Default::default()
            },
        ],
    );

    database
        .connection()
        .execute("DELETE FROM executions WHERE id = ?1", [second.to_string()])
        .unwrap();

    assert_eq!(
        commands(),
        [
            Command {
                text: "bar".into(),
                timestamp_ns: 3,
                ..Default::default()
            },
            Command {
                text: "foo".into(),
                timestamp_ns: 1,
                ..Default::default()
            },
        ],
    );

    database
        .connection()
        .execute("DELETE FROM executions WHERE id = ?1", [first.to_string()])
        .unwrap();

    database
        .connection()
        .execute("DELETE FROM executions WHERE id = ?1", [third.to_string()])
        .unwrap();

    assert_eq!(commands(), []);

    assert!(database
        .connection()
        .execute(
            "INSERT INTO commands (text, timestamp_ns, execution_id, exit_code, directory) VALUES ('foo', 0, 'bar', NULL, NULL)",
            [],
        )
        .is_err());
}

#[test]
fn recent_orders_and_limits_executions() {
    let database = memory();

    database
        .insert(&Execution {
            command: "foo".into(),
            timestamp_ns: 1,
            ..Default::default()
        })
        .unwrap();

    let id = database
        .insert(&Execution {
            command: "bar".into(),
            timestamp_ns: 2,
            ..Default::default()
        })
        .unwrap();

    assert_eq!(
        database.recent(1).unwrap(),
        vec![(
            id,
            Execution {
                command: "bar".into(),
                timestamp_ns: 2,
                ..Default::default()
            },
        )],
    );

    assert_eq!(database.recent(0).unwrap(), Vec::new());
}

#[test]
fn recent_rejects_large_limit() {
    let database = memory();

    let Err(error) = database.recent(usize::MAX) else {
        panic!("expected large limit to fail")
    };

    assert_eq!(error.message(), "execution limit exceeds SQLite integer range");
}

#[test]
fn command_limit_rejects_large_limit() {
    let database = memory();
    assert_eq!(
        database.for_each_command(Some(usize::MAX), |_| true).unwrap_err().message(),
        "command limit exceeds SQLite integer range",
    );
}

#[test]
fn reconcile_minimizes_new_records() {
    let mut state = 0_u32;

    let mut next = || {
        state = state.wrapping_mul(1_664_525).wrapping_add(1_013_904_223);
        vec![(state >> 24) as u8]
    };

    let fingerprints = (0..30_000).map(|_| next()).collect::<Vec<_>>();

    let previous = fingerprints
        .iter()
        .enumerate()
        .map(|(index, fingerprint)| (fingerprint.clone(), index.to_string()))
        .collect::<Vec<_>>();

    let records = fingerprints[3_000..]
        .iter()
        .cloned()
        .chain((0..300).map(|_| next()))
        .map(|fingerprint| Record {
            execution: Execution::default(),
            fingerprint,
        })
        .collect::<Vec<_>>();

    assert_eq!(
        Database::reconcile(&previous, &records)
            .unwrap()
            .into_iter()
            .filter(Option::is_none)
            .count(),
        300,
    );
}

#[test]
fn reconcile_keeps_ids_of_unchanged_records() {
    let previous = vec![
        (b"a".to_vec(), "1".to_string()),
        (b"b".to_vec(), "2".to_string()),
        (b"c".to_vec(), "3".to_string()),
    ];
    let records = [b"x", b"a", b"c", b"y"]
        .iter()
        .map(|f| Record {
            execution: Execution::default(),
            fingerprint: f.to_vec(),
        })
        .collect::<Vec<_>>();
    assert_eq!(
        Database::reconcile(&previous, &records).unwrap(),
        [None, Some("1".to_string()), Some("3".to_string()), None],
    );
}

#[test]
fn unsupported_schema_is_rejected() {
    let connection = Connection::open_in_memory().unwrap();

    connection.execute_batch("PRAGMA user_version = 5").unwrap();

    let Err(error) = Database::from_connection(connection) else {
        panic!("expected unsupported schema to fail")
    };

    assert_eq!(
        error.message(),
        "database schema version 5 is unsupported; expected 1",
    );
}

#[test]
fn failed_migration_is_reported() {
    let connection = Connection::open_in_memory().unwrap();
    connection
        .execute_batch("CREATE TABLE executions (unrelated INTEGER)")
        .unwrap();

    let Err(error) = Database::from_connection(connection) else {
        panic!("expected the migration to fail")
    };

    assert!(matches!(error, honu::Error::Migration { version: 1, .. }));
    assert_eq!(error.message(), "failed to apply database migration 1");
}

#[test]
fn recent_rejects_stored_ids_that_are_not_uuids() {
    let database = memory();
    database
        .connection()
        .execute(
            "INSERT INTO executions (id, command, timestamp_ns) VALUES ('not-a-uuid', 'ls', 1)",
            [],
        )
        .unwrap();

    let Err(error) = database.recent(10) else {
        panic!("expected the stored ID to be rejected")
    };

    assert_eq!(error.message(), "invalid execution ID `not-a-uuid`");
}

#[test]
fn recent_returns_uuid_ids() {
    let database = memory();
    let id = database
        .insert(&Execution {
            command: "ls".into(),
            timestamp_ns: 1,
            ..Default::default()
        })
        .unwrap();

    let recent = database.recent(10).unwrap();

    assert_eq!(recent.len(), 1);
    assert_eq!(recent[0].0, id);
    assert_eq!(id.len(), 36);
    assert_eq!(id.matches('-').count(), 4);
}

#[test]
fn insert_rejects_invalid_directory() {
    let database = memory();
    let Err(error) = database.insert(&Execution {
        command: "ls".into(),
        timestamp_ns: 1,
        directory: Some(vec![0xff, 0xfe]),
        ..Default::default()
    }) else {
        panic!("expected the directory to be rejected")
    };

    assert_eq!(error.message(), "execution directory is not valid UTF-8");
    assert!(!database.has_executions().unwrap());
}

#[test]
fn import_rolls_back_complete_batch_on_iterator_failure() {
    let database = memory();

    let mut progress = Vec::new();

    let error = database
        .import(
            "test",
            b"foo",
            Err(honu::Error::Sqlite {
                message: "bar".into(),
            }),
            |tally| progress.push((tally.processed, tally.inserted)),
        )
        .unwrap_err();

    assert_eq!(
        (error.message(), progress, database.recent(20).unwrap()),
        ("bar".to_string(), Vec::new(), Vec::new()),
    );
}

#[test]
fn clear_purges_database_and_wal() {
    let root = tempfile::tempdir().unwrap();

    let path = root.path().join("foo.db");
    let wal = root.path().join("foo.db-wal");

    let database = Database::open(path.to_str().unwrap()).unwrap();

    let pragma = |name| {
        database
            .connection()
            .pragma_query_value(None, name, |row| row.get::<_, i64>(0))
            .unwrap()
    };

    database
        .connection()
        .execute_batch(
            "PRAGMA secure_delete = OFF;
            CREATE TABLE foo (bar BLOB);
            INSERT INTO foo VALUES (ZEROBLOB(65536));
            DROP TABLE foo;",
        )
        .unwrap();

    assert_eq!(
        (
            pragma("secure_delete"),
            pragma("freelist_count") > 0,
            wal.metadata().unwrap().len() > 0,
        ),
        (0, true, true),
    );

    database.clear().unwrap();

    assert_eq!(
        (
            pragma("secure_delete"),
            pragma("freelist_count"),
            wal.metadata().unwrap().len(),
        ),
        (1, 0, 0),
    );
}

#[test]
fn clear_reports_busy_wal() {
    let root = tempfile::tempdir().unwrap();

    let path = root.path().join("foo.db");

    let database = Database::open(path.to_str().unwrap()).unwrap();

    database
        .insert(&Execution {
            command: "foo".into(),
            ..Default::default()
        })
        .unwrap();

    let reader = Connection::open(&path).unwrap();

    reader.execute_batch("BEGIN").unwrap();

    assert_eq!(
        reader
            .query_row("SELECT command FROM executions", [], |row| {
                row.get::<_, String>(0)
            })
            .unwrap(),
        "foo",
    );

    database
        .connection()
        .busy_timeout(std::time::Duration::ZERO)
        .unwrap();

    assert_eq!(
        database.clear().unwrap_err().message(),
        "failed to truncate database write-ahead log because it is busy",
    );
}

#[test]
fn record() {
    let database = memory();

    let execution = Execution {
        command: "foo".into(),
        directory: Some("/foo".into()),
        duration_ns: Some(2),
        exit_code: Some(0),
        hostname: Some("foo".into()),
        session: Some("bar".into()),
        shell: Some("zsh".into()),
        timestamp_ns: 1,
    };

    let id = database.insert(&execution).unwrap();

    assert_eq!(database.recent(10).unwrap(), [(id, execution)]);
}

#[test]
fn list() {
    let database = memory();

    database
        .insert(&Execution {
            command: "foo".into(),
            exit_code: Some(1),
            timestamp_ns: 1,
            ..Default::default()
        })
        .unwrap();
    database
        .insert(&Execution {
            command: "bar".into(),
            exit_code: Some(0),
            timestamp_ns: 2,
            ..Default::default()
        })
        .unwrap();

    let output = |limit| {
        database
            .recent(limit)
            .unwrap()
            .into_iter()
            .map(|(_, execution)| execution.listing() + "\n")
            .collect::<String>()
    };

    assert_eq!(output(50), "2\t0\tbar\n1\t1\tfoo\n");
    assert_eq!(output(1), "2\t0\tbar\n");
    assert_eq!(output(0), "");
}

#[test]
fn listing_leaves_unknown_exit_code_empty() {
    assert_eq!(
        Execution {
            command: "foo bar".into(),
            timestamp_ns: -3,
            ..Default::default()
        }
        .listing(),
        "-3\t\tfoo bar",
    );
}

#[test]
fn empty() {
    assert!(!memory().has_executions().unwrap());
}

#[test]
fn backup_is_usable_application_database() {
    let root = tempfile::tempdir().unwrap();

    let original = Database::open(root.path().join("history.db").to_str().unwrap()).unwrap();

    let history = |database: &Database, contents: &str| {
        Shell::Zsh
            .import(database, b"history", contents.as_bytes(), |_| {})
            .unwrap()
    };

    assert_eq!(history(&original, "foo\n"), 1);

    let path = root.path().join("backup.db");

    original.backup(path.to_str().unwrap()).unwrap();

    let backup = Database::open(path.to_str().unwrap()).unwrap();

    assert_eq!(history(&backup, "foo\n"), 0);
    assert_eq!(history(&backup, "foo\nbar\n"), 1);

    assert_eq!(original.recent(10).unwrap().len(), 1);
    assert_eq!(backup.recent(10).unwrap().len(), 2);
}

#[test]
fn connections_use_the_write_ahead_log_and_foreign_keys() {
    let pragmas = honu::database::connection_pragmas();
    assert_eq!(pragmas.len(), 2);
    assert_eq!(pragmas[0].0, "journal_mode");
    assert!(matches!(&pragmas[0].1, honu::sqlite::SqlValue::Text(t) if t == "WAL"));
    assert_eq!(pragmas[1].0, "foreign_keys");
    assert!(matches!(pragmas[1].1, honu::sqlite::SqlValue::Integer(1)));

    let database = memory();
    let foreign_keys: i64 = database
        .connection()
        .pragma_query_value(None, "foreign_keys", |row| row.get(0))
        .unwrap();
    assert_eq!(foreign_keys, 1);
    let version: i64 = database
        .connection()
        .pragma_query_value(None, "user_version", |row| row.get(0))
        .unwrap();
    assert_eq!(version, SCHEMA_VERSION as i64);
}

#[test]
fn only_a_fresh_database_is_migrated() {
    assert_eq!(honu::database::migrations(0).len(), 1);
    assert_eq!(honu::database::migrations(0)[0].version, 1);
    assert!(honu::database::migrations(1).is_empty());
}

#[test]
fn inserted_ids_are_uuids() {
    let database = memory();
    let id = database
        .insert(&Execution {
            command: "ls".into(),
            ..Default::default()
        })
        .unwrap();
    assert!(id.len() == 36 && id.chars().filter(|c| *c == '-').count() == 4);
}

#[test]
fn plan_discards_a_superseded_import() {
    let records = vec![make_record("foo", 1, b"foo")];
    assert!(matches!(Database::plan(1, 2, &Vec::new(), &records), Ok(None)));
}

#[test]
fn plan_takes_over_ids_of_unchanged_records() {
    let previous = vec![(b"foo".to_vec(), "1".to_string()), (b"bar".to_vec(), "2".to_string())];
    let records = vec![
        make_record("foo", 1, b"foo"),
        make_record("bar", 2, b"bar"),
        make_record("baz", 3, b"baz"),
    ];
    let ids = Database::plan(3, 3, &previous, &records).unwrap().unwrap();
    assert_eq!(ids, [Some("1".to_string()), Some("2".to_string()), None]);
}

#[test]
fn snapshot_pairs_fingerprints_with_ids() {
    let records = vec![make_record("foo", 1, b"foo"), make_record("bar", 2, b"bar")];
    let ids = vec!["1".to_string(), "2".to_string()];
    assert_eq!(
        honu::database::snapshot(&records, &ids),
        [(b"foo".to_vec(), "1".to_string()), (b"bar".to_vec(), "2".to_string())],
    );
}

#[test]
fn checkpoint_busy_flag_decides_clear() {
    assert!(Database::checkpoint_result(false).is_ok());
    assert_eq!(
        Database::checkpoint_result(true).unwrap_err().message(),
        "failed to truncate database write-ahead log because it is busy",
    );
}

#[test]
fn rows_stop_at_the_first_error() {
    let (values, error) = honu::rows::split_at_error(vec![
        Ok(1),
        Ok(2),
        Err(honu::Error::Sqlite {
            message: "bad".into(),
        }),
        Ok(3),
    ]);
    assert_eq!(values, [1, 2]);
    assert_eq!(error.unwrap().message(), "bad");
    let (values, error) = honu::rows::split_at_error::<i32>(vec![Ok(4)]);
    assert_eq!(values, [4]);
    assert!(error.is_none());
}

#[test]
fn executions_are_checked_in_order() {
    let uuid = "67e55044-10b1-426f-9247-bb680e5fe0c8".to_string();
    let execution = Execution {
        command: "ls".into(),
        ..Default::default()
    };
    let rows = vec![
        Ok((uuid.clone(), execution.clone())),
        Ok(("nope".to_string(), execution.clone())),
        Err(honu::Error::Sqlite {
            message: "bad".into(),
        }),
    ];
    assert_eq!(
        honu::rows::check_executions(rows).unwrap_err().message(),
        "invalid execution ID `nope`",
    );
    assert_eq!(
        honu::rows::check_executions(vec![Ok((uuid.clone(), execution.clone()))]).unwrap(),
        [(uuid, execution)],
    );
}

#[test]
fn backups_overwrite_only_when_forced() {
    assert!(honu::database::may_write_backup(false, false));
    assert!(!honu::database::may_write_backup(false, true));
    assert!(honu::database::may_write_backup(true, true));
}
