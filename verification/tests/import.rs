use honu::{
    database::Database,
    init::{BASH_INIT, FISH_INIT, ZSH_INIT},
    shell::{import_summary, Shell},
    Execution,
};

fn import(database: &Database, shell: Shell, path: &str, history: &str) -> String {
    let inserted = shell
        .import(database, path.as_bytes(), history.as_bytes(), |_| {})
        .unwrap();
    format!("{}\n", import_summary(inserted, path))
}

fn executions(database: &Database) -> Vec<Execution> {
    let mut statement = database
        .connection()
        .prepare(
            "SELECT command, timestamp_ns, duration_ns, exit_code, directory, session, hostname, shell FROM executions ORDER BY timestamp_ns, id",
        )
        .unwrap();
    statement
        .query_map([], |row| {
            Ok(Execution {
                command: row.get(0)?,
                timestamp_ns: row.get(1)?,
                duration_ns: row.get(2)?,
                exit_code: row.get(3)?,
                directory: row.get::<_, Option<String>>(4)?.map(String::into_bytes),
                session: row.get(5)?,
                hostname: row.get(6)?,
                shell: row.get(7)?,
            })
        })
        .unwrap()
        .collect::<rusqlite::Result<Vec<_>>>()
        .unwrap()
}

fn execution_count(database: &Database) -> i64 {
    database
        .connection()
        .query_row("SELECT COUNT(*) FROM executions", [], |row| row.get(0))
        .unwrap()
}

fn execution_id(database: &Database, command: &str) -> String {
    database
        .connection()
        .query_row(
            "SELECT id FROM executions WHERE command = ?1",
            [command],
            |row| row.get(0),
        )
        .unwrap()
}

fn execution(shell: &str, command: &str, timestamp_ns: i64, duration_ns: Option<i64>) -> Execution {
    Execution {
        command: command.into(),
        timestamp_ns,
        duration_ns,
        shell: Some(shell.into()),
        ..Default::default()
    }
}

#[test]
fn bash() {
    let database = Database::open_in_memory().unwrap();
    assert_eq!(
        import(
            &database,
            Shell::Bash,
            "history",
            "#1700000000\nfor foo in bar; do\n  echo \"$foo\"\ndone\n#1700000001\ncargo test\n",
        ),
        "imported 2 executions from history\n",
    );
    assert_eq!(
        executions(&database),
        [
            execution(
                "bash",
                "for foo in bar; do\n  echo \"$foo\"\ndone",
                1_700_000_000_000_000_000,
                None,
            ),
            execution("bash", "cargo test", 1_700_000_001_000_000_000, None),
        ],
    );
}

#[test]
fn fish() {
    let database = Database::open_in_memory().unwrap();
    assert_eq!(
        import(
            &database,
            Shell::Fish,
            "history",
            "- cmd: git status\n  when: 1700000000\n- cmd: for foo in bar\\n    echo $foo\\nend\n  when: 1700000001\n  paths:\n    - /foo\n",
        ),
        "imported 2 executions from history\n",
    );
    assert_eq!(
        executions(&database),
        [
            execution("fish", "git status", 1_700_000_000_000_000_000, None),
            execution(
                "fish",
                "for foo in bar\n    echo $foo\nend",
                1_700_000_001_000_000_000,
                None,
            ),
        ],
    );
}

#[test]
fn zsh() {
    let database = Database::open_in_memory().unwrap();
    assert_eq!(
        import(
            &database,
            Shell::Zsh,
            "history",
            "git status\n: 1700000000:2;cargo test\n",
        ),
        "imported 2 executions from history\n",
    );
    assert_eq!(
        executions(&database),
        [
            execution("zsh", "git status", 1, None),
            execution("zsh", "cargo test", 1_700_000_000_000_000_000, Some(2_000_000_000)),
        ],
    );
}

#[test]
fn idempotent() {
    fn case(shell: Shell, history: &str) {
        let database = Database::open_in_memory().unwrap();
        assert_eq!(
            import(&database, shell, "history", history),
            "imported 2 executions from history\n",
        );
        assert_eq!(
            import(&database, shell, "history", history),
            "imported 0 executions from history\n",
        );
        assert_eq!(execution_count(&database), 2);
    }

    case(Shell::Bash, "#1\nfoo\n#2\nbar\n");
    case(Shell::Fish, "- cmd: foo\n  when: 1\n- cmd: bar\n  when: 2\n");
    case(Shell::Zsh, ": 1:0;foo\n: 2:0;bar\n");
}

#[test]
fn parse_failure_does_not_partially_import() {
    let database = Database::open_in_memory().unwrap();
    assert_eq!(
        Shell::Bash
            .import(&database, b"history", b"#1\nfoo\n#9223372037\nbar\n", |_| {})
            .unwrap_err()
            .message(),
        "timestamp on history line 3 overflows nanoseconds",
    );
    assert_eq!(execution_count(&database), 0);
    assert_eq!(
        import(&database, Shell::Bash, "history", "#1\nfoo\n#2\nbar\n"),
        "imported 2 executions from history\n",
    );
    assert_eq!(execution_count(&database), 2);
}

#[test]
fn reconciles_insertions_with_existing_executions() {
    let database = Database::open_in_memory().unwrap();
    assert_eq!(
        import(&database, Shell::Zsh, "history", "foo\nbar\n"),
        "imported 2 executions from history\n",
    );
    let foo = execution_id(&database, "foo");
    let bar = execution_id(&database, "bar");
    assert_eq!(
        import(&database, Shell::Zsh, "history", "baz\nfoo\nqux\nbar\n"),
        "imported 2 executions from history\n",
    );
    assert_eq!(
        executions(&database),
        [
            execution("zsh", "baz", 1, None),
            execution("zsh", "foo", 2, None),
            execution("zsh", "qux", 3, None),
            execution("zsh", "bar", 4, None),
        ],
    );
    assert_eq!(execution_id(&database, "foo"), foo);
    assert_eq!(execution_id(&database, "bar"), bar);
}

#[test]
fn truncated_records_are_retained() {
    let database = Database::open_in_memory().unwrap();
    assert_eq!(
        import(&database, Shell::Zsh, "history", "foo\nbar\nbaz\n"),
        "imported 3 executions from history\n",
    );
    let bar = execution_id(&database, "bar");
    let baz = execution_id(&database, "baz");
    assert_eq!(
        import(&database, Shell::Zsh, "history", "bar\nbaz\n"),
        "imported 0 executions from history\n",
    );
    assert_eq!(execution_count(&database), 3);
    assert_eq!(execution_id(&database, "bar"), bar);
    assert_eq!(execution_id(&database, "baz"), baz);
}

#[test]
fn history_paths_default_per_shell() {
    let home = Some(b"/home/foo".to_vec());
    assert_eq!(
        Shell::Zsh.history_path(None, None, home.clone()).unwrap(),
        b"/home/foo/.zsh_history",
    );
    assert_eq!(
        Shell::Bash.history_path(None, Some(b"/data".to_vec()), home.clone()).unwrap(),
        b"/home/foo/.bash_history",
    );
    assert_eq!(
        Shell::Fish.history_path(None, Some(b"/data/".to_vec()), home.clone()).unwrap(),
        b"/data/fish/fish_history",
    );
    assert_eq!(
        Shell::Fish.history_path(None, Some(Vec::new()), home.clone()).unwrap(),
        b"/home/foo/.local/share/fish/fish_history",
    );
    assert_eq!(
        Shell::Bash.history_path(Some(b"h".to_vec()), None, None).unwrap(),
        b"h",
    );
    assert_eq!(
        Shell::Zsh.history_path(None, None, Some(Vec::new())).unwrap_err().message(),
        "failed to determine zsh history path; pass --path or set HOME",
    );
    assert_eq!(
        Shell::Fish.history_path(None, None, None).unwrap_err().message(),
        "failed to determine fish history path; pass --path or set XDG_DATA_HOME or HOME",
    );
}

#[test]
fn import_summary_counts_executions() {
    assert_eq!(import_summary(1, "foo"), "imported 1 execution from foo");
    assert_eq!(import_summary(0, "foo"), "imported 0 executions from foo");
}

#[test]
fn appended_records_are_the_only_new_ones() {
    let database = Database::open_in_memory().unwrap();
    assert_eq!(
        import(&database, Shell::Bash, "history", "foo\n"),
        "imported 1 execution from history\n",
    );
    let foo = execution_id(&database, "foo");
    assert_eq!(
        import(&database, Shell::Bash, "history", "foo\nbar\nbaz\n"),
        "imported 2 executions from history\n",
    );
    assert_eq!(execution_count(&database), 3);
    assert_eq!(execution_id(&database, "foo"), foo);
}

fn count(database: &Database, shell: Shell, path: &str, history: &str) -> usize {
    shell
        .import(database, path.as_bytes(), history.as_bytes(), |_| {})
        .unwrap()
}

#[test]
fn distinct_sources_are_tracked_independently() {
    let database = Database::open_in_memory().unwrap();
    assert_eq!(count(&database, Shell::Zsh, "foo", "bar\n"), 1);
    assert_eq!(count(&database, Shell::Zsh, "baz", "bar\n"), 1);
    assert_eq!(count(&database, Shell::Zsh, "foo", "bar\n"), 0);
    assert_eq!(count(&database, Shell::Zsh, "baz", "bar\n"), 0);
    assert_eq!(execution_count(&database), 2);
}

#[test]
fn failed_parse_imports_nothing() {
    let database = Database::open_in_memory().unwrap();
    let result = Shell::Zsh.import(
        &database,
        b"history",
        b"foo\n: 9223372037:0;bar\n",
        |_| {},
    );
    assert!(result.is_err());
    assert_eq!(execution_count(&database), 0);
}

#[test]
fn clear() {
    let database = Database::open_in_memory().unwrap();
    assert_eq!(
        import(&database, Shell::Zsh, "history", "foo\n"),
        "imported 1 execution from history\n",
    );
    let id = execution_id(&database, "foo");

    database.clear().unwrap();
    assert!(executions(&database).is_empty());

    assert_eq!(
        import(&database, Shell::Zsh, "history", "foo\n"),
        "imported 1 execution from history\n",
    );
    assert_eq!(executions(&database).len(), 1);
    assert_ne!(execution_id(&database, "foo"), id);
}

#[test]
fn repeated_commands_are_reconciled_by_occurrence() {
    let database = Database::open_in_memory().unwrap();
    assert_eq!(count(&database, Shell::Zsh, "history", "foo\nfoo\n"), 2);
    assert_eq!(count(&database, Shell::Zsh, "history", "foo\nfoo\nfoo\n"), 1);
    assert_eq!(count(&database, Shell::Zsh, "history", "foo\nfoo\nfoo\n"), 0);
}

#[test]
fn history_truncated_at_its_end_adds_nothing() {
    let database = Database::open_in_memory().unwrap();
    assert_eq!(count(&database, Shell::Bash, "history", "foo\nbar\nbaz\n"), 3);
    assert_eq!(count(&database, Shell::Bash, "history", "foo\nbar\n"), 0);
    assert_eq!(execution_count(&database), 3);
}

#[test]
fn select_prefers_argument_then_configuration_then_program() {
    assert_eq!(Shell::select(Some(Shell::Fish), Some(Shell::Zsh), b"/bin/bash"), Some(Shell::Fish));
    assert_eq!(Shell::select(None, Some(Shell::Zsh), b"/bin/bash"), Some(Shell::Zsh));
    assert_eq!(Shell::select(None, None, b"/bin/bash"), Some(Shell::Bash));
    assert_eq!(Shell::select(None, None, b"/bin/sh"), None);
}

#[test]
fn records_are_tagged_with_their_shell() {
    let records = Shell::Fish.records(b"- cmd: foo\n  when: 1\n").unwrap();
    let tagged = honu::shell::tag_records(records.clone(), "fish");
    assert_eq!(tagged.len(), 1);
    assert_eq!(tagged[0].execution.shell.as_deref(), Some("fish"));
    assert_eq!(tagged[0].execution.command, records[0].execution.command);
    assert_eq!(tagged[0].fingerprint, records[0].fingerprint);
}

#[test]
fn shells() {
    for (shell, script, name) in [
        (Shell::Bash, BASH_INIT, "bash"),
        (Shell::Fish, FISH_INIT, "fish"),
        (Shell::Zsh, ZSH_INIT, "zsh"),
    ] {
        assert_eq!(shell.init(), script);
        assert!(script.contains(&format!("--shell {name}")));
        assert!(script.contains("honu search"));
    }
}

#[test]
fn detect_reads_the_program_name() {
    assert_eq!(Shell::detect(b"/bin/bash"), Some(Shell::Bash));
    assert_eq!(Shell::detect(b"/usr/local/bin/fish"), Some(Shell::Fish));
    assert_eq!(Shell::detect(b"zsh"), Some(Shell::Zsh));
    assert_eq!(Shell::detect(b"/usr/bin/zsh/"), Some(Shell::Zsh));
    assert_eq!(Shell::detect(b"/bin/sh"), None);
    assert_eq!(Shell::detect(b"/bin/bash5"), None);
    assert_eq!(Shell::detect(b""), None);
    assert_eq!(Shell::detect(b"/bin/.."), None);
}

#[test]
fn import_records_are_tagged_history() {
    let records = Shell::Bash.import_records(b"#1\nfoo\n").unwrap();
    assert_eq!(records.len(), 1);
    assert_eq!(records[0].execution.shell.as_deref(), Some("bash"));
    assert_eq!(records[0].execution.command, "foo");
    assert!(Shell::Bash.import_records(b"#9223372037\nfoo\n").is_err());
}
