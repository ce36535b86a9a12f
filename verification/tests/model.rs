use honu::{
    batching::{Batching, BATCH_SIZE},
    choice::{Choice, DEFAULT_DIRECTORY_WIDTH},
    command::path_file_name,
    truncate::Truncate,
    Command, Error, Execution,
};

const NOW: i64 = 2_000_000_000_000_000_000;

#[test]
fn directory_name() {
    fn case(directory: Option<&str>, expected: Option<&str>) {
        assert_eq!(
            Command {
                directory: directory.map(|d| d.as_bytes().to_vec()),
                ..Default::default()
            }
            .directory_name()
            .as_deref(),
            expected,
        );
    }

    case(None, None);
    case(Some("foo/bar"), Some("bar"));
    case(Some("/"), Some("/"));
}

#[test]
fn file_name_follows_path_components() {
    fn case(path: &str, expected: Option<&str>) {
        assert_eq!(path_file_name(path.as_bytes()), expected.map(str::as_bytes));
    }

    case("", None);
    case("foo", Some("foo"));
    case("foo/bar/", Some("bar"));
    case("foo/.", Some("foo"));
    case("foo/./", Some("foo"));
    case(".", None);
    case("..", None);
    case("foo/..", None);
    case("/foo", Some("foo"));
    case("//", None);
    case("./foo", Some("foo"));
}

#[test]
fn directory() {
    assert_eq!(Execution::default().directory().unwrap(), None);

    assert_eq!(
        Execution {
            directory: Some("foo".into()),
            ..Default::default()
        }
        .directory()
        .unwrap(),
        Some("foo"),
    );
}

#[test]
fn invalid_directory_is_rejected() {
    assert!(matches!(
        Execution {
            directory: Some(vec![b'a', 0xFF]),
            ..Default::default()
        }
        .directory(),
        Err(Error::InvalidExecutionDirectory),
    ));
}

#[test]
fn truncate() {
    fn case(input: &str, width: usize, expected: &str) {
        assert_eq!(input.truncate(width), expected);
    }

    case("foo", 3, "foo");
    case("foobar", 4, "foo…");
    case("foo界界", 6, "foo界…");
    case("foo界界", 5, "foo…");
    case("foo", 0, "");
}

fn choice(command: Command) -> Choice {
    Choice {
        command,
        directory_width: DEFAULT_DIRECTORY_WIDTH,
        now_ns: NOW,
    }
}

#[test]
fn display_ellipsizes_directory_by_terminal_width() {
    fn case(directory: &str, expected: &str) {
        assert_eq!(
            choice(Command {
                directory: Some(directory.into()),
                ..Default::default()
            })
            .directory(),
            expected,
        );
    }

    case("/foobarbazfoobarbaz", "foobarbazfoobar…");
    case("/foo界界界界界界界", "foo界界界界界界…");
}

#[test]
fn display_hides_zero_exit_code_and_uses_cwd_basename() {
    assert_eq!(
        choice(Command {
            directory: Some("/foo/baz".into()),
            exit_code: Some(0),
            text: "bar".into(),
            timestamp_ns: NOW - 8 * 60 * 1_000_000_000,
        })
        .row(),
        "  8m  baz                      bar",
    );
}

#[test]
fn display_keeps_multiline_commands_on_one_row() {
    assert_eq!(
        choice(Command {
            text: "foo\n\tbar".into(),
            timestamp_ns: NOW,
            ..Default::default()
        })
        .row(),
        "  0s                           foo  bar",
    );
}

#[test]
fn display_shows_nonzero_exit_code() {
    assert_eq!(
        choice(Command {
            directory: Some("/foo".into()),
            exit_code: Some(-1),
            text: "bar".into(),
            timestamp_ns: NOW - 12_000_000_000,
        })
        .row(),
        " 12s  foo" .to_string() + &" ".repeat(15) + "[-1]   bar",
    );
}

#[test]
fn relative_age_uses_compact_units() {
    fn case(age_seconds: i64, expected: &str) {
        assert_eq!(
            choice(Command {
                timestamp_ns: NOW - age_seconds * 1_000_000_000,
                ..Default::default()
            })
            .relative_age(),
            expected,
        );
    }

    case(12, "12s");
    case(8 * 60, "8m");
    case(3 * 60 * 60, "3h");
    case(4 * 24 * 60 * 60, "4d");
    case(5 * 30 * 24 * 60 * 60, "5mo");
    case(2 * 365 * 24 * 60 * 60, "2y");

    assert_eq!(
        choice(Command {
            timestamp_ns: NOW + 1,
            ..Default::default()
        })
        .relative_age(),
        "0s",
    );

    assert_eq!(
        choice(Command {
            timestamp_ns: 1,
            ..Default::default()
        })
        .relative_age(),
        "",
    );
}

#[test]
fn skim_item_matches_and_outputs_original_command() {
    let item = choice(Command {
        directory: Some("/baz".into()),
        exit_code: Some(1),
        text: "foo\nbar".into(),
        ..Default::default()
    });

    assert_eq!(item.text(), "foo\nbar");
    assert_eq!(item.output(), "foo\nbar");
}

#[test]
fn error_messages() {
    assert_eq!(
        Error::UnsupportedSchema { version: -3 }.message(),
        "database schema version -3 is unsupported; expected 1",
    );
    assert_eq!(
        Error::TimestampOverflow { line: 12 }.message(),
        "timestamp on history line 12 overflows nanoseconds",
    );
}

#[test]
fn decimal_numerals() {
    assert_eq!(honu::text::u64_to_decimal(0), "0");
    assert_eq!(honu::text::u64_to_decimal(1234567890), "1234567890");
    assert_eq!(honu::text::u64_to_decimal(u64::MAX), "18446744073709551615");
}

#[test]
fn display_aligns_age_directory_command_and_nonzero_exit_code() {
    let item = choice(Command {
        directory: Some("/foo".into()),
        exit_code: Some(1),
        text: "bar".into(),
        timestamp_ns: NOW - 12_000_000_000,
    });

    assert_eq!(
        item.metadata(),
        format!(" 12s  {:<width$}  ", "foo", width = DEFAULT_DIRECTORY_WIDTH),
    );
    assert_eq!(item.exit_code_column(), "[1]    ");
    assert_eq!(item.command_text(), "bar");
}

#[test]
fn display_preserves_empty_metadata_columns() {
    let item = choice(Command {
        text: "foo".into(),
        timestamp_ns: 1,
        ..Default::default()
    });

    assert_eq!(item.row(), "                               foo");
    assert_eq!(
        item.metadata() + &item.exit_code_column() + &item.command_text(),
        "                               foo",
    );
}

#[test]
fn search_sends_the_first_command_alone_then_full_batches() {
    let mut batching = Batching::new();
    assert!(!batching.has_pending());
    assert!(batching.push());
    assert!(!batching.has_pending());
    for _ in 1..BATCH_SIZE {
        assert!(!batching.push());
        assert!(batching.has_pending());
    }
    assert!(batching.push());
    assert!(!batching.has_pending());
    assert!(!batching.push());
    assert!(batching.has_pending());
}
