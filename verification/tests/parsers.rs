use honu::{record::Record, shell::Shell, Execution};

fn bash_records(history: &[u8]) -> Vec<Record> {
    Shell::Bash.records(history).unwrap()
}

#[test]
fn empty_input_and_records_are_ignored() {
    fn case(history: &[u8]) {
        assert_eq!(bash_records(history), Vec::new());
    }

    case(b"");
    case(b"\n");
    case(b"#1");
    case(b"#1\n#2");
}

#[test]
fn parser_history() {
    assert_eq!(
        bash_records(b"foo\n#1\nbar\nbaz\n#2\nqux\n"),
        vec![
            Record::new(
                Execution {
                    command: "foo".into(),
                    timestamp_ns: 1,
                    ..Default::default()
                },
                b"plain",
                &vec![b"foo".to_vec()],
            ),
            Record::new(
                Execution {
                    command: "bar\nbaz".into(),
                    timestamp_ns: 1_000_000_000,
                    ..Default::default()
                },
                b"timestamped",
                &vec![b"bar\nbaz".to_vec(), 1_000_000_000_i64.to_be_bytes().to_vec()],
            ),
            Record::new(
                Execution {
                    command: "qux".into(),
                    timestamp_ns: 2_000_000_000,
                    ..Default::default()
                },
                b"timestamped",
                &vec![b"qux".to_vec(), 2_000_000_000_i64.to_be_bytes().to_vec()],
            ),
        ],
    );

    assert_eq!(
        Shell::Fish
            .records(b"- cmd: foo\\nbar\\\\baz\n  when: 2\n  paths:\n    - /foo\n- cmd: qux\n  added_when: 1\n")
            .unwrap(),
        vec![
            Record::new(
                Execution {
                    command: "foo\nbar\\baz".into(),
                    timestamp_ns: 2_000_000_000,
                    ..Default::default()
                },
                b"timestamped",
                &vec![b"foo\nbar\\baz".to_vec(), 2_000_000_000_i64.to_be_bytes().to_vec()],
            ),
            Record::new(
                Execution {
                    command: "qux".into(),
                    timestamp_ns: 1,
                    ..Default::default()
                },
                b"plain",
                &vec![b"qux".to_vec()],
            ),
        ],
    );
}

#[test]
fn parser_invalid_utf8_is_lossy() {
    assert_eq!(bash_records(&[0xFF][..])[0].execution.command, "\u{FFFD}");
    assert_eq!(
        Shell::Fish.records(&b"- cmd: \xFF"[..]).unwrap()[0].execution.command,
        "\u{FFFD}",
    );
}

#[test]
fn non_timestamps_are_commands() {
    assert_eq!(
        bash_records(&b"#\n#foo"[..])
            .into_iter()
            .map(|record| record.execution.command)
            .collect::<Vec<_>>(),
        ["#", "#foo"],
    );
}

#[test]
fn timestamp_allows_trailing_text() {
    assert_eq!(
        bash_records(&b"#1foo\nbar"[..])[0].execution,
        Execution {
            command: "bar".into(),
            timestamp_ns: 1_000_000_000,
            ..Default::default()
        },
    );
}

#[test]
fn timestamp_integer_overflow() {
    assert_eq!(
        Shell::Bash
            .records(&b"#18446744073709551616\nfoo"[..])
            .unwrap_err()
            .message(),
        "timestamp on history line 1 overflows nanoseconds",
    );
}

#[test]
fn parser_timestamp_overflow() {
    assert_eq!(
        Shell::Bash.records(&b"#9223372037\nfoo"[..]).unwrap_err().message(),
        "timestamp on history line 1 overflows nanoseconds",
    );
    assert_eq!(
        Shell::Fish
            .records(&b"- cmd: foo\n  when: 9223372037"[..])
            .unwrap_err()
            .message(),
        "timestamp on history line 2 overflows nanoseconds",
    );
}

#[test]
fn invalid_records_are_ignored() {
    assert_eq!(
        Shell::Fish.records(b"foo\n  when: 1\n- cmd:\n  when: 2").unwrap(),
        Vec::new(),
    );
}

#[test]
fn invalid_timestamp_is_plain() {
    assert_eq!(
        Shell::Fish.records(&b"- cmd: foo\n  when: bar"[..]).unwrap()[0].execution,
        Execution {
            command: "foo".into(),
            timestamp_ns: 1,
            ..Default::default()
        },
    );
}

#[test]
fn bash_plain_lines_are_numbered_in_order() {
    let records = bash_records(b"foo\n\nbar\nfoo\n");
    assert_eq!(
        records
            .iter()
            .map(|record| (record.execution.command.as_str(), record.execution.timestamp_ns))
            .collect::<Vec<_>>(),
        [("foo", 1), ("bar", 2), ("foo", 3)],
    );
    assert_eq!(records[0].fingerprint, records[2].fingerprint);
    assert_ne!(records[0].fingerprint, records[1].fingerprint);
}

#[test]
fn fingerprint_frames_kind_and_parts() {
    let record = Record::new(Execution::default(), b"ab", &vec![b"c".to_vec()]);
    assert_eq!(
        record.fingerprint,
        [&[0, 0, 0, 0, 0, 0, 0, 2][..], b"ab", &[0, 0, 0, 0, 0, 0, 0, 1], b"c"].concat(),
    );
}

#[test]
fn fish_unescapes_and_stops_at_unknown_escape() {
    assert_eq!(
        Shell::Fish.records(b"- cmd: a\\\\b\\nc\\td").unwrap()[0].execution.command,
        "a\\b\nc",
    );
}

#[test]
fn fish_negative_and_signed_timestamps() {
    let records = Shell::Fish
        .records(b"- cmd: a\n  when: -2\n- cmd: b\n  when: +3\n- cmd: c\n  when: 4 \n")
        .unwrap();
    assert_eq!(
        records.iter().map(|r| r.execution.timestamp_ns).collect::<Vec<_>>(),
        [-2_000_000_000, 3_000_000_000, 1],
    );
}

#[test]
fn zsh_extended_and_plain_entries() {
    let records = Shell::Zsh
        .records(b"git status\n: 1700000000:2;cargo test\n: 5:0;for a in b; do\\\necho $a\\\ndone\n")
        .unwrap();
    assert_eq!(
        records.iter().map(|r| r.execution.clone()).collect::<Vec<_>>(),
        [
            Execution::bare("git status".into(), 1, None),
            Execution::bare("cargo test".into(), 1_700_000_000_000_000_000, Some(2_000_000_000)),
            Execution::bare("for a in b; do\necho $a\ndone".into(), 5_000_000_000, Some(0)),
        ],
    );
}

#[test]
fn zsh_metafied_bytes_are_restored() {
    let records = Shell::Zsh.records(&[b'a', 0x83, 0xA3, b'\n'][..]).unwrap();
    assert_eq!(records[0].execution.command, "a\u{FFFD}");
    let records = Shell::Zsh.records(&[b'a', 0x83, b'\n'][..]).unwrap();
    assert_eq!(records[0].execution.command, "a*");
}

#[test]
fn zsh_incomplete_metafied_byte_is_an_error() {
    assert_eq!(
        Shell::Zsh.records(&[b'a', b'\n', b'b', 0x83][..]).unwrap_err().message(),
        "zsh history ends with an incomplete metafied byte",
    );
    assert_eq!(
        Shell::Zsh
            .records(&b": 99999999999:0;a\nb\x83"[..])
            .unwrap_err()
            .message(),
        "timestamp on history line 1 overflows nanoseconds",
    );
}

#[test]
fn zsh_duration_overflow() {
    assert_eq!(
        Shell::Zsh.records(&b": 1:9223372037;a"[..]).unwrap_err().message(),
        "duration on history line 1 overflows nanoseconds",
    );
}
