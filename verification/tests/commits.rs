use gitapi::{last_commit_of_log, parse_commit_stream, parse_record, GitApiError, LogFormat};

#[test]
fn delimited_stream_two_records_in_order() {
    // Two records separated by 0x1E, fields separated by 0x1F in the
    // order hash, author, email, date, parents, message.
    let text = "\u{1e}abc123def456\u{1f}Jane Doe\u{1f}jane@example.com\u{1f}2024-01-02T10:00:00+00:00\u{1f}aaa111\u{1f}Initial commit\n\u{1e}fedcba987654\u{1f}John Roe\u{1f}john@example.com\u{1f}2024-01-01T09:30:00+00:00\u{1f}bbb222\u{1f}Second commit\nbody continues\n";
    let commits = parse_commit_stream(text, LogFormat::Delimited).unwrap();
    assert_eq!(commits.len(), 2);
    assert_eq!(commits[0].hash, "abc123");
    assert_eq!(commits[0].author, "Jane Doe");
    assert_eq!(commits[0].author_email, "jane@example.com");
    assert_eq!(commits[0].date, "01/02/2024 10:00");
    assert_eq!(commits[0].msg, "Initial commit");
    assert_eq!(commits[1].hash, "fedcba");
    assert_eq!(commits[1].msg, "Second commit");
}

#[test]
fn delimited_record_takes_first_message_line() {
    let rec = "abcdef012345\u{1f}A B\u{1f}a@b.c\u{1f}2024-01-02T10:00:00+00:00\u{1f}p\u{1f}first line\u{1f}still first field group\nsecond line";
    let c = parse_record(rec).unwrap();
    // Everything after the parents field is rejoined before the first
    // line is taken.
    assert_eq!(c.msg, "first line\u{1f}still first field group");
}

#[test]
fn delimited_short_hash_is_parse_error() {
    let rec = "abc\u{1f}A\u{1f}a@b.c\u{1f}2024-01-02T10:00:00+00:00\u{1f}p\u{1f}m";
    assert!(matches!(parse_record(rec), Err(GitApiError::ParseError)));
}

#[test]
fn delimited_bad_date_is_date_error() {
    let rec = "abcdef012345\u{1f}A\u{1f}a@b.c\u{1f}yesterday\u{1f}p\u{1f}m";
    assert!(matches!(parse_record(rec), Err(GitApiError::DateParseError)));
}

#[test]
fn block_stream_plain_commit() {
    // Date on line 2, message on line 4.
    let text = "commit abc123def456\nAuthor: Jane Doe <jane@example.com>\nDate:   Tue Jan 2 10:00:00 2024 +0000\n\n    Initial commit\n";
    let commits = parse_commit_stream(text, LogFormat::Block).unwrap();
    assert_eq!(commits.len(), 1);
    assert_eq!(commits[0].hash, "abc123");
    assert_eq!(commits[0].author, "Jane Doe");
    assert_eq!(commits[0].author_email, "jane@example.com");
    assert_eq!(commits[0].date, "01/02/2024 10:00");
    assert_eq!(commits[0].msg, "Initial commit");
}

#[test]
fn block_stream_merge_commit_shifts_date_and_message() {
    // A merge-parents header pushes the date to line 3 and the message
    // to line 5; the layout is detected by the absence of `Date:` on
    // line 2.
    let text = "commit abc123def456\nAuthor: Jane Doe <jane@example.com>\nMerge: 1111111 2222222\nDate:   Tue Jan 2 10:00:00 2024 +0000\n\n    Merge branch 'feature'\n";
    let commits = parse_commit_stream(text, LogFormat::Block).unwrap();
    assert_eq!(commits.len(), 1);
    assert_eq!(commits[0].hash, "abc123");
    assert_eq!(commits[0].date, "01/02/2024 10:00");
    assert_eq!(commits[0].msg, "Merge branch 'feature'");
}

#[test]
fn block_stream_two_commits() {
    let text = "commit abc123def456\nAuthor: A B <a@b.c>\nDate:   Tue Jan 2 10:00:00 2024 +0000\n\n    Fix A\n\ncommit fedcba987654\nAuthor: C D <c@d.e>\nDate:   Mon Jan 1 09:00:00 2024 +0000\n\n    Fix B\n";
    let commits = parse_commit_stream(text, LogFormat::Block).unwrap();
    assert_eq!(commits.len(), 2);
    assert_eq!(commits[0].hash, "abc123");
    assert_eq!(commits[0].msg, "Fix A");
    assert_eq!(commits[1].hash, "fedcba");
    assert_eq!(commits[1].msg, "Fix B");
}

#[test]
fn block_stream_bad_author_line() {
    let text = "commit abc123def456\nAuthor: Jane Doe\nDate:   Tue Jan 2 10:00:00 2024 +0000\n\n    msg\n";
    assert!(matches!(
        parse_commit_stream(text, LogFormat::Block),
        Err(GitApiError::AuthorParseError)
    ));
}

#[test]
fn block_stream_leftover_lines_fail() {
    let text = "commit abc123def456\nAuthor: A B <a@b.c>\nDate:   Tue Jan 2 10:00:00 2024 +0000\n\n    Fix A\n\nstray line\n";
    assert!(matches!(
        parse_commit_stream(text, LogFormat::Block),
        Err(GitApiError::ParseError)
    ));
}

#[test]
fn empty_stream_is_empty() {
    let commits = parse_commit_stream("", LogFormat::Delimited).unwrap();
    assert_eq!(commits.len(), 0);
    let commits = parse_commit_stream("\n\n", LogFormat::Block).unwrap();
    assert_eq!(commits.len(), 0);
}

#[test]
fn last_commit_takes_first_nonblank_record() {
    let text = "\u{1e}abc123def456\u{1f}A\u{1f}a@b.c\u{1f}2024-01-02T10:00:00+00:00\u{1f}p\u{1f}newest\n\u{1e}fedcba987654\u{1f}B\u{1f}b@c.d\u{1f}2024-01-01T00:00:00+00:00\u{1f}p\u{1f}older\n";
    let c = last_commit_of_log(text).unwrap();
    assert_eq!(c.hash, "abc123");
    assert_eq!(c.msg, "newest");
}

#[test]
fn last_commit_of_empty_log_is_no_last_element() {
    assert!(matches!(
        last_commit_of_log(""),
        Err(GitApiError::NoLastElement)
    ));
    assert!(matches!(
        last_commit_of_log("  \n \n"),
        Err(GitApiError::NoLastElement)
    ));
}
