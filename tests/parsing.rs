use commit_analyzer::{parse_log, Author, AuthorParseError, Commit, CommitParseError, LocDiff, LocParseError};

const JAN_2_2025_150405_UTC: i64 = 1735830245;

fn block(hash: &str, author: &str, message: &str, rows: &str) -> String {
    format!(
        "commit {}\nAuthor: {}\nDate:   Thu Jan 2 15:04:05 2025 +0000\n\n{}\n{}",
        hash, author, message, rows
    )
}

#[test]
fn author_parse_name_and_email() {
    let a = Author::parse("Jane Doe <jane@example.com>").unwrap();
    assert_eq!(a.name(), "Jane Doe");
    assert_eq!(a.email(), "jane@example.com");
}

#[test]
fn author_parse_trims_both_fields() {
    let a = Author::parse("  Jane Doe   <  jane@example.com >").unwrap();
    assert_eq!(a.name(), "Jane Doe");
    assert_eq!(a.email(), "jane@example.com");
}

#[test]
fn author_parse_empty_fields() {
    let a = Author::parse("<>").unwrap();
    assert_eq!(a.name(), "");
    assert_eq!(a.email(), "");
}

#[test]
fn author_parse_without_brackets_fails() {
    assert_eq!(Author::parse("no angle brackets").unwrap_err(), AuthorParseError::NameFailed);
}

#[test]
fn author_parse_without_closing_bracket_fails() {
    assert_eq!(Author::parse("Jane <jane@example.com").unwrap_err(), AuthorParseError::EmailFailed);
}

#[test]
fn author_parse_text_after_closing_bracket_fails() {
    assert_eq!(Author::parse("Jane <jane@example.com> x").unwrap_err(), AuthorParseError::EmailFailed);
}

#[test]
fn loc_parse_counts_and_net() {
    let d = LocDiff::parse("12\t3\tsrc/main.rs").unwrap();
    assert_eq!(d.added, Some(12));
    assert_eq!(d.removed, Some(3));
    assert_eq!(d.file(), "src/main.rs");
    assert_eq!(d.loc(), 9);
}

#[test]
fn loc_parse_binary_file_nets_zero() {
    let d = LocDiff::parse("-\t-\tbin/data.png").unwrap();
    assert_eq!(d.added, None);
    assert_eq!(d.removed, None);
    assert_eq!(d.loc(), 0);
}

#[test]
fn loc_parse_mixed_sentinel_counts_absent_side_as_zero() {
    assert_eq!(LocDiff::parse("-\t4\tf").unwrap().loc(), -4);
    assert_eq!(LocDiff::parse("7\t-\tf").unwrap().loc(), 7);
}

#[test]
fn loc_parse_one_tab_fails_second_tab_missing() {
    assert!(matches!(LocDiff::parse("5\tfile"), Err(LocParseError::SecondTabulatorMissing)));
}

#[test]
fn loc_parse_empty_removed_field_fails() {
    assert!(matches!(LocDiff::parse("5\t\tfile"), Err(LocParseError::RemovedParseError(_))));
}

#[test]
fn loc_parse_no_tab_fails_first_tab_missing() {
    assert!(matches!(LocDiff::parse("nothing here"), Err(LocParseError::FirstTabulatorMissing)));
}

#[test]
fn loc_parse_invalid_added_fails() {
    assert!(matches!(LocDiff::parse("x\t1\tf"), Err(LocParseError::AddedParseError(_))));
    assert!(matches!(LocDiff::parse("-3\t1\tf"), Err(LocParseError::AddedParseError(_))));
}

#[test]
fn loc_parse_count_limits() {
    assert_eq!(LocDiff::parse("4294967295\t0\tf").unwrap().added, Some(4294967295));
    assert!(matches!(LocDiff::parse("4294967296\t0\tf"), Err(LocParseError::AddedParseError(_))));
    assert_eq!(LocDiff::parse("+5\t1\tf").unwrap().added, Some(5));
}

#[test]
fn loc_parse_keeps_file_verbatim() {
    let d = LocDiff::parse("1\t2\t dir/a b.txt\t").unwrap();
    assert_eq!(d.file(), " dir/a b.txt\t");
}

#[test]
fn commit_parse_single_block() {
    let text = block(
        "abc123",
        "Jane Doe <jane@example.com>",
        "    Fix the parser.\n",
        "12\t3\tsrc/main.rs\n-\t-\tlogo.png\n",
    );
    let (c, rest) = Commit::parse(&text).unwrap();
    assert_eq!(rest, "");
    assert_eq!(c.commit(), "abc123");
    assert_eq!(c.author().name(), "Jane Doe");
    assert_eq!(c.author().email(), "jane@example.com");
    assert_eq!(c.message(), "Fix the parser.");
    assert_eq!(c.merge, None);
    assert_eq!(c.date().timestamp, JAN_2_2025_150405_UTC);
    assert_eq!(c.date().offset, 0);
    assert_eq!(c.locs.len(), 2);
    assert_eq!(c.locs[0].file(), "src/main.rs");
    assert_eq!(c.locs[0].loc(), 9);
    assert_eq!(c.locs[1].file(), "logo.png");
    assert_eq!(c.locs[1].added, None);
}

#[test]
fn commit_parse_date_keeps_offset() {
    let text = "commit a\nAuthor: A <a@b>\nDate:   Thu Jan 2 15:04:05 2025 +0130\n\n    m\n";
    let (c, _) = Commit::parse(text).unwrap();
    assert_eq!(c.date().offset, 5400);
    assert_eq!(c.date().timestamp, JAN_2_2025_150405_UTC - 5400);
}

#[test]
fn commit_parse_merge_commit() {
    let text = "commit m1\nMerge: aaa bbb\nAuthor: A <a@b>\nDate:   Thu Jan 2 15:04:05 2025 +0000\n\n    Merge branch\n\ncommit next\n";
    let (c, rest) = Commit::parse(text).unwrap();
    assert_eq!(c.merge.as_deref(), Some("aaa bbb"));
    assert_eq!(c.message(), "Merge branch");
    assert!(c.locs.is_empty());
    assert_eq!(rest, "commit next\n");
}

#[test]
fn commit_parse_two_paragraph_message() {
    let text = block(
        "p",
        "A <a@b>",
        "    First paragraph,\n    second line.\n    \n    Second paragraph.\n",
        "1\t1\tf.rs\n",
    );
    let (c, rest) = Commit::parse(&text).unwrap();
    assert_eq!(c.message(), "First paragraph,\nsecond line.\n\nSecond paragraph.");
    assert_eq!(c.locs.len(), 1);
    assert_eq!(rest, "");
}

#[test]
fn commit_parse_paragraphs_parted_by_empty_line() {
    let text = "commit p\nAuthor: A <a@b>\nDate:   Thu Jan 2 15:04:05 2025 +0000\n\n    One.\n\n    Two.\n\n1\t0\tx\n";
    let (c, _) = Commit::parse(text).unwrap();
    assert_eq!(c.message(), "One.\n\nTwo.");
    assert_eq!(c.locs.len(), 1);
}

#[test]
fn commit_parse_message_followed_directly_by_rows() {
    let text = "commit d\nAuthor: A <a@b>\nDate:   Thu Jan 2 15:04:05 2025 +0000\n\n    Msg\n3\t1\tf\n";
    let (c, rest) = Commit::parse(text).unwrap();
    assert_eq!(c.message(), "Msg");
    assert_eq!(c.locs.len(), 1);
    assert_eq!(c.locs[0].loc(), 2);
    assert_eq!(rest, "");
}

#[test]
fn commit_parse_keeps_deeper_indentation() {
    let text = "commit i\nAuthor: A <a@b>\nDate:   Thu Jan 2 15:04:05 2025 +0000\n\n    List:\n      - item\n";
    let (c, _) = Commit::parse(text).unwrap();
    assert_eq!(c.message(), "List:\n  - item");
}

#[test]
fn commit_parse_stops_rows_at_next_commit() {
    let text = format!(
        "{}{}",
        block("one", "A <a@b>", "    first\n", "1\t0\ta\n"),
        block("two", "B <b@c>", "    second\n", "")
    );
    let (c, rest) = Commit::parse(&text).unwrap();
    assert_eq!(c.commit(), "one");
    assert!(rest.starts_with("commit two\n"));
}

#[test]
fn commit_parse_errors() {
    assert!(matches!(Commit::parse("comit x\n"), Err(CommitParseError::CommitMissing)));
    assert!(matches!(Commit::parse("commit x"), Err(CommitParseError::CommitMissing)));
    assert!(matches!(Commit::parse("commit x\nMerge: a b"), Err(CommitParseError::Unknown)));
    assert!(matches!(Commit::parse("commit x\nDate:   y\n"), Err(CommitParseError::AuthorMissing)));
    assert!(matches!(
        Commit::parse("commit x\nAuthor: nobody\nDate:   y\n"),
        Err(CommitParseError::AuthorFailed(AuthorParseError::NameFailed))
    ));
    assert!(matches!(
        Commit::parse("commit x\nAuthor: A <a@b>\nDate: y\n"),
        Err(CommitParseError::DateMissing)
    ));
    assert!(matches!(
        Commit::parse("commit x\nAuthor: A <a@b>\nDate:   yesterday\n"),
        Err(CommitParseError::DateFailed(_))
    ));
    let bad_row = block("x", "A <a@b>", "    m\n", "1\tf\n");
    assert!(matches!(
        Commit::parse(&bad_row),
        Err(CommitParseError::LocFailed(LocParseError::SecondTabulatorMissing))
    ));
    let unterminated = block("x", "A <a@b>", "    m\n", "1\t2\tf");
    assert!(matches!(Commit::parse(&unterminated), Err(CommitParseError::LocSyntaxError)));
}

#[test]
fn parse_log_reads_all_blocks_in_order() {
    let text = format!(
        "{}\n{}\n{}",
        block("c3", "A <a@b>", "    third\n", "1\t0\ta\n"),
        block("c2", "A <a@b>", "    second\n", "2\t0\ta\n"),
        block("c1", "A <a@b>", "    first\n", "3\t0\ta\n"),
    );
    let (commits, err) = parse_log(&text);
    assert!(err.is_none());
    let ids: Vec<&str> = commits.iter().map(|c| c.commit()).collect();
    assert_eq!(ids, vec!["c3", "c2", "c1"]);
    let oldest_first: Vec<&str> = commits.iter().rev().map(|c| c.commit()).collect();
    assert_eq!(oldest_first, vec!["c1", "c2", "c3"]);
}

#[test]
fn parse_log_keeps_commits_before_an_error() {
    let text = format!("{}\ngarbage\n", block("ok", "A <a@b>", "    fine\n", "1\t0\ta\n"));
    let (commits, err) = parse_log(&text);
    assert_eq!(commits.len(), 1);
    assert!(matches!(err, Some(CommitParseError::CommitMissing)));
}

#[test]
fn parse_log_empty_input() {
    let (commits, err) = parse_log("");
    assert!(commits.is_empty());
    assert!(err.is_none());
}
