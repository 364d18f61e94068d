use commit_analyzer::{aggregate, Args, Author, Commit, CommitDate, Filter, InputMethod, LocDiff};

const T0: i64 = 1735830245;

fn commit(id: &str, name: &str, timestamp: i64, offset: i32, rows: Vec<LocDiff>) -> Commit {
    Commit {
        author: Author { email: format!("{}@example.com", id), name: name.to_string() },
        commit: id.to_string(),
        date: CommitDate { timestamp, offset },
        locs: rows,
        merge: None,
        message: format!("Message of {}", id),
    }
}

fn row(added: u32, removed: u32, file: &str) -> LocDiff {
    LocDiff { added: Some(added), removed: Some(removed), file: file.to_string() }
}

fn strings(v: &[&str]) -> Vec<String> {
    v.iter().map(|s| s.to_string()).collect()
}

#[test]
fn filter_author_equals_and_contains() {
    let jane = commit("a", "Jane Doe", T0, 0, vec![]);
    let other = commit("b", "Jane Doerr", T0, 0, vec![]);
    let mut f = Filter { author_equals: strings(&["Jane Doe"]), ..Default::default() };
    assert!(f.matches(&jane));
    assert!(!f.matches(&other));
    f.author_contains = strings(&["Doe"]);
    assert!(f.matches(&jane));
    f.author_equals = strings(&["Someone Else"]);
    assert!(!f.matches(&jane));
}

#[test]
fn filter_empty_accepts_everything() {
    let f = Filter::default();
    assert!(f.matches(&commit("a", "X", T0, 0, vec![])));
    assert!(f.check_loc(&row(1, 1, "Makefile")));
}

#[test]
fn filter_lists_are_disjunctions() {
    let c = commit("abc", "Jane", T0, 0, vec![]);
    let f = Filter { commit_contains: strings(&["zz", "bc"]), email_equals: strings(&["q", "abc@example.com"]), ..Default::default() };
    assert!(f.matches(&c));
    let g = Filter { email_contains: strings(&["nowhere"]), ..Default::default() };
    assert!(!g.matches(&c));
}

#[test]
fn filter_message_criteria() {
    let c = commit("m", "Jane", T0, 0, vec![]);
    let starts = Filter { message_starts_with: strings(&["Message"]), ..Default::default() };
    assert!(starts.matches(&c));
    let not_starts = Filter { message_starts_with: strings(&["of"]), ..Default::default() };
    assert!(!not_starts.matches(&c));
    let equals = Filter { message_equals: strings(&["Message of m"]), message_contains: strings(&["of"]), ..Default::default() };
    assert!(equals.matches(&c));
}

#[test]
fn filter_file_extension() {
    let f = Filter { file_extension: strings(&["rs", "toml"]), ..Default::default() };
    assert!(f.check_loc(&row(1, 0, "src/main.rs")));
    assert!(f.check_loc(&row(1, 0, "Cargo.toml")));
    assert!(!f.check_loc(&row(1, 0, "src/mainrs")));
    assert!(!f.check_loc(&row(1, 0, "notes.md")));
}

#[test]
fn commit_loc_counts_selected_rows() {
    let c = commit("a", "X", T0, 0, vec![row(10, 2, "a.rs"), row(5, 1, "b.md"), row(0, 4, "c.rs")]);
    assert_eq!(c.loc(&Filter::default()), 8);
    let rs = Filter { file_extension: strings(&["rs"]), ..Default::default() };
    assert_eq!(c.loc(&rs), 4);
}

#[test]
fn aggregate_counts_only_short_gaps() {
    // newest first, as a history dump lists them
    let commits = vec![
        commit("c3", "X", T0 + 10 * 3600, 0, vec![]),
        commit("c2", "X", T0 + 3600, 0, vec![]),
        commit("c1", "X", T0, 0, vec![]),
    ];
    let s = aggregate(&commits, &Filter::default(), 3);
    assert_eq!(s.seconds, 3600);
    assert_eq!(s.hours(), 1);
    assert_eq!(s.matched, 3);
}

#[test]
fn aggregate_gap_at_threshold_counts() {
    let commits = vec![
        commit("c2", "X", T0 + 3 * 3600 + 3599, 0, vec![]),
        commit("c1", "X", T0, 0, vec![]),
    ];
    let s = aggregate(&commits, &Filter::default(), 3);
    assert_eq!(s.seconds, 3 * 3600 + 3599);
    assert_eq!(s.hours(), 3);
    let shorter = aggregate(&commits, &Filter::default(), 2);
    assert_eq!(shorter.seconds, 0);
}

#[test]
fn aggregate_skips_unmatched_commits() {
    let commits = vec![
        commit("c3", "Jane", T0 + 2 * 3600, 0, vec![row(5, 0, "a")]),
        commit("c2", "Bob", T0 + 3600, 0, vec![row(100, 0, "a")]),
        commit("c1", "Jane", T0, 0, vec![row(1, 3, "a")]),
    ];
    let f = Filter { author_equals: strings(&["Jane"]), ..Default::default() };
    let s = aggregate(&commits, &f, 3);
    assert_eq!(s.matched, 2);
    assert_eq!(s.seconds, 2 * 3600);
    assert_eq!(s.days.len(), 1);
    assert_eq!(s.days[0].commits, 2);
    assert_eq!(s.days[0].loc, 3);
}

#[test]
fn aggregate_negative_gap_counts_by_magnitude() {
    let commits = vec![commit("c2", "X", T0 - 1800, 0, vec![]), commit("c1", "X", T0, 0, vec![])];
    let s = aggregate(&commits, &Filter::default(), 3);
    assert_eq!(s.seconds, -1800);
    assert_eq!(s.hours(), -1);
}

#[test]
fn aggregate_per_day_table_sorted_by_local_day() {
    let day = T0 / 86400;
    let commits = vec![
        commit("c4", "X", T0 + 86400, 0, vec![row(1, 0, "a")]),
        // 23:30 UTC on the day before, which is already the next day at +01:00
        commit("c3", "X", (day - 1) * 86400 + 23 * 3600 + 1800, 3600, vec![row(7, 0, "a")]),
        commit("c2", "X", T0, 0, vec![row(2, 1, "a")]),
        commit("c1", "X", T0 - 3 * 86400, 0, vec![row(0, 5, "a")]),
    ];
    let s = aggregate(&commits, &Filter::default(), 3);
    let table: Vec<(i64, usize, i128)> = s.days.iter().map(|d| (d.day, d.commits, d.loc)).collect();
    assert_eq!(table, vec![(day - 3, 1, -5), (day, 2, 8), (day + 1, 1, 1)]);
}

#[test]
fn aggregate_empty_history() {
    let s = aggregate(&vec![], &Filter::default(), 3);
    assert_eq!(s.matched, 0);
    assert_eq!(s.seconds, 0);
    assert!(s.days.is_empty());
}

#[test]
fn commit_date_day_before_epoch() {
    assert_eq!(CommitDate { timestamp: -1, offset: 0 }.day(), -1);
    assert_eq!(CommitDate { timestamp: 0, offset: 0 }.day(), 0);
    assert_eq!(CommitDate { timestamp: 86399, offset: 1 }.day(), 1);
}

#[test]
fn args_filter_and_output() {
    let mut args = Args {
        input_method: InputMethod::Stdin,
        is_verbose: true,
        file_extension: strings(&["rs"]),
        duration: 5,
        output: Some(std::path::PathBuf::from("out.csv")),
        author_contains: vec![],
        author_equals: strings(&["Jane"]),
        email_contains: vec![],
        email_equals: vec![],
        commit_contains: vec![],
        commit_equals: vec![],
        message_contains: vec![],
        message_equals: vec![],
        message_starts_with: vec![],
    };
    assert!(args.is_verbose());
    assert_eq!(args.duration(), 5);
    assert!(matches!(args.input_method(), InputMethod::Stdin));
    let f = args.filter();
    assert!(f.matches(&commit("a", "Jane", T0, 0, vec![])));
    assert!(!f.matches(&commit("a", "John", T0, 0, vec![])));
    assert!(!f.check_loc(&row(1, 1, "a.md")));
    assert_eq!(args.take_output(), Some(std::path::PathBuf::from("out.csv")));
    assert_eq!(args.take_output(), None);
}
