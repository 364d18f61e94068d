//! Commit records and the parser that reads one from the front of a history
//! dump.
use vstd::prelude::*;

use crate::author::{author_parts, Author, AuthorParseError};
use crate::date::{date_of, parse_date, CommitDate};
use crate::filter::Filter;
use crate::loc::{loc_failure, loc_parts, net_of, LocDiff, LocParseError};
use crate::text::{
    lemma_split_on_shorter, split_on, split_once, starts_with, strip_prefix, trim, trimmed,
};

verus! {

/// One commit of the history.
#[derive(Debug)]
pub struct Commit {
    /// The author information.
    pub author: Author,
    /// The commit's hash.
    pub commit: String,
    /// The commit's date.
    pub date: CommitDate,
    /// The line-count diff rows, in the order they were printed.
    pub locs: Vec<LocDiff>,
    /// The parents of a merge commit, as printed.
    pub merge: Option<String>,
    /// The commit's message.
    pub message: String,
}

/// The ways in which a commit record can be malformed.
#[derive(Debug)]
pub enum CommitParseError {
    /// The author line could not be parsed.
    AuthorFailed(AuthorParseError),
    /// There is no author line.
    AuthorMissing,
    /// There is no header line with a commit hash.
    CommitMissing,
    /// The date could not be parsed.
    DateFailed(chrono::ParseError),
    /// There is no date line.
    DateMissing,
    /// A diff row could not be parsed.
    LocFailed(LocParseError),
    /// A diff row does not end with a line feed.
    LocSyntaxError,
    /// The merge line does not end with a line feed.
    Unknown,
}

/// A diff row as the text states it: insertions, deletions and file.
pub type RowView = (Option<u32>, Option<u32>, Seq<char>);

/// What a commit record states.
pub struct CommitView {
    /// The hash.
    pub id: Seq<char>,
    /// The parents of a merge commit.
    pub merge: Option<Seq<char>>,
    /// The author's name.
    pub name: Seq<char>,
    /// The author's email address.
    pub email: Seq<char>,
    /// The instant and the offset, in seconds.
    pub date: (int, int),
    /// The message.
    pub message: Seq<char>,
    /// The diff rows.
    pub rows: Seq<RowView>,
}

/// What the text at the front of a history dump reads as: a commit and the
/// text after it, or the first defect met.
pub enum CommitText {
    /// No `commit` header line.
    CommitMissing,
    /// A merge line without its line feed.
    Unknown,
    /// No `Author: ` line.
    AuthorMissing,
    /// An author line that does not read as one.
    AuthorFailed(AuthorParseError),
    /// No `Date:   ` line.
    DateMissing,
    /// A date that does not read as one.
    DateFailed,
    /// The first diff row that does not read as one.
    LocFailed(Seq<char>),
    /// A diff row without its line feed.
    LocSyntaxError,
    /// A commit, and the text after it.
    Parsed(CommitView, Seq<char>),
}

/// What a diff row states.
pub open spec fn row_view(d: LocDiff) -> RowView {
    (d.added, d.removed, d.file@)
}

impl View for Commit {
    type V = CommitView;

    open spec fn view(&self) -> CommitView {
        CommitView {
            id: self.commit@,
            merge: match self.merge {
                Some(m) => Some(m@),
                None => None,
            },
            name: self.author.name@,
            email: self.author.email@,
            date: (self.date.timestamp as int, self.date.offset as int),
            message: self.message@,
            rows: self.locs@.map_values(|d: LocDiff| row_view(d)),
        }
    }
}

/// The header of a record.
pub open spec fn commit_tag() -> Seq<char> {
    seq!['c', 'o', 'm', 'm', 'i', 't']
}

/// The start of a merge line.
pub open spec fn merge_tag() -> Seq<char> {
    seq!['M', 'e', 'r', 'g', 'e', ':', ' ']
}

/// The start of an author line.
pub open spec fn author_tag() -> Seq<char> {
    seq!['A', 'u', 't', 'h', 'o', 'r', ':', ' ']
}

/// The start of a date line, aligned with three spaces.
pub open spec fn date_tag() -> Seq<char> {
    seq!['D', 'a', 't', 'e', ':', ' ', ' ', ' ']
}

/// The indentation of a message line.
pub open spec fn indent() -> Seq<char> {
    seq![' ', ' ', ' ', ' ']
}

/// The text after `p` where `s` starts with `p`.
pub open spec fn after(p: Seq<char>, s: Seq<char>) -> Option<Seq<char>> {
    if p.is_prefix_of(s) {
        Some(s.skip(p.len() as int))
    } else {
        None
    }
}

/// `s` without one leading line feed, if it has one.
pub open spec fn skip_blank_line(s: Seq<char>) -> Seq<char> {
    if s.len() > 0 && s[0] == '\n' {
        s.drop_first()
    } else {
        s
    }
}

/// The message block at the front of `s`, and the text after it.
///
/// A line that starts with four spaces belongs to the message, without
/// those spaces; an empty line belongs to it where it follows such a line
/// (`after_text`), so that one blank line may part two paragraphs or end the
/// block. Any other line ends the block and is not consumed.
pub open spec fn message_scan(s: Seq<char>, after_text: bool) -> (Seq<char>, Seq<char>)
    decreases s.len(),
{
    if indent().is_prefix_of(s) {
        let t = s.skip(4);
        proof {
            lemma_split_on_shorter(t, '\n');
        }
        match split_on(t, '\n') {
            Some((line, rest)) => {
                let (m, r) = message_scan(rest, true);
                (line.push('\n') + m, r)
            },
            None => (t, Seq::<char>::empty()),
        }
    } else if after_text && s.len() > 0 && s[0] == '\n' {
        let (m, r) = message_scan(s.drop_first(), false);
        (seq!['\n'] + m, r)
    } else {
        (Seq::<char>::empty(), s)
    }
}

/// The diff rows at the front of `s` and the text after them; `Err(None)`
/// where a row lacks its line feed, `Err(Some(row))` where a row is invalid.
///
/// An empty line ends the rows and is consumed; a line that starts with
/// `commit` ends them and is not.
pub open spec fn diff_rows(s: Seq<char>) -> Result<(Seq<RowView>, Seq<char>), Option<Seq<char>>>
    decreases s.len(),
{
    if s.len() == 0 {
        Ok((Seq::<RowView>::empty(), s))
    } else {
        match split_on(s, '\n') {
            None => Err(None),
            Some((line, rest)) => if line.len() == 0 {
                Ok((Seq::<RowView>::empty(), rest))
            } else if commit_tag().is_prefix_of(line) {
                Ok((Seq::<RowView>::empty(), s))
            } else {
                match loc_parts(line) {
                    None => Err(Some(line)),
                    Some(row) => {
                        proof {
                            lemma_split_on_shorter(s, '\n');
                        }
                        match diff_rows(rest) {
                            Ok((rows, r)) => Ok((seq![row] + rows, r)),
                            Err(e) => Err(e),
                        }
                    },
                }
            },
        }
    }
}

/// The optional merge line at the front of `s`: its trimmed parents and the
/// text after it; `None` where the line lacks its line feed.
pub open spec fn merge_part(s: Seq<char>) -> Option<(Option<Seq<char>>, Seq<char>)> {
    match after(merge_tag(), s) {
        Some(t) => match split_on(t, '\n') {
            Some((m, rest)) => Some((Some(trimmed(m)), rest)),
            None => None,
        },
        None => Some((None, s)),
    }
}

/// What the text at the front of a history dump reads as.
#[verifier::opaque]
pub open spec fn commit_text(s: Seq<char>) -> CommitText {
    match after(commit_tag(), s) {
        None => CommitText::CommitMissing,
        Some(s1) => match split_on(s1, '\n') {
            None => CommitText::CommitMissing,
            Some((id_line, s2)) => match merge_part(s2) {
                None => CommitText::Unknown,
                Some((merge, s3)) => match after(author_tag(), s3) {
                    None => CommitText::AuthorMissing,
                    Some(t3) => match split_on(t3, '\n') {
                        None => CommitText::AuthorMissing,
                        Some((author_line, s4)) => match author_parts(author_line) {
                            Err(e) => CommitText::AuthorFailed(e),
                            Ok((name, email)) => match after(date_tag(), s4) {
                                None => CommitText::DateMissing,
                                Some(t4) => match split_on(t4, '\n') {
                                    None => CommitText::DateMissing,
                                    Some((date_line, s5)) => match date_of(date_line) {
                                        None => CommitText::DateFailed,
                                        Some(date) => {
                                            let (raw, s6) = message_scan(
                                                skip_blank_line(s5),
                                                false,
                                            );
                                            match diff_rows(s6) {
                                                Err(None) => CommitText::LocSyntaxError,
                                                Err(Some(row)) => CommitText::LocFailed(row),
                                                Ok((rows, s7)) => CommitText::Parsed(
                                                    CommitView {
                                                        id: trimmed(id_line),
                                                        merge,
                                                        name,
                                                        email,
                                                        date,
                                                        message: trimmed(raw),
                                                        rows,
                                                    },
                                                    s7,
                                                ),
                                            }
                                        },
                                    },
                                },
                            },
                        },
                    },
                },
            },
        },
    }
}

/// Whether a parse result is what the text reads as.
pub open spec fn parse_agrees(
    r: Result<(Commit, &str), CommitParseError>,
    t: CommitText,
) -> bool {
    match r {
        Ok((c, rest)) => t == CommitText::Parsed(c@, rest@),
        Err(e) => match e {
            CommitParseError::AuthorFailed(a) => t == CommitText::AuthorFailed(a),
            CommitParseError::AuthorMissing => t is AuthorMissing,
            CommitParseError::CommitMissing => t is CommitMissing,
            CommitParseError::DateFailed(_) => t is DateFailed,
            CommitParseError::DateMissing => t is DateMissing,
            CommitParseError::LocFailed(l) => match t {
                CommitText::LocFailed(row) => loc_failure(row, l),
                _ => false,
            },
            CommitParseError::LocSyntaxError => t is LocSyntaxError,
            CommitParseError::Unknown => t is Unknown,
        },
    }
}

/// The net line delta of the rows among `locs` that `f` counts.
pub open spec fn net_total(locs: Seq<LocDiff>, f: Filter) -> int
    decreases locs.len(),
{
    if locs.len() == 0 {
        0
    } else {
        let d = locs.last();
        net_total(locs.drop_last(), f) + if f.counts_file(d.file@) {
            net_of(d.added, d.removed)
        } else {
            0
        }
    }
}

/// Reads the message block at the front of `text`.
pub fn scan_message(text: &str) -> (r: (String, &str))
    ensures
        message_scan(text@, false) == (r.0@, r.1@),
{
    let mut rest = text;
    let mut collected = String::new();
    let mut after_text = false;
    loop
        invariant
            message_scan(text@, false) == (
                collected@ + message_scan(rest@, after_text).0,
                message_scan(rest@, after_text).1,
            ),
        decreases rest@.len(),
    {
        proof {
            reveal_strlit("    ");
            reveal_strlit("\n");
        }
        match strip_prefix(rest, "    ") {
            Some(t) => {
                proof {
                    assert(indent().is_prefix_of(rest@));
                    assert(t@ =~= rest@.skip(4));
                }
                match split_once(t, '\n') {
                    Some((line, more)) => {
                        proof {
                            lemma_split_on_shorter(t@, '\n');
                        }
                        let ghost old_collected = collected@;
                        collected.append(line);
                        collected.append("\n");
                        proof {
                            assert(collected@ =~= old_collected + line@.push('\n'));
                            assert(message_scan(rest@, after_text).0 =~= line@.push('\n')
                                + message_scan(more@, true).0);
                        }
                        rest = more;
                        after_text = true;
                    },
                    None => {
                        let ghost old_collected = collected@;
                        collected.append(t);
                        proof {
                            reveal_strlit("");
                            assert(collected@ =~= old_collected + t@);
                            assert(""@ =~= message_scan(rest@, after_text).1);
                        }
                        return (collected, "");
                    },
                }
            },
            None => {
                assert(!indent().is_prefix_of(rest@)) by {
                    assert("    "@ =~= indent());
                }
                if after_text {
                    if let Some(more) = strip_prefix(rest, "\n") {
                        let ghost old_collected = collected@;
                        collected.append("\n");
                        proof {
                            assert(more@ =~= rest@.drop_first());
                            assert(collected@ =~= old_collected + seq!['\n']);
                            assert(message_scan(rest@, after_text).0 =~= seq!['\n']
                                + message_scan(more@, false).0);
                        }
                        rest = more;
                        after_text = false;
                        continue;
                    }
                    assert(!(rest@.len() > 0 && rest@[0] == '\n')) by {
                        if rest@.len() > 0 && rest@[0] == '\n' {
                            assert("\n"@.is_prefix_of(rest@));
                        }
                    }
                }
                assert(collected@ + message_scan(rest@, after_text).0 =~= collected@);
                return (collected, rest);
            },
        }
    }
}

/// Reads the diff rows at the front of `text`.
pub fn parse_rows(text: &str) -> (r: Result<(Vec<LocDiff>, &str), CommitParseError>)
    ensures
        match r {
            Ok((v, rest)) => diff_rows(text@) == Ok::<_, Option<Seq<char>>>(
                (v@.map_values(|d: LocDiff| row_view(d)), rest@),
            ),
            Err(CommitParseError::LocSyntaxError) => diff_rows(text@) == Err::<
                (Seq<RowView>, Seq<char>),
                _,
            >(None::<Seq<char>>),
            Err(CommitParseError::LocFailed(e)) => match diff_rows(text@) {
                Err(Some(row)) => loc_failure(row, e),
                _ => false,
            },
            Err(_) => false,
        },
{
    let mut rest = text;
    let mut locs: Vec<LocDiff> = Vec::new();
    loop
        invariant
            diff_rows(text@) == match diff_rows(rest@) {
                Ok((rows, r)) => Ok((locs@.map_values(|d: LocDiff| row_view(d)) + rows, r)),
                Err(e) => Err(e),
            },
        decreases rest@.len(),
    {
        proof {
            reveal_strlit("commit");
        }
        let ghost rows_before = locs@.map_values(|d: LocDiff| row_view(d));
        if rest.is_empty() {
            assert(rows_before + Seq::<RowView>::empty() =~= rows_before);
            return Ok((locs, rest));
        }
        let (line, more) = match split_once(rest, '\n') {
            Some(parts) => parts,
            None => return Err(CommitParseError::LocSyntaxError),
        };
        proof {
            lemma_split_on_shorter(rest@, '\n');
        }
        if line.is_empty() {
            assert(rows_before + Seq::<RowView>::empty() =~= rows_before);
            return Ok((locs, more));
        }
        if starts_with(line, "commit") {
            assert(rows_before + Seq::<RowView>::empty() =~= rows_before);
            assert("commit"@ =~= commit_tag());
            return Ok((locs, rest));
        }
        assert(!commit_tag().is_prefix_of(line@)) by {
            assert("commit"@ =~= commit_tag());
        }
        let d = match LocDiff::parse(line) {
            Ok(d) => d,
            Err(e) => return Err(CommitParseError::LocFailed(e)),
        };
        locs.push(d);
        proof {
            assert(locs@.map_values(|d: LocDiff| row_view(d)) =~= rows_before.push(row_view(d)));
            match diff_rows(more@) {
                Ok((rows, r)) => {
                    assert(rows_before + (seq![row_view(d)] + rows) =~= rows_before.push(
                        row_view(d),
                    ) + rows);
                },
                Err(e) => {},
            }
        }
        rest = more;
    }
}

impl Commit {
    /// The author information.
    pub fn author(&self) -> (r: &Author)
        ensures
            r == &self.author,
    {
        &self.author
    }

    /// The commit's hash.
    pub fn commit(&self) -> (r: &str)
        ensures
            r@ == self.commit@,
    {
        self.commit.as_str()
    }

    /// The commit's date.
    pub fn date(&self) -> (r: &CommitDate)
        ensures
            r == &self.date,
    {
        &self.date
    }

    /// The net line delta of the diff rows that `filter` counts, in a type
    /// wide enough for any number of rows.
    pub(crate) fn net_loc_wide(&self, filter: &Filter) -> (r: i128)
        ensures
            r == net_total(self.locs@, *filter),
            -(self.locs@.len() as int) * 0xffff_ffff <= r <= (self.locs@.len() as int)
                * 0xffff_ffff,
    {
        let mut total: i128 = 0;
        let mut i: usize = 0;
        while i < self.locs.len()
            invariant
                0 <= i <= self.locs.len(),
                total == net_total(self.locs@.take(i as int), *filter),
                -(i as int) * 0xffff_ffff <= total <= (i as int) * 0xffff_ffff,
            decreases self.locs.len() - i,
        {
            let d = &self.locs[i];
            assert(self.locs@.take(i + 1).drop_last() =~= self.locs@.take(i as int));
            if filter.check_loc(d) {
                total = total + d.loc() as i128;
            }
            i = i + 1;
        }
        assert(self.locs@.take(i as int) =~= self.locs@);
        total
    }

    /// The net line delta of the diff rows that `filter` counts.
    pub fn loc(&self, filter: &Filter) -> (r: i64)
        requires
            i64::MIN <= net_total(self.locs@, *filter) <= i64::MAX,
        ensures
            r == net_total(self.locs@, *filter),
    {
        self.net_loc_wide(filter) as i64
    }

    /// The commit's message.
    pub fn message(&self) -> (r: &str)
        ensures
            r@ == self.message@,
    {
        self.message.as_str()
    }

    /// Reads one commit from the front of `commit` and returns it with the
    /// text after it.
    pub fn parse(commit: &str) -> (r: Result<(Commit, &str), CommitParseError>)
        ensures
            parse_agrees(r, commit_text(commit@)),
    {
        proof {
            reveal(commit_text);
            reveal_strlit("commit");
            reveal_strlit("Merge: ");
            reveal_strlit("Author: ");
            reveal_strlit("Date:   ");
            reveal_strlit("\n");
            assert("commit"@ =~= commit_tag());
            assert("Merge: "@ =~= merge_tag());
            assert("Author: "@ =~= author_tag());
            assert("Date:   "@ =~= date_tag());
        }
        let s1 = match strip_prefix(commit, "commit") {
            Some(s1) => s1,
            None => return Err(CommitParseError::CommitMissing),
        };
        assert(s1@ =~= commit@.skip(6));
        let (id_line, s2) = match split_once(s1, '\n') {
            Some(parts) => parts,
            None => return Err(CommitParseError::CommitMissing),
        };
        let (merge, s3) = match strip_prefix(s2, "Merge: ") {
            Some(t) => {
                assert(t@ =~= s2@.skip(7));
                match split_once(t, '\n') {
                    Some((m, rest)) => (Some(trim(m).to_owned()), rest),
                    None => return Err(CommitParseError::Unknown),
                }
            },
            None => (None, s2),
        };
        let t3 = match strip_prefix(s3, "Author: ") {
            Some(t3) => t3,
            None => return Err(CommitParseError::AuthorMissing),
        };
        assert(t3@ =~= s3@.skip(8));
        let (author_line, s4) = match split_once(t3, '\n') {
            Some(parts) => parts,
            None => return Err(CommitParseError::AuthorMissing),
        };
        let author = match Author::parse(author_line) {
            Ok(a) => a,
            Err(e) => return Err(CommitParseError::AuthorFailed(e)),
        };
        let t4 = match strip_prefix(s4, "Date:   ") {
            Some(t4) => t4,
            None => return Err(CommitParseError::DateMissing),
        };
        assert(t4@ =~= s4@.skip(8));
        let (date_line, s5) = match split_once(t4, '\n') {
            Some(parts) => parts,
            None => return Err(CommitParseError::DateMissing),
        };
        let date = match parse_date(date_line) {
            Ok(d) => d,
            Err(e) => return Err(CommitParseError::DateFailed(e)),
        };
        let s5 = match strip_prefix(s5, "\n") {
            Some(t) => {
                assert(t@ =~= s5@.drop_first());
                t
            },
            None => {
                assert(!(s5@.len() > 0 && s5@[0] == '\n')) by {
                    if s5@.len() > 0 && s5@[0] == '\n' {
                        assert("\n"@.is_prefix_of(s5@));
                    }
                }
                s5
            },
        };
        let (raw, s6) = scan_message(s5);
        let (locs, rest) = match parse_rows(s6) {
            Ok(parts) => parts,
            Err(e) => return Err(e),
        };
        let c = Commit {
            author,
            commit: trim(id_line).to_owned(),
            date,
            locs,
            merge,
            message: trim(raw.as_str()).to_owned(),
        };
        Ok((c, rest))
    }
}

/// The message block leaves no more text than it was given.
proof fn lemma_message_scan_shorter(s: Seq<char>, b: bool)
    ensures
        message_scan(s, b).1.len() <= s.len(),
    decreases s.len(),
{
    if indent().is_prefix_of(s) {
        let t = s.skip(4);
        lemma_split_on_shorter(t, '\n');
        if let Some((line, rest)) = split_on(t, '\n') {
            lemma_message_scan_shorter(rest, true);
        }
    } else if b && s.len() > 0 && s[0] == '\n' {
        lemma_message_scan_shorter(s.drop_first(), false);
    }
}

/// The diff rows leave no more text than they were given.
proof fn lemma_diff_rows_shorter(s: Seq<char>)
    ensures
        diff_rows(s) matches Ok((_, r)) ==> r.len() <= s.len(),
    decreases s.len(),
{
    lemma_split_on_shorter(s, '\n');
    if s.len() > 0 {
        if let Some((line, rest)) = split_on(s, '\n') {
            lemma_diff_rows_shorter(rest);
        }
    }
}

/// A record that reads as a commit leaves less text than it was given.
pub proof fn lemma_parsed_shorter(s: Seq<char>)
    ensures
        commit_text(s) matches CommitText::Parsed(_, rest) ==> rest.len() < s.len(),
{
    reveal(commit_text);
    if let Some(s1) = after(commit_tag(), s) {
        lemma_split_on_shorter(s1, '\n');
        if let Some((id_line, s2)) = split_on(s1, '\n') {
            if let Some(t) = after(merge_tag(), s2) {
                lemma_split_on_shorter(t, '\n');
            }
            if let Some((merge, s3)) = merge_part(s2) {
                if let Some(t3) = after(author_tag(), s3) {
                    lemma_split_on_shorter(t3, '\n');
                    if let Some((author_line, s4)) = split_on(t3, '\n') {
                        if let Some(t4) = after(date_tag(), s4) {
                            lemma_split_on_shorter(t4, '\n');
                            if let Some((date_line, s5)) = split_on(t4, '\n') {
                                let s6 = skip_blank_line(s5);
                                lemma_message_scan_shorter(s6, false);
                                lemma_diff_rows_shorter(message_scan(s6, false).1);
                            }
                        }
                    }
                }
            }
        }
    }
}

/// The records that a history dump reads as, front to back, up to the first
/// defect; and the text from that defect on, empty where there is none.
pub open spec fn log_split(s: Seq<char>) -> (Seq<CommitView>, Seq<char>)
    decreases s.len(),
{
    if s.len() == 0 {
        (Seq::<CommitView>::empty(), s)
    } else {
        match commit_text(s) {
            CommitText::Parsed(c, rest) => {
                proof {
                    lemma_parsed_shorter(s);
                }
                let (cs, r) = log_split(rest);
                (seq![c] + cs, r)
            },
            _ => (Seq::<CommitView>::empty(), s),
        }
    }
}

/// Reads commits from `input` until it is used up or a record cannot be
/// read; returns the commits read, in the order of the input, and the error
/// that stopped the reading, if any.
pub fn parse_log(input: &str) -> (r: (Vec<Commit>, Option<CommitParseError>))
    ensures
        r.0@.map_values(|c: Commit| c@) == log_split(input@).0,
        match r.1 {
            None => log_split(input@).1.len() == 0,
            Some(e) => log_split(input@).1.len() > 0 && parse_agrees(
                Err(e),
                commit_text(log_split(input@).1),
            ),
        },
{
    let mut rest = input;
    let mut commits: Vec<Commit> = Vec::new();
    loop
        invariant
            log_split(input@) == (
                commits@.map_values(|c: Commit| c@) + log_split(rest@).0,
                log_split(rest@).1,
            ),
        decreases rest@.len(),
    {
        let ghost done = commits@.map_values(|c: Commit| c@);
        if rest.is_empty() {
            assert(done + Seq::<CommitView>::empty() =~= done);
            return (commits, None);
        }
        match Commit::parse(rest) {
            Ok((c, more)) => {
                proof {
                    lemma_parsed_shorter(rest@);
                }
                commits.push(c);
                proof {
                    assert(commits@.map_values(|c: Commit| c@) =~= done.push(c@));
                    assert(done + (seq![c@] + log_split(more@).0) =~= done.push(c@) + log_split(
                        more@,
                    ).0);
                }
                rest = more;
            },
            Err(e) => {
                assert(done + Seq::<CommitView>::empty() =~= done);
                return (commits, Some(e));
            },
        }
    }
}

} // verus!
