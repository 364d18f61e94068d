//! Well-formed history dumps: how the records of a dump are written out, and
//! what the parser reads back from them.
use vstd::prelude::*;

use crate::author::author_parts;
use crate::commit::{
    after, author_tag, commit_tag, commit_text, date_tag, diff_rows, indent, log_split,
    merge_part, merge_tag, message_scan, skip_blank_line, CommitText, CommitView, RowView,
};
use crate::date::date_of;
use crate::loc::{count_of, count_ok, loc_fields, loc_parts};
use crate::text::{
    is_digit, is_trimmed, lemma_prefix_before_split, lemma_split_on,
    lemma_trimmed_is_itself, lemma_trimmed_push_white, lemma_trimmed_then_white,
    lemma_trimmed_white_then, lemma_split_on_some, split_on, trimmed, unsigned_digits,
};

verus! {

/// The parts of one commit record as a history dump writes them.
pub struct Block {
    /// The hash.
    pub hash: Seq<char>,
    /// The parents of a merge commit.
    pub merge: Option<Seq<char>>,
    /// The author's name.
    pub name: Seq<char>,
    /// The author's email address.
    pub email: Seq<char>,
    /// The date text.
    pub date: Seq<char>,
    /// The message lines, without their indentation.
    pub lines: Seq<Seq<char>>,
    /// The diff rows: insertions, deletions and file, as written.
    pub rows: Seq<(Seq<char>, Seq<char>, Seq<char>)>,
}

/// Whether `s` fits on one line.
pub open spec fn one_line(s: Seq<char>) -> bool {
    !s.contains('\n')
}

/// The merge line, where there is one.
pub open spec fn merge_text(m: Option<Seq<char>>) -> Seq<char> {
    match m {
        Some(m) => merge_tag() + m + seq!['\n'],
        None => Seq::<char>::empty(),
    }
}

/// The message lines, each indented by four spaces and ended by a line feed.
pub open spec fn message_text(lines: Seq<Seq<char>>) -> Seq<char>
    decreases lines.len(),
{
    if lines.len() == 0 {
        Seq::<char>::empty()
    } else {
        indent() + lines[0] + seq!['\n'] + message_text(lines.drop_first())
    }
}

/// The message lines, each ended by a line feed.
pub open spec fn message_of(lines: Seq<Seq<char>>) -> Seq<char>
    decreases lines.len(),
{
    if lines.len() == 0 {
        Seq::<char>::empty()
    } else {
        lines[0] + seq!['\n'] + message_of(lines.drop_first())
    }
}

/// A diff row: its fields parted by tabs, and a line feed.
pub open spec fn row_text(r: (Seq<char>, Seq<char>, Seq<char>)) -> Seq<char> {
    r.0 + seq!['\t'] + r.1 + seq!['\t'] + r.2 + seq!['\n']
}

/// The diff rows, one after another.
pub open spec fn rows_text(rows: Seq<(Seq<char>, Seq<char>, Seq<char>)>) -> Seq<char>
    decreases rows.len(),
{
    if rows.len() == 0 {
        Seq::<char>::empty()
    } else {
        row_text(rows[0]) + rows_text(rows.drop_first())
    }
}

/// A record as `git log --numstat` writes it: header, optional merge line,
/// author, date, a blank line, the indented message, a blank line and the
/// diff rows.
pub open spec fn block_text(b: Block) -> Seq<char> {
    commit_tag() + seq![' '] + b.hash + seq!['\n'] + merge_text(b.merge) + author_tag() + b.name
        + seq![' ', '<'] + b.email + seq!['>', '\n'] + date_tag() + b.date + seq!['\n', '\n']
        + message_text(b.lines) + seq!['\n'] + rows_text(b.rows)
}

/// What a written diff row states.
pub open spec fn row_of(r: (Seq<char>, Seq<char>, Seq<char>)) -> RowView {
    (count_of(r.0), count_of(r.1), r.2)
}

/// The commit that a record states.
pub open spec fn block_view(b: Block) -> CommitView {
    CommitView {
        id: b.hash,
        merge: b.merge,
        name: b.name,
        email: b.email,
        date: match date_of(b.date) {
            Some(d) => d,
            None => (0, 0),
        },
        message: trimmed(message_of(b.lines)),
        rows: b.rows.map_values(|r: (Seq<char>, Seq<char>, Seq<char>)| row_of(r)),
    }
}

/// Whether a diff row is well formed: two valid counts and a file on one
/// line.
pub open spec fn valid_row(r: (Seq<char>, Seq<char>, Seq<char>)) -> bool {
    count_ok(r.0) && count_ok(r.1) && one_line(r.2)
}

/// Whether a record is well formed: each field on one line, without white
/// space at its ends; a name without `<`; a date that reads as one; at least
/// one message line; and valid diff rows.
pub open spec fn valid_block(b: Block) -> bool {
    &&& one_line(b.hash) && is_trimmed(b.hash)
    &&& (b.merge matches Some(m) ==> one_line(m) && is_trimmed(m))
    &&& one_line(b.name) && !b.name.contains('<') && is_trimmed(b.name)
    &&& one_line(b.email) && is_trimmed(b.email)
    &&& one_line(b.date) && date_of(b.date) is Some
    &&& b.lines.len() > 0
    &&& forall|i: int| 0 <= i < b.lines.len() ==> one_line(#[trigger] b.lines[i])
    &&& forall|i: int| 0 <= i < b.rows.len() ==> valid_row(#[trigger] b.rows[i])
}

/// Whether `t` may follow a record: nothing, or a line that starts the next
/// record.
pub open spec fn next_record(t: Seq<char>) -> bool {
    t.len() == 0 || (commit_tag().is_prefix_of(t) && t.contains('\n'))
}

/// A valid count is a non-empty run of `-`, `+` and digits.
proof fn lemma_count_chars(t: Seq<char>)
    requires
        count_ok(t),
    ensures
        t.len() > 0,
        forall|i: int| 0 <= i < t.len() ==> (t[i] == '-' || t[i] == '+' || is_digit(#[trigger] t[i])),
{
    if t != seq!['-'] {
        let d = unsigned_digits(t);
        assert forall|i: int| 0 <= i < t.len() implies (t[i] == '-' || t[i] == '+' || is_digit(
            #[trigger] t[i],
        )) by {
            if t.len() > 0 && t[0] == '+' {
                if i > 0 {
                    assert(t[i] == d[i - 1]);
                }
            } else {
                assert(t[i] == d[i]);
            }
        }
    }
}

/// The message block of a record is read back line by line.
proof fn lemma_message(lines: Seq<Seq<char>>, rest: Seq<char>, b: bool)
    requires
        lines.len() > 0,
        forall|i: int| 0 <= i < lines.len() ==> one_line(#[trigger] lines[i]),
        rest.len() == 0 || (rest[0] != ' ' && rest[0] != '\n'),
    ensures
        message_scan(message_text(lines) + seq!['\n'] + rest, b) == (
            message_of(lines) + seq!['\n'],
            rest,
        ),
    decreases lines.len(),
{
    let l = lines[0];
    let tail = lines.drop_first();
    let x = message_text(tail) + seq!['\n'] + rest;
    let s = message_text(lines) + seq!['\n'] + rest;
    assert(s =~= indent() + (l + seq!['\n'] + x));
    assert(indent().is_prefix_of(s)) by {
        assert(s.subrange(0, 4) =~= indent());
    }
    assert(s.skip(4) =~= l + seq!['\n'] + x);
    assert(one_line(l));
    lemma_split_on(s.skip(4), '\n', l, x);
    if tail.len() == 0 {
        assert(x =~= seq!['\n'] + rest);
        assert(x.drop_first() =~= rest);
        assert(!indent().is_prefix_of(x));
        if rest.len() > 0 {
            assert(!indent().is_prefix_of(rest)) by {
                assert(rest[0] != indent()[0]);
            }
        }
        assert(message_scan(rest, false) == (Seq::<char>::empty(), rest));
        assert(message_scan(x, true) == (seq!['\n'], rest)) by {
            assert(seq!['\n'] + Seq::<char>::empty() =~= seq!['\n']);
        }
        assert(message_of(lines) =~= l + seq!['\n']);
        assert(l.push('\n') + seq!['\n'] =~= message_of(lines) + seq!['\n']);
    } else {
        assert forall|i: int| 0 <= i < tail.len() implies one_line(#[trigger] tail[i]) by {
            assert(tail[i] == lines[i + 1]);
        }
        lemma_message(tail, rest, true);
        assert(l.push('\n') + (message_of(tail) + seq!['\n']) =~= message_of(lines) + seq![
            '\n',
        ]);
    }
}

/// The diff rows of a record are read back, and the next record is left.
proof fn lemma_rows(rows: Seq<(Seq<char>, Seq<char>, Seq<char>)>, t: Seq<char>)
    requires
        forall|i: int| 0 <= i < rows.len() ==> valid_row(#[trigger] rows[i]),
        next_record(t),
    ensures
        diff_rows(rows_text(rows) + t) == Ok::<_, Option<Seq<char>>>(
            (rows.map_values(|r: (Seq<char>, Seq<char>, Seq<char>)| row_of(r)), t),
        ),
    decreases rows.len(),
{
    let s = rows_text(rows) + t;
    if rows.len() == 0 {
        assert(s =~= t);
        if t.len() > 0 {
            assert(!commit_tag().contains('\n')) by {
                if commit_tag().contains('\n') {
                    let j = choose|j: int| 0 <= j < commit_tag().len() && commit_tag()[j] == '\n';
                }
            }
            let j = choose|j: int| 0 <= j < t.len() && t[j] == '\n';
            lemma_split_on_some(t, '\n');
            lemma_prefix_before_split(t, '\n', commit_tag());
            let (line, more) = split_on(t, '\n')->Some_0;
            assert(line.len() >= 6);
        }
        assert(rows.map_values(|r: (Seq<char>, Seq<char>, Seq<char>)| row_of(r)) =~= Seq::<
            RowView,
        >::empty());
    } else {
        let r = rows[0];
        let rest = rows.drop_first();
        assert(valid_row(r));
        lemma_count_chars(r.0);
        lemma_count_chars(r.1);
        let line = r.0 + seq!['\t'] + r.1 + seq!['\t'] + r.2;
        let after_row = rows_text(rest) + t;
        assert(s =~= line + seq!['\n'] + after_row);
        assert(!line.contains('\n')) by {
            if line.contains('\n') {
                let j = choose|j: int| 0 <= j < line.len() && line[j] == '\n';
                if j < r.0.len() {
                    assert(r.0[j] == '\n');
                } else if j == r.0.len() {
                } else if j < r.0.len() + 1 + r.1.len() {
                    assert(r.1[j - r.0.len() - 1] == '\n');
                } else if j == r.0.len() + 1 + r.1.len() {
                } else {
                    assert(r.2[j - r.0.len() - 2 - r.1.len()] == '\n');
                }
            }
        }
        lemma_split_on(s, '\n', line, after_row);
        assert(line.len() > 0);
        assert(!commit_tag().is_prefix_of(line)) by {
            assert(line[0] == r.0[0]);
        }
        assert(!r.0.contains('\t')) by {
            if r.0.contains('\t') {
                let j = choose|j: int| 0 <= j < r.0.len() && r.0[j] == '\t';
            }
        }
        assert(!r.1.contains('\t')) by {
            if r.1.contains('\t') {
                let j = choose|j: int| 0 <= j < r.1.len() && r.1[j] == '\t';
            }
        }
        assert(line =~= r.0 + seq!['\t'] + (r.1 + seq!['\t'] + r.2));
        lemma_split_on(line, '\t', r.0, r.1 + seq!['\t'] + r.2);
        lemma_split_on(r.1 + seq!['\t'] + r.2, '\t', r.1, r.2);
        assert(loc_fields(line) == Some((r.0, r.1, r.2)));
        assert(loc_parts(line) == Some(row_of(r)));
        assert forall|i: int| 0 <= i < rest.len() implies valid_row(#[trigger] rest[i]) by {
            assert(rest[i] == rows[i + 1]);
        }
        lemma_rows(rest, t);
        assert(seq![row_of(r)] + rest.map_values(
            |r: (Seq<char>, Seq<char>, Seq<char>)| row_of(r),
        ) =~= rows.map_values(|r: (Seq<char>, Seq<char>, Seq<char>)| row_of(r)));
    }
}

/// A text made of two texts without `c` holds no `c`.
proof fn lemma_concat_lacks(a: Seq<char>, b: Seq<char>, c: char)
    requires
        !a.contains(c),
        !b.contains(c),
    ensures
        !(a + b).contains(c),
{
    if (a + b).contains(c) {
        let j = choose|j: int| 0 <= j < (a + b).len() && (a + b)[j] == c;
        if j < a.len() {
            assert(a[j] == c);
        } else {
            assert(b[j - a.len()] == c);
        }
    }
}

/// A text of one character other than `c` holds no `c`.
proof fn lemma_single_lacks(x: char, c: char)
    requires
        x != c,
    ensures
        !seq![x].contains(c),
{
    if seq![x].contains(c) {
        let j = choose|j: int| 0 <= j < 1 && seq![x][j] == c;
    }
}

/// A record starts with `commit` and holds a line feed.
proof fn lemma_block_start(b: Block, t: Seq<char>)
    ensures
        commit_tag().is_prefix_of(block_text(b) + t),
        (block_text(b) + t).contains('\n'),
{
    let s = block_text(b) + t;
    let k: int = 7 + b.hash.len() as int;
    assert(s.subrange(0, 6) =~= commit_tag());
    assert(s[k] == '\n');
}

/// The text of a record from its diff rows on, followed by `t`.
pub open spec fn from_rows(b: Block, t: Seq<char>) -> Seq<char> {
    rows_text(b.rows) + t
}

/// The text of a record from its message on, followed by `t`.
pub open spec fn from_message(b: Block, t: Seq<char>) -> Seq<char> {
    message_text(b.lines) + seq!['\n'] + from_rows(b, t)
}

/// The text of a record from its date line on, followed by `t`.
pub open spec fn from_date(b: Block, t: Seq<char>) -> Seq<char> {
    date_tag() + b.date + seq!['\n', '\n'] + from_message(b, t)
}

/// The author line of a record, without its tag.
pub open spec fn author_line(b: Block) -> Seq<char> {
    b.name + seq![' ', '<'] + b.email + seq!['>']
}

/// The text of a record from its author line on, followed by `t`.
pub open spec fn from_author(b: Block, t: Seq<char>) -> Seq<char> {
    author_tag() + author_line(b) + seq!['\n'] + from_date(b, t)
}

/// The text of a record from its merge line on, followed by `t`.
pub open spec fn from_merge(b: Block, t: Seq<char>) -> Seq<char> {
    merge_text(b.merge) + from_author(b, t)
}

#[verifier::rlimit(30)]
/// The header line of a record reads back as its hash.
proof fn lemma_header(b: Block, t: Seq<char>)
    requires
        one_line(b.hash),
        is_trimmed(b.hash),
    ensures
        after(commit_tag(), block_text(b) + t) == Some(
            seq![' '] + b.hash + seq!['\n'] + from_merge(b, t),
        ),
        split_on(seq![' '] + b.hash + seq!['\n'] + from_merge(b, t), '\n') == Some(
            (seq![' '] + b.hash, from_merge(b, t)),
        ),
        trimmed(seq![' '] + b.hash) == b.hash,
{
    let s1 = seq![' '] + b.hash + seq!['\n'] + from_merge(b, t);
    let s = block_text(b) + t;
    let rest = merge_text(b.merge) + author_tag() + b.name + seq![' ', '<'] + b.email + seq![
        '>',
        '\n',
    ] + date_tag() + b.date + seq!['\n', '\n'] + message_text(b.lines) + seq!['\n'] + rows_text(
        b.rows,
    );
    assert(block_text(b) == commit_tag() + seq![' '] + b.hash + seq!['\n'] + rest);
    assert(rest + t =~= from_merge(b, t));
    assert(s =~= commit_tag() + s1);
    assert(s.subrange(0, 6) =~= commit_tag());
    assert(s.skip(6) =~= s1);
    lemma_single_lacks(' ', '\n');
    lemma_concat_lacks(seq![' '], b.hash, '\n');
    lemma_split_on(s1, '\n', seq![' '] + b.hash, from_merge(b, t));
    lemma_trimmed_white_then(' ', b.hash);
}

/// The merge line of a record, or its absence, reads back.
proof fn lemma_merge_line(b: Block, t: Seq<char>)
    requires
        valid_block(b),
    ensures
        merge_part(from_merge(b, t)) == Some((b.merge, from_author(b, t))),
{
    let a = from_author(b, t);
    let r2 = from_merge(b, t);
    assert(a[0] == 'A');
    match b.merge {
        Some(mg) => {
            let after_tag = mg + seq!['\n'] + a;
            assert(r2 =~= merge_tag() + after_tag);
            assert(r2.subrange(0, 7) =~= merge_tag());
            assert(r2.skip(7) =~= after_tag);
            lemma_split_on(after_tag, '\n', mg, a);
            lemma_trimmed_is_itself(mg);
        },
        None => {
            assert(r2 =~= a);
            assert(!merge_tag().is_prefix_of(r2)) by {
                assert(r2[0] != merge_tag()[0]);
            }
        },
    }
}

/// The author line of a record reads back as its name and email.
proof fn lemma_author_line(b: Block, t: Seq<char>)
    requires
        valid_block(b),
    ensures
        after(author_tag(), from_author(b, t)) == Some(
            author_line(b) + seq!['\n'] + from_date(b, t),
        ),
        split_on(author_line(b) + seq!['\n'] + from_date(b, t), '\n') == Some(
            (author_line(b), from_date(b, t)),
        ),
        author_parts(author_line(b)) == Ok::<_, crate::author::AuthorParseError>(
            (b.name, b.email),
        ),
{
    let a = from_author(b, t);
    let a1 = author_line(b) + seq!['\n'] + from_date(b, t);
    let aline = author_line(b);
    assert(a =~= author_tag() + a1);
    assert(a.subrange(0, 8) =~= author_tag());
    assert(a.skip(8) =~= a1);
    lemma_single_lacks('>', '\n');
    lemma_single_lacks(' ', '<');
    lemma_single_lacks(' ', '\n');
    lemma_single_lacks('<', '\n');
    assert(seq![' ', '<'] =~= seq![' '] + seq!['<']);
    lemma_concat_lacks(seq![' '], seq!['<'], '\n');
    lemma_concat_lacks(b.name, seq![' ', '<'], '\n');
    lemma_concat_lacks(b.name + seq![' ', '<'], b.email, '\n');
    lemma_concat_lacks(b.name + seq![' ', '<'] + b.email, seq!['>'], '\n');
    lemma_split_on(a1, '\n', aline, from_date(b, t));
    lemma_concat_lacks(b.name, seq![' '], '<');
    assert(aline =~= (b.name + seq![' ']) + seq!['<'] + (b.email + seq!['>']));
    lemma_split_on(aline, '<', b.name + seq![' '], b.email + seq!['>']);
    assert((b.email + seq!['>']).drop_last() =~= b.email);
    assert(b.name + seq![' '] =~= b.name.push(' '));
    lemma_trimmed_then_white(b.name, ' ');
    lemma_trimmed_is_itself(b.email);
}

/// The date line of a record and the blank line after it are read.
proof fn lemma_date_line(b: Block, t: Seq<char>)
    requires
        valid_block(b),
    ensures
        after(date_tag(), from_date(b, t)) == Some(
            b.date + seq!['\n'] + (seq!['\n'] + from_message(b, t)),
        ),
        split_on(b.date + seq!['\n'] + (seq!['\n'] + from_message(b, t)), '\n') == Some(
            (b.date, seq!['\n'] + from_message(b, t)),
        ),
        skip_blank_line(seq!['\n'] + from_message(b, t)) == from_message(b, t),
{
    let d = from_date(b, t);
    let m = from_message(b, t);
    let d1 = b.date + seq!['\n'] + (seq!['\n'] + m);
    assert(d =~= date_tag() + d1);
    assert(d.subrange(0, 8) =~= date_tag());
    assert(d.skip(8) =~= d1);
    lemma_split_on(d1, '\n', b.date, seq!['\n'] + m);
    assert((seq!['\n'] + m).drop_first() =~= m);
}

/// The message of a record reads back, and its trailing line feed is
/// trimmed away.
proof fn lemma_message_block(b: Block, t: Seq<char>)
    requires
        valid_block(b),
        next_record(t),
    ensures
        message_scan(from_message(b, t), false) == (
            message_of(b.lines) + seq!['\n'],
            from_rows(b, t),
        ),
        trimmed(message_of(b.lines) + seq!['\n']) == trimmed(message_of(b.lines)),
{
    let r = from_rows(b, t);
    if b.rows.len() > 0 {
        assert(valid_row(b.rows[0]));
        lemma_count_chars(b.rows[0].0);
        assert(r =~= b.rows[0].0 + (seq!['\t'] + b.rows[0].1 + seq!['\t'] + b.rows[0].2 + seq![
            '\n',
        ] + rows_text(b.rows.drop_first()) + t));
        assert(r[0] == b.rows[0].0[0]);
    } else {
        assert(r =~= t);
        if t.len() > 0 {
            assert(t[0] == commit_tag()[0]);
        }
    }
    lemma_message(b.lines, r, false);
    assert(message_of(b.lines) + seq!['\n'] =~= message_of(b.lines).push('\n'));
    lemma_trimmed_push_white(message_of(b.lines), '\n');
}

/// A well-formed record, followed by nothing or by the next record, reads
/// back as the commit it states, and what follows it is left.
proof fn lemma_block(b: Block, t: Seq<char>)
    requires
        valid_block(b),
        next_record(t),
    ensures
        commit_text(block_text(b) + t) == CommitText::Parsed(block_view(b), t),
{
    reveal(commit_text);
    lemma_header(b, t);
    lemma_merge_line(b, t);
    lemma_author_line(b, t);
    lemma_date_line(b, t);
    lemma_message_block(b, t);
    lemma_rows(b.rows, t);
}

/// A well-formed record, alone in the input, reads back as the commit it
/// states, field by field, with nothing left over.
pub proof fn lemma_single_record(b: Block)
    requires
        valid_block(b),
    ensures
        commit_text(block_text(b)) == CommitText::Parsed(block_view(b), Seq::<char>::empty()),
{
    lemma_block(b, Seq::<char>::empty());
    assert(block_text(b) + Seq::<char>::empty() =~= block_text(b));
}

/// Reading a dump that starts with a readable record takes that record and
/// goes on after it.
proof fn lemma_log_step(s: Seq<char>, c: CommitView, t: Seq<char>)
    requires
        s.len() > 0,
        commit_text(s) == CommitText::Parsed(c, t),
    ensures
        log_split(s) == (seq![c] + log_split(t).0, log_split(t).1),
{
}

/// Records written one after another.
pub open spec fn dump_text(bs: Seq<Block>) -> Seq<char>
    decreases bs.len(),
{
    if bs.len() == 0 {
        Seq::<char>::empty()
    } else {
        block_text(bs[0]) + dump_text(bs.drop_first())
    }
}

/// Well-formed records written one after another read back, in the order
/// they were written, as the commits they state, without a defect: reading
/// until the input is used up yields exactly one commit per record, and
/// reversing them gives the records from the last written to the first.
pub proof fn lemma_records_read_back(bs: Seq<Block>)
    requires
        forall|i: int| 0 <= i < bs.len() ==> valid_block(#[trigger] bs[i]),
    ensures
        log_split(dump_text(bs)).0 == bs.map_values(|b: Block| block_view(b)),
        log_split(dump_text(bs)).1.len() == 0,
        log_split(dump_text(bs)).0.reverse() == bs.reverse().map_values(|b: Block| block_view(b)),
{
    lemma_records_in_order(bs);
    assert(bs.map_values(|b: Block| block_view(b)).reverse() =~= bs.reverse().map_values(
        |b: Block| block_view(b),
    ));
}

/// Well-formed records written one after another read back in the order
/// they were written.
proof fn lemma_records_in_order(bs: Seq<Block>)
    requires
        forall|i: int| 0 <= i < bs.len() ==> valid_block(#[trigger] bs[i]),
    ensures
        log_split(dump_text(bs)) == (
            bs.map_values(|b: Block| block_view(b)),
            Seq::<char>::empty(),
        ),
    decreases bs.len(),
{
    if bs.len() == 0 {
        assert(bs.map_values(|b: Block| block_view(b)) =~= Seq::<CommitView>::empty());
    } else {
        let rest = bs.drop_first();
        let t = dump_text(rest);
        assert forall|i: int| 0 <= i < rest.len() implies valid_block(#[trigger] rest[i]) by {
            assert(rest[i] == bs[i + 1]);
        }
        lemma_records_in_order(rest);
        if rest.len() > 0 {
            lemma_block_start(rest[0], dump_text(rest.drop_first()));
        }
        assert(valid_block(bs[0]));
        lemma_block(bs[0], t);
        lemma_block_start(bs[0], t);
        let s = dump_text(bs);
        assert(s == block_text(bs[0]) + t);
        assert(s.len() > 0) by {
            assert(commit_tag().is_prefix_of(s));
        }
        lemma_log_step(s, block_view(bs[0]), t);
        assert(seq![block_view(bs[0])] + rest.map_values(|b: Block| block_view(b))
            =~= bs.map_values(|b: Block| block_view(b)));
    }
}

} // verus!
