//! Which commits, and which of their diff rows, a report counts.
use vstd::prelude::*;

use crate::commit::{Commit, CommitView};
use crate::loc::LocDiff;
use crate::text::{contains, ends_with, occurs_in, starts_with, str_eq};

verus! {

/// The filter criteria.
///
/// Each list is a disjunction: an empty list accepts everything, any other
/// accepts a value where one of its entries does. A commit is accepted where
/// every list accepts it.
#[derive(Debug, Default)]
pub struct Filter {
    /// Substrings, one of which an author's name contains.
    pub author_contains: Vec<String>,
    /// Strings, one of which an author's name equals.
    pub author_equals: Vec<String>,
    /// Substrings, one of which a commit hash contains.
    pub commit_contains: Vec<String>,
    /// Strings, one of which a commit hash equals.
    pub commit_equals: Vec<String>,
    /// Substrings, one of which an author's email address contains.
    pub email_contains: Vec<String>,
    /// Strings, one of which an author's email address equals.
    pub email_equals: Vec<String>,
    /// File extensions, one of which a counted diff row's file has.
    pub file_extension: Vec<String>,
    /// Substrings, one of which a commit message contains.
    pub message_contains: Vec<String>,
    /// Strings, one of which a commit message equals.
    pub message_equals: Vec<String>,
    /// Strings, one of which a commit message starts with.
    pub message_starts_with: Vec<String>,
}

/// Whether `list` is empty or one of its entries equals `v`.
pub open spec fn any_equals(list: Seq<String>, v: Seq<char>) -> bool {
    list.len() == 0 || exists|i: int| 0 <= i < list.len() && #[trigger] list[i]@ == v
}

/// Whether `list` is empty or `v` contains one of its entries.
pub open spec fn any_contained(list: Seq<String>, v: Seq<char>) -> bool {
    list.len() == 0 || exists|i: int| 0 <= i < list.len() && occurs_in(#[trigger] list[i]@, v)
}

/// Whether `list` is empty or `v` starts with one of its entries.
pub open spec fn any_prefix(list: Seq<String>, v: Seq<char>) -> bool {
    list.len() == 0 || exists|i: int| 0 <= i < list.len() && (#[trigger] list[i]@).is_prefix_of(v)
}

/// Whether `list` is empty or `file` ends with `.` and one of its entries.
pub open spec fn any_extension(list: Seq<String>, file: Seq<char>) -> bool {
    list.len() == 0 || exists|i: int|
        0 <= i < list.len() && (seq!['.'] + #[trigger] list[i]@).is_suffix_of(file)
}

/// Whether `list` is empty or one of its entries equals `v`.
fn check_equals(list: &Vec<String>, v: &str) -> (r: bool)
    ensures
        r == any_equals(list@, v@),
{
    if list.len() == 0 {
        return true;
    }
    let mut i: usize = 0;
    while i < list.len()
        invariant
            0 <= i <= list.len(),
            forall|j: int| 0 <= j < i ==> list@[j]@ != v@,
        decreases list.len() - i,
    {
        if str_eq(list[i].as_str(), v) {
            return true;
        }
        i = i + 1;
    }
    false
}

/// Whether `list` is empty or `v` contains one of its entries.
fn check_contains(list: &Vec<String>, v: &str) -> (r: bool)
    ensures
        r == any_contained(list@, v@),
{
    if list.len() == 0 {
        return true;
    }
    let mut i: usize = 0;
    while i < list.len()
        invariant
            0 <= i <= list.len(),
            forall|j: int| 0 <= j < i ==> !occurs_in(#[trigger] list@[j]@, v@),
        decreases list.len() - i,
    {
        if contains(v, list[i].as_str()) {
            return true;
        }
        i = i + 1;
    }
    false
}

/// Whether `list` is empty or `v` starts with one of its entries.
fn check_prefix(list: &Vec<String>, v: &str) -> (r: bool)
    ensures
        r == any_prefix(list@, v@),
{
    if list.len() == 0 {
        return true;
    }
    let mut i: usize = 0;
    while i < list.len()
        invariant
            0 <= i <= list.len(),
            forall|j: int| 0 <= j < i ==> !(#[trigger] list@[j]@).is_prefix_of(v@),
        decreases list.len() - i,
    {
        if starts_with(v, list[i].as_str()) {
            return true;
        }
        i = i + 1;
    }
    false
}

impl Filter {
    /// Whether the name matches.
    pub open spec fn name_ok(&self, name: Seq<char>) -> bool {
        any_equals(self.author_equals@, name) && any_contained(self.author_contains@, name)
    }

    /// Whether the email address matches.
    pub open spec fn email_ok(&self, email: Seq<char>) -> bool {
        any_equals(self.email_equals@, email) && any_contained(self.email_contains@, email)
    }

    /// Whether the commit hash matches.
    pub open spec fn id_ok(&self, id: Seq<char>) -> bool {
        any_equals(self.commit_equals@, id) && any_contained(self.commit_contains@, id)
    }

    /// Whether the message matches.
    pub open spec fn message_ok(&self, message: Seq<char>) -> bool {
        &&& any_equals(self.message_equals@, message)
        &&& any_contained(self.message_contains@, message)
        &&& any_prefix(self.message_starts_with@, message)
    }

    /// Whether a commit that states `c` is accepted.
    pub open spec fn accepts(&self, c: CommitView) -> bool {
        &&& self.name_ok(c.name)
        &&& self.email_ok(c.email)
        &&& self.id_ok(c.id)
        &&& self.message_ok(c.message)
    }

    /// Whether a diff row of `file` is counted.
    pub open spec fn counts_file(&self, file: Seq<char>) -> bool {
        any_extension(self.file_extension@, file)
    }

    /// A filter whose only commit criterion is one exact author name, perhaps
    /// together with one substring of that name, accepts exactly the commits
    /// by that name.
    pub proof fn lemma_exact_author(self, c: CommitView)
        requires
            self.author_equals@.len() == 1,
            self.author_contains@.len() == 0 || (self.author_contains@.len() == 1 && occurs_in(
                self.author_contains@[0]@,
                self.author_equals@[0]@,
            )),
            self.email_equals@.len() == 0,
            self.email_contains@.len() == 0,
            self.commit_equals@.len() == 0,
            self.commit_contains@.len() == 0,
            self.message_equals@.len() == 0,
            self.message_contains@.len() == 0,
            self.message_starts_with@.len() == 0,
        ensures
            self.accepts(c) <==> c.name == self.author_equals@[0]@,
    {
        if c.name == self.author_equals@[0]@ {
            assert(self.author_equals@[0]@ == c.name);
            if self.author_contains@.len() == 1 {
                assert(occurs_in(self.author_contains@[0]@, c.name));
            }
        }
    }

    /// Creates a filter from its criteria.
    pub fn new(
        author_contains: Vec<String>,
        author_equals: Vec<String>,
        commit_contains: Vec<String>,
        commit_equals: Vec<String>,
        email_contains: Vec<String>,
        email_equals: Vec<String>,
        file_extension: Vec<String>,
        message_contains: Vec<String>,
        message_equals: Vec<String>,
        message_starts_with: Vec<String>,
    ) -> (r: Filter)
        ensures
            r.author_contains@ == author_contains@,
            r.author_equals@ == author_equals@,
            r.commit_contains@ == commit_contains@,
            r.commit_equals@ == commit_equals@,
            r.email_contains@ == email_contains@,
            r.email_equals@ == email_equals@,
            r.file_extension@ == file_extension@,
            r.message_contains@ == message_contains@,
            r.message_equals@ == message_equals@,
            r.message_starts_with@ == message_starts_with@,
    {
        Filter {
            author_contains,
            author_equals,
            commit_contains,
            commit_equals,
            email_contains,
            email_equals,
            file_extension,
            message_contains,
            message_equals,
            message_starts_with,
        }
    }

    /// Whether the author's email address matches.
    fn check_author_email(&self, email: &str) -> (r: bool)
        ensures
            r == self.email_ok(email@),
    {
        let contains = check_contains(&self.email_contains, email);
        let equals = check_equals(&self.email_equals, email);
        equals && contains
    }

    /// Whether the author's name matches.
    fn check_author_name(&self, name: &str) -> (r: bool)
        ensures
            r == self.name_ok(name@),
    {
        let contains = check_contains(&self.author_contains, name);
        let equals = check_equals(&self.author_equals, name);
        equals && contains
    }

    /// Whether the commit hash matches.
    fn check_commit(&self, commit: &str) -> (r: bool)
        ensures
            r == self.id_ok(commit@),
    {
        let contains = check_contains(&self.commit_contains, commit);
        let equals = check_equals(&self.commit_equals, commit);
        equals && contains
    }

    /// Whether the message matches.
    fn check_message(&self, message: &str) -> (r: bool)
        ensures
            r == self.message_ok(message@),
    {
        let contains = check_contains(&self.message_contains, message);
        let equals = check_equals(&self.message_equals, message);
        let starts_with = check_prefix(&self.message_starts_with, message);
        equals && contains && starts_with
    }

    /// Whether a diff row counts: its file has one of the extensions, or no
    /// extension is given.
    pub fn check_loc(&self, loc: &LocDiff) -> (r: bool)
        ensures
            r == self.counts_file(loc.file@),
    {
        if self.file_extension.len() == 0 {
            return true;
        }
        let mut i: usize = 0;
        while i < self.file_extension.len()
            invariant
                0 <= i <= self.file_extension.len(),
                forall|j: int|
                    0 <= j < i ==> !(seq!['.'] + #[trigger] self.file_extension@[j]@).is_suffix_of(
                        loc.file@,
                    ),
            decreases self.file_extension.len() - i,
        {
            let mut suffix = ".".to_owned();
            suffix.append(self.file_extension[i].as_str());
            proof {
                reveal_strlit(".");
                assert(suffix@ =~= seq!['.'] + self.file_extension@[i as int]@);
            }
            if ends_with(loc.file(), suffix.as_str()) {
                return true;
            }
            i = i + 1;
        }
        false
    }

    /// Whether the commit matches all criteria but the file extensions.
    pub fn matches(&self, commit: &Commit) -> (r: bool)
        ensures
            r == self.accepts(commit@),
    {
        self.check_author_name(commit.author().name()) && self.check_author_email(
            commit.author().email(),
        ) && self.check_commit(commit.commit()) && self.check_message(commit.message())
    }
}

} // verus!
