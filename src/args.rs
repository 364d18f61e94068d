//! The run's configuration: where the history comes from, what to report and
//! which commits to count.
use vstd::prelude::*;

use crate::filter::Filter;

verus! {

/// A file system path, held and handed on as given.
#[verifier::external_type_specification]
#[verifier::external_body]
pub struct ExPathBuf(std::path::PathBuf);

/// Where the history is read from.
#[derive(Debug)]
pub enum InputMethod {
    /// The local Git history.
    GitHistory,
    /// A file that holds a history dump.
    LogFile {
        /// The file to read from.
        log_file: std::path::PathBuf,
    },
    /// The standard input.
    Stdin,
}

/// The configuration of a run.
#[derive(Debug)]
pub struct Args {
    /// Where the history is read from.
    pub input_method: InputMethod,
    /// Whether every matching commit is shown in full.
    pub is_verbose: bool,
    /// File extensions, one of which a counted diff row's file has.
    pub file_extension: Vec<String>,
    /// The longest gap, in whole hours, between two commits that still
    /// counts as work.
    pub duration: u32,
    /// A file for the per-day table.
    pub output: Option<std::path::PathBuf>,
    /// Substrings, one of which an author's name contains.
    pub author_contains: Vec<String>,
    /// Strings, one of which an author's name equals.
    pub author_equals: Vec<String>,
    /// Substrings, one of which an author's email address contains.
    pub email_contains: Vec<String>,
    /// Strings, one of which an author's email address equals.
    pub email_equals: Vec<String>,
    /// Substrings, one of which a commit hash contains.
    pub commit_contains: Vec<String>,
    /// Strings, one of which a commit hash equals.
    pub commit_equals: Vec<String>,
    /// Substrings, one of which a commit message contains.
    pub message_contains: Vec<String>,
    /// Strings, one of which a commit message equals.
    pub message_equals: Vec<String>,
    /// Strings, one of which a commit message starts with.
    pub message_starts_with: Vec<String>,
}

/// A copy of `v`.
fn copy_list(v: &Vec<String>) -> (r: Vec<String>)
    ensures
        r@ == v@,
{
    let mut r: Vec<String> = Vec::new();
    let mut i: usize = 0;
    while i < v.len()
        invariant
            0 <= i <= v.len(),
            r@ == v@.take(i as int),
        decreases v.len() - i,
    {
        r.push(v[i].clone());
        assert(r@ =~= v@.take(i + 1));
        i = i + 1;
    }
    assert(v@.take(i as int) =~= v@);
    r
}

impl Args {
    /// Where the history is read from.
    pub fn input_method(&self) -> (r: &InputMethod)
        ensures
            r == &self.input_method,
    {
        &self.input_method
    }

    /// Whether every matching commit is shown in full.
    pub fn is_verbose(&self) -> (r: bool)
        ensures
            r == self.is_verbose,
    {
        self.is_verbose
    }

    /// The longest gap, in whole hours, between two commits that still counts
    /// as work.
    pub fn duration(&self) -> (r: u32)
        ensures
            r == self.duration,
    {
        self.duration
    }

    /// Moves the output path out of the configuration.
    pub fn take_output(&mut self) -> (r: Option<std::path::PathBuf>)
        ensures
            r == old(self).output,
            final(self).output is None,
            final(self).input_method == old(self).input_method,
            final(self).is_verbose == old(self).is_verbose,
            final(self).duration == old(self).duration,
            final(self).file_extension == old(self).file_extension,
            final(self).author_contains == old(self).author_contains,
            final(self).author_equals == old(self).author_equals,
            final(self).email_contains == old(self).email_contains,
            final(self).email_equals == old(self).email_equals,
            final(self).commit_contains == old(self).commit_contains,
            final(self).commit_equals == old(self).commit_equals,
            final(self).message_contains == old(self).message_contains,
            final(self).message_equals == old(self).message_equals,
            final(self).message_starts_with == old(self).message_starts_with,
    {
        self.output.take()
    }

    /// The filter that the criteria of this configuration describe.
    pub fn filter(&self) -> (r: Filter)
        ensures
            r.author_contains@ == self.author_contains@,
            r.author_equals@ == self.author_equals@,
            r.commit_contains@ == self.commit_contains@,
            r.commit_equals@ == self.commit_equals@,
            r.email_contains@ == self.email_contains@,
            r.email_equals@ == self.email_equals@,
            r.file_extension@ == self.file_extension@,
            r.message_contains@ == self.message_contains@,
            r.message_equals@ == self.message_equals@,
            r.message_starts_with@ == self.message_starts_with@,
    {
        Filter::new(
            copy_list(&self.author_contains),
            copy_list(&self.author_equals),
            copy_list(&self.commit_contains),
            copy_list(&self.commit_equals),
            copy_list(&self.email_contains),
            copy_list(&self.email_equals),
            copy_list(&self.file_extension),
            copy_list(&self.message_contains),
            copy_list(&self.message_equals),
            copy_list(&self.message_starts_with),
        )
    }
}

} // verus!
