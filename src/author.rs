//! The author of a commit, read from a line of the form `Name <email>`.
use vstd::prelude::*;

use crate::text::{split_on, split_once, strip_suffix, trim, trimmed};

verus! {

/// The author meta data: a name and an email address.
///
/// Both fields are trimmed of surrounding white space; either may be empty.
#[derive(Debug)]
pub struct Author {
    /// The email address.
    pub email: String,
    /// The author's name.
    pub name: String,
}

/// The ways in which an author line can be malformed.
#[derive(Debug, Clone, Copy, PartialEq, Eq, Structural)]
pub enum AuthorParseError {
    /// The text after the first `<` does not end with `>`.
    EmailFailed,
    /// The line holds no `<`.
    NameFailed,
}

/// What an author line reads as: the trimmed name before the first `<` and
/// the trimmed email between it and a final `>`, or the error that the line
/// gives.
pub open spec fn author_parts(line: Seq<char>) -> Result<
    (Seq<char>, Seq<char>),
    AuthorParseError,
> {
    match split_on(line, '<') {
        None => Err(AuthorParseError::NameFailed),
        Some((name, rest)) => if rest.len() > 0 && rest.last() == '>' {
            Ok((trimmed(name), trimmed(rest.drop_last())))
        } else {
            Err(AuthorParseError::EmailFailed)
        },
    }
}

impl Author {
    /// The email address.
    pub fn email(&self) -> (r: &str)
        ensures
            r@ == self.email@,
    {
        self.email.as_str()
    }

    /// The author's name.
    pub fn name(&self) -> (r: &str)
        ensures
            r@ == self.name@,
    {
        self.name.as_str()
    }

    /// Extracts the author information from the given line.
    pub fn parse(author: &str) -> (r: Result<Author, AuthorParseError>)
        ensures
            match r {
                Ok(a) => author_parts(author@) == Ok::<_, AuthorParseError>((a.name@, a.email@)),
                Err(e) => author_parts(author@) == Err::<(Seq<char>, Seq<char>), _>(e),
            },
    {
        let (name, remainder) = match split_once(author, '<') {
            Some(parts) => parts,
            None => return Err(AuthorParseError::NameFailed),
        };
        let email = match strip_suffix(remainder, '>') {
            Some(email) => email,
            None => return Err(AuthorParseError::EmailFailed),
        };
        proof {
            assert(email@ == remainder@.drop_last());
        }
        Ok(Author { name: trim(name).to_owned(), email: trim(email).to_owned() })
    }
}

} // verus!
