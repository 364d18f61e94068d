//! One row of a commit's line-count diff: `<added>\t<removed>\t<file>`.
use vstd::prelude::*;

use crate::text::{
    decimal_value, is_u32_text, parse_u32, split_on, split_once, strip_prefix, unsigned_digits,
};

verus! {

/// The line-count diff that a commit brings to one file.
///
/// A count is `None` where the producer printed `-`, as it does for binary
/// files.
#[derive(Debug)]
pub struct LocDiff {
    /// The number of insertions.
    pub added: Option<u32>,
    /// The number of deletions.
    pub removed: Option<u32>,
    /// The affected file, as printed.
    pub file: String,
}

/// The ways in which a diff row can be malformed.
#[derive(Debug)]
pub enum LocParseError {
    /// The number of insertions could not be parsed.
    AddedParseError(std::num::ParseIntError),
    /// The tab between the insertions and the deletions is missing.
    FirstTabulatorMissing,
    /// The number of deletions could not be parsed.
    RemovedParseError(std::num::ParseIntError),
    /// The tab between the deletions and the file name is missing.
    SecondTabulatorMissing,
}

/// Whether `t` is a valid count: `-` or the decimal text of a `u32`.
pub open spec fn count_ok(t: Seq<char>) -> bool {
    t == seq!['-'] || is_u32_text(t)
}

/// The count that a valid count text stands for.
pub open spec fn count_of(t: Seq<char>) -> Option<u32> {
    if t == seq!['-'] {
        None
    } else {
        Some(decimal_value(unsigned_digits(t)) as u32)
    }
}

/// The three fields of a row: the text before the first tab, the text between
/// it and the next tab, and the rest.
pub open spec fn loc_fields(line: Seq<char>) -> Option<(Seq<char>, Seq<char>, Seq<char>)> {
    match split_on(line, '\t') {
        None => None,
        Some((a, rest)) => match split_on(rest, '\t') {
            None => None,
            Some((b, f)) => Some((a, b, f)),
        },
    }
}

/// What a valid row reads as: insertions, deletions and the file.
pub open spec fn loc_parts(line: Seq<char>) -> Option<(Option<u32>, Option<u32>, Seq<char>)> {
    match loc_fields(line) {
        Some((a, b, f)) => if count_ok(a) && count_ok(b) {
            Some((count_of(a), count_of(b), f))
        } else {
            None
        },
        None => None,
    }
}

/// Whether `e` is the error that an invalid row gives: the first of the
/// missing tabs, else the first invalid count.
pub open spec fn loc_failure(line: Seq<char>, e: LocParseError) -> bool {
    match split_on(line, '\t') {
        None => e is FirstTabulatorMissing,
        Some((a, rest)) => match split_on(rest, '\t') {
            None => e is SecondTabulatorMissing,
            Some((b, f)) => if !count_ok(a) {
                e is AddedParseError
            } else {
                !count_ok(b) && e is RemovedParseError
            },
        },
    }
}

/// The net line delta of a row: a missing count counts as zero.
pub open spec fn net_of(added: Option<u32>, removed: Option<u32>) -> int {
    let a: int = match added {
        Some(n) => n as int,
        None => 0,
    };
    let r: int = match removed {
        Some(n) => n as int,
        None => 0,
    };
    a - r
}

/// Reads one count field.
fn parse_count(t: &str) -> (r: Result<Option<u32>, std::num::ParseIntError>)
    ensures
        match r {
            Ok(c) => count_ok(t@) && c == count_of(t@),
            Err(_) => !count_ok(t@),
        },
{
    proof {
        reveal_strlit("-");
    }
    match strip_prefix(t, "-") {
        Some(rest) => {
            if rest.is_empty() {
                assert(t@ =~= seq!['-']);
                return Ok(None);
            }
        },
        None => {},
    }
    assert(t@ != seq!['-']) by {
        if t@ == seq!['-'] {
            assert("-"@.is_prefix_of(t@));
        }
    }
    match parse_u32(t) {
        Ok(v) => Ok(Some(v)),
        Err(e) => Err(e),
    }
}

impl LocDiff {
    /// The affected file.
    pub fn file(&self) -> (r: &str)
        ensures
            r@ == self.file@,
    {
        self.file.as_str()
    }

    /// The net line delta: insertions minus deletions, a missing count taken
    /// as zero.
    pub fn loc(&self) -> (r: i64)
        ensures
            r == net_of(self.added, self.removed),
    {
        let a: i64 = match self.added {
            Some(n) => n as i64,
            None => 0,
        };
        let r: i64 = match self.removed {
            Some(n) => n as i64,
            None => 0,
        };
        a - r
    }

    /// Extracts the diff information from the given row.
    pub fn parse(loc: &str) -> (r: Result<LocDiff, LocParseError>)
        ensures
            match r {
                Ok(d) => loc_parts(loc@) == Some((d.added, d.removed, d.file@)),
                Err(e) => loc_parts(loc@) is None && loc_failure(loc@, e),
            },
    {
        let (added, remainder) = match split_once(loc, '\t') {
            Some(parts) => parts,
            None => return Err(LocParseError::FirstTabulatorMissing),
        };
        let (removed, file) = match split_once(remainder, '\t') {
            Some(parts) => parts,
            None => return Err(LocParseError::SecondTabulatorMissing),
        };
        let added = match parse_count(added) {
            Ok(c) => c,
            Err(e) => return Err(LocParseError::AddedParseError(e)),
        };
        let removed = match parse_count(removed) {
            Ok(c) => c,
            Err(e) => return Err(LocParseError::RemovedParseError(e)),
        };
        Ok(LocDiff { added, removed, file: file.to_owned() })
    }
}

} // verus!
