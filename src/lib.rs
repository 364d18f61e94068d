//! Reads the output of `git log --numstat` into commit records, filters them,
//! and estimates from their timestamps how long somebody worked on a project.
pub mod args;
pub mod author;
pub mod commit;
pub mod date;
pub mod dump;
pub mod filter;
pub mod loc;
pub mod report;
pub mod text;

pub use args::{Args, InputMethod};
pub use author::{Author, AuthorParseError};
pub use commit::{parse_log, Commit, CommitParseError};
pub use date::CommitDate;
pub use filter::Filter;
pub use loc::{LocDiff, LocParseError};
pub use report::{aggregate, DayTotal, Summary};
