//! Errors, and how they read.

use crate::text::{decimal, decimal_digits, occurs_at};
use vstd::prelude::*;
use vstd::string::*;

verus! {

/// What can go wrong.
#[derive(Debug)]
pub enum GitAiError {
    /// The metrics database was written by a later version.
    SchemaTooNew { found: usize, supported: usize },
    /// No migration leads on from a schema version.
    NoMigration { from_version: usize },
    /// A number of rows is too large for the database.
    LimitOutOfRange,
    /// The database failed, with its own words.
    Sqlite(String),
    /// The repository failed, with its own words.
    Repository(String),
    /// An answer came that fits no open request.
    UnexpectedReply,
    /// The user's home directory is not known.
    NoHomeDirectory,
}

/// The words of an error.
pub open spec fn error_text(error: GitAiError) -> Seq<char> {
    match error {
        GitAiError::SchemaTooNew { found, supported } => "Metrics database schema version "@
            + decimal_digits(found as nat) + " is newer than supported version "@
            + decimal_digits(supported as nat)
            + ". Please upgrade git-ai to the latest version."@,
        GitAiError::NoMigration { from_version } => "No migration defined for version "@
            + decimal_digits(from_version as nat) + " -> "@ + decimal_digits(
            (from_version + 1) as nat,
        ),
        GitAiError::LimitOutOfRange => "out of range integral type conversion attempted"@,
        GitAiError::Sqlite(words) => words@,
        GitAiError::Repository(words) => words@,
        GitAiError::UnexpectedReply => "unexpected reply"@,
        GitAiError::NoHomeDirectory => "Could not determine home directory"@,
    }
}

impl GitAiError {
    /// The words of the error.
    pub fn message(&self) -> (text: String)
        requires
            self matches GitAiError::NoMigration { from_version } ==> from_version < usize::MAX,
        ensures
            text@ == error_text(*self),
    {
        match self {
            GitAiError::SchemaTooNew { found, supported } => {
                let mut text: String = "Metrics database schema version ".to_owned();
                text.append(decimal(*found as u64).as_str());
                text.append(" is newer than supported version ");
                text.append(decimal(*supported as u64).as_str());
                text.append(". Please upgrade git-ai to the latest version.");
                text
            },
            GitAiError::NoMigration { from_version } => {
                let mut text: String = "No migration defined for version ".to_owned();
                text.append(decimal(*from_version as u64).as_str());
                text.append(" -> ");
                text.append(decimal((*from_version + 1) as u64).as_str());
                text
            },
            GitAiError::LimitOutOfRange =>
                "out of range integral type conversion attempted".to_owned(),
            GitAiError::Sqlite(words) => words.clone(),
            GitAiError::Repository(words) => words.clone(),
            GitAiError::UnexpectedReply =>
                "unexpected reply".to_owned(),
            GitAiError::NoHomeDirectory => "Could not determine home directory".to_owned(),
        }
    }
}

/// The words of the database and of the repository are passed on as they are; an error about
/// versions names both of them, the found one first.
pub proof fn law_error_tells_what_it_holds(words: String, found: usize, supported: usize)
    ensures
        error_text(GitAiError::Sqlite(words)) == words@,
        error_text(GitAiError::Repository(words)) == words@,
        ({
            let text = error_text(GitAiError::SchemaTooNew { found, supported });
            let one = decimal_digits(found as nat);
            let other = decimal_digits(supported as nat);
            exists|first: int, second: int| #[trigger]
                occurs_at(text, one, first) && #[trigger] occurs_at(text, other, second) && first
                    + one.len() < second
        }),
        ({
            let text = error_text(GitAiError::NoMigration { from_version: found });
            let one = decimal_digits(found as nat);
            let other = decimal_digits((found + 1) as nat);
            exists|first: int, second: int| #[trigger]
                occurs_at(text, one, first) && #[trigger] occurs_at(text, other, second) && first
                    + one.len() < second
        }),
{
    let from = decimal_digits(found as nat);
    reveal_strlit("Metrics database schema version ");
    reveal_strlit(" is newer than supported version ");
    reveal_strlit("No migration defined for version ");
    reveal_strlit(" -> ");
    {
        let text = error_text(GitAiError::SchemaTooNew { found, supported });
        let to = decimal_digits(supported as nat);
        let first = "Metrics database schema version "@.len() as int;
        let second = first + from.len() + " is newer than supported version "@.len();
        assert(text.subrange(first, first + from.len()) =~= from);
        assert(text.subrange(second, second + to.len()) =~= to);
        assert(occurs_at(text, from, first) && occurs_at(text, to, second));
    }
    {
        let text = error_text(GitAiError::NoMigration { from_version: found });
        let to = decimal_digits((found + 1) as nat);
        let first = "No migration defined for version "@.len() as int;
        let second = first + from.len() + " -> "@.len();
        assert(text.subrange(first, first + from.len()) =~= from);
        assert(text.subrange(second, second + to.len()) =~= to);
        assert(occurs_at(text, from, first) && occurs_at(text, to, second));
    }
}

} // verus!
