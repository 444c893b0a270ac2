//! Syncing with the background service before a command runs.
//!
//! The repository and the service are outside. Starting a sync answers with the first question to
//! them; each reply is handed to [`resume`], which answers with the next question or the result.

use crate::text::{blank, is_blank};
use vstd::prelude::*;
use vstd::string::*;

verus! {

/// The status with which the program exits after a failure.
pub const EXIT_STATUS: i32 = 1;

/// Where and how the program runs.
#[derive(Debug, Clone, Copy, PartialEq, Eq, Structural)]
pub struct SyncSettings {
    /// Whether the program was built for tests. Only then the service can be missing.
    pub test_support: bool,
    /// Whether it runs on Windows, where the socket is no file.
    pub windows: bool,
}

/// Why the program cannot go on.
#[derive(Debug)]
pub enum SyncFailure {
    Repository { command_name: String, words: String },
    Worktree { command_name: String, words: String },
    Paths { command_name: String, words: String },
    /// The service could not be reached, or refused: in its words, if it gave any.
    Sync { command_name: String, words: Option<String> },
}

/// What is said about a failure.
pub open spec fn failure_text(failure: SyncFailure) -> Seq<char> {
    match failure {
        SyncFailure::Repository { command_name, words } => "Failed to find repository for "@
            + command_name@ + ": "@ + words@,
        SyncFailure::Worktree { command_name, words } =>
            "Failed to resolve repository worktree for "@ + command_name@ + ": "@ + words@,
        SyncFailure::Paths { command_name, words } => "Failed to resolve daemon paths for "@
            + command_name@ + ": "@ + words@,
        SyncFailure::Sync { command_name, words } =>
            "Failed to sync git-ai background service before "@ + command_name@ + ": "@ + (
        match words {
            Some(words) => words@,
            None => "unknown daemon error"@,
        }),
    }
}

fn sentence(beginning: &str, command_name: &String, words: &str) -> (text: String)
    ensures
        text@ == beginning@ + command_name@ + ": "@ + words@,
{
    let mut text: String = beginning.to_owned();
    text.append(command_name.as_str());
    text.append(": ");
    text.append(words);
    text
}

impl SyncFailure {
    /// What is said about the failure.
    pub fn message(&self) -> (text: String)
        ensures
            text@ == failure_text(*self),
    {
        match self {
            SyncFailure::Repository { command_name, words } => sentence(
                "Failed to find repository for ",
                command_name,
                words.as_str(),
            ),
            SyncFailure::Worktree { command_name, words } => sentence(
                "Failed to resolve repository worktree for ",
                command_name,
                words.as_str(),
            ),
            SyncFailure::Paths { command_name, words } => sentence(
                "Failed to resolve daemon paths for ",
                command_name,
                words.as_str(),
            ),
            SyncFailure::Sync { command_name, words } => match words {
                Some(words) => sentence(
                    "Failed to sync git-ai background service before ",
                    command_name,
                    words.as_str(),
                ),
                None => sentence(
                    "Failed to sync git-ai background service before ",
                    command_name,
                    "unknown daemon error",
                ),
            },
        }
    }
}

/// A question to the outside.
#[derive(Debug)]
pub enum SyncQuestion {
    /// Find the repository of the current directory. It is kept for the questions after it.
    FindRepository,
    /// The value of the variable that names the socket of the service.
    ReadSocketVariable,
    /// Whether there is a file under a path.
    ProbePath { path: String },
    /// The worktree of the repository.
    ReadWorktree,
    /// Find the paths of the service. They are kept for the questions after it.
    ResolvePaths,
    /// Ask the service to sync the family of a worktree.
    SyncFamily { repo_working_dir: String },
}

/// A reply from the outside.
#[derive(Debug)]
pub enum SyncReply {
    /// It was done.
    Done,
    Text(Option<String>),
    Truth(bool),
    /// The reply of the service.
    Response { ok: bool, error: Option<String> },
    /// It failed, with these words.
    Failed(String),
}

/// Which reply a sync waits for.
#[derive(Debug)]
pub enum SyncStage {
    /// The repository. Without one the command cannot run where it is `required`.
    Repository { command_name: String, settings: SyncSettings, required: bool },
    Variable { command_name: String, settings: SyncSettings },
    Probe { command_name: String },
    Worktree { command_name: String },
    Paths { command_name: String, repo_working_dir: String },
    Response { command_name: String },
}

/// How far a sync has come.
#[derive(Debug)]
pub enum SyncStep {
    /// It waits for the reply to a question.
    Ask { question: SyncQuestion, stage: SyncStage },
    /// It is over, and the command can run.
    Finished,
    /// It failed: the program says so and exits.
    Exit(SyncFailure),
    /// The reply fits no open question.
    Unexpected,
}

/// The question about the worktree, with which a sync begins where the service is available.
pub open spec fn reads_worktree(command_name: String) -> SyncStep {
    SyncStep::Ask {
        question: SyncQuestion::ReadWorktree,
        stage: SyncStage::Worktree { command_name },
    }
}

/// How a sync begins in a repository.
pub open spec fn starts(command_name: String, settings: SyncSettings) -> SyncStep {
    if settings.test_support {
        SyncStep::Ask {
            question: SyncQuestion::ReadSocketVariable,
            stage: SyncStage::Variable { command_name, settings },
        }
    } else {
        reads_worktree(command_name)
    }
}

/// How a sync begins in the current directory.
pub open spec fn starts_here(
    command_name: String,
    settings: SyncSettings,
    required: bool,
) -> SyncStep {
    SyncStep::Ask {
        question: SyncQuestion::FindRepository,
        stage: SyncStage::Repository { command_name, settings, required },
    }
}

/// How a sync goes on with the name of the socket.
pub open spec fn goes_on_with_socket(
    command_name: String,
    settings: SyncSettings,
    path: Option<String>,
) -> SyncStep {
    match path {
        Some(path) => if blank(path@) {
            SyncStep::Finished
        } else if settings.windows {
            reads_worktree(command_name)
        } else {
            SyncStep::Ask {
                question: SyncQuestion::ProbePath { path },
                stage: SyncStage::Probe { command_name },
            }
        },
        None => SyncStep::Finished,
    }
}

/// How a sync goes on after a reply.
pub open spec fn after(stage: SyncStage, reply: SyncReply) -> SyncStep {
    match (stage, reply) {
        (SyncStage::Repository { command_name, settings, .. }, SyncReply::Done) => starts(
            command_name,
            settings,
        ),
        (
            SyncStage::Repository { command_name, required, .. },
            SyncReply::Failed(words),
        ) => if required {
            SyncStep::Exit(SyncFailure::Repository { command_name, words })
        } else {
            SyncStep::Finished
        },
        (SyncStage::Variable { command_name, settings }, SyncReply::Text(path)) =>
            goes_on_with_socket(command_name, settings, path),
        (SyncStage::Probe { command_name }, SyncReply::Truth(exists)) => if exists {
            reads_worktree(command_name)
        } else {
            SyncStep::Finished
        },
        (
            SyncStage::Worktree { command_name },
            SyncReply::Text(Some(repo_working_dir)),
        ) => SyncStep::Ask {
            question: SyncQuestion::ResolvePaths,
            stage: SyncStage::Paths { command_name, repo_working_dir },
        },
        (SyncStage::Worktree { command_name }, SyncReply::Failed(words)) => SyncStep::Exit(
            SyncFailure::Worktree { command_name, words },
        ),
        (
            SyncStage::Paths { command_name, repo_working_dir },
            SyncReply::Done,
        ) => SyncStep::Ask {
            question: SyncQuestion::SyncFamily { repo_working_dir },
            stage: SyncStage::Response { command_name },
        },
        (SyncStage::Paths { command_name, .. }, SyncReply::Failed(words)) => SyncStep::Exit(
            SyncFailure::Paths { command_name, words },
        ),
        (SyncStage::Response { command_name }, SyncReply::Response { ok, error }) => if ok {
            SyncStep::Finished
        } else {
            SyncStep::Exit(SyncFailure::Sync { command_name, words: error })
        },
        (SyncStage::Response { command_name }, SyncReply::Failed(words)) => SyncStep::Exit(
            SyncFailure::Sync { command_name, words: Some(words) },
        ),
        _ => SyncStep::Unexpected,
    }
}

fn read_worktree(command_name: String) -> (step: SyncStep)
    ensures
        step == reads_worktree(command_name),
{
    SyncStep::Ask {
        question: SyncQuestion::ReadWorktree,
        stage: SyncStage::Worktree { command_name },
    }
}

/// Decides, with the name of the socket, whether the service is available to a command: there is
/// a name, it is not blank, and where sockets are files there is one under it, which is then asked.
pub fn daemon_sync_available_for_git_ai_command(
    command_name: String,
    settings: SyncSettings,
    path: Option<String>,
) -> (step: SyncStep)
    ensures
        step == goes_on_with_socket(command_name, settings, path),
{
    match path {
        Some(path) => if is_blank(path.as_str()) {
            SyncStep::Finished
        } else if settings.windows {
            read_worktree(command_name)
        } else {
            SyncStep::Ask {
                question: SyncQuestion::ProbePath { path },
                stage: SyncStage::Probe { command_name },
            }
        },
        None => SyncStep::Finished,
    }
}

/// Begins to sync the family of a repository before a command runs.
pub fn sync_daemon_family_for_repo_or_exit(command_name: String, settings: SyncSettings) -> (step:
    SyncStep)
    ensures
        step == starts(command_name, settings),
{
    if settings.test_support {
        SyncStep::Ask {
            question: SyncQuestion::ReadSocketVariable,
            stage: SyncStage::Variable { command_name, settings },
        }
    } else {
        read_worktree(command_name)
    }
}

/// Begins to sync the family of the repository of the current directory, which has to be there.
pub fn sync_daemon_family_for_current_repo_or_exit(
    command_name: String,
    settings: SyncSettings,
) -> (step: SyncStep)
    ensures
        step == starts_here(command_name, settings, true),
{
    SyncStep::Ask {
        question: SyncQuestion::FindRepository,
        stage: SyncStage::Repository { command_name, settings, required: true },
    }
}

/// Begins to sync the family of the repository of the current directory, if there is one.
pub fn sync_daemon_family_for_current_repo_if_present(
    command_name: String,
    settings: SyncSettings,
) -> (step: SyncStep)
    ensures
        step == starts_here(command_name, settings, false),
{
    SyncStep::Ask {
        question: SyncQuestion::FindRepository,
        stage: SyncStage::Repository { command_name, settings, required: false },
    }
}

/// Goes on with a sync after a reply.
pub fn resume(stage: SyncStage, reply: SyncReply) -> (step: SyncStep)
    ensures
        step == after(stage, reply),
{
    match (stage, reply) {
        (SyncStage::Repository { command_name, settings, .. }, SyncReply::Done) => {
            sync_daemon_family_for_repo_or_exit(command_name, settings)
        },
        (SyncStage::Repository { command_name, required, .. }, SyncReply::Failed(words)) => {
            if required {
                SyncStep::Exit(SyncFailure::Repository { command_name, words })
            } else {
                SyncStep::Finished
            }
        },
        (SyncStage::Variable { command_name, settings }, SyncReply::Text(path)) => {
            daemon_sync_available_for_git_ai_command(command_name, settings, path)
        },
        (SyncStage::Probe { command_name }, SyncReply::Truth(exists)) => {
            if exists {
                read_worktree(command_name)
            } else {
                SyncStep::Finished
            }
        },
        (SyncStage::Worktree { command_name }, SyncReply::Text(Some(repo_working_dir))) => {
            SyncStep::Ask {
                question: SyncQuestion::ResolvePaths,
                stage: SyncStage::Paths { command_name, repo_working_dir },
            }
        },
        (SyncStage::Worktree { command_name }, SyncReply::Failed(words)) => {
            SyncStep::Exit(SyncFailure::Worktree { command_name, words })
        },
        (SyncStage::Paths { command_name, repo_working_dir }, SyncReply::Done) => SyncStep::Ask {
            question: SyncQuestion::SyncFamily { repo_working_dir },
            stage: SyncStage::Response { command_name },
        },
        (SyncStage::Paths { command_name, .. }, SyncReply::Failed(words)) => {
            SyncStep::Exit(SyncFailure::Paths { command_name, words })
        },
        (SyncStage::Response { command_name }, SyncReply::Response { ok, error }) => {
            if ok {
                SyncStep::Finished
            } else {
                SyncStep::Exit(SyncFailure::Sync { command_name, words: error })
            }
        },
        (SyncStage::Response { command_name }, SyncReply::Failed(words)) => {
            SyncStep::Exit(SyncFailure::Sync { command_name, words: Some(words) })
        },
        _ => SyncStep::Unexpected,
    }
}

} // verus!
