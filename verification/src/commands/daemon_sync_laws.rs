//! What a sync comes to, where each question has one reply.

use crate::commands::daemon_sync::{
    after, failure_text, starts, starts_here, SyncFailure, SyncQuestion, SyncReply, SyncSettings,
    SyncStage, SyncStep,
};
use crate::text::{blank, white_space};
use vstd::prelude::*;

verus! {

/// What is replied. Where a question can fail, the error holds the words.
pub struct SyncSurroundings {
    pub repository: Result<(), String>,
    pub socket_variable: Option<String>,
    pub exists: spec_fn(String) -> bool,
    pub worktree: Result<String, String>,
    pub paths: Result<(), String>,
    /// Whether the service agreed to sync the family of a worktree, and its words if not.
    pub service: spec_fn(String) -> Result<(bool, Option<String>), String>,
}

/// The reply to a question.
pub open spec fn reply_to(question: SyncQuestion, surroundings: SyncSurroundings) -> SyncReply {
    match question {
        SyncQuestion::FindRepository => match surroundings.repository {
            Ok(_) => SyncReply::Done,
            Err(words) => SyncReply::Failed(words),
        },
        SyncQuestion::ReadSocketVariable => SyncReply::Text(surroundings.socket_variable),
        SyncQuestion::ProbePath { path } => SyncReply::Truth((surroundings.exists)(path)),
        SyncQuestion::ReadWorktree => match surroundings.worktree {
            Ok(worktree) => SyncReply::Text(Some(worktree)),
            Err(words) => SyncReply::Failed(words),
        },
        SyncQuestion::ResolvePaths => match surroundings.paths {
            Ok(_) => SyncReply::Done,
            Err(words) => SyncReply::Failed(words),
        },
        SyncQuestion::SyncFamily { repo_working_dir } => match (surroundings.service)(
            repo_working_dir,
        ) {
            Ok((ok, error)) => SyncReply::Response { ok, error },
            Err(words) => SyncReply::Failed(words),
        },
    }
}

/// Where a sync ends, if it does so within a number of questions.
pub open spec fn end_within(
    questions: nat,
    step: SyncStep,
    surroundings: SyncSurroundings,
) -> Option<SyncStep>
    decreases questions,
{
    match step {
        SyncStep::Ask { question, stage } => if questions == 0 {
            None
        } else {
            end_within(
                (questions - 1) as nat,
                after(stage, reply_to(question, surroundings)),
                surroundings,
            )
        },
        _ => Some(step),
    }
}

/// Whether the service is available: always, but for a program built for tests, to which a socket
/// has to be named.
pub open spec fn available(settings: SyncSettings, surroundings: SyncSurroundings) -> bool {
    !settings.test_support || match surroundings.socket_variable {
        Some(path) => !blank(path@) && (settings.windows || (surroundings.exists)(path)),
        None => false,
    }
}

/// What a sync in a repository ends with: the first thing that fails, where the service is
/// available and anything does.
pub open spec fn sync_end(
    command_name: String,
    settings: SyncSettings,
    surroundings: SyncSurroundings,
) -> SyncStep {
    if !available(settings, surroundings) {
        SyncStep::Finished
    } else {
        match surroundings.worktree {
            Err(words) => SyncStep::Exit(SyncFailure::Worktree { command_name, words }),
            Ok(worktree) => match surroundings.paths {
                Err(words) => SyncStep::Exit(SyncFailure::Paths { command_name, words }),
                Ok(_) => match (surroundings.service)(worktree) {
                    Err(words) => SyncStep::Exit(
                        SyncFailure::Sync { command_name, words: Some(words) },
                    ),
                    Ok((true, _)) => SyncStep::Finished,
                    Ok((false, words)) => SyncStep::Exit(SyncFailure::Sync { command_name, words }),
                },
            },
        }
    }
}

/// A sync in a repository ends after a few questions, as it should.
pub proof fn law_sync_ends(
    command_name: String,
    settings: SyncSettings,
    surroundings: SyncSurroundings,
)
    ensures
        end_within(5, starts(command_name, settings), surroundings) == Some(
            sync_end(command_name, settings, surroundings),
        ),
{
    reveal_with_fuel(end_within, 6);
}

/// A sync in the current directory ends as one in its repository. Without a repository it fails
/// where one is required, and is left out where not.
pub proof fn law_sync_here_ends(
    command_name: String,
    settings: SyncSettings,
    required: bool,
    surroundings: SyncSurroundings,
)
    ensures
        end_within(6, starts_here(command_name, settings, required), surroundings) == Some(
            match surroundings.repository {
                Ok(_) => sync_end(command_name, settings, surroundings),
                Err(words) => if required {
                    SyncStep::Exit(SyncFailure::Repository { command_name, words })
                } else {
                    SyncStep::Finished
                },
            },
        ),
{
    reveal_with_fuel(end_within, 7);
}

/// Whether a sync takes place: always in a program that was not built for tests; otherwise where a
/// socket is named by more than white space and, but for Windows, a file is there.
pub open spec fn takes_place(settings: SyncSettings, surroundings: SyncSurroundings) -> bool {
    ||| !settings.test_support
    ||| {
        &&& surroundings.socket_variable is Some
        &&& exists|i: int|
            0 <= i < surroundings.socket_variable->0@.len() && !white_space(
                #[trigger] surroundings.socket_variable->0@[i],
            )
        &&& settings.windows || (surroundings.exists)(surroundings.socket_variable->0)
    }
}

proof fn lemma_takes_place(settings: SyncSettings, surroundings: SyncSurroundings)
    ensures
        available(settings, surroundings) <==> takes_place(settings, surroundings),
{
}

/// The command can run exactly when no sync takes place, or when the worktree and the paths are
/// found and the service agrees.
pub proof fn law_command_runs_when_synced(
    command_name: String,
    settings: SyncSettings,
    surroundings: SyncSurroundings,
)
    ensures
        end_within(5, starts(command_name, settings), surroundings) == Some(SyncStep::Finished)
            <==> !takes_place(settings, surroundings) || {
            &&& surroundings.worktree is Ok
            &&& surroundings.paths is Ok
            &&& (surroundings.service)(surroundings.worktree->Ok_0) is Ok
            &&& (surroundings.service)(surroundings.worktree->Ok_0)->Ok_0.0
        },
{
    law_sync_ends(command_name, settings, surroundings);
    lemma_takes_place(settings, surroundings);
}

/// Where a sync takes place, the first thing that fails ends the program, and is named with the
/// command and its own words: the worktree, then the paths, then the service, which may refuse
/// without words.
pub proof fn law_first_failure_is_named(
    command_name: String,
    settings: SyncSettings,
    surroundings: SyncSurroundings,
)
    requires
        takes_place(settings, surroundings),
    ensures
        ({
            let end = end_within(5, starts(command_name, settings), surroundings);
            let worktree = surroundings.worktree;
            let reply = (surroundings.service)(worktree->Ok_0);
            &&& worktree is Err ==> end == Some(
                SyncStep::Exit(
                    SyncFailure::Worktree { command_name, words: worktree->Err_0 },
                ),
            )
            &&& worktree is Ok && surroundings.paths is Err ==> end == Some(
                SyncStep::Exit(
                    SyncFailure::Paths { command_name, words: surroundings.paths->Err_0 },
                ),
            )
            &&& worktree is Ok && surroundings.paths is Ok && reply is Err ==> end == Some(
                SyncStep::Exit(
                    SyncFailure::Sync { command_name, words: Some(reply->Err_0) },
                ),
            )
            &&& worktree is Ok && surroundings.paths is Ok && reply is Ok && !reply->Ok_0.0 ==> end
                == Some(
                SyncStep::Exit(SyncFailure::Sync { command_name, words: reply->Ok_0.1 }),
            )
        }),
{
    law_sync_ends(command_name, settings, surroundings);
    lemma_takes_place(settings, surroundings);
}

/// Without a repository in the current directory the command fails where one is required, with the
/// words of the search, and runs where not. With one it goes on as in that repository.
pub proof fn law_missing_repository_matters_where_required(
    command_name: String,
    settings: SyncSettings,
    required: bool,
    surroundings: SyncSurroundings,
)
    ensures
        surroundings.repository is Ok ==> end_within(
            6,
            starts_here(command_name, settings, required),
            surroundings,
        ) == end_within(5, starts(command_name, settings), surroundings),
        surroundings.repository is Err && required ==> end_within(
            6,
            starts_here(command_name, settings, required),
            surroundings,
        ) == Some(
            SyncStep::Exit(
                SyncFailure::Repository {
                    command_name,
                    words: surroundings.repository->Err_0,
                },
            ),
        ),
        surroundings.repository is Err && !required ==> end_within(
            6,
            starts_here(command_name, settings, required),
            surroundings,
        ) == Some(SyncStep::Finished),
{
    law_sync_ends(command_name, settings, surroundings);
    law_sync_here_ends(command_name, settings, required, surroundings);
}

/// Whether a reply is one that a sync waits for.
pub open spec fn fits(stage: SyncStage, reply: SyncReply) -> bool {
    match stage {
        SyncStage::Repository { .. } => reply is Done || reply is Failed,
        SyncStage::Variable { .. } => reply is Text,
        SyncStage::Probe { .. } => reply is Truth,
        SyncStage::Worktree { .. } => reply is Failed || reply matches SyncReply::Text(Some(_)),
        SyncStage::Paths { .. } => reply is Done || reply is Failed,
        SyncStage::Response { .. } => reply is Response || reply is Failed,
    }
}

/// A reply is unexpected exactly when the sync does not wait for it.
pub proof fn law_reply_has_to_fit(stage: SyncStage, reply: SyncReply)
    ensures
        after(stage, reply) is Unexpected <==> !fits(stage, reply),
{
}

/// Whether a text begins with one text and ends with another, without an overlap.
pub open spec fn begins_and_ends(
    text: Seq<char>,
    beginning: Seq<char>,
    end: Seq<char>,
) -> bool {
    &&& text.len() >= beginning.len() + end.len()
    &&& text.take(beginning.len() as int) == beginning
    &&& text.skip(text.len() - end.len()) == end
}

/// Whatever fails, what is said of it begins in the same way, and ends with the command and the
/// words of the failure, just as they are.
pub proof fn law_failure_is_told_in_its_words(command_name: String, words: String)
    ensures
        ({
            let beginning = "Failed to "@;
            let end = command_name@ + ": "@ + words@;
            &&& begins_and_ends(
                failure_text(SyncFailure::Repository { command_name, words }),
                beginning,
                end,
            )
            &&& begins_and_ends(
                failure_text(SyncFailure::Worktree { command_name, words }),
                beginning,
                end,
            )
            &&& begins_and_ends(
                failure_text(SyncFailure::Paths { command_name, words }),
                beginning,
                end,
            )
            &&& begins_and_ends(
                failure_text(SyncFailure::Sync { command_name, words: Some(words) }),
                beginning,
                end,
            )
            &&& begins_and_ends(
                failure_text(SyncFailure::Sync { command_name, words: None }),
                beginning,
                command_name@ + ": unknown daemon error"@,
            )
        }),
{
    reveal_strlit("Failed to ");
    reveal_strlit("Failed to find repository for ");
    reveal_strlit("Failed to resolve repository worktree for ");
    reveal_strlit("Failed to resolve daemon paths for ");
    reveal_strlit("Failed to sync git-ai background service before ");
    reveal_strlit(": ");
    reveal_strlit("unknown daemon error");
    reveal_strlit(": unknown daemon error");
    let beginning = "Failed to "@;
    let end = command_name@ + ": "@ + words@;
    let repository = failure_text(SyncFailure::Repository { command_name, words });
    assert(repository.take(beginning.len() as int) =~= beginning);
    assert(repository.skip(repository.len() - end.len()) =~= end);
    let worktree = failure_text(SyncFailure::Worktree { command_name, words });
    assert(worktree.take(beginning.len() as int) =~= beginning);
    assert(worktree.skip(worktree.len() - end.len()) =~= end);
    let paths = failure_text(SyncFailure::Paths { command_name, words });
    assert(paths.take(beginning.len() as int) =~= beginning);
    assert(paths.skip(paths.len() - end.len()) =~= end);
    let sync = failure_text(SyncFailure::Sync { command_name, words: Some(words) });
    assert(sync.take(beginning.len() as int) =~= beginning);
    assert(sync.skip(sync.len() - end.len()) =~= end);
    let silent = failure_text(SyncFailure::Sync { command_name, words: None });
    let unknown = command_name@ + ": unknown daemon error"@;
    assert(silent.take(beginning.len() as int) =~= beginning);
    assert(silent.skip(silent.len() - unknown.len()) =~= unknown);
}

} // verus!
