//! What the building of an event comes to, in a repository that answers each question in one way.

use crate::daemon::rewrite_event::{
    after, branch_applied, starts, CommitStats, DiffBase, EventAttributes, RewriteCommittedValues,
    RewriteEvent, RewriteQuestion, RewriteReply, RewriteStep,
};
use crate::daemon::rewrite_metrics::RewriteMetricCommit;
use crate::error::GitAiError;
use vstd::prelude::*;

verus! {

/// What a repository replies. Where it can fail, the error holds the words.
pub struct RepositoryView {
    pub note: spec_fn(String) -> Option<String>,
    pub readable: spec_fn(String) -> bool,
    pub parent_count: spec_fn(String) -> Result<usize, String>,
    pub parent: spec_fn(String) -> Result<String, String>,
    pub too_costly: spec_fn(DiffBase, String) -> Result<bool, String>,
    pub comparison: spec_fn(DiffBase, String) -> Result<(), String>,
    pub stats: spec_fn(String) -> Result<CommitStats, String>,
    pub rendering: spec_fn(String) -> Option<String>,
    pub subject: spec_fn(String) -> Option<String>,
    pub body: spec_fn(String) -> Option<String>,
    pub author: String,
    pub attributes: spec_fn(String, DiffBase, String) -> EventAttributes,
}

/// The reply to a question.
pub open spec fn reply_to(question: RewriteQuestion, repository: RepositoryView) -> RewriteReply {
    match question {
        RewriteQuestion::ReadNote { commit_sha } => RewriteReply::Text(
            (repository.note)(commit_sha),
        ),
        RewriteQuestion::ReadLog { note } => RewriteReply::Truth((repository.readable)(note)),
        RewriteQuestion::CountParents { commit_sha } => match (repository.parent_count)(
            commit_sha,
        ) {
            Ok(count) => RewriteReply::Count(count),
            Err(words) => RewriteReply::Failed(words),
        },
        RewriteQuestion::ReadParent { commit_sha } => match (repository.parent)(commit_sha) {
            Ok(sha) => RewriteReply::Text(Some(sha)),
            Err(words) => RewriteReply::Failed(words),
        },
        RewriteQuestion::EstimateCost { base, commit_sha } => match (repository.too_costly)(
            base,
            commit_sha,
        ) {
            Ok(too_costly) => RewriteReply::Truth(too_costly),
            Err(words) => RewriteReply::Failed(words),
        },
        RewriteQuestion::ReadChanges { base, commit_sha } => match (repository.comparison)(
            base,
            commit_sha,
        ) {
            Ok(_) => RewriteReply::Done,
            Err(words) => RewriteReply::Failed(words),
        },
        RewriteQuestion::ReadStats { commit_sha } => match (repository.stats)(commit_sha) {
            Ok(stats) => RewriteReply::Stats(stats),
            Err(words) => RewriteReply::Failed(words),
        },
        RewriteQuestion::RenderChanges { commit_sha } => RewriteReply::Text(
            (repository.rendering)(commit_sha),
        ),
        RewriteQuestion::ReadMessage { commit_sha } => RewriteReply::Message {
            subject: (repository.subject)(commit_sha),
            body: (repository.body)(commit_sha),
        },
        RewriteQuestion::ReadAuthor => RewriteReply::Text(Some(repository.author)),
        RewriteQuestion::ReadAttributes { commit_sha, base, author } => RewriteReply::Attributes(
            (repository.attributes)(commit_sha, base, author),
        ),
    }
}

/// Where the building of an event ends, if it does so within a number of questions.
pub open spec fn end_within(
    questions: nat,
    step: RewriteStep,
    repository: RepositoryView,
) -> Option<Result<Option<RewriteEvent>, GitAiError>>
    decreases questions,
{
    match step {
        RewriteStep::Finished(result) => Some(result),
        RewriteStep::Ask { question, stage } => if questions == 0 {
            None
        } else {
            end_within(
                (questions - 1) as nat,
                after(stage, reply_to(question, repository)),
                repository,
            )
        },
    }
}

/// With what a commit is compared. A commit with several parents is not.
pub open spec fn base_of(commit_sha: String, repository: RepositoryView) -> Result<
    Option<DiffBase>,
    String,
> {
    match (repository.parent_count)(commit_sha) {
        Ok(count) => if count > 1 {
            Ok(None)
        } else if count == 0 {
            Ok(Some(DiffBase::Initial))
        } else {
            match (repository.parent)(commit_sha) {
                Ok(sha) => Ok(Some(DiffBase::Parent(sha))),
                Err(words) => Err(words),
            }
        },
        Err(words) => Err(words),
    }
}

/// The numbers of a commit, unless they are too costly.
pub open spec fn numbers_of(
    commit_sha: String,
    base: DiffBase,
    repository: RepositoryView,
) -> Result<Option<CommitStats>, String> {
    match (repository.too_costly)(base, commit_sha) {
        Ok(true) => Ok(None),
        Ok(false) => match (repository.comparison)(base, commit_sha) {
            Ok(_) => match (repository.stats)(commit_sha) {
                Ok(stats) => Ok(Some(stats)),
                Err(words) => Err(words),
            },
            Err(words) => Err(words),
        },
        Err(words) => Err(words),
    }
}

/// The event of a commit, where it has a note that reads as an authorship log, at most one parent,
/// and numbers by tool and model that are not too costly.
pub open spec fn event_of(commit: RewriteMetricCommit, repository: RepositoryView) -> Result<
    Option<RewriteEvent>,
    GitAiError,
> {
    let sha = commit.new_sha;
    match (repository.note)(sha) {
        Some(note) => if !(repository.readable)(note) {
            Ok(None)
        } else {
            match base_of(sha, repository) {
                Err(words) => Err(GitAiError::Repository(words)),
                Ok(None) => Ok(None),
                Ok(Some(base)) => match numbers_of(sha, base, repository) {
                    Err(words) => Err(GitAiError::Repository(words)),
                    Ok(None) => Ok(None),
                    Ok(Some(stats)) => match stats.breakdown {
                        None => Ok(None),
                        Some(breakdown) => Ok(
                            Some(
                                RewriteEvent {
                                    values: RewriteCommittedValues {
                                        human_additions: stats.human_additions,
                                        git_diff_deleted_lines: stats.git_diff_deleted_lines,
                                        git_diff_added_lines: stats.git_diff_added_lines,
                                        tool_model_pairs: breakdown.tool_model_pairs,
                                        ai_additions: breakdown.ai_additions,
                                        ai_accepted: breakdown.ai_accepted,
                                        commit_subject: (repository.subject)(sha),
                                        commit_body: (repository.body)(sha),
                                        authorship_note: note,
                                        hunks: (repository.rendering)(sha),
                                        operation_kind: commit.operation,
                                        original_commit_shas: commit.original_shas,
                                    },
                                    attrs: branch_applied(
                                        (repository.attributes)(sha, base, repository.author),
                                        commit,
                                    ),
                                },
                            ),
                        ),
                    },
                },
            }
        },
        None => Ok(None),
    }
}

/// Building an event ends, after a few questions, with the event of the commit.
pub proof fn law_building_ends_with_event(commit: RewriteMetricCommit, repository: RepositoryView)
    ensures
        end_within(11, starts(commit), repository) == Some(event_of(commit, repository)),
{
    reveal_with_fuel(end_within, 12);
}

/// A merge commit has no event.
pub proof fn law_merge_commit_has_no_event(
    commit: RewriteMetricCommit,
    repository: RepositoryView,
    parents: usize,
)
    requires
        (repository.parent_count)(commit.new_sha) == Ok::<usize, String>(parents),
        parents > 1,
    ensures
        event_of(commit, repository) == Ok::<Option<RewriteEvent>, GitAiError>(None),
{
}

/// The event of a commit is on the branch on which it was rewritten, where that is known.
pub proof fn law_event_is_on_rewritten_branch(
    commit: RewriteMetricCommit,
    repository: RepositoryView,
)
    requires
        commit.branch is Some,
        event_of(commit, repository) matches Ok(Some(_)),
    ensures
        event_of(commit, repository)->Ok_0->0.attrs.branch == commit.branch,
{
}

} // verus!
