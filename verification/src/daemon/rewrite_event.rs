//! How the metric event of a rewritten commit is built.
//!
//! The repository is outside. Building an event answers with the first question to it; each reply
//! is handed to [`resume`], which answers with the next question or the event.

use crate::daemon::rewrite_metrics::{RewriteMetricCommit, RewriteMetricOperation};
use crate::error::GitAiError;
use crate::metrics::types::{SparseValue, ATTR_GIT_AI_VERSION};
use crate::text::{decimal, decimal_digits};
use crate::text_map::TextMap;
use vstd::prelude::*;

verus! {

/// What a commit is compared with.
#[derive(Debug)]
pub enum DiffBase {
    /// Nothing: the commit has no parent.
    Initial,
    /// The only parent, by its name.
    Parent(String),
}

/// The name by which an event calls the base of a commit.
pub open spec fn base_commit_text(base: DiffBase) -> Seq<char> {
    match base {
        DiffBase::Initial => "initial"@,
        DiffBase::Parent(sha) => sha@,
    }
}

/// The object with which a commit is compared: the empty tree, or the parent.
pub open spec fn diff_base_text(base: DiffBase) -> Seq<char> {
    match base {
        DiffBase::Initial => "4b825dc642cb6eb9a060e54bf8d69288fbee4904"@,
        DiffBase::Parent(sha) => sha@,
    }
}

impl DiffBase {
    /// The name by which an event calls the base.
    pub fn base_commit(&self) -> (name: String)
        ensures
            name@ == base_commit_text(*self),
    {
        match self {
            DiffBase::Initial => "initial".to_owned(),
            DiffBase::Parent(sha) => sha.clone(),
        }
    }

    /// The object with which a commit is compared.
    pub fn diff_base(&self) -> (name: String)
        ensures
            name@ == diff_base_text(*self),
    {
        match self {
            DiffBase::Initial => "4b825dc642cb6eb9a060e54bf8d69288fbee4904".to_owned(),
            DiffBase::Parent(sha) => sha.clone(),
        }
    }

    fn duplicate(&self) -> (copy: DiffBase)
        ensures
            copy == *self,
    {
        match self {
            DiffBase::Initial => DiffBase::Initial,
            DiffBase::Parent(sha) => DiffBase::Parent(sha.clone()),
        }
    }
}

/// The numbers of a commit by tool and model.
#[derive(Debug)]
pub struct ToolModelBreakdown {
    pub tool_model_pairs: Vec<String>,
    pub ai_additions: Vec<u32>,
    pub ai_accepted: Vec<u32>,
}

/// The numbers of a commit.
#[derive(Debug)]
pub struct CommitStats {
    pub human_additions: u32,
    pub git_diff_deleted_lines: u32,
    pub git_diff_added_lines: u32,
    /// The part by tool and model, where there is anything to report.
    pub breakdown: Option<ToolModelBreakdown>,
}

/// The attributes of an event.
#[derive(Debug)]
pub struct EventAttributes {
    /// The branch of the event.
    pub branch: Option<String>,
    /// The other attributes, by position.
    pub others: TextMap<SparseValue>,
}

impl EventAttributes {
    /// The attributes of an event about which only the version of the program is known.
    pub fn with_version(version: String) -> (attrs: EventAttributes)
        ensures
            attrs.branch is None,
            attrs.others@ == Map::empty().insert(
                decimal_digits(ATTR_GIT_AI_VERSION as nat),
                SparseValue::Text(version),
            ),
            attrs.others@.contains_pair(seq!['0'], SparseValue::Text(version)),
    {
        assert(decimal_digits(0) =~= seq!['0']);
        let mut others: TextMap<SparseValue> = TextMap::new();
        others.insert(decimal(ATTR_GIT_AI_VERSION as u64), SparseValue::Text(version));
        EventAttributes { branch: None, others }
    }

    /// The attributes, on a branch.
    pub fn branch(self, branch: String) -> (attrs: EventAttributes)
        ensures
            attrs == (EventAttributes { branch: Some(branch), ..self }),
    {
        EventAttributes { branch: Some(branch), ..self }
    }
}

/// The values of the event of a rewritten commit.
#[derive(Debug)]
pub struct RewriteCommittedValues {
    pub human_additions: u32,
    pub git_diff_deleted_lines: u32,
    pub git_diff_added_lines: u32,
    pub tool_model_pairs: Vec<String>,
    pub ai_additions: Vec<u32>,
    pub ai_accepted: Vec<u32>,
    pub commit_subject: Option<String>,
    pub commit_body: Option<String>,
    pub authorship_note: String,
    /// The changes, as JSON.
    pub hunks: Option<String>,
    pub operation_kind: RewriteMetricOperation,
    pub original_commit_shas: Vec<String>,
}

/// The event of a rewritten commit.
#[derive(Debug)]
pub struct RewriteEvent {
    pub values: RewriteCommittedValues,
    pub attrs: EventAttributes,
}

/// A question to the repository.
#[derive(Debug)]
pub enum RewriteQuestion {
    /// The authorship note of a commit, if it has one.
    ReadNote { commit_sha: String },
    /// Whether a note reads as an authorship log. The log is kept for the questions after it.
    ReadLog { note: String },
    /// The number of parents of a commit.
    CountParents { commit_sha: String },
    /// The name of the first parent of a commit.
    ReadParent { commit_sha: String },
    /// Whether the numbers of a commit are too costly to compute.
    EstimateCost { base: DiffBase, commit_sha: String },
    /// Compare a commit with its base. The changes are kept for the questions after it.
    ReadChanges { base: DiffBase, commit_sha: String },
    /// The numbers of a commit, out of the changes and the log.
    ReadStats { commit_sha: String },
    /// The changes as JSON, with the log, where they can be had.
    RenderChanges { commit_sha: String },
    /// The subject and the body of the message of a commit.
    ReadMessage { commit_sha: String },
    /// Who is at work in the repository.
    ReadAuthor,
    /// The attributes of the event of a commit.
    ReadAttributes { commit_sha: String, base: DiffBase, author: String },
}

/// A reply of the repository.
#[derive(Debug)]
pub enum RewriteReply {
    /// It was done.
    Done,
    Text(Option<String>),
    Truth(bool),
    Count(usize),
    Stats(CommitStats),
    Message { subject: Option<String>, body: Option<String> },
    Attributes(EventAttributes),
    /// It failed, with these words.
    Failed(String),
}

/// What is known of a commit once its numbers are.
#[derive(Debug)]
pub struct RewriteDraft {
    pub commit: RewriteMetricCommit,
    pub note: String,
    pub base: DiffBase,
    pub human_additions: u32,
    pub git_diff_deleted_lines: u32,
    pub git_diff_added_lines: u32,
    pub breakdown: ToolModelBreakdown,
}

/// Which reply the building of an event waits for.
#[derive(Debug)]
pub enum RewriteStage {
    Note { commit: RewriteMetricCommit },
    Log { commit: RewriteMetricCommit, note: String },
    Parents { commit: RewriteMetricCommit, note: String },
    Parent { commit: RewriteMetricCommit, note: String },
    Cost { commit: RewriteMetricCommit, note: String, base: DiffBase },
    Changes { commit: RewriteMetricCommit, note: String, base: DiffBase },
    Stats { commit: RewriteMetricCommit, note: String, base: DiffBase },
    Rendering { draft: RewriteDraft },
    Message { draft: RewriteDraft, hunks: Option<String> },
    Author {
        draft: RewriteDraft,
        hunks: Option<String>,
        subject: Option<String>,
        body: Option<String>,
    },
    Attributes {
        draft: RewriteDraft,
        hunks: Option<String>,
        subject: Option<String>,
        body: Option<String>,
    },
}

/// How far the building of an event has come.
#[derive(Debug)]
pub enum RewriteStep {
    /// It waits for the reply to a question.
    Ask { question: RewriteQuestion, stage: RewriteStage },
    /// It is over: with an event, or without one where there is nothing to report.
    Finished(Result<Option<RewriteEvent>, GitAiError>),
}

/// Over, because of the reply: with the words of a failure, or because it fits no question.
pub open spec fn refuses(reply: RewriteReply) -> RewriteStep {
    match reply {
        RewriteReply::Failed(words) => RewriteStep::Finished(Err(GitAiError::Repository(words))),
        _ => RewriteStep::Finished(Err(GitAiError::UnexpectedReply)),
    }
}

/// Over, with nothing to report.
pub open spec fn reports_nothing() -> RewriteStep {
    RewriteStep::Finished(Ok(None))
}

/// The first question about a commit.
pub open spec fn starts(commit: RewriteMetricCommit) -> RewriteStep {
    RewriteStep::Ask {
        question: RewriteQuestion::ReadNote { commit_sha: commit.new_sha },
        stage: RewriteStage::Note { commit },
    }
}

/// The question about the cost of a comparison with a base.
pub open spec fn compares(
    commit: RewriteMetricCommit,
    note: String,
    base: DiffBase,
) -> RewriteStep {
    RewriteStep::Ask {
        question: RewriteQuestion::EstimateCost { base, commit_sha: commit.new_sha },
        stage: RewriteStage::Cost { commit, note, base },
    }
}

/// The attributes of the event of a commit, on the branch on which it was rewritten.
pub open spec fn branch_applied(
    attrs: EventAttributes,
    commit: RewriteMetricCommit,
) -> EventAttributes {
    match commit.branch {
        Some(branch) => EventAttributes { branch: Some(branch), ..attrs },
        None => attrs,
    }
}

/// The event of a commit, out of all that is known.
pub open spec fn drafted_event(
    draft: RewriteDraft,
    hunks: Option<String>,
    subject: Option<String>,
    body: Option<String>,
    attrs: EventAttributes,
) -> RewriteEvent {
    RewriteEvent {
        values: RewriteCommittedValues {
            human_additions: draft.human_additions,
            git_diff_deleted_lines: draft.git_diff_deleted_lines,
            git_diff_added_lines: draft.git_diff_added_lines,
            tool_model_pairs: draft.breakdown.tool_model_pairs,
            ai_additions: draft.breakdown.ai_additions,
            ai_accepted: draft.breakdown.ai_accepted,
            commit_subject: subject,
            commit_body: body,
            authorship_note: draft.note,
            hunks,
            operation_kind: draft.commit.operation,
            original_commit_shas: draft.commit.original_shas,
        },
        attrs: branch_applied(attrs, draft.commit),
    }
}

/// How the building of an event goes on after a reply.
pub open spec fn after(stage: RewriteStage, reply: RewriteReply) -> RewriteStep {
    match (stage, reply) {
        (RewriteStage::Note { commit }, RewriteReply::Text(note)) => match note {
            Some(note) => RewriteStep::Ask {
                question: RewriteQuestion::ReadLog { note },
                stage: RewriteStage::Log { commit, note },
            },
            None => reports_nothing(),
        },
        (RewriteStage::Log { commit, note }, RewriteReply::Truth(readable)) => if readable {
            RewriteStep::Ask {
                question: RewriteQuestion::CountParents { commit_sha: commit.new_sha },
                stage: RewriteStage::Parents { commit, note },
            }
        } else {
            reports_nothing()
        },
        (RewriteStage::Parents { commit, note }, RewriteReply::Count(parents)) => if parents > 1 {
            reports_nothing()
        } else if parents == 0 {
            compares(commit, note, DiffBase::Initial)
        } else {
            RewriteStep::Ask {
                question: RewriteQuestion::ReadParent { commit_sha: commit.new_sha },
                stage: RewriteStage::Parent { commit, note },
            }
        },
        (RewriteStage::Parent { commit, note }, RewriteReply::Text(Some(sha))) => compares(
            commit,
            note,
            DiffBase::Parent(sha),
        ),
        (RewriteStage::Cost { commit, note, base }, RewriteReply::Truth(too_costly)) => if too_costly {
            reports_nothing()
        } else {
            RewriteStep::Ask {
                question: RewriteQuestion::ReadChanges { base, commit_sha: commit.new_sha },
                stage: RewriteStage::Changes { commit, note, base },
            }
        },
        (RewriteStage::Changes { commit, note, base }, RewriteReply::Done) => RewriteStep::Ask {
            question: RewriteQuestion::ReadStats { commit_sha: commit.new_sha },
            stage: RewriteStage::Stats { commit, note, base },
        },
        (RewriteStage::Stats { commit, note, base }, RewriteReply::Stats(stats)) => match stats.breakdown {
            Some(breakdown) => RewriteStep::Ask {
                question: RewriteQuestion::RenderChanges { commit_sha: commit.new_sha },
                stage: RewriteStage::Rendering {
                    draft: RewriteDraft {
                        commit,
                        note,
                        base,
                        human_additions: stats.human_additions,
                        git_diff_deleted_lines: stats.git_diff_deleted_lines,
                        git_diff_added_lines: stats.git_diff_added_lines,
                        breakdown,
                    },
                },
            },
            None => reports_nothing(),
        },
        (RewriteStage::Rendering { draft }, RewriteReply::Text(hunks)) => RewriteStep::Ask {
            question: RewriteQuestion::ReadMessage { commit_sha: draft.commit.new_sha },
            stage: RewriteStage::Message { draft, hunks },
        },
        (
            RewriteStage::Message { draft, hunks },
            RewriteReply::Message { subject, body },
        ) => RewriteStep::Ask {
            question: RewriteQuestion::ReadAuthor,
            stage: RewriteStage::Author { draft, hunks, subject, body },
        },
        (
            RewriteStage::Author { draft, hunks, subject, body },
            RewriteReply::Text(Some(author)),
        ) => RewriteStep::Ask {
            question: RewriteQuestion::ReadAttributes {
                commit_sha: draft.commit.new_sha,
                base: draft.base,
                author,
            },
            stage: RewriteStage::Attributes { draft, hunks, subject, body },
        },
        (
            RewriteStage::Attributes { draft, hunks, subject, body },
            RewriteReply::Attributes(attrs),
        ) => RewriteStep::Finished(Ok(Some(drafted_event(draft, hunks, subject, body, attrs)))),
        _ => refuses(reply),
    }
}

fn refuse(reply: RewriteReply) -> (step: RewriteStep)
    ensures
        step == refuses(reply),
{
    match reply {
        RewriteReply::Failed(words) => RewriteStep::Finished(Err(GitAiError::Repository(words))),
        _ => RewriteStep::Finished(Err(GitAiError::UnexpectedReply)),
    }
}

fn report_nothing() -> (step: RewriteStep)
    ensures
        step == reports_nothing(),
{
    RewriteStep::Finished(Ok(None))
}

fn compare(commit: RewriteMetricCommit, note: String, base: DiffBase) -> (step: RewriteStep)
    ensures
        step == compares(commit, note, base),
{
    RewriteStep::Ask {
        question: RewriteQuestion::EstimateCost {
            base: base.duplicate(),
            commit_sha: commit.new_sha.clone(),
        },
        stage: RewriteStage::Cost { commit, note, base },
    }
}

/// The attributes of the event of a commit, on the branch on which it was rewritten.
pub fn apply_rewrite_metric_branch(
    attrs: EventAttributes,
    metric_commit: &RewriteMetricCommit,
) -> (applied: EventAttributes)
    ensures
        applied == branch_applied(attrs, *metric_commit),
{
    match &metric_commit.branch {
        Some(branch) => attrs.branch(branch.clone()),
        None => attrs,
    }
}

fn draft_event(
    draft: RewriteDraft,
    hunks: Option<String>,
    subject: Option<String>,
    body: Option<String>,
    attrs: EventAttributes,
) -> (event: RewriteEvent)
    ensures
        event == drafted_event(draft, hunks, subject, body, attrs),
{
    let attrs: EventAttributes = apply_rewrite_metric_branch(attrs, &draft.commit);
    RewriteEvent {
        values: RewriteCommittedValues {
            human_additions: draft.human_additions,
            git_diff_deleted_lines: draft.git_diff_deleted_lines,
            git_diff_added_lines: draft.git_diff_added_lines,
            tool_model_pairs: draft.breakdown.tool_model_pairs,
            ai_additions: draft.breakdown.ai_additions,
            ai_accepted: draft.breakdown.ai_accepted,
            commit_subject: subject,
            commit_body: body,
            authorship_note: draft.note,
            hunks,
            operation_kind: draft.commit.operation,
            original_commit_shas: draft.commit.original_shas,
        },
        attrs,
    }
}

/// Begins to build the event of a rewritten commit.
pub fn build_rewrite_committed_metric_event(metric_commit: RewriteMetricCommit) -> (step:
    RewriteStep)
    ensures
        step == starts(metric_commit),
{
    RewriteStep::Ask {
        question: RewriteQuestion::ReadNote { commit_sha: metric_commit.new_sha.clone() },
        stage: RewriteStage::Note { commit: metric_commit },
    }
}

/// Goes on with the building of an event after a reply.
pub fn resume(stage: RewriteStage, reply: RewriteReply) -> (step: RewriteStep)
    ensures
        step == after(stage, reply),
{
    match (stage, reply) {
        (RewriteStage::Note { commit }, RewriteReply::Text(note)) => match note {
            Some(note) => RewriteStep::Ask {
                question: RewriteQuestion::ReadLog { note: note.clone() },
                stage: RewriteStage::Log { commit, note },
            },
            None => report_nothing(),
        },
        (RewriteStage::Log { commit, note }, RewriteReply::Truth(readable)) => {
            if readable {
                RewriteStep::Ask {
                    question: RewriteQuestion::CountParents {
                        commit_sha: commit.new_sha.clone(),
                    },
                    stage: RewriteStage::Parents { commit, note },
                }
            } else {
                report_nothing()
            }
        },
        (RewriteStage::Parents { commit, note }, RewriteReply::Count(parents)) => {
            if parents > 1 {
                report_nothing()
            } else if parents == 0 {
                compare(commit, note, DiffBase::Initial)
            } else {
                RewriteStep::Ask {
                    question: RewriteQuestion::ReadParent { commit_sha: commit.new_sha.clone() },
                    stage: RewriteStage::Parent { commit, note },
                }
            }
        },
        (RewriteStage::Parent { commit, note }, RewriteReply::Text(Some(sha))) => compare(
            commit,
            note,
            DiffBase::Parent(sha),
        ),
        (RewriteStage::Cost { commit, note, base }, RewriteReply::Truth(too_costly)) => {
            if too_costly {
                report_nothing()
            } else {
                RewriteStep::Ask {
                    question: RewriteQuestion::ReadChanges {
                        base: base.duplicate(),
                        commit_sha: commit.new_sha.clone(),
                    },
                    stage: RewriteStage::Changes { commit, note, base },
                }
            }
        },
        (RewriteStage::Changes { commit, note, base }, RewriteReply::Done) => RewriteStep::Ask {
            question: RewriteQuestion::ReadStats { commit_sha: commit.new_sha.clone() },
            stage: RewriteStage::Stats { commit, note, base },
        },
        (RewriteStage::Stats { commit, note, base }, RewriteReply::Stats(stats)) => {
            match stats.breakdown {
                Some(breakdown) => RewriteStep::Ask {
                    question: RewriteQuestion::RenderChanges {
                        commit_sha: commit.new_sha.clone(),
                    },
                    stage: RewriteStage::Rendering {
                        draft: RewriteDraft {
                            commit,
                            note,
                            base,
                            human_additions: stats.human_additions,
                            git_diff_deleted_lines: stats.git_diff_deleted_lines,
                            git_diff_added_lines: stats.git_diff_added_lines,
                            breakdown,
                        },
                    },
                },
                None => report_nothing(),
            }
        },
        (RewriteStage::Rendering { draft }, RewriteReply::Text(hunks)) => RewriteStep::Ask {
            question: RewriteQuestion::ReadMessage { commit_sha: draft.commit.new_sha.clone() },
            stage: RewriteStage::Message { draft, hunks },
        },
        (
            RewriteStage::Message { draft, hunks },
            RewriteReply::Message { subject, body },
        ) => RewriteStep::Ask {
            question: RewriteQuestion::ReadAuthor,
            stage: RewriteStage::Author { draft, hunks, subject, body },
        },
        (
            RewriteStage::Author { draft, hunks, subject, body },
            RewriteReply::Text(Some(author)),
        ) => RewriteStep::Ask {
            question: RewriteQuestion::ReadAttributes {
                commit_sha: draft.commit.new_sha.clone(),
                base: draft.base.duplicate(),
                author,
            },
            stage: RewriteStage::Attributes { draft, hunks, subject, body },
        },
        (
            RewriteStage::Attributes { draft, hunks, subject, body },
            RewriteReply::Attributes(attrs),
        ) => RewriteStep::Finished(Ok(Some(draft_event(draft, hunks, subject, body, attrs)))),
        (_, reply) => refuse(reply),
    }
}

} // verus!
