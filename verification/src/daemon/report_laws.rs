//! What is reported of rewritten commits: which commits, on which branches, and with which events.

use crate::daemon::rewrite_event::{
    after, base_commit_text, branch_applied, diff_base_text, starts, CommitStats, DiffBase,
    EventAttributes, RewriteEvent, RewriteReply, RewriteStage, RewriteStep,
};
use crate::daemon::rewrite_laws::{end_within, law_building_ends_with_event, RepositoryView};
use crate::daemon::rewrite_metrics::{
    built_events, deduped, law_dedupe_keeps_each_once, law_dedupe_keeps_order, on_branch, reported,
    CommitView, RewriteMetricCommit,
};
use crate::error::GitAiError;
use crate::selection::{lemma_one_more_position, positions_within};
use vstd::prelude::*;

verus! {

/// The events that are collected are those among the results, as often as they are there and in
/// the same order, whatever the other results are.
pub proof fn law_collected_events_are_those_built(
    results: Seq<Result<Option<RewriteEvent>, GitAiError>>,
) -> (positions: Seq<int>)
    ensures
        positions_within(positions, results.len()),
        forall|k: int| #[trigger]
            positions.contains(k) <==> 0 <= k < results.len() && results[k] is Ok
                && results[k]->Ok_0 is Some,
        built_events(results).len() == positions.len(),
        forall|i: int|
            0 <= i < positions.len() ==> results[#[trigger] positions[i]]
                == Ok::<Option<RewriteEvent>, GitAiError>(Some(built_events(results)[i])),
    decreases results.len(),
{
    if results.len() == 0 {
        Seq::empty()
    } else {
        let rest = results.drop_last();
        let last = results.len() - 1;
        let before = law_collected_events_are_those_built(rest);
        lemma_one_more_position(before, rest.len());
        let built = results[last] is Ok && results[last]->Ok_0 is Some;
        let positions = if built {
            before.push(last)
        } else {
            before
        };
        assert forall|k: int| #[trigger]
            positions.contains(k) <==> 0 <= k < results.len() && results[k] is Ok
                && results[k]->Ok_0 is Some by {
            if 0 <= k < last {
                assert(rest[k] == results[k]);
            }
            assert(before.contains(k) <==> 0 <= k < last && rest[k] is Ok && rest[k]->Ok_0 is Some);
        }
        assert forall|i: int| 0 <= i < positions.len() implies results[#[trigger] positions[i]]
            == Ok::<Option<RewriteEvent>, GitAiError>(Some(built_events(results)[i])) by {
            if i < before.len() {
                assert(rest[before[i]] == results[before[i]]);
            }
        }
        positions
    }
}

/// Collecting from two lists of results, one after the other, gives the events of both.
pub proof fn law_collecting_adds_up(
    first: Seq<Result<Option<RewriteEvent>, GitAiError>>,
    second: Seq<Result<Option<RewriteEvent>, GitAiError>>,
)
    ensures
        built_events(first + second) == built_events(first) + built_events(second),
    decreases second.len(),
{
    if second.len() == 0 {
        assert(first + second =~= first);
        assert(built_events(first) + built_events(second) =~= built_events(first));
    } else {
        law_collecting_adds_up(first, second.drop_last());
        assert((first + second).drop_last() =~= first + second.drop_last());
        assert((first + second).last() == second.last());
        assert(built_events(first + second) =~= built_events(first) + built_events(second));
    }
}

/// Whether a commit is another on its own branch, or, where it has none, on the current one.
pub open spec fn is_placed(commit: CommitView, given: CommitView, current: Option<Seq<char>>) -> bool {
    &&& commit.new_sha == given.new_sha
    &&& commit.original_shas == given.original_shas
    &&& commit.operation == given.operation
    &&& commit.branch == if given.branch is Some {
        given.branch
    } else {
        current
    }
}

/// A commit is reported exactly when it is one of those given, with a name, on its own branch or
/// else on the current one; and it is reported once.
pub proof fn law_named_commits_are_reported(
    commits: Seq<CommitView>,
    current: Option<Seq<char>>,
    commit: CommitView,
)
    ensures
        reported(commits, current).no_duplicates(),
        reported(commits, current).contains(commit) <==> commit.new_sha.len() > 0 && exists|i: int|
            0 <= i < commits.len() && is_placed(commit, #[trigger] commits[i], current),
{
    let placed = commits.map_values(
        |commit: CommitView| on_branch(commit, current),
    );
    law_dedupe_keeps_each_once(placed);
    if placed.contains(commit) {
        let i = choose|i: int| 0 <= i < placed.len() && placed[i] == commit;
        assert(is_placed(commit, commits[i], current));
    }
    if exists|i: int| 0 <= i < commits.len() && is_placed(commit, #[trigger] commits[i], current) {
        let i = choose|i: int|
            0 <= i < commits.len() && is_placed(commit, #[trigger] commits[i], current);
        assert(placed[i] =~= commit);
        assert(placed.contains(commit));
    }
}

/// The reported commits stay in the order in which they were first given.
pub proof fn law_reported_commits_keep_order(
    commits: Seq<CommitView>,
    current: Option<Seq<char>>,
    i: int,
    j: int,
    first_i: int,
    first_j: int,
)
    requires
        0 <= i < j < reported(commits, current).len(),
        0 <= first_i < commits.len(),
        0 <= first_j < commits.len(),
        is_placed(reported(commits, current)[i], commits[first_i], current),
        is_placed(reported(commits, current)[j], commits[first_j], current),
        forall|k: int|
            0 <= k < first_i ==> !is_placed(
                reported(commits, current)[i],
                #[trigger] commits[k],
                current,
            ),
        forall|k: int|
            0 <= k < first_j ==> !is_placed(
                reported(commits, current)[j],
                #[trigger] commits[k],
                current,
            ),
    ensures
        first_i < first_j,
{
    let placed = commits.map_values(
        |commit: CommitView| on_branch(commit, current),
    );
    let first = deduped(placed)[i];
    let second = deduped(placed)[j];
    assert(placed[first_i] =~= first);
    assert(placed[first_j] =~= second);
    assert forall|k: int| 0 <= k < first_i implies #[trigger] placed[k] != first by {
        assert(!is_placed(first, commits[k], current));
    }
    assert forall|k: int| 0 <= k < first_j implies #[trigger] placed[k] != second by {
        assert(!is_placed(second, commits[k], current));
    }
    law_dedupe_keeps_order(placed, i, j, first_i, first_j);
}

/// The base with which a commit is compared: its only parent, or nothing where it has none.
pub open spec fn is_base(base: DiffBase, commit_sha: String, repository: RepositoryView) -> bool {
    match base {
        DiffBase::Initial => (repository.parent_count)(commit_sha) == Ok::<usize, String>(0),
        DiffBase::Parent(sha) => (repository.parent_count)(commit_sha) == Ok::<usize, String>(1)
            && (repository.parent)(commit_sha) == Ok::<String, String>(sha),
    }
}

/// A commit has an event exactly when it has a note that reads as an authorship log, one parent at
/// most, a comparison that is not too costly, and numbers by tool and model. No other reply of the
/// repository matters to that.
pub proof fn law_event_is_there(
    commit: RewriteMetricCommit,
    repository: RepositoryView,
    base: DiffBase,
)
    requires
        is_base(base, commit.new_sha, repository),
    ensures
        ({
            let sha = commit.new_sha;
            let end = end_within(11, starts(commit), repository);
            let note = (repository.note)(sha);
            let stats = (repository.stats)(sha);
            (end is Some && end->0 is Ok && end->0->Ok_0 is Some) <==> {
                &&& note is Some
                &&& (repository.readable)(note->0)
                &&& (repository.too_costly)(base, sha) == Ok::<bool, String>(false)
                &&& (repository.comparison)(base, sha) is Ok
                &&& stats is Ok
                &&& stats->Ok_0.breakdown is Some
            }
        }),
{
    law_building_ends_with_event(commit, repository);
}

/// A commit with two parents or more has no event, and neither has one without a note that reads
/// as an authorship log, one whose comparison is too costly, or one without numbers by tool and
/// model. That is no failure.
pub proof fn law_event_is_left_out(
    commit: RewriteMetricCommit,
    repository: RepositoryView,
    base: DiffBase,
)
    requires
        ({
            let sha = commit.new_sha;
            let note = (repository.note)(sha);
            let stats = (repository.stats)(sha);
            ||| note is None
            ||| !(repository.readable)(note->0)
            ||| (repository.parent_count)(sha) is Ok && (repository.parent_count)(sha)->Ok_0 >= 2
            ||| is_base(base, sha, repository) && {
                ||| (repository.too_costly)(base, sha) == Ok::<bool, String>(true)
                ||| {
                    &&& (repository.too_costly)(base, sha) == Ok::<bool, String>(false)
                    &&& (repository.comparison)(base, sha) is Ok
                    &&& stats is Ok
                    &&& stats->Ok_0.breakdown is None
                }
            }
        }),
    ensures
        end_within(11, starts(commit), repository) == Some(
            Ok::<Option<RewriteEvent>, GitAiError>(None),
        ),
{
    law_building_ends_with_event(commit, repository);
}

/// An event holds what the repository says of the commit: the note, the numbers, the subject and
/// the body of the message, the changes, and how and from what the commit was rewritten. Its
/// attributes are those of the repository, on the branch of the commit where that is known.
pub proof fn law_event_holds_what_is_known(
    commit: RewriteMetricCommit,
    repository: RepositoryView,
    base: DiffBase,
    event: RewriteEvent,
)
    requires
        is_base(base, commit.new_sha, repository),
        end_within(11, starts(commit), repository) == Some(
            Ok::<Option<RewriteEvent>, GitAiError>(Some(event)),
        ),
    ensures
        ({
            let sha = commit.new_sha;
            let stats = (repository.stats)(sha)->Ok_0;
            let breakdown = stats.breakdown->0;
            let attributes = (repository.attributes)(sha, base, repository.author);
            &&& (repository.note)(sha) == Some(event.values.authorship_note)
            &&& event.values.human_additions == stats.human_additions
            &&& event.values.git_diff_deleted_lines == stats.git_diff_deleted_lines
            &&& event.values.git_diff_added_lines == stats.git_diff_added_lines
            &&& event.values.tool_model_pairs == breakdown.tool_model_pairs
            &&& event.values.ai_additions == breakdown.ai_additions
            &&& event.values.ai_accepted == breakdown.ai_accepted
            &&& event.values.commit_subject == (repository.subject)(sha)
            &&& event.values.commit_body == (repository.body)(sha)
            &&& event.values.hunks == (repository.rendering)(sha)
            &&& event.values.operation_kind == commit.operation
            &&& event.values.original_commit_shas == commit.original_shas
            &&& event.attrs.others == attributes.others
            &&& event.attrs.branch == if commit.branch is Some {
                commit.branch
            } else {
                attributes.branch
            }
        }),
{
    law_building_ends_with_event(commit, repository);
}

/// A failure of the repository ends the building of an event with its words: that to count the
/// parents, to name the parent, to estimate the cost, to compare, or to compute the numbers,
/// whichever is first.
pub proof fn law_repository_failure_is_passed_on(
    commit: RewriteMetricCommit,
    repository: RepositoryView,
    base: DiffBase,
    words: String,
)
    requires
        (repository.note)(commit.new_sha) is Some,
        (repository.readable)((repository.note)(commit.new_sha)->0),
        ({
            let sha = commit.new_sha;
            let counted = (repository.parent_count)(sha);
            ||| counted == Err::<usize, String>(words)
            ||| counted == Ok::<usize, String>(1) && (repository.parent)(sha) == Err::<
                String,
                String,
            >(words)
            ||| is_base(base, sha, repository) && {
                ||| (repository.too_costly)(base, sha) == Err::<bool, String>(words)
                ||| (repository.too_costly)(base, sha) == Ok::<bool, String>(false) && {
                    ||| (repository.comparison)(base, sha) == Err::<(), String>(words)
                    ||| (repository.comparison)(base, sha) is Ok && (repository.stats)(sha)
                        == Err::<CommitStats, String>(words)
                }
            }
        }),
    ensures
        end_within(11, starts(commit), repository) == Some(
            Err::<Option<RewriteEvent>, GitAiError>(GitAiError::Repository(words)),
        ),
{
    law_building_ends_with_event(commit, repository);
}

/// The branch of a commit replaces that of the attributes, and nothing else of them changes.
pub proof fn law_branch_is_replaced(attrs: EventAttributes, commit: RewriteMetricCommit)
    ensures
        branch_applied(attrs, commit).others == attrs.others,
        commit.branch is Some ==> branch_applied(attrs, commit).branch == commit.branch,
        commit.branch is None ==> branch_applied(attrs, commit).branch == attrs.branch,
{
}

/// Whether a reply is one that the building of an event waits for.
pub open spec fn fits(stage: RewriteStage, reply: RewriteReply) -> bool {
    match stage {
        RewriteStage::Note { .. } => reply is Text,
        RewriteStage::Log { .. } => reply is Truth,
        RewriteStage::Parents { .. } => reply is Count,
        RewriteStage::Parent { .. } => reply matches RewriteReply::Text(Some(_)),
        RewriteStage::Cost { .. } => reply is Truth,
        RewriteStage::Changes { .. } => reply is Done,
        RewriteStage::Stats { .. } => reply is Stats,
        RewriteStage::Rendering { .. } => reply is Text,
        RewriteStage::Message { .. } => reply is Message,
        RewriteStage::Author { .. } => reply matches RewriteReply::Text(Some(_)),
        RewriteStage::Attributes { .. } => reply is Attributes,
    }
}

/// A reply that is waited for is never refused; a failure ends the building with its words, and any
/// other reply ends it as unexpected.
pub proof fn law_reply_has_to_fit(stage: RewriteStage, reply: RewriteReply)
    ensures
        fits(stage, reply) ==> match after(stage, reply) {
            RewriteStep::Finished(result) => result is Ok,
            _ => true,
        },
        reply matches RewriteReply::Failed(words) ==> after(stage, reply) == RewriteStep::Finished(
            Err(GitAiError::Repository(words)),
        ),
        !fits(stage, reply) && reply !is Failed ==> after(stage, reply) == RewriteStep::Finished(
            Err(GitAiError::UnexpectedReply),
        ),
{
}

/// A commit with a parent is compared with it, and its event calls the base by the same name. A
/// commit without one is compared with the empty tree, which no event names.
pub proof fn law_base_is_named(sha: String)
    ensures
        base_commit_text(DiffBase::Parent(sha)) == sha@,
        diff_base_text(DiffBase::Parent(sha)) == sha@,
        base_commit_text(DiffBase::Initial) != diff_base_text(DiffBase::Initial),
        diff_base_text(DiffBase::Initial).len() == 40,
        base_commit_text(DiffBase::Initial) == "initial"@,
{
    reveal_strlit("initial");
    reveal_strlit("4b825dc642cb6eb9a060e54bf8d69288fbee4904");
    assert(base_commit_text(DiffBase::Initial).len() == 7);
}

} // verus!
