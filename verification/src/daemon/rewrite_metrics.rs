//! Which rewritten commits are reported as metrics, and what becomes of the events.

use crate::daemon::rewrite_event::RewriteEvent;
use crate::error::GitAiError;
use crate::metrics::requests::text_view;
use crate::metrics::types::MetricEvent;
use vstd::prelude::*;

verus! {

/// How commits were rewritten.
#[derive(Debug, Clone, Copy, PartialEq, Eq, Structural)]
pub enum RewriteMetricOperation {
    Rebase,
    SquashMerge,
    NonFastForward,
}

/// A rewritten commit and what it was made from.
#[derive(Debug, Clone, PartialEq, Eq)]
pub struct RewriteMetricCommit {
    pub new_sha: String,
    pub original_shas: Vec<String>,
    pub operation: RewriteMetricOperation,
    /// The branch on which the commit was rewritten, where that is known.
    pub branch: Option<String>,
}

/// The contents of a [`RewriteMetricCommit`].
#[verifier::ext_equal]
pub struct CommitView {
    pub new_sha: Seq<char>,
    pub original_shas: Seq<Seq<char>>,
    pub operation: RewriteMetricOperation,
    pub branch: Option<Seq<char>>,
}

impl View for RewriteMetricCommit {
    type V = CommitView;

    open spec fn view(&self) -> CommitView {
        CommitView {
            new_sha: self.new_sha@,
            original_shas: self.original_shas@.map_values(|sha: String| sha@),
            operation: self.operation,
            branch: text_view(self.branch),
        }
    }
}

/// The contents of several commits.
pub open spec fn commit_views(commits: Seq<RewriteMetricCommit>) -> Seq<CommitView> {
    commits.map_values(|commit: RewriteMetricCommit| commit@)
}

impl RewriteMetricCommit {
    /// A rewritten commit, on a branch that is not known.
    pub fn new(
        new_sha: String,
        original_shas: Vec<String>,
        operation: RewriteMetricOperation,
    ) -> (commit: RewriteMetricCommit)
        ensures
            commit == (RewriteMetricCommit { new_sha, original_shas, operation, branch: None }),
    {
        RewriteMetricCommit { new_sha, original_shas, operation, branch: None }
    }

    /// The commit, on a branch.
    pub fn with_branch(self, branch: String) -> (commit: RewriteMetricCommit)
        ensures
            commit == (RewriteMetricCommit { branch: Some(branch), ..self }),
    {
        RewriteMetricCommit { branch: Some(branch), ..self }
    }
}

fn same_shas(first: &Vec<String>, second: &Vec<String>) -> (same: bool)
    ensures
        same == (first@.map_values(|sha: String| sha@) == second@.map_values(
            |sha: String| sha@,
        )),
{
    let ghost left = first@.map_values(|sha: String| sha@);
    let ghost right = second@.map_values(|sha: String| sha@);
    if first.len() != second.len() {
        assert(left.len() != right.len());
        return false;
    }
    let mut at: usize = 0;
    while at < first.len()
        invariant
            at <= first@.len(),
            first@.len() == second@.len(),
            left == first@.map_values(|sha: String| sha@),
            right == second@.map_values(|sha: String| sha@),
            forall|i: int| 0 <= i < at ==> #[trigger] left[i] == right[i],
        decreases first@.len() - at,
    {
        assert(left[at as int] == first@[at as int]@);
        assert(right[at as int] == second@[at as int]@);
        if first[at] != second[at] {
            return false;
        }
        at = at + 1;
    }
    assert(left =~= right);
    true
}

fn same_branch(first: &Option<String>, second: &Option<String>) -> (same: bool)
    ensures
        same == (text_view(*first) == text_view(*second)),
{
    match (first, second) {
        (Some(first), Some(second)) => *first == *second,
        (None, None) => true,
        _ => false,
    }
}

fn same_commit(first: &RewriteMetricCommit, second: &RewriteMetricCommit) -> (same: bool)
    ensures
        same == (first@ == second@),
{
    first.new_sha == second.new_sha && same_shas(&first.original_shas, &second.original_shas)
        && first.operation == second.operation && same_branch(&first.branch, &second.branch)
}

/// The commits with a name, each once, in the order in which they first occur.
pub open spec fn deduped(commits: Seq<CommitView>) -> Seq<CommitView>
    decreases commits.len(),
{
    if commits.len() == 0 {
        Seq::empty()
    } else {
        let rest = deduped(commits.drop_last());
        if commits.last().new_sha.len() == 0 || rest.contains(commits.last()) {
            rest
        } else {
            rest.push(commits.last())
        }
    }
}

fn has_commit(commits: &Vec<RewriteMetricCommit>, commit: &RewriteMetricCommit) -> (found: bool)
    ensures
        found == commit_views(commits@).contains(commit@),
{
    let ghost views = commit_views(commits@);
    let mut at: usize = 0;
    while at < commits.len()
        invariant
            at <= commits@.len(),
            views == commit_views(commits@),
            forall|i: int| 0 <= i < at ==> #[trigger] views[i] != commit@,
        decreases commits@.len() - at,
    {
        assert(views[at as int] == commits@[at as int]@);
        if same_commit(&commits[at], commit) {
            return true;
        }
        at = at + 1;
    }
    false
}

/// The commits with a name, each once, in the order in which they first occur.
pub fn dedupe_metric_commits(metric_commits: Vec<RewriteMetricCommit>) -> (kept: Vec<
    RewriteMetricCommit,
>)
    ensures
        commit_views(kept@) == deduped(commit_views(metric_commits@)),
{
    let ghost views = commit_views(metric_commits@);
    let mut kept: Vec<RewriteMetricCommit> = Vec::new();
    assert(commit_views(kept@) =~= deduped(views.take(0)));
    for commit in iter: metric_commits
        invariant
            commit_views(iter.seq()) == views,
            commit_views(kept@) == deduped(views.take(iter.index())),
    {
        let ghost longer = views.take(iter.index() + 1);
        proof {
            assert(views[iter.index()] == commit@);
            assert(longer.drop_last() =~= views.take(iter.index()));
            assert(longer.last() == commit@);
        }
        let ghost before = kept@;
        if !commit.new_sha.as_str().is_empty() && !has_commit(&kept, &commit) {
            kept.push(commit);
            assert(commit_views(kept@) =~= commit_views(before).push(commit@));
        }
        assert(commit_views(kept@) == deduped(longer));
    }
    assert(views.take(views.len() as int) =~= views);
    kept
}

/// The short name of the branch at the head of the repository, unless it is empty.
pub fn current_branch_name(shorthand: Option<String>) -> (branch: Option<String>)
    ensures
        branch == (if shorthand is Some && shorthand->0@.len() > 0 {
            shorthand
        } else {
            None
        }),
{
    match shorthand {
        Some(branch) => if branch.as_str().is_empty() {
            None
        } else {
            Some(branch)
        },
        None => None,
    }
}

/// A commit on its own branch, or else on another where there is one.
pub open spec fn on_branch(commit: CommitView, fallback: Option<Seq<char>>) -> CommitView {
    if commit.branch is Some {
        commit
    } else {
        CommitView { branch: fallback, ..commit }
    }
}

/// The commits to report: each on its own branch or the current one, with a name, and once.
pub open spec fn reported(commits: Seq<CommitView>, fallback: Option<Seq<char>>) -> Seq<
    CommitView,
> {
    deduped(commits.map_values(|commit: CommitView| on_branch(commit, fallback)))
}

fn fill_branches(
    metric_commits: Vec<RewriteMetricCommit>,
    fallback_branch: &Option<String>,
) -> (filled: Vec<RewriteMetricCommit>)
    ensures
        commit_views(filled@) == commit_views(metric_commits@).map_values(
            |commit: CommitView| on_branch(commit, text_view(*fallback_branch)),
        ),
{
    let ghost views = commit_views(metric_commits@);
    let ghost fallback = text_view(*fallback_branch);
    let ghost expected = views.map_values(|commit: CommitView| on_branch(commit, fallback));
    let mut filled: Vec<RewriteMetricCommit> = Vec::new();
    assert(commit_views(filled@) =~= expected.take(0));
    for commit in iter: metric_commits
        invariant
            commit_views(iter.seq()) == views,
            fallback == text_view(*fallback_branch),
            expected == views.map_values(|commit: CommitView| on_branch(commit, fallback)),
            commit_views(filled@) == expected.take(iter.index()),
    {
        let ghost before = filled@;
        proof {
            assert(views[iter.index()] == commit@);
            assert(expected[iter.index()] == on_branch(commit@, fallback));
        }
        let done: RewriteMetricCommit = if commit.branch.is_some() {
            commit
        } else {
            match fallback_branch {
                Some(branch) => commit.with_branch(branch.clone()),
                None => commit,
            }
        };
        assert(done@ == on_branch(commit@, fallback));
        filled.push(done);
        assert(commit_views(filled@) =~= commit_views(before).push(done@));
        assert(commit_views(filled@) =~= expected.take(iter.index() + 1));
    }
    assert(expected.take(expected.len() as int) =~= expected);
    filled
}

/// The commits for which events are to be built, if there are any. There are none unless the
/// events are switched on.
pub fn commits_to_report(
    enabled: bool,
    fallback_branch: Option<String>,
    metric_commits: Vec<RewriteMetricCommit>,
) -> (commits: Option<Vec<RewriteMetricCommit>>)
    ensures
        ({
            let expected = reported(commit_views(metric_commits@), text_view(fallback_branch));
            match commits {
                Some(commits) => enabled && expected.len() > 0 && commit_views(commits@)
                    == expected,
                None => !enabled || expected.len() == 0,
            }
        }),
{
    if !enabled {
        return None;
    }
    let filled: Vec<RewriteMetricCommit> = fill_branches(metric_commits, &fallback_branch);
    let kept: Vec<RewriteMetricCommit> = dedupe_metric_commits(filled);
    assert(commit_views(kept@).len() == kept@.len());
    if kept.len() == 0 {
        return None;
    }
    Some(kept)
}

/// The events among the results, in their order: a commit without an event and one that failed
/// are passed over.
pub open spec fn built_events(results: Seq<Result<Option<RewriteEvent>, GitAiError>>) -> Seq<
    RewriteEvent,
>
    decreases results.len(),
{
    if results.len() == 0 {
        Seq::empty()
    } else {
        let rest = built_events(results.drop_last());
        match results.last() {
            Ok(Some(event)) => rest.push(event),
            _ => rest,
        }
    }
}

/// The events among the results of building one for each commit.
pub fn build_rewrite_metric_events(
    results: Vec<Result<Option<RewriteEvent>, GitAiError>>,
) -> (events: Vec<RewriteEvent>)
    ensures
        events@ == built_events(results@),
{
    let ghost all = results@;
    let mut events: Vec<RewriteEvent> = Vec::new();
    assert(all.take(0) =~= Seq::empty());
    for result in iter: results
        invariant
            iter.seq() == all,
            events@ == built_events(all.take(iter.index())),
    {
        proof {
            let longer = all.take(iter.index() + 1);
            assert(longer.drop_last() =~= all.take(iter.index()));
            assert(longer.last() == result);
        }
        if let Ok(Some(event)) = result {
            events.push(event);
        }
    }
    assert(all.take(all.len() as int) =~= all);
    events
}

/// The events to log, if there are any.
pub fn submit_events(events: Vec<MetricEvent>) -> (submitted: Option<Vec<MetricEvent>>)
    ensures
        submitted == (if events@.len() == 0 {
            None
        } else {
            Some(events)
        }),
{
    if events.len() == 0 {
        None
    } else {
        Some(events)
    }
}

/// Where a commit first occurs.
pub open spec fn first_at(commits: Seq<CommitView>, commit: CommitView, at: int) -> bool {
    &&& 0 <= at < commits.len()
    &&& commits[at] == commit
    &&& forall|i: int| 0 <= i < at ==> #[trigger] commits[i] != commit
}

/// Every commit with a name is kept, once; a commit without one is dropped.
pub proof fn law_dedupe_keeps_each_once(commits: Seq<CommitView>)
    ensures
        deduped(commits).no_duplicates(),
        forall|commit: CommitView| #[trigger]
            deduped(commits).contains(commit) <==> commits.contains(commit)
                && commit.new_sha.len() > 0,
    decreases commits.len(),
{
    if commits.len() > 0 {
        let shorter = commits.drop_last();
        let rest = deduped(shorter);
        let kept = deduped(commits);
        let last = commits.last();
        law_dedupe_keeps_each_once(shorter);
        assert(commits[commits.len() - 1] == last);
        assert forall|commit: CommitView| #[trigger] kept.contains(commit) <==> commits.contains(
            commit,
        ) && commit.new_sha.len() > 0 by {
            if shorter.contains(commit) {
                let at = choose|at: int| 0 <= at < shorter.len() && shorter[at] == commit;
                assert(commits[at] == commit);
            }
            if commits.contains(commit) && commit != last {
                let at = choose|at: int| 0 <= at < commits.len() && commits[at] == commit;
                assert(shorter[at] == commit);
            }
            if rest.contains(commit) {
                let at = choose|at: int| 0 <= at < rest.len() && rest[at] == commit;
                assert(kept[at] == commit);
            }
            if kept.len() > rest.len() {
                assert(kept[kept.len() - 1] == last);
            }
            if kept.contains(commit) && !rest.contains(commit) {
                let at = choose|at: int| 0 <= at < kept.len() && kept[at] == commit;
                if at < rest.len() {
                    assert(rest[at] == commit);
                }
            }
        }
    } else {
        assert forall|commit: CommitView| !#[trigger] deduped(commits).contains(commit) by {}
    }
}

/// The commits that are kept stay in the order in which they first occurred.
pub proof fn law_dedupe_keeps_order(
    commits: Seq<CommitView>,
    i: int,
    j: int,
    first_i: int,
    first_j: int,
)
    requires
        0 <= i < j < deduped(commits).len(),
        first_at(commits, deduped(commits)[i], first_i),
        first_at(commits, deduped(commits)[j], first_j),
    ensures
        first_i < first_j,
    decreases commits.len(),
{
    let shorter = commits.drop_last();
    let rest = deduped(shorter);
    let kept = deduped(commits);
    let last = commits.len() - 1;
    law_dedupe_keeps_each_once(shorter);
    law_dedupe_keeps_each_once(commits);
    assert(i < rest.len());
    assert(rest[i] == kept[i]);
    assert(rest.contains(kept[i]));
    let at = choose|at: int| 0 <= at < shorter.len() && shorter[at] == kept[i];
    assert(commits[at] == kept[i]);
    assert(first_i < last);
    assert(first_at(shorter, kept[i], first_i)) by {
        assert forall|k: int| 0 <= k < first_i implies #[trigger] shorter[k] != kept[i] by {
            assert(shorter[k] == commits[k]);
        }
    }
    if j < rest.len() {
        assert(rest[j] == kept[j]);
        assert(rest.contains(kept[j]));
        let at_j = choose|at_j: int| 0 <= at_j < shorter.len() && shorter[at_j] == kept[j];
        assert(commits[at_j] == kept[j]);
        assert(first_at(shorter, kept[j], first_j)) by {
            assert forall|k: int| 0 <= k < first_j implies #[trigger] shorter[k] != kept[j] by {
                assert(shorter[k] == commits[k]);
            }
        }
        law_dedupe_keeps_order(shorter, i, j, first_i, first_j);
    } else {
        assert(kept[j] == commits[last]);
        if first_j < last {
            assert(shorter[first_j] == kept[j]);
            assert(shorter.contains(kept[j]));
            assert(kept.contains(kept[j]));
            assert(rest.contains(kept[j]));
        }
    }
}

/// Commits that were deduplicated stay as they are.
pub proof fn law_dedupe_is_stable(commits: Seq<CommitView>)
    ensures
        deduped(deduped(commits)) == deduped(commits),
{
    law_dedupe_keeps_each_once(commits);
    lemma_distinct_stay(deduped(commits));
}

proof fn lemma_distinct_stay(commits: Seq<CommitView>)
    requires
        commits.no_duplicates(),
        forall|commit: CommitView| #[trigger] commits.contains(commit) ==> commit.new_sha.len() > 0,
    ensures
        deduped(commits) == commits,
    decreases commits.len(),
{
    if commits.len() > 0 {
        let shorter = commits.drop_last();
        assert forall|commit: CommitView| #[trigger]
            shorter.contains(commit) implies commit.new_sha.len() > 0 by {
            let at = choose|at: int| 0 <= at < shorter.len() && shorter[at] == commit;
            assert(commits[at] == commit);
            assert(commits.contains(commit));
        }
        lemma_distinct_stay(shorter);
        assert(commits.contains(commits.last()));
        assert(!shorter.contains(commits.last())) by {
            if shorter.contains(commits.last()) {
                let at = choose|at: int| 0 <= at < shorter.len() && shorter[at] == commits.last();
                assert(commits[at] == commits[commits.len() - 1]);
            }
        }
        assert(shorter.push(commits.last()) =~= commits);
    }
}

/// Every reported commit is on a branch where there is a current one, and keeps its own branch.
pub proof fn law_reported_commits_have_branches(
    commits: Seq<CommitView>,
    fallback: Option<Seq<char>>,
    commit: CommitView,
)
    requires
        reported(commits, fallback).contains(commit),
    ensures
        fallback is Some ==> commit.branch is Some,
        exists|i: int|
            0 <= i < commits.len() && commit == on_branch(#[trigger] commits[i], fallback),
{
    let filled = commits.map_values(|commit: CommitView| on_branch(commit, fallback));
    law_dedupe_keeps_each_once(filled);
    let i = choose|i: int| 0 <= i < filled.len() && filled[i] == commit;
    assert(commit == on_branch(commits[i], fallback));
}

} // verus!
