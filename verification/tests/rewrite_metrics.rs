use git_ai::daemon::rewrite_event::{
    apply_rewrite_metric_branch, build_rewrite_committed_metric_event, resume, CommitStats,
    EventAttributes, RewriteCommittedValues, RewriteEvent, RewriteQuestion, RewriteReply,
    RewriteStep, ToolModelBreakdown,
};
use git_ai::daemon::rewrite_metrics::{
    build_rewrite_metric_events, commits_to_report, current_branch_name, dedupe_metric_commits,
    submit_events, RewriteMetricCommit, RewriteMetricOperation,
};
use git_ai::error::GitAiError;
use git_ai::metrics::types::{sparse_get_string, MetricEvent, ATTR_GIT_AI_VERSION};
use git_ai::text_map::TextMap;

fn metric_commit(
    new_sha: &str,
    originals: &[&str],
    operation: RewriteMetricOperation,
) -> RewriteMetricCommit {
    RewriteMetricCommit::new(
        new_sha.to_string(),
        originals.iter().map(|s| s.to_string()).collect(),
        operation,
    )
}

#[test]
fn dedupe_metric_commits_keeps_distinct_original_sets() {
    let first = metric_commit("new", &["old1"], RewriteMetricOperation::Rebase);
    let second = metric_commit("new", &["old1"], RewriteMetricOperation::Rebase);
    let squash = metric_commit(
        "new",
        &["old1", "old2"],
        RewriteMetricOperation::SquashMerge,
    );

    let result = dedupe_metric_commits(vec![first.clone(), second, squash.clone()]);

    assert_eq!(result, vec![first, squash]);
}

#[test]
fn rewrite_metric_branch_overrides_head_branch_attr() {
    let commit = metric_commit("new", &["old"], RewriteMetricOperation::NonFastForward)
        .with_branch("feature".to_string());
    let attrs = apply_rewrite_metric_branch(
        EventAttributes::with_version("test".to_string()).branch("main".to_string()),
        &commit,
    );

    assert_eq!(attrs.branch.as_deref(), Some("feature"));
    assert_eq!(
        sparse_get_string(&attrs.others, ATTR_GIT_AI_VERSION),
        Some(Some("test".to_string()))
    );
}

#[test]
fn head_branch_attr_stays_without_a_branch() {
    let commit = metric_commit("new", &["old"], RewriteMetricOperation::Rebase);
    let attrs = apply_rewrite_metric_branch(
        EventAttributes::with_version("test".to_string()).branch("main".to_string()),
        &commit,
    );
    assert_eq!(attrs.branch.as_deref(), Some("main"));
}

#[test]
fn dedupe_drops_nameless_commits_and_keeps_order() {
    let commit = |sha: &str| metric_commit(sha, &["old"], RewriteMetricOperation::Rebase);
    let on_branch = commit("a").with_branch("main".to_string());
    let other_way = metric_commit("a", &["old"], RewriteMetricOperation::NonFastForward);
    let result = dedupe_metric_commits(vec![
        commit("b"),
        commit(""),
        commit("a"),
        commit("b"),
        on_branch.clone(),
        other_way.clone(),
    ]);
    assert_eq!(
        result,
        vec![commit("b"), commit("a"), on_branch, other_way]
    );
    assert_eq!(dedupe_metric_commits(result.clone()), result);
}

#[test]
fn reported_commits_are_on_a_branch() {
    let commit = |sha: &str| metric_commit(sha, &["old"], RewriteMetricOperation::Rebase);
    let named = commit("a").with_branch("feature".to_string());
    let reported = commits_to_report(
        true,
        Some("main".to_string()),
        vec![commit("a"), named.clone(), commit("b"), commit("a")],
    )
    .unwrap();
    assert_eq!(
        reported,
        vec![
            commit("a").with_branch("main".to_string()),
            named.clone(),
            commit("b").with_branch("main".to_string()),
        ]
    );
    let reported = commits_to_report(true, None, vec![commit("a"), named.clone()]).unwrap();
    assert_eq!(reported, vec![commit("a"), named]);
}

#[test]
fn nothing_is_reported_without_commits_or_when_switched_off() {
    let commit = |sha: &str| metric_commit(sha, &["old"], RewriteMetricOperation::Rebase);
    assert!(commits_to_report(true, None, vec![]).is_none());
    assert!(commits_to_report(true, Some("main".to_string()), vec![commit("")]).is_none());
    assert!(commits_to_report(false, None, vec![commit("a")]).is_none());
}

#[test]
fn empty_branch_name_is_none() {
    assert_eq!(
        current_branch_name(Some("main".to_string())),
        Some("main".to_string())
    );
    assert_eq!(current_branch_name(Some(String::new())), None);
    assert_eq!(current_branch_name(None), None);
}

fn stats(breakdown: bool) -> CommitStats {
    CommitStats {
        human_additions: 1,
        git_diff_deleted_lines: 2,
        git_diff_added_lines: 3,
        breakdown: if breakdown {
            Some(ToolModelBreakdown {
                tool_model_pairs: vec!["all".to_string()],
                ai_additions: vec![4],
                ai_accepted: vec![5],
            })
        } else {
            None
        },
    }
}

/// A repository with one commit.
struct Repository {
    note: Option<String>,
    readable: bool,
    parents: usize,
    too_costly: bool,
    breakdown: bool,
    failure: Option<&'static str>,
    asked: Vec<String>,
}

impl Repository {
    fn new() -> Repository {
        Repository {
            note: Some("note".to_string()),
            readable: true,
            parents: 1,
            too_costly: false,
            breakdown: true,
            failure: None,
            asked: vec![],
        }
    }

    fn reply(&mut self, question: RewriteQuestion) -> RewriteReply {
        let name = format!("{question:?}");
        self.asked.push(name.clone());
        if let Some(failure) = self.failure {
            if name.starts_with(failure) {
                return RewriteReply::Failed(format!("no {failure}"));
            }
        }
        match question {
            RewriteQuestion::ReadNote { commit_sha } => {
                assert_eq!(commit_sha, "new");
                RewriteReply::Text(self.note.clone())
            }
            RewriteQuestion::ReadLog { note } => {
                assert_eq!(note, "note");
                RewriteReply::Truth(self.readable)
            }
            RewriteQuestion::CountParents { .. } => RewriteReply::Count(self.parents),
            RewriteQuestion::ReadParent { .. } => RewriteReply::Text(Some("parent".to_string())),
            RewriteQuestion::EstimateCost { base, commit_sha } => {
                let expected = if self.parents == 0 {
                    "4b825dc642cb6eb9a060e54bf8d69288fbee4904"
                } else {
                    "parent"
                };
                assert_eq!(base.diff_base(), expected);
                assert_eq!(commit_sha, "new");
                RewriteReply::Truth(self.too_costly)
            }
            RewriteQuestion::ReadChanges { .. } => RewriteReply::Done,
            RewriteQuestion::ReadStats { .. } => RewriteReply::Stats(stats(self.breakdown)),
            RewriteQuestion::RenderChanges { .. } => RewriteReply::Text(Some("[]".to_string())),
            RewriteQuestion::ReadMessage { .. } => RewriteReply::Message {
                subject: Some("subject".to_string()),
                body: None,
            },
            RewriteQuestion::ReadAuthor => RewriteReply::Text(Some("author".to_string())),
            RewriteQuestion::ReadAttributes { base, author, .. } => {
                assert_eq!(
                    base.base_commit(),
                    if self.parents == 0 { "initial" } else { "parent" }
                );
                assert_eq!(author, "author");
                RewriteReply::Attributes(
                    EventAttributes::with_version("test".to_string()).branch("main".to_string()),
                )
            }
        }
    }

    fn build(&mut self, commit: RewriteMetricCommit) -> Result<Option<RewriteEvent>, GitAiError> {
        let mut step = build_rewrite_committed_metric_event(commit);
        loop {
            match step {
                RewriteStep::Finished(result) => return result,
                RewriteStep::Ask { question, stage } => {
                    let reply = self.reply(question);
                    step = resume(stage, reply);
                }
            }
        }
    }
}

fn rebased() -> RewriteMetricCommit {
    metric_commit("new", &["old"], RewriteMetricOperation::Rebase)
}

#[test]
fn event_holds_what_the_repository_knows() {
    let mut repository = Repository::new();
    let commit = rebased().with_branch("feature".to_string());
    let event = repository.build(commit).unwrap().unwrap();
    assert_eq!(repository.asked.len(), 11);
    let values: RewriteCommittedValues = event.values;
    assert_eq!(values.human_additions, 1);
    assert_eq!(values.git_diff_deleted_lines, 2);
    assert_eq!(values.git_diff_added_lines, 3);
    assert_eq!(values.tool_model_pairs, vec!["all"]);
    assert_eq!(values.ai_additions, vec![4]);
    assert_eq!(values.ai_accepted, vec![5]);
    assert_eq!(values.commit_subject.as_deref(), Some("subject"));
    assert_eq!(values.commit_body, None);
    assert_eq!(values.authorship_note, "note");
    assert_eq!(values.hunks.as_deref(), Some("[]"));
    assert_eq!(values.operation_kind, RewriteMetricOperation::Rebase);
    assert_eq!(values.original_commit_shas, vec!["old"]);
    assert_eq!(event.attrs.branch.as_deref(), Some("feature"));
}

#[test]
fn first_commit_is_compared_with_the_empty_tree() {
    let mut repository = Repository::new();
    repository.parents = 0;
    assert!(repository.build(rebased()).unwrap().is_some());
    assert_eq!(repository.asked.len(), 10);
}

#[test]
fn some_commits_have_no_event() {
    let mut repository = Repository::new();
    repository.note = None;
    assert!(repository.build(rebased()).unwrap().is_none());
    assert_eq!(repository.asked.len(), 1);

    let mut repository = Repository::new();
    repository.readable = false;
    assert!(repository.build(rebased()).unwrap().is_none());
    assert_eq!(repository.asked.len(), 2);

    let mut repository = Repository::new();
    repository.parents = 2;
    assert!(repository.build(rebased()).unwrap().is_none());
    assert_eq!(repository.asked.len(), 3);

    let mut repository = Repository::new();
    repository.too_costly = true;
    assert!(repository.build(rebased()).unwrap().is_none());
    assert_eq!(repository.asked.len(), 5);

    let mut repository = Repository::new();
    repository.breakdown = false;
    assert!(repository.build(rebased()).unwrap().is_none());
    assert_eq!(repository.asked.len(), 7);
}

#[test]
fn failures_of_the_repository_are_errors() {
    for failure in [
        "CountParents",
        "ReadParent",
        "EstimateCost",
        "ReadChanges",
        "ReadStats",
    ] {
        let mut repository = Repository::new();
        repository.failure = Some(failure);
        let error = repository.build(rebased()).unwrap_err();
        assert_eq!(error.message(), format!("no {failure}"));
        assert!(matches!(error, GitAiError::Repository(_)));
    }
}

#[test]
fn misplaced_reply_is_an_error() {
    match build_rewrite_committed_metric_event(rebased()) {
        RewriteStep::Ask { stage, .. } => {
            let end = resume(stage, RewriteReply::Count(1));
            assert!(matches!(
                end,
                RewriteStep::Finished(Err(GitAiError::UnexpectedReply))
            ));
        }
        other => panic!("{other:?}"),
    }
}

#[test]
fn events_are_collected_past_failures() {
    let mut second = Repository::new();
    let results = vec![
        Ok(None),
        Repository::new().build(rebased()),
        Err(GitAiError::Repository("no".to_string())),
        second.build(metric_commit(
            "new",
            &["other"],
            RewriteMetricOperation::SquashMerge,
        )),
    ];
    let events = build_rewrite_metric_events(results);
    assert_eq!(events.len(), 2);
    assert_eq!(events[0].values.original_commit_shas, vec!["old"]);
    assert_eq!(events[1].values.original_commit_shas, vec!["other"]);
    assert!(build_rewrite_metric_events(vec![]).is_empty());
}

#[test]
fn only_events_are_submitted() {
    assert!(submit_events(vec![]).is_none());
    let event = MetricEvent {
        timestamp: 7,
        event_id: 1,
        values: TextMap::new(),
        attrs: TextMap::new(),
    };
    let submitted = submit_events(vec![event]).unwrap();
    assert_eq!(submitted.len(), 1);
    assert_eq!(submitted[0].timestamp, 7);
}
