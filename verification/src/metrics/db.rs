//! Metrics storage for local history and offline buffering.
//!
//! Every metric event is stored. An event without a delivery time is still pending upload;
//! delivered events are kept as the local history.
//!
//! The connection to the database is outside. An operation is started on a [`MetricsDatabase`],
//! which answers with the first request; each answer of the connection is handed to
//! [`MetricsDatabase::resume`], which answers with the next request or the outcome.
//!
//! An operation that fails inside a transaction asks for a rollback before it ends, and ends with
//! the error that stopped it, whatever comes of the rollback.

use crate::error::GitAiError;
use crate::metrics::requests::{
    text_view, MetricRow, Reply, ReplyView, Request, SCHEMA_VERSION,
};
use crate::metrics::types::{
    sparse_get_string, sparse_string, MetricEvent, MetricHistoryRecord, MetricRecord,
    ATTR_REPO_URL,
};
use crate::text::{
    contains, contains_text, parse_i64, parse_usize, signed_value, unsigned_value,
};
use vstd::prelude::*;

verus! {

/// How long events are kept for the local history and for offline retry: 45 days.
pub const METRICS_RETENTION_SECS: u64 = 45 * 24 * 3600;

/// The least time between two prune passes: 24 hours.
pub const METRICS_PRUNE_INTERVAL_SECS: u64 = 24 * 3600;

/// Where the database file is.
#[derive(Debug)]
pub enum DatabasePath {
    /// Under the path that was given for tests.
    Given(String),
    /// Below the user's home directory, by the names on the way.
    BelowHome(Vec<&'static str>),
}

/// The names on the way from the home directory to the database file.
pub open spec fn names_below_home() -> Seq<Seq<char>> {
    seq![".git-ai"@, "internal"@, "metrics-db"@]
}

/// What an operation came to.
#[derive(Debug)]
pub enum Outcome {
    /// The schema is up to date.
    Ready,
    /// The events are stored under these identifiers.
    Inserted(Vec<i64>),
    /// The events are marked.
    Delivered,
    Batch(Vec<MetricRecord>),
    Count(usize),
    History(Vec<MetricHistoryRecord>),
    /// Whether an event should be emitted.
    Emit(bool),
}

/// The contents of an [`Outcome`].
pub enum OutcomeView {
    Ready,
    Inserted(Seq<i64>),
    Delivered,
    Batch(Seq<MetricRecord>),
    Count(usize),
    History(Seq<MetricHistoryRecord>),
    Emit(bool),
}

impl View for Outcome {
    type V = OutcomeView;

    open spec fn view(&self) -> OutcomeView {
        match *self {
            Outcome::Ready => OutcomeView::Ready,
            Outcome::Inserted(ids) => OutcomeView::Inserted(ids@),
            Outcome::Delivered => OutcomeView::Delivered,
            Outcome::Batch(records) => OutcomeView::Batch(records@),
            Outcome::Count(count) => OutcomeView::Count(count),
            Outcome::History(records) => OutcomeView::History(records@),
            Outcome::Emit(emit) => OutcomeView::Emit(emit),
        }
    }
}

/// How far an operation has come: it waits for the answer to a request, or it is over.
#[derive(Debug)]
pub enum Progress {
    Ask(Request),
    Finished(Result<Outcome, GitAiError>),
}

/// The contents of a [`Progress`].
pub enum ProgressView {
    Ask(Request),
    Finished(Result<OutcomeView, GitAiError>),
}

impl View for Progress {
    type V = ProgressView;

    open spec fn view(&self) -> ProgressView {
        match *self {
            Progress::Ask(request) => ProgressView::Ask(request),
            Progress::Finished(Ok(outcome)) => ProgressView::Finished(Ok(outcome@)),
            Progress::Finished(Err(error)) => ProgressView::Finished(Err(error)),
        }
    }
}

/// Which answer the initialization of the schema waits for. The versions are those that the
/// migration in progress leads on from.
#[derive(Debug, Clone, Copy, PartialEq, Eq, Structural)]
pub enum SchemaStage {
    /// A first look at the recorded version.
    Checking,
    /// The creation of the table of recorded facts.
    Creating,
    /// A second look at the recorded version.
    Reading,
    Opening { from_version: usize },
    Migrating { from_version: usize },
    Committing { from_version: usize },
    Recording { from_version: usize },
}

/// Which answer the storing of events waits for.
#[derive(Debug, Clone, Copy, PartialEq, Eq, Structural)]
pub enum InsertStage {
    Opening,
    /// The preparation of the statement for events that are delivered already, or not.
    Preparing { delivered: bool },
    Writing,
    Committing,
}

/// Which answer the marking of events waits for.
#[derive(Debug, Clone, Copy, PartialEq, Eq, Structural)]
pub enum WriteStage {
    Opening,
    Writing,
    Committing,
}

/// Which answer a prune pass waits for.
#[derive(Debug)]
pub enum PruneStage {
    Clock,
    LastPrune { now: u64 },
    Rows { now: u64 },
    Opening { now: u64, doomed: Vec<i64> },
    Recording { doomed: Vec<i64> },
    /// The deletion of the row at position `done`.
    Deleting { doomed: Vec<i64>, done: usize },
    Committing,
}

/// The contents of a [`PruneStage`].
pub enum PruneStageView {
    Clock,
    LastPrune { now: u64 },
    Rows { now: u64 },
    Opening { now: u64, doomed: Seq<i64> },
    Recording { doomed: Seq<i64> },
    Deleting { doomed: Seq<i64>, done: int },
    Committing,
}

impl View for PruneStage {
    type V = PruneStageView;

    open spec fn view(&self) -> PruneStageView {
        match *self {
            PruneStage::Clock => PruneStageView::Clock,
            PruneStage::LastPrune { now } => PruneStageView::LastPrune { now },
            PruneStage::Rows { now } => PruneStageView::Rows { now },
            PruneStage::Opening { now, doomed } => PruneStageView::Opening { now, doomed: doomed@ },
            PruneStage::Recording { doomed } => PruneStageView::Recording { doomed: doomed@ },
            PruneStage::Deleting { doomed, done } => PruneStageView::Deleting {
                doomed: doomed@,
                done: done as int,
            },
            PruneStage::Committing => PruneStageView::Committing,
        }
    }
}

/// Which answer the rate limiter waits for.
#[derive(Debug, Clone, Copy, PartialEq, Eq, Structural)]
pub enum ThrottleStage {
    Opening,
    Reading,
    Recording,
    /// The commit, after which the decision is returned.
    Committing { emit: bool },
}

/// The operation in progress.
#[derive(Debug)]
enum Task {
    Idle,
    Schema(SchemaStage),
    Insert {
        events: Vec<String>,
        delivered_ts: Option<i64>,
        ids: Vec<i64>,
        stage: InsertStage,
    },
    Deliver { ids: Vec<i64>, delivered_ts: i64, done: usize, stage: WriteStage },
    Prune { outcome: Outcome, stage: PruneStage },
    Batch,
    Count,
    History { since_ts: u32, repo_filter: Option<String>, event_ids: Vec<u16> },
    Throttle { prompt_id: String, now_ts: u64, min_interval_secs: u64, stage: ThrottleStage },
    Undo { error: GitAiError },
}

/// The operation in progress on a [`MetricsDatabase`].
pub enum TaskView {
    /// None.
    Idle,
    Schema(SchemaStage),
    /// Storing events: those stored so far have their identifiers in `ids`.
    Insert {
        events: Seq<String>,
        delivered_ts: Option<i64>,
        ids: Seq<i64>,
        stage: InsertStage,
    },
    /// Marking events as delivered: `done` of them are marked.
    Deliver { ids: Seq<i64>, delivered_ts: i64, done: int, stage: WriteStage },
    /// A prune pass, after which `outcome` is returned.
    Prune { outcome: OutcomeView, stage: PruneStageView },
    Batch,
    Count,
    History { since_ts: u32, repo_filter: Option<Seq<char>>, event_ids: Seq<u16> },
    Throttle { prompt_id: String, now_ts: u64, min_interval_secs: u64, stage: ThrottleStage },
    /// A rollback, after which the operation fails with `error`.
    Undo { error: GitAiError },
}

impl View for Task {
    type V = TaskView;

    closed spec fn view(&self) -> TaskView {
        match *self {
            Task::Idle => TaskView::Idle,
            Task::Schema(stage) => TaskView::Schema(stage),
            Task::Insert { events, delivered_ts, ids, stage } => TaskView::Insert {
                events: events@,
                delivered_ts,
                ids: ids@,
                stage,
            },
            Task::Deliver { ids, delivered_ts, done, stage } => TaskView::Deliver {
                ids: ids@,
                delivered_ts,
                done: done as int,
                stage,
            },
            Task::Prune { outcome, stage } => TaskView::Prune { outcome: outcome@, stage: stage@ },
            Task::Batch => TaskView::Batch,
            Task::Count => TaskView::Count,
            Task::History { since_ts, repo_filter, event_ids } => TaskView::History {
                since_ts,
                repo_filter: text_view(repo_filter),
                event_ids: event_ids@,
            },
            Task::Throttle { prompt_id, now_ts, min_interval_secs, stage } => TaskView::Throttle {
                prompt_id,
                now_ts,
                min_interval_secs,
                stage,
            },
            Task::Undo { error } => TaskView::Undo { error },
        }
    }
}

/// The metrics database as far as it is in memory: the operation in progress on its connection.
#[derive(Debug)]
pub struct MetricsDatabase {
    task: Task,
}

impl View for MetricsDatabase {
    type V = TaskView;

    closed spec fn view(&self) -> TaskView {
        self.task@
    }
}

/// A task and how far it has come.
pub type StepView = (TaskView, ProgressView);

/// Waiting for an answer.
pub open spec fn asks(task: TaskView, request: Request) -> StepView {
    (task, ProgressView::Ask(request))
}

/// Over, with an outcome.
pub open spec fn ends(outcome: OutcomeView) -> StepView {
    (TaskView::Idle, ProgressView::Finished(Ok(outcome)))
}

/// Over, with an error.
pub open spec fn fails(error: GitAiError) -> StepView {
    (TaskView::Idle, ProgressView::Finished(Err(error)))
}

/// What is wrong with an answer: the words of a failure, or that it fits no request.
pub open spec fn refusal(reply: ReplyView) -> GitAiError {
    match reply {
        ReplyView::Failed(words) => GitAiError::Sqlite(words),
        _ => GitAiError::UnexpectedReply,
    }
}

/// Over, because of the answer.
pub open spec fn refuses(reply: ReplyView) -> StepView {
    fails(refusal(reply))
}

/// Over because of the answer, once the open transaction is rolled back.
pub open spec fn gives_up(reply: ReplyView) -> StepView {
    asks(TaskView::Undo { error: refusal(reply) }, Request::Rollback)
}

/// The recorded schema version, where it is a number.
pub open spec fn recorded_version(reply: ReplyView) -> Option<nat> {
    match reply {
        ReplyView::Text(Some(text)) => unsigned_value(text, usize::MAX as nat),
        _ => None,
    }
}

/// The next migration, or the end once the schema is up to date.
pub open spec fn migrates_from(version: nat) -> StepView {
    if version < SCHEMA_VERSION {
        asks(
            TaskView::Schema(SchemaStage::Opening { from_version: version as usize }),
            Request::Begin,
        )
    } else {
        ends(OutcomeView::Ready)
    }
}

/// How the initialization of the schema goes on.
pub open spec fn after_schema(stage: SchemaStage, reply: ReplyView) -> StepView {
    match stage {
        SchemaStage::Checking => match reply {
            ReplyView::Text(_) | ReplyView::Failed(_) => match recorded_version(reply) {
                Some(version) => if version == SCHEMA_VERSION {
                    ends(OutcomeView::Ready)
                } else if version > SCHEMA_VERSION {
                    fails(
                        GitAiError::SchemaTooNew {
                            found: version as usize,
                            supported: SCHEMA_VERSION,
                        },
                    )
                } else {
                    asks(TaskView::Schema(SchemaStage::Creating), Request::CreateSchemaMetadata)
                },
                None => asks(
                    TaskView::Schema(SchemaStage::Creating),
                    Request::CreateSchemaMetadata,
                ),
            },
            _ => refuses(reply),
        },
        SchemaStage::Creating => match reply {
            ReplyView::Done => asks(
                TaskView::Schema(SchemaStage::Reading),
                Request::ReadSchemaVersion,
            ),
            _ => refuses(reply),
        },
        SchemaStage::Reading => match reply {
            ReplyView::Text(_) | ReplyView::Failed(_) => match recorded_version(reply) {
                Some(version) => migrates_from(version),
                None => migrates_from(0),
            },
            _ => refuses(reply),
        },
        SchemaStage::Opening { from_version } => match reply {
            ReplyView::Done => asks(
                TaskView::Schema(SchemaStage::Migrating { from_version }),
                Request::Migrate { from_version },
            ),
            _ => refuses(reply),
        },
        SchemaStage::Migrating { from_version } => match reply {
            ReplyView::Done => asks(
                TaskView::Schema(SchemaStage::Committing { from_version }),
                Request::Commit,
            ),
            ReplyView::Failed(words) => if contains_text(words@, "duplicate column name"@) {
                asks(TaskView::Schema(SchemaStage::Committing { from_version }), Request::Commit)
            } else {
                gives_up(reply)
            },
            _ => gives_up(reply),
        },
        SchemaStage::Committing { from_version } => match reply {
            ReplyView::Done => if from_version < SCHEMA_VERSION {
                asks(
                    TaskView::Schema(SchemaStage::Recording { from_version }),
                    Request::RecordVersion { version: (from_version + 1) as usize },
                )
            } else {
                ends(OutcomeView::Ready)
            },
            _ => gives_up(reply),
        },
        SchemaStage::Recording { from_version } => match reply {
            ReplyView::Done => if from_version < SCHEMA_VERSION {
                migrates_from((from_version + 1) as nat)
            } else {
                ends(OutcomeView::Ready)
            },
            _ => refuses(reply),
        },
    }
}

/// The beginning of a prune pass.
pub open spec fn prunes_then(outcome: OutcomeView) -> StepView {
    asks(TaskView::Prune { outcome, stage: PruneStageView::Clock }, Request::ReadClock)
}

/// How storing events goes on.
pub open spec fn after_insert(
    events: Seq<String>,
    delivered_ts: Option<i64>,
    ids: Seq<i64>,
    stage: InsertStage,
    reply: ReplyView,
) -> StepView {
    match (stage, reply) {
        (InsertStage::Opening, ReplyView::Done) => prepares_insert(
            events,
            delivered_ts,
            ids,
            false,
        ),
        (InsertStage::Opening, _) => refuses(reply),
        (InsertStage::Preparing { delivered }, ReplyView::Done) => if delivered {
            inserts_next(events, delivered_ts, ids)
        } else {
            prepares_insert(events, delivered_ts, ids, true)
        },
        (InsertStage::Writing, ReplyView::Inserted(id)) => inserts_next(
            events,
            delivered_ts,
            ids.push(id),
        ),
        (InsertStage::Committing, ReplyView::Done) => prunes_then(OutcomeView::Inserted(ids)),
        _ => gives_up(reply),
    }
}

/// The preparation of one of the two statements that store events. Both have to be accepted,
/// whichever is used.
pub open spec fn prepares_insert(
    events: Seq<String>,
    delivered_ts: Option<i64>,
    ids: Seq<i64>,
    delivered: bool,
) -> StepView {
    asks(
        TaskView::Insert {
            events,
            delivered_ts,
            ids,
            stage: InsertStage::Preparing { delivered },
        },
        Request::PrepareInsert { delivered },
    )
}

/// The next event to store, or the commit after the last.
pub open spec fn inserts_next(
    events: Seq<String>,
    delivered_ts: Option<i64>,
    ids: Seq<i64>,
) -> StepView {
    if ids.len() < events.len() {
        asks(
            TaskView::Insert { events, delivered_ts, ids, stage: InsertStage::Writing },
            Request::InsertMetric { event_json: events[ids.len() as int], delivered_ts },
        )
    } else {
        asks(
            TaskView::Insert { events, delivered_ts, ids, stage: InsertStage::Committing },
            Request::Commit,
        )
    }
}

/// How marking events as delivered goes on.
pub open spec fn after_deliver(
    ids: Seq<i64>,
    delivered_ts: i64,
    done: int,
    stage: WriteStage,
    reply: ReplyView,
) -> StepView {
    match (stage, reply) {
        (WriteStage::Opening, ReplyView::Done) => delivers_next(ids, delivered_ts, done),
        (WriteStage::Opening, _) => refuses(reply),
        (WriteStage::Writing, ReplyView::Done) => delivers_next(ids, delivered_ts, done + 1),
        (WriteStage::Committing, ReplyView::Done) => prunes_then(OutcomeView::Delivered),
        _ => gives_up(reply),
    }
}

/// The next event to mark, or the commit after the last.
pub open spec fn delivers_next(ids: Seq<i64>, delivered_ts: i64, done: int) -> StepView {
    if 0 <= done < ids.len() {
        asks(
            TaskView::Deliver { ids, delivered_ts, done, stage: WriteStage::Writing },
            Request::MarkDelivered { id: ids[done], delivered_ts },
        )
    } else {
        asks(
            TaskView::Deliver {
                ids,
                delivered_ts,
                done: ids.len() as int,
                stage: WriteStage::Committing,
            },
            Request::Commit,
        )
    }
}

/// Whether a prune pass is due: none is recorded, or the last was long enough ago.
pub open spec fn prune_due(now: u64, last_prune: Option<Seq<char>>) -> bool {
    match last_prune {
        Some(text) => match signed_value(text) {
            Some(last) => now - ((last as i64) as u64) >= METRICS_PRUNE_INTERVAL_SECS,
            None => true,
        },
        None => true,
    }
}

/// The time before which events are too old to keep.
pub open spec fn retention_cutoff(now: u64) -> int {
    if now >= METRICS_RETENTION_SECS {
        now - METRICS_RETENTION_SECS
    } else {
        0
    }
}

/// Whether a row is older than the cutoff: by the event's own time, or, for a text that is no
/// event, by the time of its delivery.
pub open spec fn older_than(row: MetricRow, cutoff: int) -> bool {
    match row.event_ts {
        Some(ts) => ts < cutoff,
        None => match row.delivered_ts {
            Some(ts) => 0 <= ts < cutoff,
            None => false,
        },
    }
}

/// The identifiers of the rows older than the cutoff, in their order.
pub open spec fn doomed_ids(rows: Seq<MetricRow>, cutoff: int) -> Seq<i64>
    decreases rows.len(),
{
    if rows.len() == 0 {
        Seq::empty()
    } else {
        let rest = doomed_ids(rows.drop_last(), cutoff);
        if older_than(rows.last(), cutoff) {
            rest.push(rows.last().id)
        } else {
            rest
        }
    }
}

/// How a prune pass goes on.
pub open spec fn after_prune(
    outcome: OutcomeView,
    stage: PruneStageView,
    reply: ReplyView,
) -> StepView {
    match (stage, reply) {
        (PruneStageView::Clock, ReplyView::Clock(now)) => asks(
            TaskView::Prune { outcome, stage: PruneStageView::LastPrune { now } },
            Request::ReadLastPrune,
        ),
        (PruneStageView::LastPrune { now }, ReplyView::Text(last_prune)) => if prune_due(
            now,
            last_prune,
        ) {
            asks(
                TaskView::Prune { outcome, stage: PruneStageView::Rows { now } },
                Request::ReadMetricRows,
            )
        } else {
            ends(outcome)
        },
        (PruneStageView::Rows { now }, ReplyView::Rows(rows)) => asks(
            TaskView::Prune {
                outcome,
                stage: PruneStageView::Opening {
                    now,
                    doomed: doomed_ids(rows, retention_cutoff(now)),
                },
            },
            Request::Begin,
        ),
        (PruneStageView::Opening { now, doomed }, ReplyView::Done) => asks(
            TaskView::Prune { outcome, stage: PruneStageView::Recording { doomed } },
            Request::RecordPrune { now },
        ),
        (PruneStageView::Recording { doomed }, ReplyView::Done) => deletes_next(
            outcome,
            doomed,
            0,
        ),
        (PruneStageView::Deleting { doomed, done }, ReplyView::Done) => deletes_next(
            outcome,
            doomed,
            done + 1,
        ),
        (PruneStageView::Committing, ReplyView::Done) => ends(outcome),
        (PruneStageView::Recording { .. }, _) => gives_up(reply),
        (PruneStageView::Deleting { .. }, _) => gives_up(reply),
        (PruneStageView::Committing, _) => gives_up(reply),
        _ => refuses(reply),
    }
}

/// The next row to delete, or the commit after the last.
pub open spec fn deletes_next(outcome: OutcomeView, doomed: Seq<i64>, done: int) -> StepView {
    if 0 <= done < doomed.len() {
        asks(
            TaskView::Prune { outcome, stage: PruneStageView::Deleting { doomed, done } },
            Request::DeleteMetric { id: doomed[done] },
        )
    } else {
        asks(TaskView::Prune { outcome, stage: PruneStageView::Committing }, Request::Commit)
    }
}

/// The repository URL of an event.
pub open spec fn repo_url_of(event: MetricEvent) -> Option<String> {
    match sparse_string(event.attrs@, ATTR_REPO_URL as nat) {
        Some(text) => text,
        None => None,
    }
}

/// Whether a repository URL passes a filter: every URL passes where there is none, only a missing
/// one passes the empty filter, and any other filter is passed by the URLs that contain it.
pub open spec fn repo_matches(repo_url: Option<String>, repo_filter: Option<Seq<char>>) -> bool {
    match repo_filter {
        None => true,
        Some(filter) => if filter.len() == 0 {
            repo_url is None
        } else {
            repo_url is Some && contains_text(repo_url->0@, filter)
        },
    }
}

/// Whether an event belongs to a query of the local history.
pub open spec fn in_history(
    event: MetricEvent,
    since_ts: u32,
    repo_filter: Option<Seq<char>>,
    event_ids: Seq<u16>,
) -> bool {
    &&& event.timestamp >= since_ts
    &&& event_ids.contains(event.event_id)
    &&& repo_matches(repo_url_of(event), repo_filter)
}

/// The record of an event in the local history.
pub open spec fn history_record(event: MetricEvent) -> MetricHistoryRecord {
    MetricHistoryRecord {
        event_id: event.event_id,
        ts: event.timestamp,
        repo_url: repo_url_of(event),
        event,
    }
}

/// The records of the events that belong to a query, in their order.
pub open spec fn history_records(
    events: Seq<Option<MetricEvent>>,
    since_ts: u32,
    repo_filter: Option<Seq<char>>,
    event_ids: Seq<u16>,
) -> Seq<MetricHistoryRecord>
    decreases events.len(),
{
    if events.len() == 0 {
        Seq::empty()
    } else {
        let rest = history_records(events.drop_last(), since_ts, repo_filter, event_ids);
        match events.last() {
            Some(event) => if in_history(event, since_ts, repo_filter, event_ids) {
                rest.push(history_record(event))
            } else {
                rest
            },
            None => rest,
        }
    }
}

/// Whether an event may be emitted: none was, or the last was long enough ago.
pub open spec fn may_emit(last_sent: Option<i64>, now_ts: u64, min_interval_secs: u64) -> bool {
    match last_sent {
        Some(last) => (if now_ts >= (last as u64) {
            now_ts - (last as u64)
        } else {
            0
        }) >= min_interval_secs,
        None => true,
    }
}

/// How the rate limiter goes on.
pub open spec fn after_throttle(
    prompt_id: String,
    now_ts: u64,
    min_interval_secs: u64,
    stage: ThrottleStage,
    reply: ReplyView,
) -> StepView {
    match (stage, reply) {
        (ThrottleStage::Opening, ReplyView::Done) => asks(
            TaskView::Throttle {
                prompt_id,
                now_ts,
                min_interval_secs,
                stage: ThrottleStage::Reading,
            },
            Request::ReadLastSent { prompt_id },
        ),
        (ThrottleStage::Reading, ReplyView::Integer(last_sent)) => if may_emit(
            last_sent,
            now_ts,
            min_interval_secs,
        ) {
            asks(
                TaskView::Throttle {
                    prompt_id,
                    now_ts,
                    min_interval_secs,
                    stage: ThrottleStage::Recording,
                },
                Request::RecordSent { prompt_id, sent_ts: now_ts as i64 },
            )
        } else {
            asks(
                TaskView::Throttle {
                    prompt_id,
                    now_ts,
                    min_interval_secs,
                    stage: ThrottleStage::Committing { emit: false },
                },
                Request::Commit,
            )
        },
        (ThrottleStage::Recording, ReplyView::Done) => asks(
            TaskView::Throttle {
                prompt_id,
                now_ts,
                min_interval_secs,
                stage: ThrottleStage::Committing { emit: true },
            },
            Request::Commit,
        ),
        (ThrottleStage::Committing { emit }, ReplyView::Done) => ends(OutcomeView::Emit(emit)),
        (ThrottleStage::Opening, _) => refuses(reply),
        _ => gives_up(reply),
    }
}

/// How the operation in progress goes on after an answer.
pub open spec fn after(task: TaskView, reply: ReplyView) -> StepView {
    match task {
        TaskView::Idle => fails(GitAiError::UnexpectedReply),
        TaskView::Schema(stage) => after_schema(stage, reply),
        TaskView::Insert { events, delivered_ts, ids, stage } => after_insert(
            events,
            delivered_ts,
            ids,
            stage,
            reply,
        ),
        TaskView::Deliver { ids, delivered_ts, done, stage } => after_deliver(
            ids,
            delivered_ts,
            done,
            stage,
            reply,
        ),
        TaskView::Prune { outcome, stage } => after_prune(outcome, stage, reply),
        TaskView::Batch => match reply {
            ReplyView::Pending(records) => ends(OutcomeView::Batch(records)),
            _ => refuses(reply),
        },
        TaskView::Count => match reply {
            ReplyView::Integer(Some(count)) => ends(OutcomeView::Count(count as usize)),
            _ => refuses(reply),
        },
        TaskView::History { since_ts, repo_filter, event_ids } => match reply {
            ReplyView::History(events) => ends(
                OutcomeView::History(history_records(events, since_ts, repo_filter, event_ids)),
            ),
            _ => refuses(reply),
        },
        TaskView::Throttle { prompt_id, now_ts, min_interval_secs, stage } => after_throttle(
            prompt_id,
            now_ts,
            min_interval_secs,
            stage,
            reply,
        ),
        TaskView::Undo { error } => fails(error),
    }
}

/// Whether a row is older than the cutoff: by the event's own time, or, for a text that is no
/// event, by the time of its delivery.
pub fn metric_row_is_older_than_cutoff(row: &MetricRow, cutoff: u64) -> (older: bool)
    ensures
        older == older_than(*row, cutoff as int),
{
    if let Some(ts) = row.event_ts {
        return (ts as u64) < cutoff;
    }
    match row.delivered_ts {
        Some(ts) => ts >= 0 && (ts as u64) < cutoff,
        None => false,
    }
}

/// The identifiers of the rows older than the cutoff, in their order.
pub fn old_metric_row_ids(rows: &Vec<MetricRow>, cutoff: u64) -> (ids: Vec<i64>)
    ensures
        ids@ == doomed_ids(rows@, cutoff as int),
{
    let mut ids: Vec<i64> = Vec::new();
    let mut next: usize = 0;
    assert(rows@.take(0) =~= Seq::empty());
    while next < rows.len()
        invariant
            next <= rows@.len(),
            ids@ == doomed_ids(rows@.take(next as int), cutoff as int),
        decreases rows@.len() - next,
    {
        proof {
            let longer = rows@.take(next + 1);
            assert(longer.drop_last() =~= rows@.take(next as int));
            assert(longer.last() == rows@[next as int]);
        }
        if metric_row_is_older_than_cutoff(&rows[next], cutoff) {
            ids.push(rows[next].id);
        }
        next = next + 1;
    }
    assert(rows@.take(next as int) =~= rows@);
    ids
}

/// The records of the events that belong to a query of the local history, in their order.
pub fn select_history(
    events: Vec<Option<MetricEvent>>,
    since_ts: u32,
    repo_filter: &Option<String>,
    event_ids: &Vec<u16>,
) -> (records: Vec<MetricHistoryRecord>)
    ensures
        records@ == history_records(events@, since_ts, text_view(*repo_filter), event_ids@),
{
    let ghost all = events@;
    let ghost filter = text_view(*repo_filter);
    let mut records: Vec<MetricHistoryRecord> = Vec::new();
    assert(all.take(0) =~= Seq::empty());
    for stored in iter: events
        invariant
            iter.seq() == all,
            filter == text_view(*repo_filter),
            records@ == history_records(all.take(iter.index()), since_ts, filter, event_ids@),
    {
        proof {
            let longer = all.take(iter.index() + 1);
            assert(longer.drop_last() =~= all.take(iter.index()));
            assert(longer.last() == stored);
        }
        if let Some(event) = stored {
            let repo_url: Option<String> = match sparse_get_string(&event.attrs, ATTR_REPO_URL) {
                Some(text) => text,
                None => None,
            };
            assert(repo_url == repo_url_of(event));
            let repo_passes: bool = match repo_filter {
                None => true,
                Some(filter) => if filter.as_str().is_empty() {
                    repo_url.is_none()
                } else {
                    match &repo_url {
                        Some(url) => contains(url.as_str(), filter.as_str()),
                        None => false,
                    }
                },
            };
            assert(repo_passes == repo_matches(repo_url, filter));
            if event.timestamp >= since_ts && has_event_id(event_ids, event.event_id)
                && repo_passes {
                records.push(
                    MetricHistoryRecord {
                        event_id: event.event_id,
                        ts: event.timestamp,
                        repo_url,
                        event,
                    },
                );
            }
        }
    }
    assert(all.take(all.len() as int) =~= all);
    records
}

fn has_event_id(event_ids: &Vec<u16>, event_id: u16) -> (found: bool)
    ensures
        found == event_ids@.contains(event_id),
{
    let mut at: usize = 0;
    while at < event_ids.len()
        invariant
            at <= event_ids@.len(),
            forall|i: int| 0 <= i < at ==> event_ids@[i] != event_id,
        decreases event_ids@.len() - at,
    {
        if event_ids[at] == event_id {
            return true;
        }
        at = at + 1;
    }
    false
}

fn wrong_with(reply: Reply) -> (error: GitAiError)
    ensures
        error == refusal(reply@),
{
    match reply {
        Reply::Failed(words) => GitAiError::Sqlite(words),
        _ => GitAiError::UnexpectedReply,
    }
}

fn refuse(reply: Reply) -> (step: (Task, Progress))
    ensures
        (step.0@, step.1@) == refuses(reply@),
{
    (Task::Idle, Progress::Finished(Err(wrong_with(reply))))
}

fn give_up(reply: Reply) -> (step: (Task, Progress))
    ensures
        (step.0@, step.1@) == gives_up(reply@),
{
    (Task::Undo { error: wrong_with(reply) }, Progress::Ask(Request::Rollback))
}

fn migrate_from(version: usize) -> (step: (Task, Progress))
    ensures
        (step.0@, step.1@) == migrates_from(version as nat),
{
    if version < SCHEMA_VERSION {
        (
            Task::Schema(SchemaStage::Opening { from_version: version }),
            Progress::Ask(Request::Begin),
        )
    } else {
        (Task::Idle, Progress::Finished(Ok(Outcome::Ready)))
    }
}

fn schema_version(reply: &Reply) -> (version: Option<usize>)
    ensures
        match version {
            Some(version) => recorded_version(reply@) == Some(version as nat),
            None => recorded_version(reply@) is None,
        },
{
    match reply {
        Reply::Text(Some(text)) => parse_usize(text.as_str()),
        _ => None,
    }
}

fn step_schema(stage: SchemaStage, reply: Reply) -> (step: (Task, Progress))
    ensures
        (step.0@, step.1@) == after_schema(stage, reply@),
{
    match (stage, reply) {
        (SchemaStage::Checking, reply @ (Reply::Text(_) | Reply::Failed(_))) => {
            if let Some(version) = schema_version(&reply) {
                if version == SCHEMA_VERSION {
                    return (Task::Idle, Progress::Finished(Ok(Outcome::Ready)));
                }
                if version > SCHEMA_VERSION {
                    return (
                        Task::Idle,
                        Progress::Finished(
                            Err(
                                GitAiError::SchemaTooNew {
                                    found: version,
                                    supported: SCHEMA_VERSION,
                                },
                            ),
                        ),
                    );
                }
            }
            (Task::Schema(SchemaStage::Creating), Progress::Ask(Request::CreateSchemaMetadata))
        },
        (SchemaStage::Creating, Reply::Done) => (
            Task::Schema(SchemaStage::Reading),
            Progress::Ask(Request::ReadSchemaVersion),
        ),
        (SchemaStage::Reading, reply @ (Reply::Text(_) | Reply::Failed(_))) => {
            match schema_version(&reply) {
                Some(version) => migrate_from(version),
                None => migrate_from(0),
            }
        },
        (SchemaStage::Opening { from_version }, Reply::Done) => (
            Task::Schema(SchemaStage::Migrating { from_version }),
            Progress::Ask(Request::Migrate { from_version }),
        ),
        (SchemaStage::Migrating { from_version }, Reply::Done) => (
            Task::Schema(SchemaStage::Committing { from_version }),
            Progress::Ask(Request::Commit),
        ),
        (SchemaStage::Migrating { from_version }, Reply::Failed(words)) => {
            // Another process has run this migration at the same time.
            if contains(words.as_str(), "duplicate column name") {
                (
                    Task::Schema(SchemaStage::Committing { from_version }),
                    Progress::Ask(Request::Commit),
                )
            } else {
                give_up(Reply::Failed(words))
            }
        },
        (SchemaStage::Migrating { .. }, reply) => give_up(reply),
        (SchemaStage::Committing { from_version }, Reply::Done) => {
            if from_version < SCHEMA_VERSION {
                (
                    Task::Schema(SchemaStage::Recording { from_version }),
                    Progress::Ask(Request::RecordVersion { version: from_version + 1 }),
                )
            } else {
                (Task::Idle, Progress::Finished(Ok(Outcome::Ready)))
            }
        },
        (SchemaStage::Committing { .. }, reply) => give_up(reply),
        (SchemaStage::Recording { from_version }, Reply::Done) => {
            if from_version < SCHEMA_VERSION {
                migrate_from(from_version + 1)
            } else {
                (Task::Idle, Progress::Finished(Ok(Outcome::Ready)))
            }
        },
        (_, reply) => refuse(reply),
    }
}

fn prune_then(outcome: Outcome) -> (step: (Task, Progress))
    ensures
        (step.0@, step.1@) == prunes_then(outcome@),
{
    (Task::Prune { outcome, stage: PruneStage::Clock }, Progress::Ask(Request::ReadClock))
}

fn insert_next(events: Vec<String>, delivered_ts: Option<i64>, ids: Vec<i64>) -> (step: (
    Task,
    Progress,
))
    ensures
        (step.0@, step.1@) == inserts_next(events@, delivered_ts, ids@),
{
    if ids.len() < events.len() {
        let event_json: String = events[ids.len()].clone();
        (
            Task::Insert { events, delivered_ts, ids, stage: InsertStage::Writing },
            Progress::Ask(Request::InsertMetric { event_json, delivered_ts }),
        )
    } else {
        (
            Task::Insert { events, delivered_ts, ids, stage: InsertStage::Committing },
            Progress::Ask(Request::Commit),
        )
    }
}

fn prepare_insert(
    events: Vec<String>,
    delivered_ts: Option<i64>,
    ids: Vec<i64>,
    delivered: bool,
) -> (step: (Task, Progress))
    ensures
        (step.0@, step.1@) == prepares_insert(events@, delivered_ts, ids@, delivered),
{
    (
        Task::Insert { events, delivered_ts, ids, stage: InsertStage::Preparing { delivered } },
        Progress::Ask(Request::PrepareInsert { delivered }),
    )
}

fn step_insert(
    events: Vec<String>,
    delivered_ts: Option<i64>,
    ids: Vec<i64>,
    stage: InsertStage,
    reply: Reply,
) -> (step: (Task, Progress))
    ensures
        (step.0@, step.1@) == after_insert(events@, delivered_ts, ids@, stage, reply@),
{
    match (stage, reply) {
        (InsertStage::Opening, Reply::Done) => prepare_insert(events, delivered_ts, ids, false),
        (InsertStage::Opening, reply) => refuse(reply),
        (InsertStage::Preparing { delivered }, Reply::Done) => {
            if delivered {
                insert_next(events, delivered_ts, ids)
            } else {
                prepare_insert(events, delivered_ts, ids, true)
            }
        },
        (InsertStage::Writing, Reply::Inserted(id)) => {
            let mut ids: Vec<i64> = ids;
            ids.push(id);
            insert_next(events, delivered_ts, ids)
        },
        (InsertStage::Committing, Reply::Done) => prune_then(Outcome::Inserted(ids)),
        (_, reply) => give_up(reply),
    }
}

fn deliver_next(ids: Vec<i64>, delivered_ts: i64, done: usize) -> (step: (Task, Progress))
    ensures
        (step.0@, step.1@) == delivers_next(ids@, delivered_ts, done as int),
{
    if done < ids.len() {
        let id: i64 = ids[done];
        (
            Task::Deliver { ids, delivered_ts, done, stage: WriteStage::Writing },
            Progress::Ask(Request::MarkDelivered { id, delivered_ts }),
        )
    } else {
        let done: usize = ids.len();
        (
            Task::Deliver { ids, delivered_ts, done, stage: WriteStage::Committing },
            Progress::Ask(Request::Commit),
        )
    }
}

fn step_deliver(
    ids: Vec<i64>,
    delivered_ts: i64,
    done: usize,
    stage: WriteStage,
    reply: Reply,
) -> (step: (Task, Progress))
    ensures
        (step.0@, step.1@) == after_deliver(ids@, delivered_ts, done as int, stage, reply@),
{
    match (stage, reply) {
        (WriteStage::Opening, Reply::Done) => deliver_next(ids, delivered_ts, done),
        (WriteStage::Opening, reply) => refuse(reply),
        (WriteStage::Writing, Reply::Done) => {
            let next: usize = if done < ids.len() {
                done + 1
            } else {
                ids.len()
            };
            deliver_next(ids, delivered_ts, next)
        },
        (WriteStage::Committing, Reply::Done) => prune_then(Outcome::Delivered),
        (_, reply) => give_up(reply),
    }
}

/// Whether a prune pass is due: none is recorded, or the last was long enough ago.
pub fn prune_is_due(now: u64, last_prune: &Option<String>) -> (due: bool)
    ensures
        due == prune_due(now, text_view(*last_prune)),
{
    if let Some(text) = last_prune {
        if let Some(last) = parse_i64(text.as_str()) {
            return now.saturating_sub(last as u64) >= METRICS_PRUNE_INTERVAL_SECS;
        }
    }
    true
}

fn delete_next(outcome: Outcome, doomed: Vec<i64>, done: usize) -> (step: (Task, Progress))
    ensures
        (step.0@, step.1@) == deletes_next(outcome@, doomed@, done as int),
{
    if done < doomed.len() {
        let id: i64 = doomed[done];
        (
            Task::Prune { outcome, stage: PruneStage::Deleting { doomed, done } },
            Progress::Ask(Request::DeleteMetric { id }),
        )
    } else {
        (Task::Prune { outcome, stage: PruneStage::Committing }, Progress::Ask(Request::Commit))
    }
}

fn step_prune(outcome: Outcome, stage: PruneStage, reply: Reply) -> (step: (Task, Progress))
    ensures
        (step.0@, step.1@) == after_prune(outcome@, stage@, reply@),
{
    match (stage, reply) {
        (PruneStage::Clock, Reply::Clock(now)) => (
            Task::Prune { outcome, stage: PruneStage::LastPrune { now } },
            Progress::Ask(Request::ReadLastPrune),
        ),
        (PruneStage::LastPrune { now }, Reply::Text(last_prune)) => {
            if prune_is_due(now, &last_prune) {
                (
                    Task::Prune { outcome, stage: PruneStage::Rows { now } },
                    Progress::Ask(Request::ReadMetricRows),
                )
            } else {
                (Task::Idle, Progress::Finished(Ok(outcome)))
            }
        },
        (PruneStage::Rows { now }, Reply::Rows(rows)) => {
            let cutoff: u64 = now.saturating_sub(METRICS_RETENTION_SECS);
            let doomed: Vec<i64> = old_metric_row_ids(&rows, cutoff);
            (
                Task::Prune { outcome, stage: PruneStage::Opening { now, doomed } },
                Progress::Ask(Request::Begin),
            )
        },
        (PruneStage::Opening { now, doomed }, Reply::Done) => (
            Task::Prune { outcome, stage: PruneStage::Recording { doomed } },
            Progress::Ask(Request::RecordPrune { now }),
        ),
        (PruneStage::Recording { doomed }, Reply::Done) => delete_next(outcome, doomed, 0),
        (PruneStage::Deleting { doomed, done }, Reply::Done) => {
            let next: usize = if done < doomed.len() {
                done + 1
            } else {
                doomed.len()
            };
            delete_next(outcome, doomed, next)
        },
        (PruneStage::Committing, Reply::Done) => (Task::Idle, Progress::Finished(Ok(outcome))),
        (PruneStage::Recording { .. }, reply) => give_up(reply),
        (PruneStage::Deleting { .. }, reply) => give_up(reply),
        (PruneStage::Committing, reply) => give_up(reply),
        (_, reply) => refuse(reply),
    }
}

fn step_throttle(
    prompt_id: String,
    now_ts: u64,
    min_interval_secs: u64,
    stage: ThrottleStage,
    reply: Reply,
) -> (step: (Task, Progress))
    ensures
        (step.0@, step.1@) == after_throttle(prompt_id, now_ts, min_interval_secs, stage, reply@),
{
    match (stage, reply) {
        (ThrottleStage::Opening, Reply::Done) => {
            let request = Request::ReadLastSent { prompt_id: prompt_id.clone() };
            (
                Task::Throttle {
                    prompt_id,
                    now_ts,
                    min_interval_secs,
                    stage: ThrottleStage::Reading,
                },
                Progress::Ask(request),
            )
        },
        (ThrottleStage::Reading, Reply::Integer(last_sent)) => {
            let emit: bool = match last_sent {
                Some(last) => now_ts.saturating_sub(last as u64) >= min_interval_secs,
                None => true,
            };
            if emit {
                let request = Request::RecordSent {
                    prompt_id: prompt_id.clone(),
                    sent_ts: now_ts as i64,
                };
                (
                    Task::Throttle {
                        prompt_id,
                        now_ts,
                        min_interval_secs,
                        stage: ThrottleStage::Recording,
                    },
                    Progress::Ask(request),
                )
            } else {
                (
                    Task::Throttle {
                        prompt_id,
                        now_ts,
                        min_interval_secs,
                        stage: ThrottleStage::Committing { emit: false },
                    },
                    Progress::Ask(Request::Commit),
                )
            }
        },
        (ThrottleStage::Recording, Reply::Done) => (
            Task::Throttle {
                prompt_id,
                now_ts,
                min_interval_secs,
                stage: ThrottleStage::Committing { emit: true },
            },
            Progress::Ask(Request::Commit),
        ),
        (ThrottleStage::Committing { emit }, Reply::Done) => (
            Task::Idle,
            Progress::Finished(Ok(Outcome::Emit(emit))),
        ),
        (ThrottleStage::Opening, reply) => refuse(reply),
        (_, reply) => give_up(reply),
    }
}

/// The beginning of the initialization of the schema.
pub open spec fn starts_schema() -> StepView {
    asks(TaskView::Schema(SchemaStage::Checking), Request::ReadSchemaVersion)
}

/// The beginning of storing events. An empty list is stored at once.
pub open spec fn starts_insert(events: Seq<String>, delivered_ts: Option<i64>) -> StepView {
    if events.len() == 0 {
        ends(OutcomeView::Inserted(seq![]))
    } else {
        asks(
            TaskView::Insert { events, delivered_ts, ids: seq![], stage: InsertStage::Opening },
            Request::Begin,
        )
    }
}

/// The beginning of marking events as delivered. An empty list is marked at once.
pub open spec fn starts_deliver(ids: Seq<i64>, delivered_ts: i64) -> StepView {
    if ids.len() == 0 {
        ends(OutcomeView::Delivered)
    } else {
        asks(
            TaskView::Deliver { ids, delivered_ts, done: 0, stage: WriteStage::Opening },
            Request::Begin,
        )
    }
}

/// The beginning of reading a batch. A limit that the database cannot hold is refused.
pub open spec fn starts_batch(limit: usize) -> StepView {
    if limit <= i64::MAX {
        asks(TaskView::Batch, Request::SelectPending { limit: limit as i64 })
    } else {
        fails(GitAiError::LimitOutOfRange)
    }
}

/// The beginning of a decision of the rate limiter. Events without a prompt are not limited.
pub open spec fn starts_throttle(
    prompt_id: String,
    now_ts: u64,
    min_interval_secs: u64,
) -> StepView {
    if prompt_id@.len() == 0 {
        ends(OutcomeView::Emit(true))
    } else {
        asks(
            TaskView::Throttle {
                prompt_id,
                now_ts,
                min_interval_secs,
                stage: ThrottleStage::Opening,
            },
            Request::Begin,
        )
    }
}

impl MetricsDatabase {
    /// A database on which nothing is in progress.
    pub fn new() -> (db: MetricsDatabase)
        ensures
            db@ == TaskView::Idle,
    {
        MetricsDatabase { task: Task::Idle }
    }

    /// Where the database file is: under the path that was given for tests, if one was, or else
    /// below the home directory, if that is known.
    pub fn database_path(test_path: Option<String>, home_is_known: bool) -> (path: Result<
        DatabasePath,
        GitAiError,
    >)
        ensures
            match path {
                Ok(DatabasePath::Given(path)) => test_path == Some(path),
                Ok(DatabasePath::BelowHome(names)) => test_path is None && home_is_known
                    && names@.map_values(|name: &str| name@) == names_below_home(),
                Err(error) => test_path is None && !home_is_known
                    && error == GitAiError::NoHomeDirectory,
            },
    {
        if let Some(path) = test_path {
            return Ok(DatabasePath::Given(path));
        }
        if !home_is_known {
            return Err(GitAiError::NoHomeDirectory);
        }
        let mut names: Vec<&'static str> = Vec::new();
        names.push(".git-ai");
        names.push("internal");
        names.push("metrics-db");
        assert(names@.map_values(|name: &str| name@) =~= names_below_home());
        Ok(DatabasePath::BelowHome(names))
    }

    fn proceed(&mut self, step: (Task, Progress)) -> (progress: Progress)
        ensures
            (final(self)@, progress@) == (step.0@, step.1@),
    {
        self.task = step.0;
        step.1
    }

    /// Begins to bring the schema up to date.
    pub fn initialize_schema(&mut self) -> (progress: Progress)
        ensures
            (final(self)@, progress@) == starts_schema(),
    {
        self.proceed(
            (Task::Schema(SchemaStage::Checking), Progress::Ask(Request::ReadSchemaVersion)),
        )
    }

    /// Begins to store events, still to be delivered, as JSON texts.
    pub fn insert_events(&mut self, events: Vec<String>) -> (progress: Progress)
        ensures
            (final(self)@, progress@) == starts_insert(events@, None),
    {
        self.insert_events_with_delivered_ts(events, None)
    }

    /// Begins to store events as JSON texts, delivered already where a time is given.
    pub fn insert_events_with_delivered_ts(
        &mut self,
        events: Vec<String>,
        delivered_ts: Option<u64>,
    ) -> (progress: Progress)
        ensures
            (final(self)@, progress@) == starts_insert(
                events@,
                match delivered_ts {
                    Some(ts) => Some(ts as i64),
                    None => None,
                },
            ),
    {
        let ids: Vec<i64> = Vec::new();
        if events.len() == 0 {
            return self.proceed((Task::Idle, Progress::Finished(Ok(Outcome::Inserted(ids)))));
        }
        let delivered_ts: Option<i64> = match delivered_ts {
            Some(ts) => Some(ts as i64),
            None => None,
        };
        self.proceed(
            (
                Task::Insert { events, delivered_ts, ids, stage: InsertStage::Opening },
                Progress::Ask(Request::Begin),
            ),
        )
    }

    /// Begins to read a batch of the pending events, the oldest first.
    pub fn get_batch(&mut self, limit: usize) -> (progress: Progress)
        ensures
            (final(self)@, progress@) == starts_batch(limit),
    {
        if limit as u64 <= i64::MAX as u64 {
            self.proceed(
                (Task::Batch, Progress::Ask(Request::SelectPending { limit: limit as i64 })),
            )
        } else {
            self.proceed((Task::Idle, Progress::Finished(Err(GitAiError::LimitOutOfRange))))
        }
    }

    /// Begins to mark events as delivered, after they were uploaded.
    pub fn mark_records_delivered(&mut self, ids: Vec<i64>, delivered_ts: u64) -> (progress:
        Progress)
        ensures
            (final(self)@, progress@) == starts_deliver(ids@, delivered_ts as i64),
    {
        if ids.len() == 0 {
            return self.proceed((Task::Idle, Progress::Finished(Ok(Outcome::Delivered))));
        }
        self.proceed(
            (
                Task::Deliver {
                    ids,
                    delivered_ts: delivered_ts as i64,
                    done: 0,
                    stage: WriteStage::Opening,
                },
                Progress::Ask(Request::Begin),
            ),
        )
    }

    /// Begins to count the pending events.
    pub fn count(&mut self) -> (progress: Progress)
        ensures
            (final(self)@, progress@) == asks(TaskView::Count, Request::CountPending),
    {
        self.proceed((Task::Count, Progress::Ask(Request::CountPending)))
    }

    /// Begins to query the events since `since_ts`, in Unix seconds, of the given kinds.
    ///
    /// With a filter only events whose repository URL contains it are returned. The empty filter
    /// stands for the events without a repository URL.
    pub fn get_metric_history(
        &mut self,
        since_ts: u32,
        repo_filter: Option<String>,
        event_ids: Vec<u16>,
    ) -> (progress: Progress)
        ensures
            (final(self)@, progress@) == asks(
                TaskView::History {
                    since_ts,
                    repo_filter: text_view(repo_filter),
                    event_ids: event_ids@,
                },
                Request::ReadHistory,
            ),
    {
        self.proceed(
            (
                Task::History { since_ts, repo_filter, event_ids },
                Progress::Ask(Request::ReadHistory),
            ),
        )
    }

    /// Begins to decide whether an `agent_usage` event should be emitted for a prompt. Where it
    /// should, the time of the last such event is recorded as well.
    pub fn should_emit_agent_usage(
        &mut self,
        prompt_id: String,
        now_ts: u64,
        min_interval_secs: u64,
    ) -> (progress: Progress)
        ensures
            (final(self)@, progress@) == starts_throttle(prompt_id, now_ts, min_interval_secs),
    {
        if prompt_id.as_str().is_empty() {
            return self.proceed((Task::Idle, Progress::Finished(Ok(Outcome::Emit(true)))));
        }
        self.proceed(
            (
                Task::Throttle {
                    prompt_id,
                    now_ts,
                    min_interval_secs,
                    stage: ThrottleStage::Opening,
                },
                Progress::Ask(Request::Begin),
            ),
        )
    }

    /// Goes on with the operation in progress after an answer.
    pub fn resume(&mut self, reply: Reply) -> (progress: Progress)
        ensures
            (final(self)@, progress@) == after(old(self)@, reply@),
    {
        let mut task: Task = Task::Idle;
        std::mem::swap(&mut task, &mut self.task);
        let step: (Task, Progress) = match task {
            Task::Idle => (Task::Idle, Progress::Finished(Err(GitAiError::UnexpectedReply))),
            Task::Schema(stage) => step_schema(stage, reply),
            Task::Insert { events, delivered_ts, ids, stage } => step_insert(
                events,
                delivered_ts,
                ids,
                stage,
                reply,
            ),
            Task::Deliver { ids, delivered_ts, done, stage } => step_deliver(
                ids,
                delivered_ts,
                done,
                stage,
                reply,
            ),
            Task::Prune { outcome, stage } => step_prune(outcome, stage, reply),
            Task::Batch => match reply {
                Reply::Pending(records) => (
                    Task::Idle,
                    Progress::Finished(Ok(Outcome::Batch(records))),
                ),
                reply => refuse(reply),
            },
            Task::Count => match reply {
                Reply::Integer(Some(count)) => (
                    Task::Idle,
                    Progress::Finished(Ok(Outcome::Count(count as usize))),
                ),
                reply => refuse(reply),
            },
            Task::History { since_ts, repo_filter, event_ids } => match reply {
                Reply::History(events) => (
                    Task::Idle,
                    Progress::Finished(
                        Ok(
                            Outcome::History(
                                select_history(events, since_ts, &repo_filter, &event_ids),
                            ),
                        ),
                    ),
                ),
                reply => refuse(reply),
            },
            Task::Throttle { prompt_id, now_ts, min_interval_secs, stage } => step_throttle(
                prompt_id,
                now_ts,
                min_interval_secs,
                stage,
                reply,
            ),
            Task::Undo { error } => (Task::Idle, Progress::Finished(Err(error))),
        };
        self.proceed(step)
    }
}

} // verus!
