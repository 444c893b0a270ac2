//! What the operations on the metrics database come to when requests fail.

use crate::error::GitAiError;
use crate::metrics::db::{
    after, asks, fails, starts_deliver, starts_insert, starts_schema,
    starts_throttle, InsertStage, OutcomeView, ProgressView, PruneStageView, SchemaStage,
    StepView, TaskView, ThrottleStage, WriteStage,
};
use crate::metrics::db_laws::{
    lemma_nothing_marked, lemma_nothing_stored, lemma_one_more_marked, lemma_one_more_stored,
};
use crate::metrics::requests::{ReplyView, Request};
use crate::metrics::tables::{
    answer, committed, end_within, opened, rolled_back, settled, with_delivered, with_events,
    Database, Surroundings, Tables,
};
use crate::text::contains_text;
use vstd::prelude::*;

verus! {

/// Whether a failed request leaves this database: what it changed in an open transaction is not
/// known, and the transaction may be gone; outside of one it changed nothing.
pub open spec fn spoiled(db: Database, changed: Database) -> bool {
    match db.saved {
        Some(_) => changed.saved == db.saved || changed == rolled_back(db),
        None => changed == db,
    }
}

/// Whether a request can leave this database and be answered so: as it should, or, with some
/// failure, at any time. A rollback takes place whatever is answered. That a column exists is said
/// only where it does.
pub open spec fn may_follow(
    db: Database,
    request: Request,
    surroundings: Surroundings,
    changed: Database,
    reply: ReplyView,
) -> bool {
    ||| (changed, reply) == answer(db, request, surroundings)
    ||| {
        &&& reply matches ReplyView::Failed(words) && !contains_text(
            words@,
            "duplicate column name"@,
        )
        &&& if request is Rollback {
            changed == rolled_back(db)
        } else {
            spoiled(db, changed)
        }
    }
}

/// Whether an operation can end with a result, and leave this database, within a number of
/// requests.
pub open spec fn may_end(
    requests: nat,
    step: StepView,
    db: Database,
    surroundings: Surroundings,
    result: Result<OutcomeView, GitAiError>,
    left: Database,
) -> bool
    decreases requests,
{
    match step.1 {
        ProgressView::Finished(outcome) => outcome == result && left == db,
        ProgressView::Ask(request) => requests > 0 && exists|changed: Database, reply: ReplyView|
            #[trigger] may_follow(db, request, surroundings, changed, reply) && may_end(
                (requests - 1) as nat,
                after(step.0, reply),
                changed,
                surroundings,
                result,
                left,
            ),
    }
}

/// Whether a task waits for the answer to a request.
pub open spec fn expects(task: TaskView, request: Request) -> bool {
    match task {
        TaskView::Idle => false,
        TaskView::Schema(stage) => match stage {
            SchemaStage::Checking => request is ReadSchemaVersion,
            SchemaStage::Creating => request is CreateSchemaMetadata,
            SchemaStage::Reading => request is ReadSchemaVersion,
            SchemaStage::Opening { .. } => request is Begin,
            SchemaStage::Migrating { from_version } => request == (Request::Migrate {
                from_version,
            }),
            SchemaStage::Committing { .. } => request is Commit,
            SchemaStage::Recording { .. } => request is RecordVersion,
        },
        TaskView::Insert { events, delivered_ts, ids, stage } => match stage {
            InsertStage::Opening => request is Begin,
            InsertStage::Preparing { delivered } => request == (Request::PrepareInsert {
                delivered,
            }),
            InsertStage::Writing => ids.len() < events.len() && request
                == (Request::InsertMetric { event_json: events[ids.len() as int], delivered_ts }),
            InsertStage::Committing => request is Commit,
        },
        TaskView::Deliver { ids, delivered_ts, done, stage } => match stage {
            WriteStage::Opening => request is Begin,
            WriteStage::Writing => 0 <= done < ids.len() && request == (Request::MarkDelivered {
                id: ids[done],
                delivered_ts,
            }),
            WriteStage::Committing => request is Commit,
        },
        TaskView::Prune { stage, .. } => match stage {
            PruneStageView::Clock => request is ReadClock,
            PruneStageView::LastPrune { .. } => request is ReadLastPrune,
            PruneStageView::Rows { .. } => request is ReadMetricRows,
            PruneStageView::Opening { .. } => request is Begin,
            PruneStageView::Recording { .. } => request is RecordPrune,
            PruneStageView::Deleting { .. } => request is DeleteMetric,
            PruneStageView::Committing => request is Commit,
        },
        TaskView::Batch => request is SelectPending,
        TaskView::Count => request is CountPending,
        TaskView::History { .. } => request is ReadHistory,
        TaskView::Throttle { stage, .. } => match stage {
            ThrottleStage::Opening => request is Begin,
            ThrottleStage::Reading => request is ReadLastSent,
            ThrottleStage::Recording => request is RecordSent,
            ThrottleStage::Committing { .. } => request is Commit,
        },
        TaskView::Undo { .. } => request is Rollback,
    }
}

/// Whether a step asks what its task waits for.
pub open spec fn coherent(step: StepView) -> bool {
    match step.1 {
        ProgressView::Finished(_) => step.0 is Idle,
        ProgressView::Ask(request) => expects(step.0, request),
    }
}

/// Whether a task has opened a transaction and not yet closed it.
pub open spec fn in_transaction(task: TaskView) -> bool {
    match task {
        TaskView::Schema(stage) => stage is Migrating || stage is Committing,
        TaskView::Insert { stage, .. } => stage !is Opening,
        TaskView::Deliver { stage, .. } => stage !is Opening,
        TaskView::Prune { stage, .. } => stage is Recording || stage is Deleting
            || stage is Committing,
        TaskView::Throttle { stage, .. } => stage !is Opening,
        TaskView::Undo { .. } => true,
        _ => false,
    }
}

/// Every step asks what its task waits for.
pub proof fn law_steps_are_coherent(task: TaskView, reply: ReplyView)
    ensures
        coherent(after(task, reply)),
{
}

/// Whether the initialization of the schema goes on after a failed request: it does while it
/// looks for the recorded version, and where a migration has run already.
pub open spec fn tolerates(task: TaskView, words: String) -> bool {
    match task {
        TaskView::Schema(SchemaStage::Checking) => true,
        TaskView::Schema(SchemaStage::Reading) => true,
        TaskView::Schema(SchemaStage::Migrating { .. }) => contains_text(
            words@,
            "duplicate column name"@,
        ),
        _ => false,
    }
}

/// Any other failed request ends its operation, with the words of the failure: at once, or, where
/// a transaction is open, after it is rolled back.
pub proof fn law_failure_ends_operation(task: TaskView, words: String)
    requires
        task !is Idle,
        task !is Undo,
        !tolerates(task, words),
    ensures
        after(task, ReplyView::Failed(words)) == if in_transaction(task) {
            asks(TaskView::Undo { error: GitAiError::Sqlite(words) }, Request::Rollback)
        } else {
            fails(GitAiError::Sqlite(words))
        },
{
}

/// Whether an answer is of the kind that a request asks for.
pub open spec fn answers(request: Request, reply: ReplyView) -> bool {
    match request {
        Request::ReadClock => reply is Clock,
        Request::ReadSchemaVersion => reply is Text,
        Request::ReadLastPrune => reply is Text,
        Request::InsertMetric { .. } => reply is Inserted,
        Request::SelectPending { .. } => reply is Pending,
        Request::ReadMetricRows => reply is Rows,
        Request::CountPending => reply matches ReplyView::Integer(Some(_)),
        Request::ReadHistory => reply is History,
        Request::ReadLastSent { .. } => reply is Integer,
        _ => reply is Done,
    }
}

/// An answer of another kind than the request asked for, which is no failure, ends the operation
/// as unexpected: at once, or, where a transaction is open, after it is rolled back. Nothing is
/// expected of a database on which nothing is in progress, and a rollback ends its operation with
/// the error that led to it, whatever is answered.
pub proof fn law_answer_has_to_fit(
    task: TaskView,
    request: Request,
    reply: ReplyView,
    error: GitAiError,
)
    requires
        expects(task, request),
        task !is Undo,
        !answers(request, reply),
        reply !is Failed,
    ensures
        after(task, reply) == if in_transaction(task) {
            asks(TaskView::Undo { error: GitAiError::UnexpectedReply }, Request::Rollback)
        } else {
            fails(GitAiError::UnexpectedReply)
        },
        after(TaskView::Idle, reply) == fails(GitAiError::UnexpectedReply),
        after(TaskView::Undo { error }, reply) == fails(error),
{
}

/// An answer of the kind that the request asked for is never unexpected, and undoes nothing.
pub proof fn law_fitting_answer_is_taken(task: TaskView, request: Request, reply: ReplyView)
    requires
        expects(task, request),
        task !is Undo,
        answers(request, reply),
    ensures
        after(task, reply).0 !is Undo,
        after(task, reply).1 != ProgressView::Finished(Err(GitAiError::UnexpectedReply)),
{
}

/// The end that an operation comes to when nothing fails is one to which it can come.
pub proof fn law_undisturbed_end_is_possible(
    requests: nat,
    step: StepView,
    db: Database,
    surroundings: Surroundings,
    result: Result<OutcomeView, GitAiError>,
    left: Database,
)
    requires
        end_within(requests, step, db, surroundings) == Some((result, left)),
    ensures
        may_end(requests, step, db, surroundings, result, left),
    decreases requests,
{
    if let ProgressView::Ask(request) = step.1 {
        let (changed, reply) = answer(db, request, surroundings);
        law_undisturbed_end_is_possible(
            (requests - 1) as nat,
            after(step.0, reply),
            changed,
            surroundings,
            result,
            left,
        );
        assert(may_follow(db, request, surroundings, changed, reply));
    }
}

/// In a transaction nothing but its commit changes what others see.
pub proof fn law_only_commit_is_seen(
    db: Database,
    request: Request,
    surroundings: Surroundings,
    changed: Database,
    reply: ReplyView,
)
    requires
        db.saved is Some,
        may_follow(db, request, surroundings, changed, reply),
        !(request is Commit && reply is Done),
    ensures
        committed(changed) == committed(db),
{
}

proof fn lemma_undo(
    requests: nat,
    error: GitAiError,
    db: Database,
    surroundings: Surroundings,
    result: Result<OutcomeView, GitAiError>,
    left: Database,
)
    requires
        may_end(
            requests,
            asks(TaskView::Undo { error }, Request::Rollback),
            db,
            surroundings,
            result,
            left,
        ),
    ensures
        result == Err::<OutcomeView, GitAiError>(error),
        left == rolled_back(db),
{
    let step = asks(TaskView::Undo { error }, Request::Rollback);
    let (changed, reply) = choose|changed: Database, reply: ReplyView|
        #[trigger] may_follow(db, Request::Rollback, surroundings, changed, reply) && may_end(
            (requests - 1) as nat,
            after(step.0, reply),
            changed,
            surroundings,
            result,
            left,
        );
    assert(after(step.0, reply) == fails(error));
    assert(may_end((requests - 1) as nat, fails(error), changed, surroundings, result, left));
}

/// An operation in which a request fails inside a transaction ends with that failure, and leaves
/// the tables as they were when the transaction began.
pub proof fn law_failure_undoes_transaction(
    requests: nat,
    task: TaskView,
    request: Request,
    db: Database,
    changed: Database,
    words: String,
    surroundings: Surroundings,
    result: Result<OutcomeView, GitAiError>,
    left: Database,
)
    requires
        in_transaction(task),
        task !is Undo,
        expects(task, request),
        db.saved is Some,
        may_follow(db, request, surroundings, changed, ReplyView::Failed(words)),
        !tolerates(task, words),
        may_end(
            requests,
            after(task, ReplyView::Failed(words)),
            changed,
            surroundings,
            result,
            left,
        ),
    ensures
        result == Err::<OutcomeView, GitAiError>(GitAiError::Sqlite(words)),
        left == settled(db.saved->0),
{
    law_failure_ends_operation(task, words);
    lemma_undo(requests, GitAiError::Sqlite(words), changed, surroundings, result, left);
}

/// No operation leaves a transaction open, whatever fails.
pub proof fn law_no_transaction_stays_open(
    requests: nat,
    step: StepView,
    db: Database,
    surroundings: Surroundings,
    result: Result<OutcomeView, GitAiError>,
    left: Database,
)
    requires
        coherent(step),
        db.saved is Some ==> in_transaction(step.0),
        may_end(requests, step, db, surroundings, result, left),
    ensures
        left.saved is None,
    decreases requests,
{
    if let ProgressView::Ask(request) = step.1 {
        let (changed, reply) = choose|changed: Database, reply: ReplyView|
            #[trigger] may_follow(db, request, surroundings, changed, reply) && may_end(
                (requests - 1) as nat,
                after(step.0, reply),
                changed,
                surroundings,
                result,
                left,
            );
        law_steps_are_coherent(step.0, reply);
        lemma_stays_in_transaction(step.0, request, db, surroundings, changed, reply);
        law_no_transaction_stays_open(
            (requests - 1) as nat,
            after(step.0, reply),
            changed,
            surroundings,
            result,
            left,
        );
    }
}

/// A transaction that is open after an answer is one that the next step knows of.
proof fn lemma_stays_in_transaction(
    task: TaskView,
    request: Request,
    db: Database,
    surroundings: Surroundings,
    changed: Database,
    reply: ReplyView,
)
    requires
        expects(task, request),
        db.saved is Some ==> in_transaction(task),
        may_follow(db, request, surroundings, changed, reply),
    ensures
        changed.saved is Some ==> in_transaction(after(task, reply).0),
{
}

/// Whether a prune pass, or the rate limiter, has changed nothing yet that others see.
spec fn untouched(task: TaskView, db: Database, tables: Tables) -> bool {
    if in_transaction(task) {
        rolled_back(db) == settled(tables) && (task !is Undo ==> db.saved is Some)
    } else {
        db == settled(tables)
    }
}

proof fn lemma_prune_ends(
    requests: nat,
    step: StepView,
    db: Database,
    tables: Tables,
    surroundings: Surroundings,
    result: Result<OutcomeView, GitAiError>,
    left: Database,
)
    requires
        coherent(step),
        step.0 is Prune,
        untouched(step.0, db, tables),
        may_end(requests, step, db, surroundings, result, left),
        result is Err,
    ensures
        left == settled(tables),
    decreases requests,
{
    let request = step.1->Ask_0;
    let (changed, reply) = choose|changed: Database, reply: ReplyView|
        #[trigger] may_follow(db, request, surroundings, changed, reply) && may_end(
            (requests - 1) as nat,
            after(step.0, reply),
            changed,
            surroundings,
            result,
            left,
        );
    let next = after(step.0, reply);
    law_steps_are_coherent(step.0, reply);
    if next.0 is Undo {
        lemma_undo(
            (requests - 1) as nat,
            next.0->Undo_error,
            changed,
            surroundings,
            result,
            left,
        );
    } else if next.0 is Prune {
        assert(untouched(next.0, changed, tables));
        lemma_prune_ends(
            (requests - 1) as nat,
            next,
            changed,
            tables,
            surroundings,
            result,
            left,
        );
    }
}

/// How far storing events has come.
spec fn storing(
    task: TaskView,
    db: Database,
    tables: Tables,
    events: Seq<String>,
    delivered_ts: Option<i64>,
) -> bool {
    task matches TaskView::Insert { events: all, delivered_ts: time, ids, stage } && {
        &&& all == events
        &&& time == delivered_ts
        &&& match stage {
            InsertStage::Opening => ids.len() == 0 && db == settled(tables),
            InsertStage::Preparing { .. } => ids.len() == 0 && db == opened(tables, tables),
            InsertStage::Writing => ids.len() < events.len() && db == opened(
                with_events(tables, events.take(ids.len() as int), delivered_ts),
                tables,
            ),
            InsertStage::Committing => db == opened(
                with_events(tables, events, delivered_ts),
                tables,
            ),
        }
    }
}

proof fn lemma_storing_goes_on(
    step: StepView,
    db: Database,
    tables: Tables,
    events: Seq<String>,
    delivered_ts: Option<i64>,
    surroundings: Surroundings,
    changed: Database,
    reply: ReplyView,
)
    requires
        events.len() > 0,
        coherent(step),
        step.1 is Ask,
        storing(step.0, db, tables, events, delivered_ts),
        may_follow(db, step.1->Ask_0, surroundings, changed, reply),
    ensures
        ({
            let next = after(step.0, reply);
            ||| next.0 is Idle && changed == settled(tables)
            ||| next.0 is Undo && rolled_back(changed) == settled(tables)
            ||| next.0 is Prune && !in_transaction(next.0) && changed == settled(
                with_events(tables, events, delivered_ts),
            )
            ||| storing(next.0, changed, tables, events, delivered_ts)
        }),
{
    let ids = step.0->Insert_ids;
    lemma_nothing_stored(tables, delivered_ts);
    assert(events.take(0) =~= seq![]);
    if step.0->Insert_stage is Writing {
        lemma_one_more_stored(tables, events, delivered_ts, ids.len() as int);
        assert(events.take(events.len() as int) =~= events);
    }
}

proof fn lemma_insert_ends(
    requests: nat,
    step: StepView,
    db: Database,
    tables: Tables,
    events: Seq<String>,
    delivered_ts: Option<i64>,
    surroundings: Surroundings,
    result: Result<OutcomeView, GitAiError>,
    left: Database,
)
    requires
        events.len() > 0,
        coherent(step),
        storing(step.0, db, tables, events, delivered_ts),
        may_end(requests, step, db, surroundings, result, left),
        result is Err,
    ensures
        left == settled(tables) || left == settled(with_events(tables, events, delivered_ts)),
    decreases requests,
{
    let request = step.1->Ask_0;
    let (changed, reply) = choose|changed: Database, reply: ReplyView|
        #[trigger] may_follow(db, request, surroundings, changed, reply) && may_end(
            (requests - 1) as nat,
            after(step.0, reply),
            changed,
            surroundings,
            result,
            left,
        );
    let next = after(step.0, reply);
    law_steps_are_coherent(step.0, reply);
    lemma_storing_goes_on(
        step,
        db,
        tables,
        events,
        delivered_ts,
        surroundings,
        changed,
        reply,
    );
    if next.0 is Undo {
        lemma_undo(
            (requests - 1) as nat,
            next.0->Undo_error,
            changed,
            surroundings,
            result,
            left,
        );
    } else if next.0 is Prune {
        lemma_prune_ends(
            (requests - 1) as nat,
            next,
            changed,
            with_events(tables, events, delivered_ts),
            surroundings,
            result,
            left,
        );
    } else if next.0 is Insert {
        lemma_insert_ends(
            (requests - 1) as nat,
            next,
            changed,
            tables,
            events,
            delivered_ts,
            surroundings,
            result,
            left,
        );
    }
}

/// Storing events that fails stores all of them or none: either the tables are as before, or every
/// event is stored and only the prune pass after that failed, which then has removed nothing.
pub proof fn law_failed_insert_is_all_or_nothing(
    requests: nat,
    events: Seq<String>,
    delivered_ts: Option<i64>,
    tables: Tables,
    surroundings: Surroundings,
    error: GitAiError,
    left: Database,
)
    requires
        events.len() > 0,
        may_end(
            requests,
            starts_insert(events, delivered_ts),
            settled(tables),
            surroundings,
            Err(error),
            left,
        ),
    ensures
        left == settled(tables) || left == settled(with_events(tables, events, delivered_ts)),
{
    lemma_insert_ends(
        requests,
        starts_insert(events, delivered_ts),
        settled(tables),
        tables,
        events,
        delivered_ts,
        surroundings,
        Err(error),
        left,
    );
}

/// How far marking events has come.
spec fn marking(
    task: TaskView,
    db: Database,
    tables: Tables,
    ids: Seq<i64>,
    delivered_ts: i64,
) -> bool {
    task matches TaskView::Deliver { ids: all, delivered_ts: time, done, stage } && {
        &&& all == ids
        &&& time == delivered_ts
        &&& match stage {
            WriteStage::Opening => done == 0 && db == settled(tables),
            WriteStage::Writing => 0 <= done < ids.len() && db == opened(
                with_delivered(tables, ids.take(done), delivered_ts),
                tables,
            ),
            WriteStage::Committing => db == opened(
                with_delivered(tables, ids, delivered_ts),
                tables,
            ),
        }
    }
}

proof fn lemma_marking_goes_on(
    step: StepView,
    db: Database,
    tables: Tables,
    ids: Seq<i64>,
    delivered_ts: i64,
    surroundings: Surroundings,
    changed: Database,
    reply: ReplyView,
)
    requires
        ids.len() > 0,
        coherent(step),
        step.1 is Ask,
        marking(step.0, db, tables, ids, delivered_ts),
        may_follow(db, step.1->Ask_0, surroundings, changed, reply),
    ensures
        ({
            let next = after(step.0, reply);
            ||| next.0 is Idle && changed == settled(tables)
            ||| next.0 is Undo && rolled_back(changed) == settled(tables)
            ||| next.0 is Prune && !in_transaction(next.0) && changed == settled(
                with_delivered(tables, ids, delivered_ts),
            )
            ||| marking(next.0, changed, tables, ids, delivered_ts)
        }),
{
    let done = step.0->Deliver_done;
    lemma_nothing_marked(tables, ids.take(0), delivered_ts);
    if step.0->Deliver_stage is Writing {
        lemma_one_more_marked(tables, ids, delivered_ts, done);
        assert(ids.take(ids.len() as int) =~= ids);
    }
}

proof fn lemma_deliver_ends(
    requests: nat,
    step: StepView,
    db: Database,
    tables: Tables,
    ids: Seq<i64>,
    delivered_ts: i64,
    surroundings: Surroundings,
    result: Result<OutcomeView, GitAiError>,
    left: Database,
)
    requires
        ids.len() > 0,
        coherent(step),
        marking(step.0, db, tables, ids, delivered_ts),
        may_end(requests, step, db, surroundings, result, left),
        result is Err,
    ensures
        left == settled(tables) || left == settled(with_delivered(tables, ids, delivered_ts)),
    decreases requests,
{
    let request = step.1->Ask_0;
    let (changed, reply) = choose|changed: Database, reply: ReplyView|
        #[trigger] may_follow(db, request, surroundings, changed, reply) && may_end(
            (requests - 1) as nat,
            after(step.0, reply),
            changed,
            surroundings,
            result,
            left,
        );
    let next = after(step.0, reply);
    law_steps_are_coherent(step.0, reply);
    lemma_marking_goes_on(step, db, tables, ids, delivered_ts, surroundings, changed, reply);
    if next.0 is Undo {
        lemma_undo(
            (requests - 1) as nat,
            next.0->Undo_error,
            changed,
            surroundings,
            result,
            left,
        );
    } else if next.0 is Prune {
        lemma_prune_ends(
            (requests - 1) as nat,
            next,
            changed,
            with_delivered(tables, ids, delivered_ts),
            surroundings,
            result,
            left,
        );
    } else if next.0 is Deliver {
        lemma_deliver_ends(
            (requests - 1) as nat,
            next,
            changed,
            tables,
            ids,
            delivered_ts,
            surroundings,
            result,
            left,
        );
    }
}

/// Marking events that fails marks all of them or none: either the tables are as before, or every
/// event is marked and only the prune pass after that failed, which then has removed nothing.
pub proof fn law_failed_marking_is_all_or_nothing(
    requests: nat,
    ids: Seq<i64>,
    delivered_ts: i64,
    tables: Tables,
    surroundings: Surroundings,
    error: GitAiError,
    left: Database,
)
    requires
        ids.len() > 0,
        may_end(
            requests,
            starts_deliver(ids, delivered_ts),
            settled(tables),
            surroundings,
            Err(error),
            left,
        ),
    ensures
        left == settled(tables) || left == settled(with_delivered(tables, ids, delivered_ts)),
{
    lemma_deliver_ends(
        requests,
        starts_deliver(ids, delivered_ts),
        settled(tables),
        tables,
        ids,
        delivered_ts,
        surroundings,
        Err(error),
        left,
    );
}

proof fn lemma_throttle_ends(
    requests: nat,
    step: StepView,
    db: Database,
    tables: Tables,
    surroundings: Surroundings,
    result: Result<OutcomeView, GitAiError>,
    left: Database,
)
    requires
        coherent(step),
        step.0 is Throttle,
        untouched(step.0, db, tables),
        may_end(requests, step, db, surroundings, result, left),
        result is Err,
    ensures
        left == settled(tables),
    decreases requests,
{
    let request = step.1->Ask_0;
    let (changed, reply) = choose|changed: Database, reply: ReplyView|
        #[trigger] may_follow(db, request, surroundings, changed, reply) && may_end(
            (requests - 1) as nat,
            after(step.0, reply),
            changed,
            surroundings,
            result,
            left,
        );
    let next = after(step.0, reply);
    law_steps_are_coherent(step.0, reply);
    if next.0 is Undo {
        lemma_undo(
            (requests - 1) as nat,
            next.0->Undo_error,
            changed,
            surroundings,
            result,
            left,
        );
    } else if next.0 is Throttle {
        assert(untouched(next.0, changed, tables));
        lemma_throttle_ends(
            (requests - 1) as nat,
            next,
            changed,
            tables,
            surroundings,
            result,
            left,
        );
    }
}

/// A decision of the rate limiter that fails records nothing.
pub proof fn law_failed_decision_records_nothing(
    requests: nat,
    prompt_id: String,
    now_ts: u64,
    min_interval_secs: u64,
    tables: Tables,
    surroundings: Surroundings,
    error: GitAiError,
    left: Database,
)
    requires
        may_end(
            requests,
            starts_throttle(prompt_id, now_ts, min_interval_secs),
            settled(tables),
            surroundings,
            Err(error),
            left,
        ),
    ensures
        left == settled(tables),
{
    if prompt_id@.len() > 0 {
        lemma_throttle_ends(
            requests,
            starts_throttle(prompt_id, now_ts, min_interval_secs),
            settled(tables),
            tables,
            surroundings,
            Err(error),
            left,
        );
    }
}

/// Whether two states of the tables hold the same events, times of emission and time of pruning.
pub open spec fn same_contents(first: Tables, second: Tables) -> bool {
    &&& first.events == second.events
    &&& first.next_id == second.next_id
    &&& first.last_sent == second.last_sent
    &&& first.last_prune == second.last_prune
}

proof fn lemma_schema_ends(
    requests: nat,
    step: StepView,
    db: Database,
    tables: Tables,
    surroundings: Surroundings,
    result: Result<OutcomeView, GitAiError>,
    left: Database,
)
    requires
        coherent(step),
        step.0 is Schema || step.0 is Undo || step.0 is Idle,
        db.saved is Some ==> in_transaction(step.0),
        step.0 !is Undo ==> same_contents(db.tables, tables),
        same_contents(committed(db), tables),
        step.0 is Idle ==> step.1 is Finished,
        may_end(requests, step, db, surroundings, result, left),
    ensures
        same_contents(left.tables, tables),
    decreases requests,
{
    if let ProgressView::Ask(request) = step.1 {
        let (changed, reply) = choose|changed: Database, reply: ReplyView|
            #[trigger] may_follow(db, request, surroundings, changed, reply) && may_end(
                (requests - 1) as nat,
                after(step.0, reply),
                changed,
                surroundings,
                result,
                left,
            );
        law_steps_are_coherent(step.0, reply);
        lemma_stays_in_transaction(step.0, request, db, surroundings, changed, reply);
        lemma_schema_ends(
            (requests - 1) as nat,
            after(step.0, reply),
            changed,
            tables,
            surroundings,
            result,
            left,
        );
    }
}

/// The initialization of the schema keeps the events and the recorded times, whether it succeeds
/// or fails.
pub proof fn law_initialization_keeps_contents(
    requests: nat,
    tables: Tables,
    surroundings: Surroundings,
    result: Result<OutcomeView, GitAiError>,
    left: Database,
)
    requires
        may_end(requests, starts_schema(), settled(tables), surroundings, result, left),
    ensures
        same_contents(left.tables, tables),
{
    lemma_schema_ends(
        requests,
        starts_schema(),
        settled(tables),
        tables,
        surroundings,
        result,
        left,
    );
}

} // verus!
