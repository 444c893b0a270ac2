//! What the operations on the metrics database come to.

use crate::error::GitAiError;
use crate::metrics::db::{
    after, asks, deletes_next, delivers_next, doomed_ids, ends, history_record, history_records,
    in_history, inserts_next, may_emit, migrates_from, older_than, prepares_insert, prunes_then,
    recorded_version, retention_cutoff, starts_batch, starts_deliver, starts_insert,
    starts_schema, starts_throttle, OutcomeView, ProgressView, PruneStageView, SchemaStage,
    StepView, TaskView, METRICS_PRUNE_INTERVAL_SECS,
};
use crate::metrics::requests::{ReplyView, Request, SCHEMA_VERSION};
use crate::metrics::tables::{
    after_spaces, answer, cast_integer, change, comes_to, delivered, due, end_within,
    first_pending, history_of, is_pending, is_space, leading_digits, marked, migrate, new_events,
    opened, pending_events, pruned, row_of, rows_of, settled, with_delivered, with_events,
    without, young_events, Database, StoredEvent, Surroundings, Tables,
};
use crate::metrics::types::{MetricEvent, MetricHistoryRecord};
use crate::text::{all_digits, decimal_digits, law_decimal_reads_back, unsigned_value};
use vstd::prelude::*;

verus! {

/// An operation that is over has come to its result.
proof fn lemma_finished(step: StepView, db: Database, surroundings: Surroundings)
    requires
        step.1 is Finished,
    ensures
        comes_to(step, db, surroundings, step.1->Finished_0, db),
{
    assert(end_within(0, step, db, surroundings) == Some((step.1->Finished_0, db)));
}

/// An operation comes to what it comes to after the answer that it waits for.
proof fn lemma_asked(
    step: StepView,
    db: Database,
    surroundings: Surroundings,
    result: Result<OutcomeView, GitAiError>,
    left: Database,
)
    requires
        step.1 is Ask,
        ({
            let (changed, reply) = answer(db, step.1->Ask_0, surroundings);
            comes_to(after(step.0, reply), changed, surroundings, result, left)
        }),
    ensures
        comes_to(step, db, surroundings, result, left),
{
    let (changed, reply) = answer(db, step.1->Ask_0, surroundings);
    let requests = choose|requests: nat| #[trigger]
        end_within(requests, after(step.0, reply), changed, surroundings) == Some((result, left));
    assert(end_within(requests + 1, step, db, surroundings) == Some((result, left)));
}

/// An operation comes to one end at most.
pub proof fn law_one_end(
    step: StepView,
    db: Database,
    surroundings: Surroundings,
    result: Result<OutcomeView, GitAiError>,
    left: Database,
    other_result: Result<OutcomeView, GitAiError>,
    other_left: Database,
)
    requires
        comes_to(step, db, surroundings, result, left),
        comes_to(step, db, surroundings, other_result, other_left),
    ensures
        result == other_result,
        left == other_left,
{
    let first = choose|requests: nat| #[trigger]
        end_within(requests, step, db, surroundings) == Some((result, left));
    let second = choose|requests: nat| #[trigger]
        end_within(requests, step, db, surroundings) == Some((other_result, other_left));
    if first <= second {
        lemma_more_requests(first, second, step, db, surroundings);
    } else {
        lemma_more_requests(second, first, step, db, surroundings);
    }
}

proof fn lemma_more_requests(
    fewer: nat,
    more: nat,
    step: StepView,
    db: Database,
    surroundings: Surroundings,
)
    requires
        fewer <= more,
        end_within(fewer, step, db, surroundings) is Some,
    ensures
        end_within(more, step, db, surroundings) == end_within(
            fewer,
            step,
            db,
            surroundings,
        ),
    decreases fewer,
{
    if let ProgressView::Ask(request) = step.1 {
        let (changed, reply) = answer(db, request, surroundings);
        lemma_more_requests(
            (fewer - 1) as nat,
            (more - 1) as nat,
            after(step.0, reply),
            changed,
            surroundings,
        );
    }
}

/// The versions from one up to the current one.
pub open spec fn versions_from(version: int) -> Seq<usize> {
    Seq::new((SCHEMA_VERSION - version) as nat, |i: int| (version + i) as usize)
}

/// The recorded schema version. What is no number counts as version 0, as a new database does.
pub open spec fn version_or_zero(tables: Tables) -> int {
    match recorded_version(ReplyView::Text(tables.version)) {
        Some(version) => version as int,
        None => 0,
    }
}

/// What is recorded as the version once the migrations from a version on have run: the current
/// one, unless what was recorded is taken for no smaller a number.
pub open spec fn version_after(recorded: Option<Seq<char>>, version: int) -> Option<Seq<char>> {
    if version < SCHEMA_VERSION && (recorded is None || cast_integer(recorded->0)
        < SCHEMA_VERSION) {
        Some(decimal_digits(SCHEMA_VERSION as nat))
    } else {
        recorded
    }
}

/// The tables with the schema up to date, coming from a version.
pub open spec fn migrated_from(tables: Tables, version: int) -> Tables {
    Tables {
        has_events: tables.has_events || version <= 4,
        has_delivery: tables.has_delivery || version <= 4,
        has_throttle: tables.has_throttle || version <= 1,
        has_index: tables.has_index || version <= 5,
        version: version_after(tables.version, version),
        migrations: tables.migrations + versions_from(version),
        ..tables
    }
}

/// The tables with that of recorded facts.
pub open spec fn with_facts(tables: Tables) -> Tables {
    Tables { has_facts: true, ..tables }
}

/// A text that is a number is cast to that number.
proof fn lemma_cast_reads_number(text: Seq<char>, limit: nat)
    requires
        unsigned_value(text, limit) is Some,
        limit <= i64::MAX,
    ensures
        cast_integer(text) == unsigned_value(text, limit)->0,
{
    let signed = text[0] == '+';
    let digits = if signed {
        text.skip(1)
    } else {
        text
    };
    assert(!is_space(text[0])) by {
        if !signed {
            assert('0' <= digits[0] <= '9');
        }
    }
    assert(after_spaces(text) == text);
    assert(!signed ==> text[0] != '-') by {
        if !signed {
            assert('0' <= digits[0] <= '9');
        }
    }
    lemma_all_digits_lead(digits);
}

proof fn lemma_all_digits_lead(text: Seq<char>)
    requires
        all_digits(text),
    ensures
        leading_digits(text) == text,
    decreases text.len(),
{
    if text.len() > 0 {
        assert('0' <= text[0] <= '9');
        assert forall|i: int| 0 <= i < text.skip(1).len() implies '0' <= #[trigger] text.skip(
            1,
        )[i] <= '9' by {
            assert(text.skip(1)[i] == text[i + 1]);
        }
        lemma_all_digits_lead(text.skip(1));
        assert(seq![text[0]] + text.skip(1) =~= text);
    } else {
        assert(text =~= Seq::empty());
    }
}

proof fn lemma_cast_reads_back(version: nat)
    requires
        version <= i64::MAX,
    ensures
        cast_integer(decimal_digits(version)) == version,
{
    law_decimal_reads_back(version, i64::MAX as nat);
    lemma_cast_reads_number(decimal_digits(version), i64::MAX as nat);
}

proof fn lemma_migrates(version: int, tables: Tables, surroundings: Surroundings)
    requires
        0 <= version <= SCHEMA_VERSION,
        surroundings.truthful(),
        tables.has_facts,
        version == 5 ==> tables.has_delivery,
        tables.has_delivery ==> tables.has_events,
    ensures
        comes_to(
            migrates_from(version as nat),
            settled(tables),
            surroundings,
            Ok(OutcomeView::Ready),
            settled(migrated_from(tables, version)),
        ),
    decreases SCHEMA_VERSION - version,
{
    let start = migrates_from(version as nat);
    let result = Ok::<OutcomeView, GitAiError>(OutcomeView::Ready);
    let left = settled(migrated_from(tables, version));
    if version == SCHEMA_VERSION {
        assert(left =~= settled(tables)) by {
            assert(tables.migrations + versions_from(version) =~= tables.migrations);
        }
        lemma_finished(start, settled(tables), surroundings);
    } else {
        let from_version = version as usize;
        let (ran, reply) = migrate(tables, from_version, surroundings);
        let (recorded, _) = change(
            ran,
            Request::RecordVersion { version: (version + 1) as usize },
            surroundings,
        );
        lemma_cast_reads_back((version + 1) as nat);
        lemma_migrates(version + 1, recorded, surroundings);
        assert(migrated_from(tables, version) =~= migrated_from(recorded, version + 1)) by {
            assert(tables.migrations + versions_from(version) =~= recorded.migrations
                + versions_from(version + 1));
        }
        let recording = after(
            TaskView::Schema(SchemaStage::Committing { from_version }),
            ReplyView::Done,
        );
        lemma_asked(recording, settled(ran), surroundings, result, left);
        let committing = after(TaskView::Schema(SchemaStage::Migrating { from_version }), reply);
        lemma_asked(committing, opened(ran, tables), surroundings, result, left);
        let migrating = after(
            TaskView::Schema(SchemaStage::Opening { from_version }),
            ReplyView::Done,
        );
        lemma_asked(migrating, opened(tables, tables), surroundings, result, left);
        lemma_asked(start, settled(tables), surroundings, result, left);
    }
}

/// Whether the tables, the column and the index are there that the recorded version promises.
pub open spec fn keeps_promises(tables: Tables) -> bool {
    let version = version_or_zero(tables);
    &&& version >= 2 ==> tables.has_throttle
    &&& version >= 5 ==> tables.has_delivery
    &&& version >= 6 ==> tables.has_index
}

/// A database with an older schema, or none, is brought up to the current version, and so is one
/// whose recorded version is no number: the missing migrations run once each, in their order, and
/// no others. They add the tables of events and of the rate limiter, the column for the time of
/// delivery, once, and the index, so that everything is there afterwards. The events stay as they
/// are.
pub proof fn law_schema_is_brought_up_to_date(tables: Tables, surroundings: Surroundings)
    requires
        tables.sound(),
        surroundings.truthful(),
        version_or_zero(tables) <= SCHEMA_VERSION,
        version_or_zero(tables) == 5 ==> tables.has_delivery,
    ensures
        comes_to(
            starts_schema(),
            settled(tables),
            surroundings,
            Ok(OutcomeView::Ready),
            settled(migrated_from(with_facts(tables), version_or_zero(tables))),
        ),
        keeps_promises(tables) ==> migrated_from(
            with_facts(tables),
            version_or_zero(tables),
        ).ready(),
        recorded_version(ReplyView::Text(tables.version)) is Some && version_or_zero(tables)
            < SCHEMA_VERSION ==> migrated_from(
            with_facts(tables),
            version_or_zero(tables),
        ).version == Some(decimal_digits(SCHEMA_VERSION as nat)),
{
    let version = version_or_zero(tables);
    let result = Ok::<OutcomeView, GitAiError>(OutcomeView::Ready);
    let created = with_facts(tables);
    let left = settled(migrated_from(created, version));
    let start = starts_schema();
    let (_, reply) = answer(settled(tables), Request::ReadSchemaVersion, surroundings);
    assert(recorded_version(reply) == recorded_version(ReplyView::Text(tables.version)));
    if recorded_version(reply) == Some(SCHEMA_VERSION as nat) {
        assert(left =~= settled(tables)) by {
            assert(tables.migrations + versions_from(version) =~= tables.migrations);
        }
        lemma_finished(after(start.0, reply), settled(tables), surroundings);
    } else {
        lemma_migrates(version, created, surroundings);
        let reading = after(TaskView::Schema(SchemaStage::Creating), ReplyView::Done);
        lemma_asked(reading, settled(created), surroundings, result, left);
        let creating = after(start.0, reply);
        lemma_asked(creating, settled(tables), surroundings, result, left);
    }
    lemma_asked(start, settled(tables), surroundings, result, left);
    if recorded_version(reply) is Some && version < SCHEMA_VERSION {
        let text = tables.version->0;
        assert(unsigned_value(text, i64::MAX as nat) == Some(version as nat));
        lemma_cast_reads_number(text, i64::MAX as nat);
    }
}

/// A database with a later schema is refused, and left as it is.
pub proof fn law_later_schema_is_refused(tables: Tables, surroundings: Surroundings)
    requires
        tables.sound(),
        version_or_zero(tables) > SCHEMA_VERSION,
    ensures
        comes_to(
            starts_schema(),
            settled(tables),
            surroundings,
            Err(
                GitAiError::SchemaTooNew {
                    found: version_or_zero(tables) as usize,
                    supported: SCHEMA_VERSION,
                },
            ),
            settled(tables),
        ),
{
    let start = starts_schema();
    let (_, reply) = answer(settled(tables), Request::ReadSchemaVersion, surroundings);
    let refused = after(start.0, reply);
    lemma_finished(refused, settled(tables), surroundings);
    lemma_asked(
        start,
        settled(tables),
        surroundings,
        refused.1->Finished_0,
        settled(tables),
    );
}

/// Filters that agree on every element select the same.
proof fn lemma_filters_agree<A>(
    items: Seq<A>,
    first: spec_fn(A) -> bool,
    second: spec_fn(A) -> bool,
)
    requires
        forall|i: int| 0 <= i < items.len() ==> first(#[trigger] items[i]) == second(items[i]),
    ensures
        items.filter(first) == items.filter(second),
    decreases items.len(),
{
    reveal(Seq::filter);
    if items.len() > 0 {
        let rest = items.drop_last();
        assert forall|i: int| 0 <= i < rest.len() implies first(#[trigger] rest[i]) == second(
            rest[i],
        ) by {
            assert(rest[i] == items[i]);
        }
        lemma_filters_agree(rest, first, second);
        assert(first(items[items.len() - 1]) == second(items[items.len() - 1]));
    }
}

/// A filter after a filter selects what passes both.
proof fn lemma_filter_twice<A>(
    items: Seq<A>,
    first: spec_fn(A) -> bool,
    second: spec_fn(A) -> bool,
    both: spec_fn(A) -> bool,
)
    requires
        forall|item: A| #[trigger] both(item) == (first(item) && second(item)),
    ensures
        items.filter(first).filter(second) == items.filter(both),
    decreases items.len(),
{
    reveal(Seq::filter);
    if items.len() > 0 {
        let rest = items.drop_last();
        lemma_filter_twice(rest, first, second, both);
        let last = items.last();
        assert(both(last) == (first(last) && second(last)));
        if first(last) {
            assert(items.filter(first).drop_last() =~= rest.filter(first));
            assert(items.filter(first).last() == last);
        }
    }
}

/// Deleting no rows and then those of a list, one after the other, leaves the others.
proof fn lemma_without_first(events: Seq<StoredEvent>, ids: Seq<i64>)
    requires
        ids.len() > 0,
    ensures
        without(without(events, seq![ids[0]]), ids.skip(1)) == without(events, ids),
{
    let first = |event: StoredEvent| !seq![ids[0]].contains(event.id);
    let rest = |event: StoredEvent| !ids.skip(1).contains(event.id);
    let all = |event: StoredEvent| !ids.contains(event.id);
    assert forall|event: StoredEvent| #[trigger] all(event) == (first(event) && rest(event)) by {
        let one = seq![ids[0]];
        assert(one[0] == ids[0]);
        if ids.contains(event.id) {
            let at = choose|at: int| 0 <= at < ids.len() && ids[at] == event.id;
            if at > 0 {
                assert(ids.skip(1)[at - 1] == event.id);
            }
        } else {
            if ids.skip(1).contains(event.id) {
                let at = choose|at: int|
                    0 <= at < ids.skip(1).len() && ids.skip(1)[at] == event.id;
                assert(ids[at + 1] == event.id);
            }
            if one.contains(event.id) {
                assert(ids[0] == event.id);
            }
        }
    }
    lemma_filter_twice(events, first, rest, all);
}

proof fn lemma_deletes(
    outcome: OutcomeView,
    doomed: Seq<i64>,
    done: int,
    tables: Tables,
    saved: Tables,
    surroundings: Surroundings,
)
    requires
        0 <= done <= doomed.len(),
        tables.has_events,
    ensures
        comes_to(
            deletes_next(outcome, doomed, done),
            opened(tables, saved),
            surroundings,
            Ok(outcome),
            settled(Tables { events: without(tables.events, doomed.skip(done)), ..tables }),
        ),
    decreases doomed.len() - done,
{
    let start = deletes_next(outcome, doomed, done);
    let left = Tables { events: without(tables.events, doomed.skip(done)), ..tables };
    if done < doomed.len() {
        let deleted = Tables { events: without(tables.events, seq![doomed[done]]), ..tables };
        lemma_deletes(outcome, doomed, done + 1, deleted, saved, surroundings);
        lemma_without_first(tables.events, doomed.skip(done));
        assert(doomed.skip(done).skip(1) =~= doomed.skip(done + 1));
        assert(doomed.skip(done)[0] == doomed[done]);
    } else {
        let every = |event: StoredEvent| true;
        let kept = |event: StoredEvent| !doomed.skip(done).contains(event.id);
        lemma_filters_agree(tables.events, kept, every);
        lemma_filter_every(tables.events);
        assert(left =~= tables);
        lemma_finished(ends(outcome), settled(tables), surroundings);
    }
    lemma_asked(start, opened(tables, saved), surroundings, Ok(outcome), settled(left));
}

proof fn lemma_filter_every(events: Seq<StoredEvent>)
    ensures
        events.filter(|event: StoredEvent| true) == events,
    decreases events.len(),
{
    reveal(Seq::filter);
    if events.len() > 0 {
        lemma_filter_every(events.drop_last());
        assert(events.drop_last().push(events.last()) =~= events);
    }
}

/// The doomed identifiers are those of the old rows.
proof fn lemma_doomed_are_old(
    events: Seq<StoredEvent>,
    surroundings: Surroundings,
    cutoff: int,
    id: i64,
)
    ensures
        doomed_ids(rows_of(events, surroundings), cutoff).contains(id) <==> exists|i: int|
            0 <= i < events.len() && (#[trigger] events[i]).id == id && older_than(
                row_of(events[i], surroundings),
                cutoff,
            ),
    decreases events.len(),
{
    let rows = rows_of(events, surroundings);
    let doomed = doomed_ids(rows, cutoff);
    if events.len() > 0 {
        let rest = events.drop_last();
        lemma_doomed_are_old(rest, surroundings, cutoff, id);
        assert(rows.drop_last() =~= rows_of(rest, surroundings));
        let earlier = doomed_ids(rows.drop_last(), cutoff);
        let last = events.len() - 1;
        assert(rows.last() == row_of(events[last], surroundings));
        if doomed.contains(id) {
            let at = choose|at: int| 0 <= at < doomed.len() && doomed[at] == id;
            if at < earlier.len() {
                assert(earlier[at] == id);
                let i = choose|i: int|
                    0 <= i < rest.len() && (#[trigger] rest[i]).id == id && older_than(
                        row_of(rest[i], surroundings),
                        cutoff,
                    );
                assert(events[i] == rest[i]);
            } else {
                assert(events[last].id == id);
            }
        }
        if exists|i: int|
            0 <= i < events.len() && (#[trigger] events[i]).id == id && older_than(
                row_of(events[i], surroundings),
                cutoff,
            ) {
            let i = choose|i: int|
                0 <= i < events.len() && (#[trigger] events[i]).id == id && older_than(
                    row_of(events[i], surroundings),
                    cutoff,
                );
            if i < last {
                assert(rest[i] == events[i]);
                assert(earlier.contains(id));
                let at = choose|at: int| 0 <= at < earlier.len() && earlier[at] == id;
                assert(doomed[at] == id);
            } else {
                assert(doomed[doomed.len() - 1] == id);
            }
        }
    }
}

/// Deleting the doomed rows leaves the young ones.
proof fn lemma_young_remain(tables: Tables, surroundings: Surroundings)
    requires
        tables.sound(),
    ensures
        without(
            tables.events,
            doomed_ids(
                rows_of(tables.events, surroundings),
                retention_cutoff(surroundings.now),
            ),
        ) == young_events(tables.events, surroundings),
{
    let events = tables.events;
    let cutoff = retention_cutoff(surroundings.now);
    let doomed = doomed_ids(rows_of(events, surroundings), cutoff);
    let kept = |event: StoredEvent| !doomed.contains(event.id);
    let young = |event: StoredEvent| !older_than(row_of(event, surroundings), cutoff);
    assert forall|i: int| 0 <= i < events.len() implies kept(#[trigger] events[i]) == young(
        events[i],
    ) by {
        lemma_doomed_are_old(events, surroundings, cutoff, events[i].id);
        if doomed.contains(events[i].id) {
            let j = choose|j: int|
                0 <= j < events.len() && (#[trigger] events[j]).id == events[i].id && older_than(
                    row_of(events[j], surroundings),
                    cutoff,
                );
            assert(i == j);
        }
    }
    lemma_filters_agree(events, kept, young);
}

proof fn lemma_prunes(outcome: OutcomeView, tables: Tables, surroundings: Surroundings)
    requires
        tables.ready(),
    ensures
        comes_to(
            prunes_then(outcome),
            settled(tables),
            surroundings,
            Ok(outcome),
            settled(pruned(tables, surroundings)),
        ),
{
    let now = surroundings.now;
    let result = Ok::<OutcomeView, GitAiError>(outcome);
    let db = settled(tables);
    let left = settled(pruned(tables, surroundings));
    let looking = after(
        TaskView::Prune { outcome, stage: PruneStageView::Clock },
        ReplyView::Clock(now),
    );
    let going_on = after(looking.0, ReplyView::Text(tables.last_prune));
    if due(tables, now) {
        let rows = rows_of(tables.events, surroundings);
        let doomed = doomed_ids(rows, retention_cutoff(now));
        let recorded = Tables { last_prune: Some(decimal_digits(now as nat)), ..tables };
        lemma_deletes(outcome, doomed, 0, recorded, tables, surroundings);
        assert(doomed.skip(0) =~= doomed);
        lemma_young_remain(tables, surroundings);
        let recording = after(
            TaskView::Prune { outcome, stage: PruneStageView::Opening { now, doomed } },
            ReplyView::Done,
        );
        lemma_asked(recording, opened(tables, tables), surroundings, result, left);
        let opening = after(going_on.0, ReplyView::Rows(rows));
        lemma_asked(opening, db, surroundings, result, left);
        lemma_asked(going_on, db, surroundings, result, left);
    } else {
        lemma_finished(going_on, db, surroundings);
    }
    lemma_asked(looking, db, surroundings, result, left);
    lemma_asked(prunes_then(outcome), db, surroundings, result, left);
}

/// The identifiers of events that are stored one after the other.
pub open spec fn new_ids(first_id: int, count: nat) -> Seq<i64> {
    Seq::new(count, |i: int| (first_id + i) as i64)
}

/// Storing events keeps the tables ready.
proof fn lemma_with_events_ready(
    tables: Tables,
    events: Seq<String>,
    delivered_ts: Option<i64>,
)
    requires
        tables.ready(),
        i64::MIN <= tables.next_id,
        tables.next_id + events.len() <= i64::MAX,
    ensures
        with_events(tables, events, delivered_ts).ready(),
{
    let stored = with_events(tables, events, delivered_ts);
    let fresh = new_events(tables.next_id, events, delivered_ts);
    let count = tables.events.len();
    assert forall|i: int, j: int| 0 <= i < j < stored.events.len() implies (
    #[trigger] stored.events[i]).id < (#[trigger] stored.events[j]).id by {
        if i < count {
            assert(stored.events[i] == tables.events[i]);
            if j < count {
                assert(stored.events[j] == tables.events[j]);
            } else {
                assert(stored.events[j] == fresh[j - count]);
            }
        } else {
            assert(stored.events[i] == fresh[i - count]);
            assert(stored.events[j] == fresh[j - count]);
        }
    }
    assert forall|i: int| 0 <= i < stored.events.len() implies (#[trigger] stored.events[i]).id
        < stored.next_id by {
        if i < count {
            assert(stored.events[i] == tables.events[i]);
        } else {
            assert(stored.events[i] == fresh[i - count]);
        }
    }
}

/// Storing no events changes nothing.
pub proof fn lemma_nothing_stored(tables: Tables, delivered_ts: Option<i64>)
    ensures
        with_events(tables, seq![], delivered_ts) == tables,
{
    assert(tables.events + new_events(tables.next_id, seq![], delivered_ts) =~= tables.events);
    assert(with_events(tables, seq![], delivered_ts) =~= tables);
}

/// One more event is stored after those before it.
pub proof fn lemma_one_more_stored(
    tables: Tables,
    events: Seq<String>,
    delivered_ts: Option<i64>,
    count: int,
)
    requires
        0 <= count < events.len(),
    ensures
        ({
            let stored = with_events(tables, events.take(count), delivered_ts);
            with_events(tables, events.take(count + 1), delivered_ts) == (Tables {
                events: stored.events.push(
                    StoredEvent {
                        id: stored.next_id as i64,
                        event_json: events[count],
                        delivered_ts,
                    },
                ),
                next_id: stored.next_id + 1,
                ..stored
            })
        }),
{
    let stored = with_events(tables, events.take(count), delivered_ts);
    let event = StoredEvent {
        id: stored.next_id as i64,
        event_json: events[count],
        delivered_ts,
    };
    let longer = with_events(tables, events.take(count + 1), delivered_ts);
    assert(longer.events =~= stored.events.push(event));
}

proof fn lemma_inserts(
    events: Seq<String>,
    delivered_ts: Option<i64>,
    ids: Seq<i64>,
    before: Tables,
    surroundings: Surroundings,
)
    requires
        before.ready(),
        i64::MIN <= before.next_id,
        before.next_id + events.len() <= i64::MAX,
        ids.len() <= events.len(),
        ids == new_ids(before.next_id, ids.len()),
    ensures
        comes_to(
            inserts_next(events, delivered_ts, ids),
            opened(with_events(before, events.take(ids.len() as int), delivered_ts), before),
            surroundings,
            Ok(OutcomeView::Inserted(new_ids(before.next_id, events.len()))),
            settled(pruned(with_events(before, events, delivered_ts), surroundings)),
        ),
    decreases events.len() - ids.len(),
{
    let count = ids.len() as int;
    let start = inserts_next(events, delivered_ts, ids);
    let tables = with_events(before, events.take(count), delivered_ts);
    let outcome = OutcomeView::Inserted(new_ids(before.next_id, events.len()));
    let left = settled(pruned(with_events(before, events, delivered_ts), surroundings));
    if count < events.len() {
        let id = (before.next_id + count) as i64;
        let longer = ids.push(id);
        assert(longer =~= new_ids(before.next_id, longer.len()));
        lemma_inserts(events, delivered_ts, longer, before, surroundings);
        lemma_one_more_stored(before, events, delivered_ts, count);
        lemma_asked(start, opened(tables, before), surroundings, Ok(outcome), left);
    } else {
        assert(events.take(count) =~= events);
        lemma_with_events_ready(before, events, delivered_ts);
        lemma_prunes(outcome, tables, surroundings);
        lemma_asked(start, opened(tables, before), surroundings, Ok(outcome), left);
    }
}

/// Storing events adds them after the others under new, ascending identifiers, which are
/// returned; then old rows are pruned where that is due.
pub proof fn law_insert_stores_events(
    events: Seq<String>,
    delivered_ts: Option<i64>,
    tables: Tables,
    surroundings: Surroundings,
)
    requires
        tables.ready(),
        events.len() > 0,
        i64::MIN <= tables.next_id,
        tables.next_id + events.len() <= i64::MAX,
    ensures
        comes_to(
            starts_insert(events, delivered_ts),
            settled(tables),
            surroundings,
            Ok(OutcomeView::Inserted(new_ids(tables.next_id, events.len()))),
            settled(pruned(with_events(tables, events, delivered_ts), surroundings)),
        ),
        with_events(tables, events, delivered_ts).ready(),
{
    lemma_with_events_ready(tables, events, delivered_ts);
    assert(events.take(0) =~= seq![]);
    assert(new_ids(tables.next_id, 0) =~= seq![]);
    lemma_inserts(events, delivered_ts, seq![], tables, surroundings);
    lemma_nothing_stored(tables, delivered_ts);
    let result = Ok::<OutcomeView, GitAiError>(
        OutcomeView::Inserted(new_ids(tables.next_id, events.len())),
    );
    let left = settled(pruned(with_events(tables, events, delivered_ts), surroundings));
    let open = opened(tables, tables);
    let second = prepares_insert(events, delivered_ts, seq![], true);
    lemma_asked(second, open, surroundings, result, left);
    let first = prepares_insert(events, delivered_ts, seq![], false);
    lemma_asked(first, open, surroundings, result, left);
    lemma_asked(
        starts_insert(events, delivered_ts),
        settled(tables),
        surroundings,
        result,
        left,
    );
}

/// Marking keeps the tables sound.
proof fn lemma_with_delivered_sound(tables: Tables, ids: Seq<i64>, delivered_ts: i64)
    requires
        tables.sound(),
    ensures
        with_delivered(tables, ids, delivered_ts).sound(),
{
    let changed = with_delivered(tables, ids, delivered_ts);
    assert forall|i: int| 0 <= i < changed.events.len() implies (#[trigger] changed.events[i]).id
        == tables.events[i].id by {}
}

/// Marking no events changes nothing.
pub proof fn lemma_nothing_marked(tables: Tables, none: Seq<i64>, delivered_ts: i64)
    requires
        none.len() == 0,
    ensures
        with_delivered(tables, none, delivered_ts) == tables,
{
    assert forall|i: int| 0 <= i < tables.events.len() implies #[trigger] delivered(
        tables.events[i],
        none,
        delivered_ts,
    ) == tables.events[i] by {}
    assert(with_delivered(tables, none, delivered_ts).events =~= tables.events);
    assert(with_delivered(tables, none, delivered_ts) =~= tables);
}

/// One more event is marked after those before it.
pub proof fn lemma_one_more_marked(tables: Tables, ids: Seq<i64>, delivered_ts: i64, done: int)
    requires
        0 <= done < ids.len(),
    ensures
        ({
            let before = with_delivered(tables, ids.take(done), delivered_ts);
            with_delivered(tables, ids.take(done + 1), delivered_ts) == (Tables {
                events: before.events.map_values(
                    |event: StoredEvent| marked(event, ids[done], delivered_ts),
                ),
                ..before
            })
        }),
{
    let shorter = ids.take(done);
    let longer = ids.take(done + 1);
    assert forall|event: StoredEvent|
        marked(delivered(event, shorter, delivered_ts), ids[done], delivered_ts)
            == #[trigger] delivered(event, longer, delivered_ts) by {
        assert(longer =~= shorter.push(ids[done]));
        assert(longer[done] == ids[done]);
        if shorter.contains(event.id) {
            let at = choose|at: int| 0 <= at < shorter.len() && shorter[at] == event.id;
            assert(longer[at] == event.id);
        } else if longer.contains(event.id) {
            let at = choose|at: int| 0 <= at < longer.len() && longer[at] == event.id;
            if at < done {
                assert(shorter[at] == event.id);
            }
        }
    }
    let before = with_delivered(tables, shorter, delivered_ts);
    assert(with_delivered(tables, longer, delivered_ts).events =~= before.events.map_values(
        |event: StoredEvent| marked(event, ids[done], delivered_ts),
    ));
}

proof fn lemma_delivers(
    ids: Seq<i64>,
    delivered_ts: i64,
    done: int,
    before: Tables,
    surroundings: Surroundings,
)
    requires
        before.ready(),
        0 <= done <= ids.len(),
    ensures
        comes_to(
            delivers_next(ids, delivered_ts, done),
            opened(with_delivered(before, ids.take(done), delivered_ts), before),
            surroundings,
            Ok(OutcomeView::Delivered),
            settled(pruned(with_delivered(before, ids, delivered_ts), surroundings)),
        ),
    decreases ids.len() - done,
{
    let start = delivers_next(ids, delivered_ts, done);
    let tables = with_delivered(before, ids.take(done), delivered_ts);
    let result = Ok::<OutcomeView, GitAiError>(OutcomeView::Delivered);
    let left = settled(pruned(with_delivered(before, ids, delivered_ts), surroundings));
    if done < ids.len() {
        lemma_delivers(ids, delivered_ts, done + 1, before, surroundings);
        lemma_one_more_marked(before, ids, delivered_ts, done);
        lemma_asked(start, opened(tables, before), surroundings, result, left);
    } else {
        assert(ids.take(done) =~= ids);
        lemma_with_delivered_sound(before, ids, delivered_ts);
        lemma_prunes(OutcomeView::Delivered, tables, surroundings);
        lemma_asked(start, opened(tables, before), surroundings, result, left);
    }
}

/// Marking events as delivered records the time at those of them that were pending, and changes
/// nothing else; then old rows are pruned where that is due.
pub proof fn law_marking_records_delivery(
    ids: Seq<i64>,
    delivered_ts: i64,
    tables: Tables,
    surroundings: Surroundings,
)
    requires
        tables.ready(),
        ids.len() > 0,
    ensures
        comes_to(
            starts_deliver(ids, delivered_ts),
            settled(tables),
            surroundings,
            Ok(OutcomeView::Delivered),
            settled(pruned(with_delivered(tables, ids, delivered_ts), surroundings)),
        ),
        with_delivered(tables, ids, delivered_ts).ready(),
{
    lemma_with_delivered_sound(tables, ids, delivered_ts);
    lemma_delivers(ids, delivered_ts, 0, tables, surroundings);
    lemma_nothing_marked(tables, ids.take(0), delivered_ts);
    lemma_asked(
        starts_deliver(ids, delivered_ts),
        settled(tables),
        surroundings,
        Ok(OutcomeView::Delivered),
        settled(pruned(with_delivered(tables, ids, delivered_ts), surroundings)),
    );
}

/// With nothing to store or to mark, nothing is asked of the database.
pub proof fn law_empty_operations_change_nothing(
    delivered_ts: Option<i64>,
    marked_ts: i64,
    db: Database,
    surroundings: Surroundings,
)
    ensures
        comes_to(
            starts_insert(seq![], delivered_ts),
            db,
            surroundings,
            Ok(OutcomeView::Inserted(seq![])),
            db,
        ),
        comes_to(
            starts_deliver(seq![], marked_ts),
            db,
            surroundings,
            Ok(OutcomeView::Delivered),
            db,
        ),
{
    lemma_finished(starts_insert(seq![], delivered_ts), db, surroundings);
    lemma_finished(starts_deliver(seq![], marked_ts), db, surroundings);
}

/// A batch is the first pending events, by ascending identifiers. Reading it changes nothing.
pub proof fn law_batch_is_oldest_pending(
    limit: usize,
    tables: Tables,
    surroundings: Surroundings,
)
    requires
        limit <= i64::MAX,
        tables.ready(),
    ensures
        comes_to(
            starts_batch(limit),
            settled(tables),
            surroundings,
            Ok(OutcomeView::Batch(first_pending(tables.events, limit as int))),
            settled(tables),
        ),
        forall|i: int, j: int|
            0 <= i < j < first_pending(tables.events, limit as int).len() ==> (
            #[trigger] first_pending(tables.events, limit as int)[i]).id < (
            #[trigger] first_pending(tables.events, limit as int)[j]).id,
{
    let records = first_pending(tables.events, limit as int);
    lemma_finished(ends(OutcomeView::Batch(records)), settled(tables), surroundings);
    lemma_asked(
        starts_batch(limit),
        settled(tables),
        surroundings,
        Ok(OutcomeView::Batch(records)),
        settled(tables),
    );
    let passes = |event: StoredEvent| is_pending(event);
    lemma_filter_ascends(tables.events, passes);
    let pending = pending_events(tables.events);
    assert forall|i: int, j: int| 0 <= i < j < records.len() implies (#[trigger] records[i]).id < (
    #[trigger] records[j]).id by {
        assert(records[i].id == pending[i].id);
        assert(records[j].id == pending[j].id);
    }
}

/// Part of a table by ascending identifiers has ascending identifiers.
pub proof fn lemma_filter_ascends(events: Seq<StoredEvent>, passes: spec_fn(StoredEvent) -> bool)
    requires
        forall|i: int, j: int|
            0 <= i < j < events.len() ==> (#[trigger] events[i]).id < (#[trigger] events[j]).id,
    ensures
        forall|i: int, j: int|
            0 <= i < j < events.filter(passes).len() ==> (#[trigger] events.filter(passes)[i]).id
                < (#[trigger] events.filter(passes)[j]).id,
        forall|i: int|
            0 <= i < events.filter(passes).len() ==> exists|j: int|
                0 <= j < events.len() && events[j] == #[trigger] events.filter(passes)[i],
    decreases events.len(),
{
    reveal(Seq::filter);
    if events.len() > 0 {
        let rest = events.drop_last();
        assert forall|i: int, j: int| 0 <= i < j < rest.len() implies (#[trigger] rest[i]).id < (
        #[trigger] rest[j]).id by {
            assert(rest[i] == events[i]);
            assert(rest[j] == events[j]);
        }
        lemma_filter_ascends(rest, passes);
        let earlier = rest.filter(passes);
        let kept = events.filter(passes);
        assert forall|i: int| 0 <= i < kept.len() implies exists|j: int|
            0 <= j < events.len() && events[j] == #[trigger] kept[i] by {
            if i < earlier.len() {
                assert(kept[i] == earlier[i]);
                let j = choose|j: int| 0 <= j < rest.len() && rest[j] == earlier[i];
                assert(events[j] == kept[i]);
            } else {
                assert(events[events.len() - 1] == kept[i]);
            }
        }
        assert forall|i: int, j: int| 0 <= i < j < kept.len() implies (#[trigger] kept[i]).id < (
        #[trigger] kept[j]).id by {
            assert(kept[i] == earlier[i]);
            if j < earlier.len() {
                assert(kept[j] == earlier[j]);
            } else {
                let at = choose|at: int| 0 <= at < rest.len() && rest[at] == earlier[i];
                assert(events[at] == kept[i]);
                assert(kept[j] == events[events.len() - 1]);
            }
        }
    }
}

/// The count is the number of pending events. Counting changes nothing.
pub proof fn law_count_is_pending(tables: Tables, surroundings: Surroundings)
    requires
        tables.ready(),
        pending_events(tables.events).len() <= i64::MAX,
        pending_events(tables.events).len() <= usize::MAX,
    ensures
        comes_to(
            asks(TaskView::Count, Request::CountPending),
            settled(tables),
            surroundings,
            Ok(OutcomeView::Count(pending_events(tables.events).len() as usize)),
            settled(tables),
        ),
{
    let count = pending_events(tables.events).len();
    lemma_finished(ends(OutcomeView::Count(count as usize)), settled(tables), surroundings);
    lemma_asked(
        asks(TaskView::Count, Request::CountPending),
        settled(tables),
        surroundings,
        Ok(OutcomeView::Count(count as usize)),
        settled(tables),
    );
}

/// A query of the history returns the records of the events that belong to it, in their order,
/// whether they are delivered or not. Reading them changes nothing.
pub proof fn law_history_reads_all_events(
    since_ts: u32,
    repo_filter: Option<Seq<char>>,
    event_ids: Seq<u16>,
    tables: Tables,
    surroundings: Surroundings,
)
    requires
        tables.ready(),
    ensures
        comes_to(
            asks(TaskView::History { since_ts, repo_filter, event_ids }, Request::ReadHistory),
            settled(tables),
            surroundings,
            Ok(
                OutcomeView::History(
                    history_records(
                        history_of(tables.events, surroundings),
                        since_ts,
                        repo_filter,
                        event_ids,
                    ),
                ),
            ),
            settled(tables),
        ),
{
    let start = asks(
        TaskView::History { since_ts, repo_filter, event_ids },
        Request::ReadHistory,
    );
    let (_, reply) = answer(settled(tables), Request::ReadHistory, surroundings);
    let over = after(start.0, reply);
    lemma_finished(over, settled(tables), surroundings);
    lemma_asked(
        start,
        settled(tables),
        surroundings,
        over.1->Finished_0,
        settled(tables),
    );
}

/// A query of the history returns a record exactly for the readable events that belong to it.
pub proof fn law_history_selects(
    events: Seq<Option<MetricEvent>>,
    since_ts: u32,
    repo_filter: Option<Seq<char>>,
    event_ids: Seq<u16>,
    record: MetricHistoryRecord,
)
    ensures
        history_records(events, since_ts, repo_filter, event_ids).contains(record) <==> (
        events.contains(Some(record.event)) && in_history(
            record.event,
            since_ts,
            repo_filter,
            event_ids,
        ) && record == history_record(record.event)),
    decreases events.len(),
{
    let records = history_records(events, since_ts, repo_filter, event_ids);
    if events.len() > 0 {
        let rest = events.drop_last();
        let earlier = history_records(rest, since_ts, repo_filter, event_ids);
        law_history_selects(rest, since_ts, repo_filter, event_ids, record);
        let last = events.len() - 1;
        if records.contains(record) {
            let at = choose|at: int| 0 <= at < records.len() && records[at] == record;
            if at < earlier.len() {
                assert(earlier[at] == record);
                let i = choose|i: int| 0 <= i < rest.len() && rest[i] == Some(record.event);
                assert(events[i] == Some(record.event));
            } else {
                assert(events[last] == Some(record.event));
            }
        }
        if events.contains(Some(record.event)) && in_history(
            record.event,
            since_ts,
            repo_filter,
            event_ids,
        ) && record == history_record(record.event) {
            let i = choose|i: int| 0 <= i < events.len() && events[i] == Some(record.event);
            if i < last {
                assert(rest[i] == Some(record.event));
                let at = choose|at: int| 0 <= at < earlier.len() && earlier[at] == record;
                assert(records[at] == record);
            } else {
                assert(records[records.len() - 1] == record);
            }
        }
    }
}

/// Delivered events stay in the history.
pub proof fn law_delivery_keeps_history(
    tables: Tables,
    ids: Seq<i64>,
    delivered_ts: i64,
    surroundings: Surroundings,
)
    ensures
        history_of(with_delivered(tables, ids, delivered_ts).events, surroundings) == history_of(
            tables.events,
            surroundings,
        ),
{
    assert(history_of(with_delivered(tables, ids, delivered_ts).events, surroundings)
        =~= history_of(tables.events, surroundings));
}

/// Marked events leave the queue, and only they do.
pub proof fn law_delivered_events_leave_queue(
    events: Seq<StoredEvent>,
    ids: Seq<i64>,
    delivered_ts: i64,
)
    ensures
        pending_events(
            events.map_values(|event: StoredEvent| delivered(event, ids, delivered_ts)),
        ) == without(pending_events(events), ids),
    decreases events.len(),
{
    reveal(Seq::filter);
    let mark = |event: StoredEvent| delivered(event, ids, delivered_ts);
    if events.len() > 0 {
        let rest = events.drop_last();
        law_delivered_events_leave_queue(rest, ids, delivered_ts);
        let marked_events = events.map_values(mark);
        assert(marked_events.drop_last() =~= rest.map_values(mark));
        assert(marked_events.last() == mark(events.last()));
        if is_pending(events.last()) {
            assert(pending_events(events).drop_last() =~= pending_events(rest));
        }
    } else {
        assert(events.map_values(mark) =~= seq![]);
    }
}

/// New events join the end of the queue, unless they are delivered already.
pub proof fn law_new_events_join_queue(
    tables: Tables,
    events: Seq<String>,
    delivered_ts: Option<i64>,
)
    ensures
        pending_events(with_events(tables, events, delivered_ts).events) == if delivered_ts is None {
            pending_events(tables.events) + new_events(tables.next_id, events, delivered_ts)
        } else {
            pending_events(tables.events)
        },
    decreases events.len(),
{
    reveal(Seq::filter);
    let all = with_events(tables, events, delivered_ts).events;
    if events.len() > 0 {
        let shorter = events.drop_last();
        law_new_events_join_queue(tables, shorter, delivered_ts);
        assert(all.drop_last() =~= with_events(tables, shorter, delivered_ts).events);
        assert(all.last() == new_events(tables.next_id, events, delivered_ts).last());
        assert(new_events(tables.next_id, shorter, delivered_ts).push(all.last())
            =~= new_events(tables.next_id, events, delivered_ts));
        if delivered_ts is None {
            assert(pending_events(all) =~= pending_events(all.drop_last()).push(all.last()));
            assert(pending_events(all) =~= pending_events(tables.events) + new_events(
                tables.next_id,
                events,
                delivered_ts,
            ));
        }
    } else {
        assert(all =~= tables.events);
        assert(pending_events(tables.events) + new_events(tables.next_id, events, delivered_ts)
            =~= pending_events(tables.events));
    }
}

/// Pruning removes exactly the events outside the retention window, delivered or not, and only
/// when it is due. It keeps the tables sound.
pub proof fn law_pruning_removes_old_events(
    tables: Tables,
    surroundings: Surroundings,
    event: StoredEvent,
)
    requires
        tables.ready(),
    ensures
        pruned(tables, surroundings).events.contains(event) <==> tables.events.contains(event)
            && !(due(tables, surroundings.now) && older_than(
            row_of(event, surroundings),
            retention_cutoff(surroundings.now),
        )),
        pruned(tables, surroundings).ready(),
{
    let young = |event: StoredEvent|
        !older_than(row_of(event, surroundings), retention_cutoff(surroundings.now));
    lemma_filter_holds(tables.events, young, event);
    lemma_filter_ascends(tables.events, young);
    let kept = young_events(tables.events, surroundings);
    assert forall|i: int| 0 <= i < kept.len() implies (#[trigger] kept[i]).id < tables.next_id by {
        let j = choose|j: int| 0 <= j < tables.events.len() && tables.events[j] == kept[i];
        assert(tables.events[j].id < tables.next_id);
    }
}

/// A filter holds what passes it.
pub proof fn lemma_filter_holds<A>(items: Seq<A>, passes: spec_fn(A) -> bool, item: A)
    ensures
        items.filter(passes).contains(item) <==> items.contains(item) && passes(item),
    decreases items.len(),
{
    reveal(Seq::filter);
    if items.len() > 0 {
        let rest = items.drop_last();
        lemma_filter_holds(rest, passes, item);
        let earlier = rest.filter(passes);
        let kept = items.filter(passes);
        if kept.contains(item) {
            let at = choose|at: int| 0 <= at < kept.len() && kept[at] == item;
            if at < earlier.len() {
                assert(earlier[at] == item);
                let i = choose|i: int| 0 <= i < rest.len() && rest[i] == item;
                assert(items[i] == item);
            } else {
                assert(items[items.len() - 1] == item);
            }
        }
        if items.contains(item) && passes(item) {
            let i = choose|i: int| 0 <= i < items.len() && items[i] == item;
            if i < rest.len() {
                assert(rest[i] == item);
                let at = choose|at: int| 0 <= at < earlier.len() && earlier[at] == item;
                assert(kept[at] == item);
            } else {
                assert(kept[kept.len() - 1] == item);
            }
        }
    }
}

/// Pruning takes from the queue the events outside the retention window, when it is due.
pub proof fn law_pruning_shortens_queue(tables: Tables, surroundings: Surroundings)
    ensures
        pending_events(pruned(tables, surroundings).events) == if due(tables, surroundings.now) {
            young_events(pending_events(tables.events), surroundings)
        } else {
            pending_events(tables.events)
        },
{
    let cutoff = retention_cutoff(surroundings.now);
    let young = |event: StoredEvent| !older_than(row_of(event, surroundings), cutoff);
    let pending = |event: StoredEvent| is_pending(event);
    let both = |event: StoredEvent|
        is_pending(event) && !older_than(row_of(event, surroundings), cutoff);
    lemma_filter_twice(tables.events, young, pending, both);
    lemma_filter_twice(tables.events, pending, young, both);
}

/// Events that are stored, and are not too old to keep, stand at the end of the queue, in their
/// order. What stood there before stays, but for what is pruned.
pub proof fn law_stored_events_are_queued(
    events: Seq<String>,
    tables: Tables,
    surroundings: Surroundings,
)
    requires
        forall|i: int|
            0 <= i < events.len() ==> !older_than(
                row_of(#[trigger] new_events(tables.next_id, events, None)[i], surroundings),
                retention_cutoff(surroundings.now),
            ),
    ensures
        pending_events(pruned(with_events(tables, events, None), surroundings).events)
            == pending_events(pruned(tables, surroundings).events) + new_events(
            tables.next_id,
            events,
            None,
        ),
{
    let fresh = new_events(tables.next_id, events, None);
    let stored = with_events(tables, events, None);
    law_new_events_join_queue(tables, events, None);
    law_pruning_shortens_queue(tables, surroundings);
    law_pruning_shortens_queue(stored, surroundings);
    let young = |event: StoredEvent|
        !older_than(row_of(event, surroundings), retention_cutoff(surroundings.now));
    lemma_filter_keeps_end(pending_events(tables.events), fresh, young);
}

proof fn lemma_filter_keeps_end<A>(items: Seq<A>, more: Seq<A>, passes: spec_fn(A) -> bool)
    requires
        forall|i: int| 0 <= i < more.len() ==> passes(#[trigger] more[i]),
    ensures
        (items + more).filter(passes) == items.filter(passes) + more,
    decreases more.len(),
{
    reveal(Seq::filter);
    if more.len() > 0 {
        let shorter = more.drop_last();
        assert forall|i: int| 0 <= i < shorter.len() implies passes(#[trigger] shorter[i]) by {
            assert(shorter[i] == more[i]);
        }
        lemma_filter_keeps_end(items, shorter, passes);
        assert((items + more).drop_last() =~= items + shorter);
        assert((items + more).last() == more[more.len() - 1]);
        assert((items.filter(passes) + shorter).push(more.last()) =~= items.filter(passes) + more);
    } else {
        assert(items + more =~= items);
        assert(items.filter(passes) + more =~= items.filter(passes));
    }
}

/// A prune pass is not repeated within the interval.
pub proof fn law_pruning_waits(tables: Tables, first: Surroundings, second: Surroundings)
    requires
        due(tables, first.now),
        first.now <= i64::MAX,
        second.now - first.now < METRICS_PRUNE_INTERVAL_SECS,
    ensures
        pruned(pruned(tables, first), second) == pruned(tables, first),
{
    law_decimal_reads_back(first.now as nat, 0);
}

/// The tables with the time of an event recorded for a prompt.
pub open spec fn with_sent(tables: Tables, prompt_id: Seq<char>, now_ts: u64) -> Tables {
    Tables { last_sent: tables.last_sent.insert(prompt_id, now_ts as i64), ..tables }
}

/// The rate limiter lets an event pass where none passed for the prompt, or the last one did so
/// long enough ago. It records the time of each event that it lets pass, and nothing else.
pub proof fn law_rate_limiter_decides(
    prompt_id: String,
    now_ts: u64,
    min_interval_secs: u64,
    tables: Tables,
    surroundings: Surroundings,
)
    requires
        tables.ready(),
    ensures
        ({
            let last_sent = if tables.last_sent.contains_key(prompt_id@) {
                Some(tables.last_sent[prompt_id@])
            } else {
                None
            };
            let emit = prompt_id@.len() == 0 || may_emit(last_sent, now_ts, min_interval_secs);
            comes_to(
                starts_throttle(prompt_id, now_ts, min_interval_secs),
                settled(tables),
                surroundings,
                Ok(OutcomeView::Emit(emit)),
                settled(
                    if emit && prompt_id@.len() > 0 {
                        with_sent(tables, prompt_id@, now_ts)
                    } else {
                        tables
                    },
                ),
            )
        }),
{
    let start = starts_throttle(prompt_id, now_ts, min_interval_secs);
    if prompt_id@.len() == 0 {
        lemma_finished(start, settled(tables), surroundings);
    } else {
        let reading = after(start.0, ReplyView::Done);
        let (_, last_sent) = change(tables, Request::ReadLastSent { prompt_id }, surroundings);
        let emit = may_emit(last_sent->Integer_0, now_ts, min_interval_secs);
        let result = Ok::<OutcomeView, GitAiError>(OutcomeView::Emit(emit));
        let decided = after(reading.0, last_sent);
        let left = if emit {
            with_sent(tables, prompt_id@, now_ts)
        } else {
            tables
        };
        let open = opened(tables, tables);
        lemma_finished(ends(OutcomeView::Emit(emit)), settled(left), surroundings);
        if emit {
            let committing = after(decided.0, ReplyView::Done);
            lemma_asked(
                committing,
                opened(left, tables),
                surroundings,
                result,
                settled(left),
            );
        }
        lemma_asked(decided, open, surroundings, result, settled(left));
        lemma_asked(reading, open, surroundings, result, settled(left));
        lemma_asked(start, settled(tables), surroundings, result, settled(left));
    }
}

/// After an event passed the rate limiter, the next one for the prompt passes exactly from the
/// interval on.
pub proof fn law_emissions_are_apart(sent_ts: u64, now_ts: u64, min_interval_secs: u64)
    requires
        sent_ts <= i64::MAX,
        min_interval_secs > 0,
    ensures
        may_emit(Some(sent_ts as i64), now_ts, min_interval_secs) <==> now_ts >= sent_ts
            + min_interval_secs,
{
}

} // verus!
