//! What the operations on the metrics database are for: what each leaves in the tables and returns,
//! told by the times, identifiers and texts themselves.

use crate::error::GitAiError;
use crate::metrics::db::{
    asks, doomed_ids, history_records, may_emit, names_below_home, older_than, repo_url_of,
    starts_batch, starts_deliver, starts_insert, starts_schema, starts_throttle, OutcomeView,
    TaskView,
};
use crate::metrics::db_laws::{
    law_batch_is_oldest_pending, law_count_is_pending, law_insert_stores_events,
    law_later_schema_is_refused, law_marking_records_delivery, law_one_end,
    law_pruning_removes_old_events, law_rate_limiter_decides, law_schema_is_brought_up_to_date,
    migrated_from, new_ids, with_facts, with_sent,
};
use crate::metrics::requests::{MetricRow, Request};
use crate::metrics::tables::{
    comes_to, due, end_within, first_pending, is_pending, pending_events, pruned, settled,
    with_delivered, with_events, Database, StoredEvent, Surroundings, Tables,
};
use crate::metrics::types::MetricEvent;
use crate::selection::{lemma_filter_positions, lemma_one_more_position, positions_within};
use crate::text::{contains_text, decimal_digits, law_decimal_reads_back, signed_value};
use crate::text_laws::law_anything_else_is_no_number;
use vstd::prelude::*;

verus! {

/// Whether an event is outside the retention window of 45 days: by its own time, whatever its
/// delivery, or, where its text is no event, by the time of its delivery.
pub open spec fn expired(event: StoredEvent, surroundings: Surroundings) -> bool {
    let window_start = surroundings.now - 45 * 24 * 3600;
    match (surroundings.event_time)(event.event_json@) {
        Some(time) => time < window_start,
        None => event.delivered_ts is Some && 0 <= event.delivered_ts->0 < window_start,
    }
}

/// Whether 24 hours have passed since the recorded time of the last prune pass, or none is
/// recorded that reads as a number. A negative number counts as a time that is far ahead.
pub open spec fn pass_is_due(tables: Tables, now: u64) -> bool {
    match tables.last_prune {
        None => true,
        Some(text) => match signed_value(text) {
            None => true,
            Some(last) => now - (if last < 0 {
                last + 0x1_0000_0000_0000_0000
            } else {
                last
            }) >= 24 * 3600,
        },
    }
}

/// The time for which a stored number stands: a negative one stands for a time past those that the
/// database's numbers can hold.
pub open spec fn unsigned(number: i64) -> int {
    if number < 0 {
        number + 0x1_0000_0000_0000_0000
    } else {
        number as int
    }
}

proof fn lemma_unsigned(number: i64)
    ensures
        (number as u64) as int == unsigned(number),
{
    if number < 0 {
        assert(number < 0 ==> (number as u64) == number + 0x1_0000_0000_0000_0000)
            by (bit_vector);
    }
}

proof fn lemma_signed_in_range(text: Seq<char>)
    ensures
        signed_value(text) matches Some(last) ==> i64::MIN <= last <= i64::MAX,
{
}

/// A prune pass is due exactly when 24 hours have passed, or no time is recorded.
pub proof fn law_prune_pass_is_daily(tables: Tables, now: u64)
    ensures
        due(tables, now) <==> pass_is_due(tables, now),
{
    if let Some(text) = tables.last_prune {
        lemma_signed_in_range(text);
        if let Some(last) = signed_value(text) {
            lemma_unsigned(last as i64);
        }
    }
}

/// A row is old exactly when its event's own time is before the cutoff, whatever its delivery, or,
/// where there is no such time, when it was delivered at a time from zero up to before the cutoff.
pub proof fn law_row_ages_by_its_own_time(row: MetricRow, cutoff: int)
    ensures
        row.event_ts is Some ==> (older_than(row, cutoff) <==> row.event_ts->0 < cutoff),
        row.event_ts is None && row.delivered_ts is Some ==> (older_than(row, cutoff) <==> 0
            <= row.delivered_ts->0 < cutoff),
        row.event_ts is None && row.delivered_ts is None ==> !older_than(row, cutoff),
{
}

/// The old rows are listed by their identifiers, each once and in their order.
pub proof fn law_old_rows_are_listed(rows: Seq<MetricRow>, cutoff: int) -> (positions: Seq<int>)
    ensures
        positions_within(positions, rows.len()),
        forall|k: int| #[trigger]
            positions.contains(k) <==> 0 <= k < rows.len() && (match rows[k].event_ts {
                Some(time) => time < cutoff,
                None => rows[k].delivered_ts is Some && 0 <= rows[k].delivered_ts->0 < cutoff,
            }),
        doomed_ids(rows, cutoff).len() == positions.len(),
        forall|i: int|
            0 <= i < positions.len() ==> doomed_ids(rows, cutoff)[i]
                == rows[#[trigger] positions[i]].id,
    decreases rows.len(),
{
    if rows.len() == 0 {
        Seq::empty()
    } else {
        let rest = rows.drop_last();
        let last = rows.len() - 1;
        let before = law_old_rows_are_listed(rest, cutoff);
        lemma_one_more_position(before, rest.len());
        let old = match rows[last].event_ts {
            Some(time) => time < cutoff,
            None => rows[last].delivered_ts is Some && 0 <= rows[last].delivered_ts->0 < cutoff,
        };
        let positions = if old {
            before.push(last)
        } else {
            before
        };
        assert forall|k: int| #[trigger]
            positions.contains(k) <==> 0 <= k < rows.len() && (match rows[k].event_ts {
                Some(time) => time < cutoff,
                None => rows[k].delivered_ts is Some && 0 <= rows[k].delivered_ts->0 < cutoff,
            }) by {
            if 0 <= k < last {
                assert(rest[k] == rows[k]);
            }
            assert(before.contains(k) ==> 0 <= k < last);
            assert(0 <= k < last ==> (before.contains(k) <==> match rest[k].event_ts {
                Some(time) => time < cutoff,
                None => rest[k].delivered_ts is Some && 0 <= rest[k].delivered_ts->0 < cutoff,
            }));
        }
        assert forall|i: int| 0 <= i < positions.len() implies doomed_ids(rows, cutoff)[i]
            == rows[#[trigger] positions[i]].id by {
            if i < before.len() {
                assert(doomed_ids(rest, cutoff)[i] == rest[before[i]].id);
            }
        }
        positions
    }
}

/// A prune pass that is due leaves exactly the events inside the retention window, and one that is
/// not due leaves all.
pub proof fn law_prune_pass_keeps_window(
    tables: Tables,
    surroundings: Surroundings,
    event: StoredEvent,
)
    requires
        tables.ready(),
    ensures
        pruned(tables, surroundings).events.contains(event) <==> tables.events.contains(event)
            && !(pass_is_due(tables, surroundings.now) && expired(event, surroundings)),
        pruned(tables, surroundings).ready(),
        pass_is_due(tables, surroundings.now) ==> pruned(tables, surroundings).last_prune == Some(
            decimal_digits(surroundings.now as nat),
        ),
        !pass_is_due(tables, surroundings.now) ==> pruned(tables, surroundings) == tables,
        pruned(tables, surroundings).next_id == tables.next_id,
        pruned(tables, surroundings).last_sent == tables.last_sent,
        pruned(tables, surroundings).version == tables.version,
{
    law_prune_pass_is_daily(tables, surroundings.now);
    law_pruning_removes_old_events(tables, surroundings, event);
}

/// Storing events returns their new identifiers, one after the other, and leaves in the table
/// exactly the events before and the new ones, but for those that a prune pass takes away where
/// it is due. The new events have the texts and the time of delivery that were given.
pub proof fn law_stored_events_are_there(
    events: Seq<String>,
    delivered_ts: Option<i64>,
    tables: Tables,
    surroundings: Surroundings,
    result: Result<OutcomeView, GitAiError>,
    left: Database,
    event: StoredEvent,
)
    requires
        tables.ready(),
        events.len() > 0,
        i64::MIN <= tables.next_id,
        tables.next_id + events.len() <= i64::MAX,
        comes_to(
            starts_insert(events, delivered_ts),
            settled(tables),
            surroundings,
            result,
            left,
        ),
    ensures
        result matches Ok(OutcomeView::Inserted(ids)) && {
            &&& ids.len() == events.len()
            &&& forall|i: int| 0 <= i < ids.len() ==> #[trigger] ids[i] == tables.next_id + i
        },
        left.saved is None,
        left.tables.ready(),
        left.tables.next_id == tables.next_id + events.len(),
        left.tables.events.contains(event) <==> (tables.events.contains(event) || exists|i: int|
            0 <= i < events.len() && event.event_json == #[trigger] events[i] && event.id
                == tables.next_id + i && event.delivered_ts == delivered_ts) && !(pass_is_due(
            tables,
            surroundings.now,
        ) && expired(event, surroundings)),
{
    let stored = with_events(tables, events, delivered_ts);
    law_insert_stores_events(events, delivered_ts, tables, surroundings);
    law_one_end(
        starts_insert(events, delivered_ts),
        settled(tables),
        surroundings,
        result,
        left,
        Ok(OutcomeView::Inserted(new_ids(tables.next_id, events.len()))),
        settled(pruned(stored, surroundings)),
    );
    law_prune_pass_keeps_window(stored, surroundings, event);
    let count = tables.events.len();
    if stored.events.contains(event) {
        let k = choose|k: int| 0 <= k < stored.events.len() && stored.events[k] == event;
        if k < count {
            assert(tables.events[k] == event);
        } else {
            assert(event.event_json == events[k - count]);
        }
    }
    if tables.events.contains(event) {
        let k = choose|k: int| 0 <= k < count && tables.events[k] == event;
        assert(stored.events[k] == event);
    }
    if exists|i: int|
        0 <= i < events.len() && event.event_json == #[trigger] events[i] && event.id
            == tables.next_id + i && event.delivered_ts == delivered_ts {
        let i = choose|i: int|
            0 <= i < events.len() && event.event_json == #[trigger] events[i] && event.id
                == tables.next_id + i && event.delivered_ts == delivered_ts;
        assert(stored.events[count + i] == event);
    }
}

/// Whether an event is another after the marking of some identifiers: only a pending one among
/// them has changed, and only in its time of delivery.
pub open spec fn is_marked_from(
    event: StoredEvent,
    before: StoredEvent,
    ids: Seq<i64>,
    delivered_ts: i64,
) -> bool {
    &&& event.id == before.id
    &&& event.event_json == before.event_json
    &&& event.delivered_ts == if before.delivered_ts is None && exists|k: int|
        0 <= k < ids.len() && #[trigger] ids[k] == before.id {
        Some(delivered_ts)
    } else {
        before.delivered_ts
    }
}

/// Marking events gives exactly the pending ones among them the time of delivery. All events stay
/// in the table, but for those that a prune pass takes away where it is due.
pub proof fn law_marked_events_stay(
    ids: Seq<i64>,
    delivered_ts: i64,
    tables: Tables,
    surroundings: Surroundings,
    result: Result<OutcomeView, GitAiError>,
    left: Database,
    event: StoredEvent,
)
    requires
        tables.ready(),
        ids.len() > 0,
        comes_to(
            starts_deliver(ids, delivered_ts),
            settled(tables),
            surroundings,
            result,
            left,
        ),
    ensures
        result == Ok::<OutcomeView, GitAiError>(OutcomeView::Delivered),
        left.saved is None,
        left.tables.ready(),
        left.tables.next_id == tables.next_id,
        left.tables.events.contains(event) <==> (exists|k: int|
            0 <= k < tables.events.len() && is_marked_from(
                event,
                #[trigger] tables.events[k],
                ids,
                delivered_ts,
            )) && !(pass_is_due(tables, surroundings.now) && expired(event, surroundings)),
{
    let marked = with_delivered(tables, ids, delivered_ts);
    law_marking_records_delivery(ids, delivered_ts, tables, surroundings);
    law_one_end(
        starts_deliver(ids, delivered_ts),
        settled(tables),
        surroundings,
        result,
        left,
        Ok(OutcomeView::Delivered),
        settled(pruned(marked, surroundings)),
    );
    law_prune_pass_keeps_window(marked, surroundings, event);
    assert forall|k: int| 0 <= k < tables.events.len() implies is_marked_from(
        marked.events[k],
        #[trigger] tables.events[k],
        ids,
        delivered_ts,
    ) by {
        let before = tables.events[k];
        if ids.contains(before.id) {
            let at = choose|at: int| 0 <= at < ids.len() && ids[at] == before.id;
            assert(ids[at] == before.id);
        }
    }
    if marked.events.contains(event) {
        let k = choose|k: int| 0 <= k < marked.events.len() && marked.events[k] == event;
        assert(is_marked_from(event, tables.events[k], ids, delivered_ts));
    }
    if exists|k: int|
        0 <= k < tables.events.len() && is_marked_from(
            event,
            #[trigger] tables.events[k],
            ids,
            delivered_ts,
        ) {
        let k = choose|k: int|
            0 <= k < tables.events.len() && is_marked_from(
                event,
                #[trigger] tables.events[k],
                ids,
                delivered_ts,
            );
        assert(is_marked_from(marked.events[k], tables.events[k], ids, delivered_ts));
        assert(marked.events[k] == event);
    }
}

/// A batch holds the events without a time of delivery that were stored first: as many as the limit
/// says, or all, each with its identifier and text. Reading it changes nothing.
pub proof fn law_batch_is_first_undelivered(
    limit: usize,
    tables: Tables,
    surroundings: Surroundings,
    result: Result<OutcomeView, GitAiError>,
    left: Database,
) -> (positions: Seq<int>)
    requires
        limit <= i64::MAX,
        tables.ready(),
        comes_to(starts_batch(limit), settled(tables), surroundings, result, left),
    ensures
        left == settled(tables),
        positions_within(positions, tables.events.len()),
        forall|k: int| #[trigger]
            positions.contains(k) <==> 0 <= k < tables.events.len()
                && tables.events[k].delivered_ts is None,
        result matches Ok(OutcomeView::Batch(records)) && {
            &&& records.len() == if limit < positions.len() {
                limit as nat
            } else {
                positions.len()
            }
            &&& forall|i: int|
                0 <= i < records.len() ==> (#[trigger] records[i]).id
                    == tables.events[positions[i]].id && records[i].event_json
                    == tables.events[positions[i]].event_json
        },
{
    law_batch_is_oldest_pending(limit, tables, surroundings);
    let records = first_pending(tables.events, limit as int);
    law_one_end(
        starts_batch(limit),
        settled(tables),
        surroundings,
        result,
        left,
        Ok(OutcomeView::Batch(records)),
        settled(tables),
    );
    let pending = |event: StoredEvent| is_pending(event);
    let positions = lemma_filter_positions(tables.events, pending);
    assert forall|i: int| 0 <= i < records.len() implies (#[trigger] records[i]).id
        == tables.events[positions[i]].id && records[i].event_json
        == tables.events[positions[i]].event_json by {
        assert(pending_events(tables.events)[i] == tables.events[positions[i]]);
    }
    positions
}

/// A limit that the database's numbers cannot hold is refused, and nothing is asked.
pub proof fn law_limit_has_to_fit(
    limit: usize,
    db: Database,
    surroundings: Surroundings,
    result: Result<OutcomeView, GitAiError>,
    left: Database,
)
    requires
        limit > i64::MAX,
        comes_to(starts_batch(limit), db, surroundings, result, left),
    ensures
        result == Err::<OutcomeView, GitAiError>(GitAiError::LimitOutOfRange),
        left == db,
{
    let requests = choose|requests: nat| #[trigger]
        end_within(requests, starts_batch(limit), db, surroundings)
            == Some((result, left));
    assert(end_within(requests, starts_batch(limit), db, surroundings)
        == Some((result, left)));
}

/// The count is the number of events without a time of delivery. Counting changes nothing.
pub proof fn law_count_is_undelivered(
    tables: Tables,
    surroundings: Surroundings,
    result: Result<OutcomeView, GitAiError>,
    left: Database,
) -> (positions: Seq<int>)
    requires
        tables.ready(),
        tables.events.len() <= i64::MAX,
        tables.events.len() <= usize::MAX,
        comes_to(
            asks(TaskView::Count, Request::CountPending),
            settled(tables),
            surroundings,
            result,
            left,
        ),
    ensures
        left == settled(tables),
        positions_within(positions, tables.events.len()),
        forall|k: int| #[trigger]
            positions.contains(k) <==> 0 <= k < tables.events.len()
                && tables.events[k].delivered_ts is None,
        result matches Ok(OutcomeView::Count(count)) && count == positions.len(),
{
    let pending = |event: StoredEvent| is_pending(event);
    let positions = lemma_filter_positions(tables.events, pending);
    tables.events.lemma_filter_len(pending);
    law_count_is_pending(tables, surroundings);
    law_one_end(
        asks(TaskView::Count, Request::CountPending),
        settled(tables),
        surroundings,
        result,
        left,
        Ok(OutcomeView::Count(pending_events(tables.events).len() as usize)),
        settled(tables),
    );
    positions
}

/// The repository URL of an event: the text at position 1 of its attributes.
pub open spec fn url_of(event: MetricEvent) -> Option<String> {
    if event.attrs@.contains_key(seq!['1']) && event.attrs@[seq!['1']] is Text {
        Some(event.attrs@[seq!['1']]->Text_0)
    } else {
        None
    }
}

/// Whether an event is asked for: it is no earlier than a time, of one of some kinds, and its
/// repository URL passes a filter. Without a filter any does; the empty filter asks for events
/// without a URL, any other for a URL that contains it.
pub open spec fn asked_for(
    event: MetricEvent,
    since_ts: u32,
    repo_filter: Option<Seq<char>>,
    event_ids: Seq<u16>,
) -> bool {
    &&& event.timestamp >= since_ts
    &&& exists|k: int| 0 <= k < event_ids.len() && #[trigger] event_ids[k] == event.event_id
    &&& repo_filter matches Some(filter) ==> if filter.len() == 0 {
        url_of(event) is None
    } else {
        url_of(event) matches Some(url) && contains_text(url@, filter)
    }
}

/// A query of the history returns a record for each readable event that is asked for, in their
/// order and no others, with the time, the kind and the repository URL of the event.
pub proof fn law_history_is_what_is_asked_for(
    events: Seq<Option<MetricEvent>>,
    since_ts: u32,
    repo_filter: Option<Seq<char>>,
    event_ids: Seq<u16>,
) -> (positions: Seq<int>)
    ensures
        positions_within(positions, events.len()),
        forall|k: int| #[trigger]
            positions.contains(k) <==> 0 <= k < events.len() && events[k] is Some && asked_for(
                events[k]->0,
                since_ts,
                repo_filter,
                event_ids,
            ),
        history_records(events, since_ts, repo_filter, event_ids).len() == positions.len(),
        forall|i: int|
            0 <= i < positions.len() ==> {
                let record = history_records(events, since_ts, repo_filter, event_ids)[i];
                let event = events[#[trigger] positions[i]]->0;
                &&& record.event == event
                &&& record.event_id == event.event_id
                &&& record.ts == event.timestamp
                &&& record.repo_url == url_of(event)
            },
    decreases events.len(),
{
    let records = history_records(events, since_ts, repo_filter, event_ids);
    if events.len() == 0 {
        Seq::empty()
    } else {
        let rest = events.drop_last();
        let last = events.len() - 1;
        let before = law_history_is_what_is_asked_for(rest, since_ts, repo_filter, event_ids);
        lemma_one_more_position(before, rest.len());
        let wanted = events[last] is Some && asked_for(
            events[last]->0,
            since_ts,
            repo_filter,
            event_ids,
        );
        if let Some(event) = events[last] {
            lemma_url(event);
            if event_ids.contains(event.event_id) {
                let k = choose|k: int|
                    0 <= k < event_ids.len() && event_ids[k] == event.event_id;
                assert(event_ids[k] == event.event_id);
            }
        }
        let positions = if wanted {
            before.push(last)
        } else {
            before
        };
        assert forall|k: int| #[trigger]
            positions.contains(k) <==> 0 <= k < events.len() && events[k] is Some && asked_for(
                events[k]->0,
                since_ts,
                repo_filter,
                event_ids,
            ) by {
            if 0 <= k < last {
                assert(rest[k] == events[k]);
            }
            assert(before.contains(k) <==> 0 <= k < last && rest[k] is Some && asked_for(
                rest[k]->0,
                since_ts,
                repo_filter,
                event_ids,
            ));
        }
        let earlier = history_records(rest, since_ts, repo_filter, event_ids);
        assert forall|i: int| 0 <= i < positions.len() implies {
            let record = records[i];
            let event = events[#[trigger] positions[i]]->0;
            &&& record.event == event
            &&& record.event_id == event.event_id
            &&& record.ts == event.timestamp
            &&& record.repo_url == url_of(event)
        } by {
            if i < before.len() {
                assert(earlier[i].event == rest[before[i]]->0);
                assert(rest[before[i]] == events[before[i]]);
            }
        }
        positions
    }
}

proof fn lemma_url(event: MetricEvent)
    ensures
        repo_url_of(event) == url_of(event),
{
    assert(decimal_digits(1) =~= seq!['1']);
}

/// The rate limiter lets an event pass exactly where it has no prompt, where none is recorded for
/// the prompt, or where the least interval has passed since the recorded time; a recorded time
/// that is ahead counts as no time passed, and a negative one as that much before the end of the
/// times. What passes is recorded, and nothing else changes.
pub proof fn law_rate_limiter_waits(
    prompt_id: String,
    now_ts: u64,
    min_interval_secs: u64,
    tables: Tables,
    surroundings: Surroundings,
    result: Result<OutcomeView, GitAiError>,
    left: Database,
)
    requires
        tables.ready(),
        comes_to(
            starts_throttle(prompt_id, now_ts, min_interval_secs),
            settled(tables),
            surroundings,
            result,
            left,
        ),
    ensures
        ({
            let recorded = tables.last_sent.contains_key(prompt_id@);
            let last = unsigned(tables.last_sent[prompt_id@]);
            let elapsed = if last <= now_ts {
                now_ts - last
            } else {
                0
            };
            let emit = prompt_id@.len() == 0 || !recorded || elapsed >= min_interval_secs;
            &&& result == Ok::<OutcomeView, GitAiError>(OutcomeView::Emit(emit))
            &&& left.saved is None
            &&& emit && prompt_id@.len() > 0 ==> left.tables == (Tables {
                last_sent: tables.last_sent.insert(prompt_id@, left.tables.last_sent[prompt_id@]),
                ..tables
            }) && unsigned(left.tables.last_sent[prompt_id@]) == now_ts
            &&& !(emit && prompt_id@.len() > 0) ==> left.tables == tables
        }),
{
    law_rate_limiter_decides(prompt_id, now_ts, min_interval_secs, tables, surroundings);
    let last_sent = if tables.last_sent.contains_key(prompt_id@) {
        Some(tables.last_sent[prompt_id@])
    } else {
        None
    };
    let emit = prompt_id@.len() == 0 || may_emit(last_sent, now_ts, min_interval_secs);
    lemma_unsigned(tables.last_sent[prompt_id@]);
    lemma_unsigned(now_ts as i64);
    assert((now_ts as i64) as u64 == now_ts) by (bit_vector);
    law_one_end(
        starts_throttle(prompt_id, now_ts, min_interval_secs),
        settled(tables),
        surroundings,
        result,
        left,
        Ok(OutcomeView::Emit(emit)),
        settled(
            if emit && prompt_id@.len() > 0 {
                with_sent(tables, prompt_id@, now_ts)
            } else {
                tables
            },
        ),
    );
}

/// A time that was recorded keeps the rate limiter from letting another event pass until the least
/// interval is over, wherever the times are, and not a second longer.
pub proof fn law_recorded_time_counts(sent_ts: u64, now_ts: u64, min_interval_secs: u64)
    requires
        min_interval_secs > 0,
    ensures
        may_emit(Some(sent_ts as i64), now_ts, min_interval_secs) <==> now_ts >= sent_ts
            + min_interval_secs,
{
    assert((sent_ts as i64) as u64 == sent_ts) by (bit_vector);
}

/// A database that records a version below 6, or none, ends up with everything at version 6: the
/// migrations from its version on ran once each, one after the other.
pub proof fn law_initialization_runs_missing_migrations(
    version: usize,
    tables: Tables,
    surroundings: Surroundings,
    result: Result<OutcomeView, GitAiError>,
    left: Database,
)
    requires
        tables.sound(),
        surroundings.truthful(),
        version <= 6,
        tables.version == Some(decimal_digits(version as nat)) || (tables.version is None
            && version == 0),
        version == 5 ==> tables.has_delivery,
        comes_to(starts_schema(), settled(tables), surroundings, result, left),
    ensures
        result == Ok::<OutcomeView, GitAiError>(OutcomeView::Ready),
        left.saved is None,
        left.tables.has_facts || version == 6,
        left.tables.version == Some(seq!['6']),
        left.tables.migrations.len() == tables.migrations.len() + (6 - version),
        forall|i: int|
            0 <= i < tables.migrations.len() ==> left.tables.migrations[i]
                == #[trigger] tables.migrations[i],
        forall|i: int|
            0 <= i < 6 - version ==> #[trigger] left.tables.migrations[tables.migrations.len() + i]
                == version + i,
        version <= 4 ==> left.tables.has_events && left.tables.has_delivery,
        version <= 1 ==> left.tables.has_throttle,
        version <= 5 ==> left.tables.has_index,
        left.tables.events == tables.events,
        left.tables.last_sent == tables.last_sent,
        left.tables.next_id == tables.next_id,
        left.tables.last_prune == tables.last_prune,
{
    law_decimal_reads_back(version as nat, usize::MAX as nat);
    assert(decimal_digits(6) =~= seq!['6']);
    law_schema_is_brought_up_to_date(tables, surroundings);
    law_one_end(
        starts_schema(),
        settled(tables),
        surroundings,
        result,
        left,
        Ok(OutcomeView::Ready),
        settled(
            migrated_from(
                with_facts(tables),
                version as int,
            ),
        ),
    );
}

/// A database whose recorded version is no number is treated as one without a version: all six
/// migrations run, one after the other, and the events stay.
pub proof fn law_unreadable_version_counts_as_none(
    text: Seq<char>,
    tables: Tables,
    surroundings: Surroundings,
    result: Result<OutcomeView, GitAiError>,
    left: Database,
)
    requires
        tables.sound(),
        surroundings.truthful(),
        tables.version == Some(text),
        text.len() == 0 || exists|i: int|
            1 <= i < text.len() && !('0' <= #[trigger] text[i] <= '9'),
        comes_to(starts_schema(), settled(tables), surroundings, result, left),
    ensures
        result == Ok::<OutcomeView, GitAiError>(OutcomeView::Ready),
        left.saved is None,
        left.tables.ready(),
        left.tables.migrations == tables.migrations + seq![
            0usize,
            1usize,
            2usize,
            3usize,
            4usize,
            5usize,
        ],
        left.tables.events == tables.events,
        left.tables.last_sent == tables.last_sent,
        left.tables.next_id == tables.next_id,
        left.tables.last_prune == tables.last_prune,
{
    law_anything_else_is_no_number(text, usize::MAX as nat);
    law_schema_is_brought_up_to_date(tables, surroundings);
    law_one_end(
        starts_schema(),
        settled(tables),
        surroundings,
        result,
        left,
        Ok(OutcomeView::Ready),
        settled(migrated_from(with_facts(tables), 0)),
    );
    assert(left.tables.migrations =~= tables.migrations + seq![
        0usize,
        1usize,
        2usize,
        3usize,
        4usize,
        5usize,
    ]);
}

/// A database that records a version above 6 is refused with both numbers, and left as it is.
pub proof fn law_version_above_six_is_refused(
    version: usize,
    tables: Tables,
    surroundings: Surroundings,
    result: Result<OutcomeView, GitAiError>,
    left: Database,
)
    requires
        tables.sound(),
        version > 6,
        tables.version == Some(decimal_digits(version as nat)),
        comes_to(starts_schema(), settled(tables), surroundings, result, left),
    ensures
        result == Err::<OutcomeView, GitAiError>(
            GitAiError::SchemaTooNew { found: version, supported: 6 },
        ),
        left == settled(tables),
{
    law_decimal_reads_back(version as nat, usize::MAX as nat);
    law_later_schema_is_refused(tables, surroundings);
    law_one_end(
        starts_schema(),
        settled(tables),
        surroundings,
        result,
        left,
        Err(GitAiError::SchemaTooNew { found: version, supported: 6 }),
        settled(tables),
    );
}

/// The database file is two directories below the home directory, each name without a separator.
pub proof fn law_database_is_below_home()
    ensures
        names_below_home().len() == 3,
        names_below_home()[0] == ".git-ai"@,
        names_below_home()[1] == "internal"@,
        names_below_home()[2] == "metrics-db"@,
        forall|i: int|
            0 <= i < 3 ==> !(#[trigger] names_below_home()[i]).contains('/')
                && !names_below_home()[i].contains('\\'),
{
    reveal_strlit(".git-ai");
    reveal_strlit("internal");
    reveal_strlit("metrics-db");
}

} // verus!
