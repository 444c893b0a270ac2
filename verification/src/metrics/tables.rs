//! The metrics database as its operations see it: what each request reads and changes, as long as
//! the connection does not fail and nobody else writes.

use crate::error::GitAiError;
use crate::metrics::db::{
    after, older_than, prune_due, retention_cutoff, OutcomeView, ProgressView, StepView,
};
use crate::metrics::requests::{MetricRow, ReplyView, Request, SCHEMA_VERSION};
use crate::metrics::types::{MetricEvent, MetricRecord};
use crate::text::{contains_text, decimal_digits, decimal_value};
use vstd::prelude::*;

verus! {

/// A row of the table of events.
pub struct StoredEvent {
    pub id: i64,
    pub event_json: String,
    pub delivered_ts: Option<i64>,
}

/// What the tables hold, and which of them there are.
#[verifier::ext_equal]
pub struct Tables {
    /// Whether the table of recorded facts exists.
    pub has_facts: bool,
    /// Whether the table of events exists.
    pub has_events: bool,
    /// Whether the table of events has its column for the time of delivery.
    pub has_delivery: bool,
    /// Whether the table of the rate limiter exists.
    pub has_throttle: bool,
    /// Whether the index over the pending events exists.
    pub has_index: bool,
    /// The recorded schema version, as it is written.
    pub version: Option<Seq<char>>,
    /// The recorded time of the last prune pass, as it is written.
    pub last_prune: Option<Seq<char>>,
    /// The migrations that ran, in their order, each by the version it leads on from.
    pub migrations: Seq<usize>,
    /// The events, by ascending identifiers.
    pub events: Seq<StoredEvent>,
    /// The identifier of the event that is stored next.
    pub next_id: int,
    /// When an event was last emitted, by prompt.
    pub last_sent: Map<Seq<char>, i64>,
}

/// The tables as the connection sees them, and as they were when the open transaction began.
#[verifier::ext_equal]
pub struct Database {
    pub tables: Tables,
    pub saved: Option<Tables>,
}

/// A database without an open transaction.
pub open spec fn settled(tables: Tables) -> Database {
    Database { tables, saved: None }
}

/// A database in a transaction that began with the tables `saved`.
pub open spec fn opened(tables: Tables, saved: Tables) -> Database {
    Database { tables, saved: Some(saved) }
}

/// The database after a rollback: as it was when the open transaction began, if one is open.
pub open spec fn rolled_back(db: Database) -> Database {
    match db.saved {
        Some(saved) => settled(saved),
        None => db,
    }
}

/// The tables as others see them: those of the last commit.
pub open spec fn committed(db: Database) -> Tables {
    rolled_back(db).tables
}

/// What the database does not hold: the time, how the texts of events read, the words with which a
/// request is refused for want of a table or of a transaction, and those for a column that exists.
pub struct Surroundings {
    pub now: u64,
    pub event_time: spec_fn(Seq<char>) -> Option<u32>,
    pub event: spec_fn(Seq<char>) -> Option<MetricEvent>,
    pub refusal: String,
    pub duplicate_column: String,
}

impl Surroundings {
    /// The words for a column that exists say so.
    pub open spec fn truthful(self) -> bool {
        contains_text(self.duplicate_column@, "duplicate column name"@)
    }
}

impl Tables {
    /// The events have ascending identifiers, all smaller than the next one, and nothing is there
    /// without the table, or the column, that it stands in.
    pub open spec fn sound(self) -> bool {
        &&& forall|i: int, j: int|
            0 <= i < j < self.events.len() ==> (#[trigger] self.events[i]).id < (
            #[trigger] self.events[j]).id
        &&& forall|i: int| 0 <= i < self.events.len() ==> (#[trigger] self.events[i]).id < self.next_id
        &&& !self.has_facts ==> self.version is None && self.last_prune is None
        &&& self.has_delivery ==> self.has_events
        &&& self.has_index ==> self.has_delivery
        &&& !self.has_events ==> self.events.len() == 0
        &&& !self.has_throttle ==> self.last_sent == Map::<Seq<char>, i64>::empty()
    }

    /// The tables are sound and all there, as the initialization of the schema leaves them.
    pub open spec fn ready(self) -> bool {
        &&& self.sound()
        &&& self.has_facts
        &&& self.has_events
        &&& self.has_delivery
        &&& self.has_throttle
        &&& self.has_index
    }
}

/// Whether a character is skipped before a number.
pub open spec fn is_space(c: char) -> bool {
    c == ' ' || 9 <= c as int <= 13
}

/// A text without the spaces at its beginning.
pub open spec fn after_spaces(text: Seq<char>) -> Seq<char>
    decreases text.len(),
{
    if text.len() > 0 && is_space(text[0]) {
        after_spaces(text.skip(1))
    } else {
        text
    }
}

/// The digits at the beginning of a text.
pub open spec fn leading_digits(text: Seq<char>) -> Seq<char>
    decreases text.len(),
{
    if text.len() > 0 && '0' <= text[0] <= '9' {
        seq![text[0]] + leading_digits(text.skip(1))
    } else {
        Seq::empty()
    }
}

/// The number as which a statement takes a text that it casts: spaces, a sign and the digits that
/// follow, kept in the range of 64 bits. Anything after them is passed over, and without digits
/// the number is zero.
pub open spec fn cast_integer(text: Seq<char>) -> int {
    let rest = after_spaces(text);
    let signed = rest.len() > 0 && (rest[0] == '-' || rest[0] == '+');
    let size = decimal_value(
        leading_digits(
            if signed {
                rest.skip(1)
            } else {
                rest
            },
        ),
    ) as int;
    if signed && rest[0] == '-' {
        if size > 0x8000_0000_0000_0000 {
            -0x8000_0000_0000_0000
        } else {
            -size
        }
    } else if size > 0x7fff_ffff_ffff_ffff {
        0x7fff_ffff_ffff_ffff
    } else {
        size
    }
}

/// Whether an event still waits for its delivery.
pub open spec fn is_pending(event: StoredEvent) -> bool {
    event.delivered_ts is None
}

/// The pending events, as they are stored.
pub open spec fn pending_events(events: Seq<StoredEvent>) -> Seq<StoredEvent> {
    events.filter(|event: StoredEvent| is_pending(event))
}

/// The record of a pending event.
pub open spec fn record_of(event: StoredEvent) -> MetricRecord {
    MetricRecord { id: event.id, event_json: event.event_json }
}

/// The records of the first pending events.
pub open spec fn first_pending(events: Seq<StoredEvent>, limit: int) -> Seq<MetricRecord> {
    let pending = pending_events(events).map_values(|event: StoredEvent| record_of(event));
    if limit < pending.len() {
        pending.take(limit)
    } else {
        pending
    }
}

/// An event as pruning sees it.
pub open spec fn row_of(event: StoredEvent, surroundings: Surroundings) -> MetricRow {
    MetricRow {
        id: event.id,
        event_ts: (surroundings.event_time)(event.event_json@),
        delivered_ts: event.delivered_ts,
    }
}

/// The events as pruning sees them.
pub open spec fn rows_of(events: Seq<StoredEvent>, surroundings: Surroundings) -> Seq<MetricRow> {
    events.map_values(|event: StoredEvent| row_of(event, surroundings))
}

/// The events as the history sees them.
pub open spec fn history_of(events: Seq<StoredEvent>, surroundings: Surroundings) -> Seq<
    Option<MetricEvent>,
> {
    events.map_values(|event: StoredEvent| (surroundings.event)(event.event_json@))
}

/// An event after one of them was marked as delivered.
pub open spec fn marked(event: StoredEvent, id: i64, delivered_ts: i64) -> StoredEvent {
    if event.id == id && is_pending(event) {
        StoredEvent { delivered_ts: Some(delivered_ts), ..event }
    } else {
        event
    }
}

/// The events without those of the given identifiers.
pub open spec fn without(events: Seq<StoredEvent>, ids: Seq<i64>) -> Seq<StoredEvent> {
    events.filter(|event: StoredEvent| !ids.contains(event.id))
}

/// The tables after the migration that leads on from a version, and what is answered. The column
/// for the time of delivery is added only once, and the index needs it.
pub open spec fn migrate(tables: Tables, from_version: usize, surroundings: Surroundings) -> (
    Tables,
    ReplyView,
) {
    let ran = Tables { migrations: tables.migrations.push(from_version), ..tables };
    if from_version == 0 {
        (Tables { has_events: true, ..ran }, ReplyView::Done)
    } else if from_version == 1 {
        (Tables { has_throttle: true, ..ran }, ReplyView::Done)
    } else if from_version == 4 {
        if tables.has_delivery {
            (ran, ReplyView::Failed(surroundings.duplicate_column))
        } else {
            (Tables { has_events: true, has_delivery: true, ..ran }, ReplyView::Done)
        }
    } else if from_version == 5 {
        if tables.has_delivery {
            (Tables { has_index: true, ..ran }, ReplyView::Done)
        } else {
            (tables, ReplyView::Failed(surroundings.refusal))
        }
    } else if from_version < SCHEMA_VERSION {
        (ran, ReplyView::Done)
    } else {
        (tables, ReplyView::Failed(surroundings.refusal))
    }
}

/// Whether the tables that a request needs are there.
pub open spec fn has_what_is_needed(tables: Tables, request: Request) -> bool {
    match request {
        Request::ReadSchemaVersion => tables.has_facts,
        Request::RecordVersion { .. } => tables.has_facts,
        Request::ReadLastPrune => tables.has_facts,
        Request::RecordPrune { .. } => tables.has_facts,
        Request::PrepareInsert { delivered } => if delivered {
            tables.has_delivery
        } else {
            tables.has_events
        },
        Request::InsertMetric { delivered_ts, .. } => if delivered_ts is Some {
            tables.has_delivery
        } else {
            tables.has_events
        },
        Request::SelectPending { .. } => tables.has_delivery,
        Request::MarkDelivered { .. } => tables.has_delivery,
        Request::ReadMetricRows => tables.has_delivery,
        Request::CountPending => tables.has_delivery,
        Request::DeleteMetric { .. } => tables.has_events,
        Request::ReadHistory => tables.has_events,
        Request::ReadLastSent { .. } => tables.has_throttle,
        Request::RecordSent { .. } => tables.has_throttle,
        _ => true,
    }
}

/// What a request changes in the tables, where they are there, and what is answered.
pub open spec fn change(tables: Tables, request: Request, surroundings: Surroundings) -> (
    Tables,
    ReplyView,
) {
    match request {
        Request::ReadClock => (tables, ReplyView::Clock(surroundings.now)),
        Request::ReadSchemaVersion => (tables, ReplyView::Text(tables.version)),
        Request::CreateSchemaMetadata => (Tables { has_facts: true, ..tables }, ReplyView::Done),
        Request::Begin => (tables, ReplyView::Done),
        Request::Commit => (tables, ReplyView::Done),
        Request::Rollback => (tables, ReplyView::Done),
        Request::Migrate { from_version } => migrate(tables, from_version, surroundings),
        Request::RecordVersion { version } => (
            match tables.version {
                Some(recorded) if cast_integer(recorded) >= cast_integer(
                    decimal_digits(version as nat),
                ) => tables,
                _ => Tables { version: Some(decimal_digits(version as nat)), ..tables },
            },
            ReplyView::Done,
        ),
        Request::PrepareInsert { .. } => (tables, ReplyView::Done),
        Request::InsertMetric { event_json, delivered_ts } => (
            Tables {
                events: tables.events.push(
                    StoredEvent { id: tables.next_id as i64, event_json, delivered_ts },
                ),
                next_id: tables.next_id + 1,
                ..tables
            },
            ReplyView::Inserted(tables.next_id as i64),
        ),
        Request::SelectPending { limit } => (
            tables,
            ReplyView::Pending(first_pending(tables.events, limit as int)),
        ),
        Request::MarkDelivered { id, delivered_ts } => (
            Tables {
                events: tables.events.map_values(
                    |event: StoredEvent| marked(event, id, delivered_ts),
                ),
                ..tables
            },
            ReplyView::Done,
        ),
        Request::ReadLastPrune => (tables, ReplyView::Text(tables.last_prune)),
        Request::ReadMetricRows => (
            tables,
            ReplyView::Rows(rows_of(tables.events, surroundings)),
        ),
        Request::RecordPrune { now } => (
            Tables { last_prune: Some(decimal_digits(now as nat)), ..tables },
            ReplyView::Done,
        ),
        Request::DeleteMetric { id } => (
            Tables { events: without(tables.events, seq![id]), ..tables },
            ReplyView::Done,
        ),
        Request::CountPending => (
            tables,
            ReplyView::Integer(Some(pending_events(tables.events).len() as i64)),
        ),
        Request::ReadHistory => (
            tables,
            ReplyView::History(history_of(tables.events, surroundings)),
        ),
        Request::ReadLastSent { prompt_id } => (
            tables,
            ReplyView::Integer(
                if tables.last_sent.contains_key(prompt_id@) {
                    Some(tables.last_sent[prompt_id@])
                } else {
                    None
                },
            ),
        ),
        Request::RecordSent { prompt_id, sent_ts } => (
            Tables { last_sent: tables.last_sent.insert(prompt_id@, sent_ts), ..tables },
            ReplyView::Done,
        ),
    }
}

/// What a request comes to.
pub open spec fn answer(db: Database, request: Request, surroundings: Surroundings) -> (
    Database,
    ReplyView,
) {
    match request {
        Request::Begin => if db.saved is None {
            (opened(db.tables, db.tables), ReplyView::Done)
        } else {
            (db, ReplyView::Failed(surroundings.refusal))
        },
        Request::Commit => if db.saved is Some {
            (settled(db.tables), ReplyView::Done)
        } else {
            (db, ReplyView::Failed(surroundings.refusal))
        },
        Request::Rollback => (rolled_back(db), ReplyView::Done),
        _ => if has_what_is_needed(db.tables, request) {
            let (tables, reply) = change(db.tables, request, surroundings);
            (Database { tables, ..db }, reply)
        } else {
            (db, ReplyView::Failed(surroundings.refusal))
        },
    }
}

/// Where an operation ends, if it does so within a number of requests.
pub open spec fn end_within(
    requests: nat,
    step: StepView,
    db: Database,
    surroundings: Surroundings,
) -> Option<(Result<OutcomeView, GitAiError>, Database)>
    decreases requests,
{
    match step.1 {
        ProgressView::Finished(result) => Some((result, db)),
        ProgressView::Ask(request) => if requests == 0 {
            None
        } else {
            let (changed, reply) = answer(db, request, surroundings);
            end_within((requests - 1) as nat, after(step.0, reply), changed, surroundings)
        },
    }
}

/// Whether an operation ends with a result, and leaves this database.
pub open spec fn comes_to(
    step: StepView,
    db: Database,
    surroundings: Surroundings,
    result: Result<OutcomeView, GitAiError>,
    left: Database,
) -> bool {
    exists|requests: nat| #[trigger]
        end_within(requests, step, db, surroundings) == Some((result, left))
}

/// Whether a prune pass is due.
pub open spec fn due(tables: Tables, now: u64) -> bool {
    prune_due(now, tables.last_prune)
}

/// The events that are young enough to keep.
pub open spec fn young_events(events: Seq<StoredEvent>, surroundings: Surroundings) -> Seq<
    StoredEvent,
> {
    events.filter(
        |event: StoredEvent|
            !older_than(row_of(event, surroundings), retention_cutoff(surroundings.now)),
    )
}

/// The tables after a prune pass, where one is due.
pub open spec fn pruned(tables: Tables, surroundings: Surroundings) -> Tables {
    if due(tables, surroundings.now) {
        Tables {
            last_prune: Some(decimal_digits(surroundings.now as nat)),
            events: young_events(tables.events, surroundings),
            ..tables
        }
    } else {
        tables
    }
}

/// The new rows for events that are stored one after the other.
pub open spec fn new_events(
    first_id: int,
    events: Seq<String>,
    delivered_ts: Option<i64>,
) -> Seq<StoredEvent> {
    Seq::new(
        events.len(),
        |i: int| StoredEvent { id: (first_id + i) as i64, event_json: events[i], delivered_ts },
    )
}

/// The tables with more events stored.
pub open spec fn with_events(
    tables: Tables,
    events: Seq<String>,
    delivered_ts: Option<i64>,
) -> Tables {
    Tables {
        events: tables.events + new_events(tables.next_id, events, delivered_ts),
        next_id: tables.next_id + events.len(),
        ..tables
    }
}

/// An event after several of them were marked as delivered.
pub open spec fn delivered(event: StoredEvent, ids: Seq<i64>, delivered_ts: i64) -> StoredEvent {
    if is_pending(event) && ids.contains(event.id) {
        StoredEvent { delivered_ts: Some(delivered_ts), ..event }
    } else {
        event
    }
}

/// The tables with events marked as delivered.
pub open spec fn with_delivered(tables: Tables, ids: Seq<i64>, delivered_ts: i64) -> Tables {
    Tables {
        events: tables.events.map_values(
            |event: StoredEvent| delivered(event, ids, delivered_ts),
        ),
        ..tables
    }
}

} // verus!
