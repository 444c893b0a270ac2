//! What is asked of the metrics database, and what it answers.

use crate::error::GitAiError;
use crate::metrics::types::{MetricEvent, MetricRecord};
use crate::text::{decimal, decimal_digits};
use vstd::prelude::*;

verus! {

/// The schema version that this version of the program writes.
pub const SCHEMA_VERSION: usize = 6;

/// A value bound to a parameter of a statement.
#[derive(Debug)]
pub enum SqlValue {
    Integer(i64),
    Text(String),
}

/// A statement and the values of its parameters.
#[derive(Debug)]
pub struct Statement {
    pub sql: &'static str,
    pub params: Vec<SqlValue>,
}

/// One request to the outside: to the connection of the metrics database, or to the clock.
#[derive(Debug)]
pub enum Request {
    /// The time in Unix seconds.
    ReadClock,
    /// The recorded schema version: one text, or no row.
    ReadSchemaVersion,
    /// Create the table of recorded facts where it is missing.
    CreateSchemaMetadata,
    /// Open a transaction.
    Begin,
    /// Commit the open transaction.
    Commit,
    /// Roll back the open transaction, if one is still open.
    Rollback,
    /// Run the migration that leads on from a schema version.
    Migrate { from_version: usize },
    /// Record a schema version unless a later one is recorded.
    RecordVersion { version: usize },
    /// Prepare to store events, delivered already or not.
    PrepareInsert { delivered: bool },
    /// Store an event, delivered already where a time is given.
    InsertMetric { event_json: String, delivered_ts: Option<i64> },
    /// The pending events with the smallest identifiers, at most `limit` of them, in their order.
    SelectPending { limit: i64 },
    /// Mark a pending event as delivered.
    MarkDelivered { id: i64, delivered_ts: i64 },
    /// When rows were last pruned: one text, or no row.
    ReadLastPrune,
    /// All stored events in the order of their identifiers, with what tells their age.
    ReadMetricRows,
    /// Record when rows were last pruned.
    RecordPrune { now: u64 },
    /// Delete a stored event.
    DeleteMetric { id: i64 },
    /// The number of pending events.
    CountPending,
    /// All stored events in the order of their identifiers, as far as they can be read.
    ReadHistory,
    /// When an event was last emitted for a prompt: one number, or no row.
    ReadLastSent { prompt_id: String },
    /// Record when an event was last emitted for a prompt.
    RecordSent { prompt_id: String, sent_ts: i64 },
}

/// A stored event as pruning sees it: the event's own time, where its text can be read, and when
/// it was delivered.
#[derive(Debug, Clone, Copy, PartialEq, Eq, Structural)]
pub struct MetricRow {
    pub id: i64,
    pub event_ts: Option<u32>,
    pub delivered_ts: Option<i64>,
}

/// The answer to a request.
#[derive(Debug)]
pub enum Reply {
    /// It was done.
    Done,
    Clock(u64),
    /// The text of the one row, if there is a row.
    Text(Option<String>),
    /// The number of the one row, if there is a row.
    Integer(Option<i64>),
    /// It was stored under this identifier.
    Inserted(i64),
    Pending(Vec<MetricRecord>),
    Rows(Vec<MetricRow>),
    /// Each event, or nothing for a text that is no event.
    History(Vec<Option<MetricEvent>>),
    /// It failed, with these words.
    Failed(String),
}

/// The contents of a [`Reply`].
pub enum ReplyView {
    Done,
    Clock(u64),
    Text(Option<Seq<char>>),
    Integer(Option<i64>),
    Inserted(i64),
    Pending(Seq<MetricRecord>),
    Rows(Seq<MetricRow>),
    History(Seq<Option<MetricEvent>>),
    Failed(String),
}

/// The contents of an optional text.
pub open spec fn text_view(text: Option<String>) -> Option<Seq<char>> {
    match text {
        Some(text) => Some(text@),
        None => None,
    }
}

impl View for Reply {
    type V = ReplyView;

    open spec fn view(&self) -> ReplyView {
        match *self {
            Reply::Done => ReplyView::Done,
            Reply::Clock(now) => ReplyView::Clock(now),
            Reply::Text(text) => ReplyView::Text(text_view(text)),
            Reply::Integer(number) => ReplyView::Integer(number),
            Reply::Inserted(id) => ReplyView::Inserted(id),
            Reply::Pending(records) => ReplyView::Pending(records@),
            Reply::Rows(rows) => ReplyView::Rows(rows@),
            Reply::History(events) => ReplyView::History(events@),
            Reply::Failed(words) => ReplyView::Failed(words),
        }
    }
}

/// The contents of an [`SqlValue`].
pub enum SqlValueView {
    Integer(int),
    Text(Seq<char>),
}

impl View for SqlValue {
    type V = SqlValueView;

    open spec fn view(&self) -> SqlValueView {
        match *self {
            SqlValue::Integer(number) => SqlValueView::Integer(number as int),
            SqlValue::Text(text) => SqlValueView::Text(text@),
        }
    }
}

/// The contents of a [`Statement`].
#[verifier::ext_equal]
pub struct StatementView {
    pub sql: Seq<char>,
    pub params: Seq<SqlValueView>,
}

impl View for Statement {
    type V = StatementView;

    open spec fn view(&self) -> StatementView {
        StatementView { sql: self.sql@, params: self.params@.map_values(|value: SqlValue| value@) }
    }
}

/// The statements that lead on from a schema version to the next.
pub open spec fn migration_text(from_version: int) -> Seq<char> {
    if from_version == 0 {
        "CREATE TABLE IF NOT EXISTS metrics (id INTEGER PRIMARY KEY AUTOINCREMENT, event_json TEXT NOT NULL);"@
    } else if from_version == 1 {
        "CREATE TABLE IF NOT EXISTS agent_usage_throttle (prompt_id TEXT PRIMARY KEY, last_sent_ts INTEGER NOT NULL);"@
    } else if from_version == 4 {
        "CREATE TABLE IF NOT EXISTS metrics (id INTEGER PRIMARY KEY AUTOINCREMENT, event_json TEXT NOT NULL); ALTER TABLE metrics ADD COLUMN delivered_ts INTEGER;"@
    } else if from_version == 5 {
        "CREATE INDEX IF NOT EXISTS metrics_delivered_ts_id ON metrics (delivered_ts, id);"@
    } else {
        ""@
    }
}

/// The statements that lead on from a schema version to the next. Versions 2 and 3 are reserved:
/// nothing is left of the designs that they introduced.
pub fn migration(from_version: usize) -> (sql: Result<&'static str, GitAiError>)
    ensures
        match sql {
            Ok(text) => from_version < SCHEMA_VERSION && text@ == migration_text(
                from_version as int,
            ),
            Err(error) => from_version >= SCHEMA_VERSION && error == (GitAiError::NoMigration {
                from_version,
            }),
        },
{
    if from_version >= SCHEMA_VERSION {
        return Err(GitAiError::NoMigration { from_version });
    }
    if from_version == 0 {
        Ok(
            "CREATE TABLE IF NOT EXISTS metrics (id INTEGER PRIMARY KEY AUTOINCREMENT, event_json TEXT NOT NULL);",
        )
    } else if from_version == 1 {
        Ok(
            "CREATE TABLE IF NOT EXISTS agent_usage_throttle (prompt_id TEXT PRIMARY KEY, last_sent_ts INTEGER NOT NULL);",
        )
    } else if from_version == 4 {
        Ok(
            "CREATE TABLE IF NOT EXISTS metrics (id INTEGER PRIMARY KEY AUTOINCREMENT, event_json TEXT NOT NULL); ALTER TABLE metrics ADD COLUMN delivered_ts INTEGER;",
        )
    } else if from_version == 5 {
        Ok("CREATE INDEX IF NOT EXISTS metrics_delivered_ts_id ON metrics (delivered_ts, id);")
    } else {
        Ok("")
    }
}

/// The statement that stores an event, delivered already or not.
pub open spec fn insert_text(delivered: bool) -> Seq<char> {
    if delivered {
        "INSERT INTO metrics (event_json, delivered_ts) VALUES (?1, ?2)"@
    } else {
        "INSERT INTO metrics (event_json) VALUES (?1)"@
    }
}

fn insert_sql(delivered: bool) -> (sql: &'static str)
    ensures
        sql@ == insert_text(delivered),
{
    if delivered {
        "INSERT INTO metrics (event_json, delivered_ts) VALUES (?1, ?2)"
    } else {
        "INSERT INTO metrics (event_json) VALUES (?1)"
    }
}

/// The statement that a request stands for; a preparation has no parameters yet. The clock, the
/// bounds of a transaction and a migration that does not exist have none.
pub open spec fn statement_of(request: Request) -> Option<StatementView> {
    match request {
        Request::ReadClock => None,
        Request::Begin => None,
        Request::Commit => None,
        Request::Rollback => None,
        Request::ReadSchemaVersion => Some(
            StatementView {
                sql: "SELECT value FROM schema_metadata WHERE key = 'version'"@,
                params: seq![],
            },
        ),
        Request::CreateSchemaMetadata => Some(
            StatementView {
                sql:
                    "CREATE TABLE IF NOT EXISTS schema_metadata (key TEXT PRIMARY KEY NOT NULL, value TEXT NOT NULL);"@,
                params: seq![],
            },
        ),
        Request::Migrate { from_version } => if from_version < SCHEMA_VERSION {
            Some(StatementView { sql: migration_text(from_version as int), params: seq![] })
        } else {
            None
        },
        Request::RecordVersion { version } => Some(
            StatementView {
                sql:
                    "INSERT INTO schema_metadata (key, value) VALUES ('version', ?1) ON CONFLICT(key) DO UPDATE SET value = excluded.value WHERE CAST(schema_metadata.value AS INTEGER) < CAST(excluded.value AS INTEGER)"@,
                params: seq![SqlValueView::Text(decimal_digits(version as nat))],
            },
        ),
        Request::PrepareInsert { delivered } => Some(
            StatementView { sql: insert_text(delivered), params: seq![] },
        ),
        Request::InsertMetric { event_json, delivered_ts } => match delivered_ts {
            Some(ts) => Some(
                StatementView {
                    sql: insert_text(true),
                    params: seq![SqlValueView::Text(event_json@), SqlValueView::Integer(ts as int)],
                },
            ),
            None => Some(
                StatementView {
                    sql: insert_text(false),
                    params: seq![SqlValueView::Text(event_json@)],
                },
            ),
        },
        Request::SelectPending { limit } => Some(
            StatementView {
                sql:
                    "SELECT id, event_json FROM metrics WHERE delivered_ts IS NULL ORDER BY id ASC LIMIT ?1"@,
                params: seq![SqlValueView::Integer(limit as int)],
            },
        ),
        Request::MarkDelivered { id, delivered_ts } => Some(
            StatementView {
                sql:
                    "UPDATE metrics SET delivered_ts = ?1 WHERE id = ?2 AND delivered_ts IS NULL"@,
                params: seq![
                    SqlValueView::Integer(delivered_ts as int),
                    SqlValueView::Integer(id as int),
                ],
            },
        ),
        Request::ReadLastPrune => Some(
            StatementView {
                sql: "SELECT value FROM schema_metadata WHERE key = 'metrics_last_prune_ts'"@,
                params: seq![],
            },
        ),
        Request::ReadMetricRows => Some(
            StatementView {
                sql: "SELECT id, event_json, delivered_ts FROM metrics ORDER BY id ASC"@,
                params: seq![],
            },
        ),
        Request::RecordPrune { now } => Some(
            StatementView {
                sql:
                    "INSERT OR REPLACE INTO schema_metadata (key, value) VALUES ('metrics_last_prune_ts', ?1)"@,
                params: seq![SqlValueView::Text(decimal_digits(now as nat))],
            },
        ),
        Request::DeleteMetric { id } => Some(
            StatementView {
                sql: "DELETE FROM metrics WHERE id = ?1"@,
                params: seq![SqlValueView::Integer(id as int)],
            },
        ),
        Request::CountPending => Some(
            StatementView {
                sql: "SELECT COUNT(*) FROM metrics WHERE delivered_ts IS NULL"@,
                params: seq![],
            },
        ),
        Request::ReadHistory => Some(
            StatementView {
                sql: "SELECT event_json FROM metrics ORDER BY id ASC"@,
                params: seq![],
            },
        ),
        Request::ReadLastSent { prompt_id } => Some(
            StatementView {
                sql: "SELECT last_sent_ts FROM agent_usage_throttle WHERE prompt_id = ?1"@,
                params: seq![SqlValueView::Text(prompt_id@)],
            },
        ),
        Request::RecordSent { prompt_id, sent_ts } => Some(
            StatementView {
                sql:
                    "INSERT INTO agent_usage_throttle (prompt_id, last_sent_ts) VALUES (?1, ?2) ON CONFLICT(prompt_id) DO UPDATE SET last_sent_ts = excluded.last_sent_ts"@,
                params: seq![
                    SqlValueView::Text(prompt_id@),
                    SqlValueView::Integer(sent_ts as int),
                ],
            },
        ),
    }
}

/// A statement without parameters.
fn plain(sql: &'static str) -> (statement: Statement)
    ensures
        statement@ == (StatementView { sql: sql@, params: seq![] }),
{
    let statement = Statement { sql, params: Vec::new() };
    assert(statement@.params =~= seq![]);
    statement
}

/// A statement with one parameter.
fn with_one(sql: &'static str, value: SqlValue) -> (statement: Statement)
    ensures
        statement@ == (StatementView { sql: sql@, params: seq![value@] }),
{
    let mut params: Vec<SqlValue> = Vec::new();
    params.push(value);
    let statement = Statement { sql, params };
    assert(statement@.params =~= seq![value@]);
    statement
}

/// A statement with two parameters.
fn with_two(sql: &'static str, first: SqlValue, second: SqlValue) -> (statement: Statement)
    ensures
        statement@ == (StatementView { sql: sql@, params: seq![first@, second@] }),
{
    let mut params: Vec<SqlValue> = Vec::new();
    params.push(first);
    params.push(second);
    let statement = Statement { sql, params };
    assert(statement@.params =~= seq![first@, second@]);
    statement
}

impl Request {
    /// The statement that the request stands for.
    pub fn statement(&self) -> (statement: Option<Statement>)
        ensures
            match statement {
                Some(statement) => statement_of(*self) == Some(statement@),
                None => statement_of(*self) is None,
            },
    {
        match self {
            Request::ReadClock | Request::Begin | Request::Commit | Request::Rollback => None,
            Request::ReadSchemaVersion => Some(
                plain("SELECT value FROM schema_metadata WHERE key = 'version'"),
            ),
            Request::CreateSchemaMetadata => Some(
                plain(
                    "CREATE TABLE IF NOT EXISTS schema_metadata (key TEXT PRIMARY KEY NOT NULL, value TEXT NOT NULL);",
                ),
            ),
            Request::Migrate { from_version } => match migration(*from_version) {
                Ok(sql) => Some(plain(sql)),
                Err(_) => None,
            },
            Request::RecordVersion { version } => Some(
                with_one(
                    "INSERT INTO schema_metadata (key, value) VALUES ('version', ?1) ON CONFLICT(key) DO UPDATE SET value = excluded.value WHERE CAST(schema_metadata.value AS INTEGER) < CAST(excluded.value AS INTEGER)",
                    SqlValue::Text(decimal(*version as u64)),
                ),
            ),
            Request::PrepareInsert { delivered } => Some(plain(insert_sql(*delivered))),
            Request::InsertMetric { event_json, delivered_ts } => match delivered_ts {
                Some(ts) => Some(
                    with_two(
                        insert_sql(true),
                        SqlValue::Text(event_json.clone()),
                        SqlValue::Integer(*ts),
                    ),
                ),
                None => Some(
                    with_one(
                        insert_sql(false),
                        SqlValue::Text(event_json.clone()),
                    ),
                ),
            },
            Request::SelectPending { limit } => Some(
                with_one(
                    "SELECT id, event_json FROM metrics WHERE delivered_ts IS NULL ORDER BY id ASC LIMIT ?1",
                    SqlValue::Integer(*limit),
                ),
            ),
            Request::MarkDelivered { id, delivered_ts } => Some(
                with_two(
                    "UPDATE metrics SET delivered_ts = ?1 WHERE id = ?2 AND delivered_ts IS NULL",
                    SqlValue::Integer(*delivered_ts),
                    SqlValue::Integer(*id),
                ),
            ),
            Request::ReadLastPrune => Some(
                plain("SELECT value FROM schema_metadata WHERE key = 'metrics_last_prune_ts'"),
            ),
            Request::ReadMetricRows => Some(
                plain("SELECT id, event_json, delivered_ts FROM metrics ORDER BY id ASC"),
            ),
            Request::RecordPrune { now } => Some(
                with_one(
                    "INSERT OR REPLACE INTO schema_metadata (key, value) VALUES ('metrics_last_prune_ts', ?1)",
                    SqlValue::Text(decimal(*now)),
                ),
            ),
            Request::DeleteMetric { id } => Some(
                with_one("DELETE FROM metrics WHERE id = ?1", SqlValue::Integer(*id)),
            ),
            Request::CountPending => Some(
                plain("SELECT COUNT(*) FROM metrics WHERE delivered_ts IS NULL"),
            ),
            Request::ReadHistory => Some(
                plain("SELECT event_json FROM metrics ORDER BY id ASC"),
            ),
            Request::ReadLastSent { prompt_id } => Some(
                with_one(
                    "SELECT last_sent_ts FROM agent_usage_throttle WHERE prompt_id = ?1",
                    SqlValue::Text(prompt_id.clone()),
                ),
            ),
            Request::RecordSent { prompt_id, sent_ts } => Some(
                with_two(
                    "INSERT INTO agent_usage_throttle (prompt_id, last_sent_ts) VALUES (?1, ?2) ON CONFLICT(prompt_id) DO UPDATE SET last_sent_ts = excluded.last_sent_ts",
                    SqlValue::Text(prompt_id.clone()),
                    SqlValue::Integer(*sent_ts),
                ),
            ),
        }
    }
}

} // verus!
