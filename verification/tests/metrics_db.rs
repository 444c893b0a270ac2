use git_ai::error::GitAiError;
use git_ai::metrics::db::{
    metric_row_is_older_than_cutoff, old_metric_row_ids, prune_is_due, select_history,
    DatabasePath, MetricsDatabase, Outcome, Progress, METRICS_PRUNE_INTERVAL_SECS,
    METRICS_RETENTION_SECS,
};
use git_ai::metrics::requests::{migration, MetricRow, Reply, Request, SqlValue, SCHEMA_VERSION};
use git_ai::metrics::types::{
    sparse_get_string, MetricEvent, MetricHistoryRecord, MetricRecord, SparseValue,
};
use git_ai::text_map::TextMap;
use rusqlite::types::Value;
use rusqlite::{Connection, OptionalExtension};

/// A database in memory, with the time at which it is used.
struct TestDb {
    conn: Connection,
    db: MetricsDatabase,
    now: u64,
    /// The requests so far, without the questions for the time.
    requests: usize,
}

fn unix_now() -> u64 {
    std::time::SystemTime::now()
        .duration_since(std::time::UNIX_EPOCH)
        .unwrap_or_default()
        .as_secs()
}

fn days_ago(days: u64) -> u32 {
    unix_now()
        .saturating_sub(days * 24 * 3600)
        .min(u32::MAX as u64) as u32
}

fn event_json(ts: u32) -> String {
    format!(r#"{{"t":{ts},"e":1,"v":{{}},"a":{{}}}}"#)
}

fn event_json_with_repo(ts: u32, event_id: u16, repo: &str) -> String {
    format!(r#"{{"t":{ts},"e":{event_id},"v":{{}},"a":{{"1":"{repo}"}}}}"#)
}

fn event_time(text: &str) -> Option<u32> {
    let value: serde_json::Value = serde_json::from_str(text).ok()?;
    u32::try_from(value.get("t")?.as_u64()?).ok()
}

fn sparse(value: &serde_json::Value) -> Option<TextMap<SparseValue>> {
    let mut map = TextMap::new();
    for (key, value) in value.as_object()? {
        let value = match value {
            serde_json::Value::Null => SparseValue::Null,
            serde_json::Value::String(text) => SparseValue::Text(text.clone()),
            other => SparseValue::Json(other.to_string()),
        };
        map.insert(key.clone(), value);
    }
    Some(map)
}

fn read_event(text: &str) -> Option<MetricEvent> {
    let value: serde_json::Value = serde_json::from_str(text).ok()?;
    Some(MetricEvent {
        timestamp: event_time(text)?,
        event_id: u16::try_from(value.get("e")?.as_u64()?).ok()?,
        values: sparse(value.get("v")?)?,
        attrs: sparse(value.get("a")?)?,
    })
}

fn perform(conn: &Connection, request: &Request, now: u64) -> rusqlite::Result<Reply> {
    let statement = match request.statement() {
        Some(statement) => statement,
        None => {
            return match request {
                Request::ReadClock => Ok(Reply::Clock(now)),
                Request::Begin => conn.execute_batch("BEGIN").map(|_| Reply::Done),
                Request::Commit => conn.execute_batch("COMMIT").map(|_| Reply::Done),
                Request::Rollback if conn.is_autocommit() => Ok(Reply::Done),
                Request::Rollback => conn.execute_batch("ROLLBACK").map(|_| Reply::Done),
                other => panic!("no statement for {other:?}"),
            }
        }
    };
    let params: Vec<Value> = statement
        .params
        .iter()
        .map(|value| match value {
            SqlValue::Integer(number) => Value::Integer(*number),
            SqlValue::Text(text) => Value::Text(text.clone()),
        })
        .collect();
    let params = rusqlite::params_from_iter(params);
    match request {
        Request::ReadSchemaVersion | Request::ReadLastPrune => conn
            .query_row(statement.sql, params, |row| row.get(0))
            .optional()
            .map(Reply::Text),
        Request::CountPending | Request::ReadLastSent { .. } => conn
            .query_row(statement.sql, params, |row| row.get(0))
            .optional()
            .map(Reply::Integer),
        Request::CreateSchemaMetadata | Request::Migrate { .. } => {
            conn.execute_batch(statement.sql).map(|_| Reply::Done)
        }
        Request::PrepareInsert { .. } => conn.prepare(statement.sql).map(|_| Reply::Done),
        Request::InsertMetric { .. } => conn
            .execute(statement.sql, params)
            .map(|_| Reply::Inserted(conn.last_insert_rowid())),
        Request::SelectPending { .. } => {
            let mut select = conn.prepare(statement.sql)?;
            let rows = select.query_map(params, |row| {
                Ok(MetricRecord {
                    id: row.get(0)?,
                    event_json: row.get(1)?,
                })
            })?;
            Ok(Reply::Pending(rows.collect::<rusqlite::Result<_>>()?))
        }
        Request::ReadMetricRows => {
            let mut select = conn.prepare(statement.sql)?;
            let rows = select.query_map(params, |row| {
                let text: String = row.get(1)?;
                Ok(MetricRow {
                    id: row.get(0)?,
                    event_ts: event_time(&text),
                    delivered_ts: row.get(2)?,
                })
            })?;
            Ok(Reply::Rows(rows.collect::<rusqlite::Result<_>>()?))
        }
        Request::ReadHistory => {
            let mut select = conn.prepare(statement.sql)?;
            let rows = select.query_map(params, |row| {
                let text: String = row.get(0)?;
                Ok(read_event(&text))
            })?;
            Ok(Reply::History(rows.collect::<rusqlite::Result<_>>()?))
        }
        _ => conn.execute(statement.sql, params).map(|_| Reply::Done),
    }
}

impl TestDb {
    fn empty() -> TestDb {
        TestDb {
            conn: Connection::open_in_memory().unwrap(),
            db: MetricsDatabase::new(),
            now: unix_now(),
            requests: 0,
        }
    }

    fn run(&mut self, first: Progress) -> Result<Outcome, GitAiError> {
        let mut progress = first;
        loop {
            match progress {
                Progress::Finished(result) => return result,
                Progress::Ask(request) => {
                    if !matches!(request, Request::ReadClock) {
                        self.requests += 1;
                    }
                    let reply = match perform(&self.conn, &request, self.now) {
                        Ok(reply) => reply,
                        Err(error) => Reply::Failed(error.to_string()),
                    };
                    progress = self.db.resume(reply);
                }
            }
        }
    }

    fn initialize_schema(&mut self) -> Result<(), GitAiError> {
        let first = self.db.initialize_schema();
        match self.run(first)? {
            Outcome::Ready => Ok(()),
            other => panic!("{other:?}"),
        }
    }

    fn insert_events(&mut self, events: &[String]) -> Result<Vec<i64>, GitAiError> {
        let first = self.db.insert_events(events.to_vec());
        match self.run(first)? {
            Outcome::Inserted(ids) => Ok(ids),
            other => panic!("{other:?}"),
        }
    }

    fn insert_events_with_delivered_ts(
        &mut self,
        events: &[String],
        delivered_ts: Option<u64>,
    ) -> Result<Vec<i64>, GitAiError> {
        let first = self
            .db
            .insert_events_with_delivered_ts(events.to_vec(), delivered_ts);
        match self.run(first)? {
            Outcome::Inserted(ids) => Ok(ids),
            other => panic!("{other:?}"),
        }
    }

    fn get_batch(&mut self, limit: usize) -> Result<Vec<MetricRecord>, GitAiError> {
        let first = self.db.get_batch(limit);
        match self.run(first)? {
            Outcome::Batch(records) => Ok(records),
            other => panic!("{other:?}"),
        }
    }

    fn mark_records_delivered(&mut self, ids: &[i64], ts: u64) -> Result<(), GitAiError> {
        let first = self.db.mark_records_delivered(ids.to_vec(), ts);
        match self.run(first)? {
            Outcome::Delivered => Ok(()),
            other => panic!("{other:?}"),
        }
    }

    fn count(&mut self) -> Result<usize, GitAiError> {
        let first = self.db.count();
        match self.run(first)? {
            Outcome::Count(count) => Ok(count),
            other => panic!("{other:?}"),
        }
    }

    fn get_metric_history(
        &mut self,
        since_ts: u32,
        repo_filter: Option<&str>,
        event_ids: &[u16],
    ) -> Result<Vec<MetricHistoryRecord>, GitAiError> {
        let first = self.db.get_metric_history(
            since_ts,
            repo_filter.map(str::to_string),
            event_ids.to_vec(),
        );
        match self.run(first)? {
            Outcome::History(records) => Ok(records),
            other => panic!("{other:?}"),
        }
    }

    fn should_emit_agent_usage(
        &mut self,
        prompt_id: &str,
        now_ts: u64,
        min_interval_secs: u64,
    ) -> Result<bool, GitAiError> {
        let first =
            self.db
                .should_emit_agent_usage(prompt_id.to_string(), now_ts, min_interval_secs);
        match self.run(first)? {
            Outcome::Emit(emit) => Ok(emit),
            other => panic!("{other:?}"),
        }
    }

    fn number(&self, sql: &str) -> i64 {
        self.conn.query_row(sql, [], |row| row.get(0)).unwrap()
    }

    fn version(&self) -> String {
        self.conn
            .query_row(
                "SELECT value FROM schema_metadata WHERE key = 'version'",
                [],
                |row| row.get(0),
            )
            .unwrap()
    }
}

fn create_test_db() -> TestDb {
    let mut db = TestDb::empty();
    db.initialize_schema().unwrap();
    db
}

#[test]
fn test_initialize_schema() {
    let db = create_test_db();

    let count = db.number("SELECT COUNT(*) FROM sqlite_master WHERE type='table' AND name='metrics'");
    assert_eq!(count, 1);

    assert_eq!(db.version(), "6");

    let delivered_ts_columns =
        db.number("SELECT COUNT(*) FROM pragma_table_info('metrics') WHERE name = 'delivered_ts'");
    assert_eq!(delivered_ts_columns, 1);
}

#[test]
fn test_initialize_schema_handles_preexisting_agent_usage_table() {
    let mut db = TestDb::empty();

    // A partial migration by another process: the version says that agent_usage_throttle is
    // missing, but it already exists.
    db.conn
        .execute_batch(
            r#"
            CREATE TABLE schema_metadata (
                key TEXT PRIMARY KEY NOT NULL,
                value TEXT NOT NULL
            );
            INSERT INTO schema_metadata (key, value) VALUES ('version', '1');
            CREATE TABLE agent_usage_throttle (
                tool TEXT PRIMARY KEY NOT NULL,
                agent_last_seen_at INTEGER NOT NULL,
                command_last_seen_at INTEGER NOT NULL
            );
            "#,
        )
        .unwrap();

    db.initialize_schema().unwrap();

    assert_eq!(db.version(), "6");
}

#[test]
fn test_insert_events() {
    let mut db = create_test_db();
    let ts1 = days_ago(2);
    let ts2 = days_ago(1);

    let events = vec![
        format!(r#"{{"t":{ts1},"e":1,"v":{{"0":"abc123"}},"a":{{"0":"1.0.0"}}}}"#),
        format!(r#"{{"t":{ts2},"e":1,"v":{{"0":"def456"}},"a":{{"0":"1.0.0"}}}}"#),
    ];

    let ids = db.insert_events(&events).unwrap();

    let count = db.count().unwrap();
    assert_eq!(count, 2);
    assert_eq!(ids.len(), 2);
}

#[test]
fn test_get_batch() {
    let mut db = create_test_db();
    let ts1 = days_ago(3);
    let ts2 = days_ago(2);
    let ts3 = days_ago(1);

    let events = vec![event_json(ts1), event_json(ts2), event_json(ts3)];

    db.insert_events(&events).unwrap();

    let batch = db.get_batch(2).unwrap();
    assert_eq!(batch.len(), 2);

    assert!(batch[0].id < batch[1].id);
    assert!(batch[0].event_json.contains(&format!("\"t\":{ts1}")));
    assert!(batch[1].event_json.contains(&format!("\"t\":{ts2}")));
}

#[test]
fn test_mark_records_delivered() {
    let mut db = create_test_db();
    let ts1 = days_ago(3);
    let ts2 = days_ago(2);
    let ts3 = days_ago(1);

    let events = vec![event_json(ts1), event_json(ts2), event_json(ts3)];

    db.insert_events(&events).unwrap();

    let batch = db.get_batch(2).unwrap();
    let ids: Vec<i64> = batch.iter().map(|r| r.id).collect();

    db.mark_records_delivered(&ids, unix_now()).unwrap();

    let count = db.count().unwrap();
    assert_eq!(count, 1);

    let remaining = db.get_batch(10).unwrap();
    assert_eq!(remaining.len(), 1);
    assert!(remaining[0].event_json.contains(&format!("\"t\":{ts3}")));

    let total = db.number("SELECT COUNT(*) FROM metrics");
    assert_eq!(total, 3);
}

#[test]
fn test_insert_events_with_delivered_ts_skips_batch() {
    let mut db = create_test_db();

    let delivered_ts = unix_now();
    let delivered_event_ts = days_ago(2);
    let pending_event_ts = days_ago(1);
    let delivered = vec![event_json(delivered_event_ts)];
    let pending = vec![event_json(pending_event_ts)];

    db.insert_events_with_delivered_ts(&delivered, Some(delivered_ts))
        .unwrap();
    db.insert_events(&pending).unwrap();

    let batch = db.get_batch(10).unwrap();
    assert_eq!(batch.len(), 1);
    assert!(batch[0]
        .event_json
        .contains(&format!("\"t\":{pending_event_ts}")));
    assert_eq!(db.count().unwrap(), 1);

    let total = db.number("SELECT COUNT(*) FROM metrics");
    assert_eq!(total, 2);
}

#[test]
fn test_get_metric_history_reads_authoritative_metrics_table() {
    let mut db = create_test_db();

    let delivered_ts = unix_now();
    let ts1 = days_ago(4);
    let ts2 = days_ago(3);
    let ts3 = days_ago(2);
    let ts4 = days_ago(1);
    let delivered = vec![event_json_with_repo(
        ts1,
        1,
        "https://github.com/acme/project",
    )];
    let pending = vec![
        event_json_with_repo(ts2, 4, "https://github.com/acme/project"),
        event_json_with_repo(ts3, 2, "https://github.com/acme/project"),
        event_json_with_repo(ts4, 5, "https://github.com/other/repo"),
    ];

    db.insert_events_with_delivered_ts(&delivered, Some(delivered_ts))
        .unwrap();
    db.insert_events(&pending).unwrap();

    let records = db
        .get_metric_history(0, Some("acme/project"), &[1, 4, 5])
        .unwrap();
    assert_eq!(records.len(), 2);
    assert_eq!(records[0].event_id, 1);
    assert_eq!(records[0].ts, ts1);
    assert_eq!(records[1].event_id, 4);
    assert_eq!(records[1].ts, ts2);

    // Delivered rows are retained for history, but only undelivered rows flush.
    let batch = db.get_batch(10).unwrap();
    assert_eq!(batch.len(), 3);
}

#[test]
fn test_prunes_metric_rows_older_than_retention_by_event_timestamp() {
    let mut db = create_test_db();

    let delivered_ts = unix_now();
    let old_event_ts = days_ago(46);
    let recent_event_ts = days_ago(44);
    let events = vec![event_json(old_event_ts), event_json(recent_event_ts)];

    db.insert_events_with_delivered_ts(&events, Some(delivered_ts))
        .unwrap();

    let total_after_prune = db.number("SELECT COUNT(*) FROM metrics");
    assert_eq!(total_after_prune, 1);

    let records = db.get_metric_history(0, None, &[1]).unwrap();
    assert_eq!(records.len(), 1);
    assert_eq!(records[0].ts, recent_event_ts);
}

#[test]
fn test_prunes_old_pending_metric_rows() {
    let mut db = create_test_db();

    let old_event_ts = days_ago(46);
    let recent_event_ts = days_ago(1);
    let pending = vec![event_json(old_event_ts), event_json(recent_event_ts)];

    db.insert_events(&pending).unwrap();

    let total = db.number("SELECT COUNT(*) FROM metrics");
    assert_eq!(total, 1);
    assert_eq!(db.count().unwrap(), 1);

    let batch = db.get_batch(10).unwrap();
    assert_eq!(batch.len(), 1);
    assert!(batch[0]
        .event_json
        .contains(&format!("\"t\":{recent_event_ts}")));
}

#[test]
fn test_prunes_malformed_delivered_rows_by_delivered_timestamp() {
    let mut db = create_test_db();

    let old_delivered_ts = unix_now().saturating_sub(METRICS_RETENTION_SECS + 1);
    db.insert_events_with_delivered_ts(&["not-json".to_string()], Some(old_delivered_ts))
        .unwrap();

    let total = db.number("SELECT COUNT(*) FROM metrics");
    assert_eq!(total, 0);
}

#[test]
fn test_empty_operations() {
    let mut db = create_test_db();

    db.insert_events(&[]).unwrap();

    let batch = db.get_batch(10).unwrap();
    assert!(batch.is_empty());

    db.mark_records_delivered(&[], 1_700_000_000).unwrap();

    let count = db.count().unwrap();
    assert_eq!(count, 0);
}

#[test]
fn test_database_path() {
    let path = match MetricsDatabase::database_path(None, true).unwrap() {
        DatabasePath::BelowHome(names) => names
            .iter()
            .fold(std::path::PathBuf::from("/home/user"), |path, name| {
                path.join(name)
            }),
        DatabasePath::Given(path) => panic!("{path}"),
    };
    assert!(path.to_string_lossy().contains(".git-ai"));
    assert!(path.to_string_lossy().contains("internal"));
    assert!(path.to_string_lossy().ends_with("metrics-db"));
}

#[test]
fn test_should_emit_agent_usage_rate_limit() {
    let mut db = create_test_db();
    let prompt_id = "prompt-123";

    // The first event for a prompt is allowed.
    assert!(db
        .should_emit_agent_usage(prompt_id, 1_700_000_000, 300)
        .unwrap());
    // One inside the window is throttled.
    assert!(!db
        .should_emit_agent_usage(prompt_id, 1_700_000_120, 300)
        .unwrap());
    // One outside the window is allowed again.
    assert!(db
        .should_emit_agent_usage(prompt_id, 1_700_000_301, 300)
        .unwrap());
}

#[test]
fn given_path_comes_first_and_home_is_needed_otherwise() {
    let given = MetricsDatabase::database_path(Some("/tmp/db".to_string()), false);
    assert!(matches!(given, Ok(DatabasePath::Given(path)) if path == "/tmp/db"));
    let missing = MetricsDatabase::database_path(None, false).unwrap_err();
    assert_eq!(missing.message(), "Could not determine home directory");
}

#[test]
fn schema_is_brought_up_from_every_version() {
    for version in 0..SCHEMA_VERSION {
        let mut db = TestDb::empty();
        db.initialize_schema().unwrap();
        db.conn
            .execute(
                "UPDATE schema_metadata SET value = ?1 WHERE key = 'version'",
                [version.to_string()],
            )
            .unwrap();
        // The column exists already, as after a migration by another process.
        db.initialize_schema().unwrap();
        assert_eq!(db.version(), "6");
    }
}

#[test]
fn current_schema_is_looked_at_once() {
    let mut db = create_test_db();
    db.requests = 0;
    db.initialize_schema().unwrap();
    assert_eq!(db.requests, 1);
}

#[test]
fn later_schema_is_refused() {
    let mut db = create_test_db();
    db.conn
        .execute_batch("UPDATE schema_metadata SET value = '7' WHERE key = 'version'")
        .unwrap();
    let error = db.initialize_schema().unwrap_err();
    assert_eq!(
        error.message(),
        "Metrics database schema version 7 is newer than supported version 6. \
         Please upgrade git-ai to the latest version."
    );
    assert_eq!(db.version(), "7");
}

#[test]
fn unreadable_version_counts_as_none() {
    let mut db = TestDb::empty();
    db.conn
        .execute_batch(
            "CREATE TABLE schema_metadata (key TEXT PRIMARY KEY NOT NULL, value TEXT NOT NULL);
             INSERT INTO schema_metadata VALUES ('version', 'soon');",
        )
        .unwrap();
    db.initialize_schema().unwrap();
    assert_eq!(db.version(), "6");
}

#[test]
fn failed_migration_is_an_error() {
    let mut db = MetricsDatabase::new();
    db.initialize_schema();
    db.resume(Reply::Text(Some("4".to_string())));
    db.resume(Reply::Done);
    db.resume(Reply::Text(Some("4".to_string())));
    assert!(matches!(
        db.resume(Reply::Done),
        Progress::Ask(Request::Migrate { from_version: 4 })
    ));
    let undo = db.resume(Reply::Failed("disk I/O error".to_string()));
    assert!(matches!(undo, Progress::Ask(Request::Rollback)));
    let end = db.resume(Reply::Failed("no transaction is active".to_string()));
    assert!(
        matches!(end, Progress::Finished(Err(GitAiError::Sqlite(words))) if words == "disk I/O error")
    );
}

#[test]
fn migration_of_another_process_is_no_error() {
    let mut db = MetricsDatabase::new();
    db.initialize_schema();
    db.resume(Reply::Text(Some("4".to_string())));
    db.resume(Reply::Done);
    db.resume(Reply::Text(Some("4".to_string())));
    db.resume(Reply::Done);
    let next = db.resume(Reply::Failed("duplicate column name: delivered_ts".to_string()));
    assert!(matches!(next, Progress::Ask(Request::Commit)));
    assert!(matches!(
        db.resume(Reply::Done),
        Progress::Ask(Request::RecordVersion { version: 5 })
    ));
}

#[test]
fn migrations_end_at_the_current_version() {
    assert!(migration(0).unwrap().contains("CREATE TABLE IF NOT EXISTS metrics"));
    assert!(migration(1).unwrap().contains("agent_usage_throttle"));
    assert_eq!(migration(2).unwrap(), "");
    assert_eq!(migration(3).unwrap(), "");
    assert!(migration(4).unwrap().contains("ADD COLUMN delivered_ts INTEGER"));
    assert!(migration(5).unwrap().contains("metrics_delivered_ts_id"));
    assert_eq!(
        migration(6).unwrap_err().message(),
        "No migration defined for version 6 -> 7"
    );
}

#[test]
fn batch_limit_has_to_fit() {
    let mut db = create_test_db();
    let error = db.get_batch(usize::MAX).unwrap_err();
    assert!(matches!(error, GitAiError::LimitOutOfRange));
    assert_eq!(
        error.message(),
        "out of range integral type conversion attempted"
    );
}

#[test]
fn reply_to_nothing_is_unexpected() {
    let mut db = MetricsDatabase::new();
    let end = db.resume(Reply::Done);
    assert!(matches!(
        end,
        Progress::Finished(Err(GitAiError::UnexpectedReply))
    ));
    assert_eq!(GitAiError::UnexpectedReply.message(), "unexpected reply");
    let mut db = MetricsDatabase::new();
    db.count();
    let end = db.resume(Reply::Inserted(1));
    assert!(matches!(
        end,
        Progress::Finished(Err(GitAiError::UnexpectedReply))
    ));
}

#[test]
fn failure_ends_the_operation() {
    // Without a schema there is no table to count.
    let mut db = TestDb::empty();
    let error = db.count().unwrap_err();
    assert!(matches!(&error, GitAiError::Sqlite(words) if words.contains("no such table")));
    assert!(error.message().contains("no such table"));
}

#[test]
fn identifiers_ascend_and_are_returned_in_order() {
    let mut db = create_test_db();
    let first = db.insert_events(&[event_json(days_ago(1))]).unwrap();
    let next = db
        .insert_events(&[event_json(days_ago(1)), event_json(days_ago(1))])
        .unwrap();
    assert_eq!(next, vec![first[0] + 1, first[0] + 2]);
}

#[test]
fn marking_changes_pending_rows_only() {
    let mut db = create_test_db();
    let ids = db
        .insert_events_with_delivered_ts(&[event_json(days_ago(1))], Some(1_700_000_000))
        .unwrap();
    db.mark_records_delivered(&ids, 1_800_000_000).unwrap();
    assert_eq!(
        db.number("SELECT delivered_ts FROM metrics"),
        1_700_000_000
    );
}

#[test]
fn pruning_waits_for_the_interval() {
    let mut db = create_test_db();
    let start = db.now;
    db.insert_events(&[event_json(days_ago(1))]).unwrap();
    assert_eq!(
        db.number("SELECT CAST(value AS INTEGER) FROM schema_metadata WHERE key = 'metrics_last_prune_ts'") as u64,
        start
    );
    // An old row stays until the next pass.
    db.now = start + METRICS_PRUNE_INTERVAL_SECS - 1;
    db.insert_events(&[event_json(days_ago(46))]).unwrap();
    assert_eq!(db.number("SELECT COUNT(*) FROM metrics"), 2);
    db.now = start + METRICS_PRUNE_INTERVAL_SECS;
    db.insert_events(&[event_json(days_ago(1))]).unwrap();
    assert_eq!(db.number("SELECT COUNT(*) FROM metrics"), 2);
}

#[test]
fn prune_is_due_by_the_recorded_time() {
    assert!(prune_is_due(0, &None));
    assert!(prune_is_due(0, &Some("never".to_string())));
    assert!(!prune_is_due(86_399, &Some("0".to_string())));
    assert!(prune_is_due(86_400, &Some("0".to_string())));
    assert!(!prune_is_due(10, &Some("20".to_string())));
    assert!(prune_is_due(0, &Some("99999999999999999999".to_string())));
}

#[test]
fn rows_age_by_event_or_delivery() {
    let row = |event_ts, delivered_ts| MetricRow {
        id: 1,
        event_ts,
        delivered_ts,
    };
    assert!(metric_row_is_older_than_cutoff(&row(Some(9), None), 10));
    assert!(!metric_row_is_older_than_cutoff(&row(Some(10), Some(0)), 10));
    assert!(metric_row_is_older_than_cutoff(&row(None, Some(9)), 10));
    assert!(!metric_row_is_older_than_cutoff(&row(None, Some(10)), 10));
    assert!(!metric_row_is_older_than_cutoff(&row(None, Some(-1)), 10));
    assert!(!metric_row_is_older_than_cutoff(&row(None, None), 10));
}

#[test]
fn old_rows_are_listed_in_order() {
    let rows: Vec<MetricRow> = (1..=4)
        .map(|id| MetricRow {
            id,
            event_ts: Some(if id % 2 == 0 { 5 } else { 50 }),
            delivered_ts: None,
        })
        .collect();
    assert_eq!(old_metric_row_ids(&rows, 10), vec![2, 4]);
    assert_eq!(old_metric_row_ids(&rows, 0), Vec::<i64>::new());
}

#[test]
fn history_filters_by_time_kind_and_repository() {
    let events = || {
        vec![
            read_event(&event_json_with_repo(10, 1, "https://github.com/acme/project")),
            read_event(&event_json(20)),
            None,
            read_event(r#"{"t":30,"e":1,"v":{},"a":{"1":null}}"#),
            read_event(r#"{"t":40,"e":2,"v":{},"a":{"1":7}}"#),
        ]
    };
    let times = |records: Vec<MetricHistoryRecord>| -> Vec<u32> {
        records.iter().map(|record| record.ts).collect()
    };
    assert_eq!(
        times(select_history(events(), 0, &None, &vec![1, 2])),
        vec![10, 20, 30, 40]
    );
    assert_eq!(
        times(select_history(events(), 20, &None, &vec![1])),
        vec![20, 30]
    );
    assert_eq!(
        times(select_history(events(), 0, &Some(String::new()), &vec![1, 2])),
        vec![20, 30, 40]
    );
    let found = select_history(events(), 0, &Some("acme".to_string()), &vec![1, 2]);
    assert_eq!(found.len(), 1);
    assert_eq!(
        found[0].repo_url.as_deref(),
        Some("https://github.com/acme/project")
    );
    assert!(times(select_history(events(), 0, &None, &vec![])).is_empty());
}

#[test]
fn sparse_text_tells_null_from_absence() {
    let mut attrs = TextMap::new();
    attrs.insert("0".to_string(), SparseValue::Null);
    attrs.insert("1".to_string(), SparseValue::Text("url".to_string()));
    attrs.insert("12".to_string(), SparseValue::Json("[1]".to_string()));
    assert_eq!(sparse_get_string(&attrs, 0), Some(None));
    assert_eq!(sparse_get_string(&attrs, 1), Some(Some("url".to_string())));
    assert_eq!(sparse_get_string(&attrs, 2), None);
    assert_eq!(sparse_get_string(&attrs, 12), None);
}

#[test]
fn rate_limit_is_by_prompt_and_skips_the_nameless() {
    let mut db = create_test_db();
    db.requests = 0;
    assert!(db.should_emit_agent_usage("", 100, 300).unwrap());
    assert!(db.should_emit_agent_usage("", 100, 300).unwrap());
    assert_eq!(db.requests, 0);
    assert!(db.should_emit_agent_usage("a", 1_000, 300).unwrap());
    assert!(db.should_emit_agent_usage("b", 1_000, 300).unwrap());
    assert!(!db.should_emit_agent_usage("a", 1_299, 300).unwrap());
    assert!(db.should_emit_agent_usage("a", 1_300, 300).unwrap());
    // A clock that went back counts as no time at all.
    assert!(!db.should_emit_agent_usage("a", 500, 300).unwrap());
    assert_eq!(
        db.number("SELECT last_sent_ts FROM agent_usage_throttle WHERE prompt_id = 'a'"),
        1_300
    );
}

fn rows(db: &TestDb) -> i64 {
    db.number("SELECT COUNT(*) FROM metrics")
}

#[test]
fn failed_insert_stores_nothing() {
    let mut db = create_test_db();
    db.insert_events(&[event_json(days_ago(1))]).unwrap();
    db.conn
        .execute_batch(
            "CREATE TRIGGER refuse BEFORE INSERT ON metrics WHEN NEW.event_json = 'bad'
             BEGIN SELECT RAISE(ABORT, 'refused'); END;",
        )
        .unwrap();
    let error = db
        .insert_events(&[event_json(days_ago(1)), "bad".to_string()])
        .unwrap_err();
    assert!(matches!(&error, GitAiError::Sqlite(words) if words.contains("refused")));
    assert!(db.conn.is_autocommit());
    assert_eq!(rows(&db), 1);
    // The next operation is not disturbed.
    db.insert_events(&[event_json(days_ago(1))]).unwrap();
    assert_eq!(rows(&db), 2);
}

#[test]
fn failed_prune_keeps_the_stored_events() {
    let mut db = create_test_db();
    db.conn
        .execute_batch(
            "CREATE TRIGGER refuse BEFORE DELETE ON metrics
             BEGIN SELECT RAISE(ABORT, 'refused'); END;",
        )
        .unwrap();
    let error = db
        .insert_events(&[event_json(days_ago(46)), event_json(days_ago(1))])
        .unwrap_err();
    assert!(error.message().contains("refused"));
    assert!(db.conn.is_autocommit());
    assert_eq!(rows(&db), 2);
    assert_eq!(
        db.number("SELECT COUNT(*) FROM schema_metadata WHERE key = 'metrics_last_prune_ts'"),
        0
    );
}

#[test]
fn failed_marking_marks_nothing() {
    let mut db = create_test_db();
    let ids = db
        .insert_events(&[event_json(days_ago(2)), event_json(days_ago(1))])
        .unwrap();
    let refused = ids[1];
    db.conn
        .execute_batch(&format!(
            "CREATE TRIGGER refuse BEFORE UPDATE ON metrics WHEN NEW.id = {refused}
             BEGIN SELECT RAISE(ABORT, 'refused'); END;"
        ))
        .unwrap();
    assert!(db.mark_records_delivered(&ids, unix_now()).is_err());
    assert_eq!(db.count().unwrap(), 2);
}

#[test]
fn failed_decision_of_the_rate_limiter_records_nothing() {
    let mut db = create_test_db();
    db.conn
        .execute_batch(
            "CREATE TRIGGER refuse BEFORE INSERT ON agent_usage_throttle
             BEGIN SELECT RAISE(ABORT, 'refused'); END;",
        )
        .unwrap();
    assert!(db.should_emit_agent_usage("a", 1_000, 300).is_err());
    assert!(db.conn.is_autocommit());
    assert_eq!(db.number("SELECT COUNT(*) FROM agent_usage_throttle"), 0);
}

#[test]
fn both_insert_statements_have_to_be_accepted() {
    let mut db = create_test_db();
    db.conn
        .execute_batch(
            "DROP TABLE metrics;
             CREATE TABLE metrics (id INTEGER PRIMARY KEY AUTOINCREMENT, event_json TEXT NOT NULL);",
        )
        .unwrap();
    assert!(db.insert_events(&[event_json(days_ago(1))]).is_err());
    assert_eq!(rows(&db), 0);
}

#[test]
fn failure_before_a_transaction_ends_at_once() {
    let mut db = MetricsDatabase::new();
    db.insert_events(vec!["{}".to_string()]);
    let end = db.resume(Reply::Failed("busy".to_string()));
    assert!(
        matches!(end, Progress::Finished(Err(GitAiError::Sqlite(words))) if words == "busy")
    );
}

#[test]
fn recorded_texts_are_taken_as_the_database_takes_them() {
    for (recorded, left) in [
        ("3x", "6"),
        ("+4", "6"),
        ("-1", "6"),
        (" 2", "6"),
        ("", "6"),
        ("9abc", "9abc"),
        (" 7", " 7"),
        ("+6", "+6"),
    ] {
        let mut db = create_test_db();
        db.conn
            .execute(
                "UPDATE schema_metadata SET value = ?1 WHERE key = 'version'",
                [recorded],
            )
            .unwrap();
        db.initialize_schema().unwrap();
        assert_eq!(db.version(), left, "{recorded:?}");
    }
}

#[test]
fn unreadable_prune_time_makes_a_pass_due() {
    let mut db = create_test_db();
    db.conn
        .execute_batch(
            "INSERT INTO schema_metadata (key, value) VALUES ('metrics_last_prune_ts', 'never')",
        )
        .unwrap();
    db.insert_events(&[event_json(days_ago(46))]).unwrap();
    assert_eq!(rows(&db), 0);
}

#[test]
fn migrations_leave_one_delivery_column_and_the_index() {
    let mut db = create_test_db();
    db.conn
        .execute_batch("UPDATE schema_metadata SET value = '0' WHERE key = 'version'")
        .unwrap();
    db.initialize_schema().unwrap();
    assert_eq!(
        db.number("SELECT COUNT(*) FROM pragma_table_info('metrics') WHERE name = 'delivered_ts'"),
        1
    );
    assert_eq!(
        db.number(
            "SELECT COUNT(*) FROM sqlite_master WHERE type='index' AND name='metrics_delivered_ts_id'"
        ),
        1
    );
}
