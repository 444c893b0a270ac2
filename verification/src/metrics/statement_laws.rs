//! That the statement of each request does to the tables what the request is for.

use crate::metrics::requests::{migration_text, statement_of, Request};
use crate::metrics::sql::{
    column_name, columns_of, columns_text, defined_columns_text, definition_text, kind_text,
    makes_column, operand_text, operands_text, operator_text, sql_text, test_text, tests_text,
    Column, Conflict, Definition, Kind, Operand, Operator, Order, Sql, Table, Test,
};
use vstd::prelude::*;

verus! {

/// The rows whose identifier is a parameter.
pub open spec fn with_id(number: nat) -> Test {
    Test::Compare {
        column: Column::Id,
        operator: Operator::Equal,
        operand: Operand::Parameter(number),
    }
}

/// The rows that still wait for their delivery.
pub open spec fn undelivered() -> Test {
    Test::IsNull { column: Column::DeliveredTs }
}

/// The fact of a name.
pub open spec fn named(name: Seq<char>) -> Test {
    Test::Compare {
        column: Column::Key,
        operator: Operator::Equal,
        operand: Operand::Text(name),
    }
}

/// The rows of the prompt that is the first parameter.
pub open spec fn of_prompt() -> Test {
    Test::Compare {
        column: Column::PromptId,
        operator: Operator::Equal,
        operand: Operand::Parameter(1),
    }
}

/// The order in which the events were stored.
pub open spec fn by_id() -> Order {
    Order::Ascending(Column::Id)
}

/// The statement of a request on the rows of a table.
pub open spec fn sql_of(request: Request) -> Sql {
    match request {
        Request::ReadSchemaVersion => Sql::Select {
            columns: seq![Column::Value],
            table: Table::Facts,
            tests: seq![named("version"@)],
            order: Order::Any,
            limit: None,
        },
        Request::RecordVersion { .. } => Sql::Insert {
            table: Table::Facts,
            columns: seq![Column::Key, Column::Value],
            values: seq![Operand::Text("version"@), Operand::Parameter(1)],
            conflict: Conflict::Raise { key: Column::Key, column: Column::Value },
        },
        Request::InsertMetric { delivered_ts, .. } => if delivered_ts is Some {
            Sql::Insert {
                table: Table::Events,
                columns: seq![Column::EventJson, Column::DeliveredTs],
                values: seq![Operand::Parameter(1), Operand::Parameter(2)],
                conflict: Conflict::Unexpected,
            }
        } else {
            Sql::Insert {
                table: Table::Events,
                columns: seq![Column::EventJson],
                values: seq![Operand::Parameter(1)],
                conflict: Conflict::Unexpected,
            }
        },
        Request::SelectPending { .. } => Sql::Select {
            columns: seq![Column::Id, Column::EventJson],
            table: Table::Events,
            tests: seq![undelivered()],
            order: by_id(),
            limit: Some(Operand::Parameter(1)),
        },
        Request::MarkDelivered { .. } => Sql::Update {
            table: Table::Events,
            column: Column::DeliveredTs,
            value: Operand::Parameter(1),
            tests: seq![with_id(2), undelivered()],
        },
        Request::ReadLastPrune => Sql::Select {
            columns: seq![Column::Value],
            table: Table::Facts,
            tests: seq![named("metrics_last_prune_ts"@)],
            order: Order::Any,
            limit: None,
        },
        Request::ReadMetricRows => Sql::Select {
            columns: seq![Column::Id, Column::EventJson, Column::DeliveredTs],
            table: Table::Events,
            tests: seq![],
            order: by_id(),
            limit: None,
        },
        Request::RecordPrune { .. } => Sql::Insert {
            table: Table::Facts,
            columns: seq![Column::Key, Column::Value],
            values: seq![Operand::Text("metrics_last_prune_ts"@), Operand::Parameter(1)],
            conflict: Conflict::Replace,
        },
        Request::DeleteMetric { .. } => Sql::Delete {
            table: Table::Events,
            tests: seq![with_id(1)],
        },
        Request::CountPending => Sql::Count { table: Table::Events, tests: seq![undelivered()] },
        Request::ReadHistory => Sql::Select {
            columns: seq![Column::EventJson],
            table: Table::Events,
            tests: seq![],
            order: by_id(),
            limit: None,
        },
        Request::ReadLastSent { .. } => Sql::Select {
            columns: seq![Column::LastSentTs],
            table: Table::Throttle,
            tests: seq![of_prompt()],
            order: Order::Any,
            limit: None,
        },
        Request::RecordSent { .. } => Sql::Insert {
            table: Table::Throttle,
            columns: seq![Column::PromptId, Column::LastSentTs],
            values: seq![Operand::Parameter(1), Operand::Parameter(2)],
            conflict: Conflict::Update { key: Column::PromptId, column: Column::LastSentTs },
        },
        _ => Sql::Count { table: Table::Events, tests: seq![] },
    }
}

/// Whether a request reads or writes the rows of a table.
pub open spec fn is_on_rows(request: Request) -> bool {
    match request {
        Request::ReadClock => false,
        Request::CreateSchemaMetadata => false,
        Request::Begin => false,
        Request::Commit => false,
        Request::Rollback => false,
        Request::Migrate { .. } => false,
        Request::PrepareInsert { .. } => false,
        _ => true,
    }
}

/// No two operators read the same.
pub proof fn law_operators_read_differently(first: Operator, second: Operator)
    requires
        operator_text(first) == operator_text(second),
    ensures
        first == second,
{
    reveal_strlit("=");
    reveal_strlit("<>");
    reveal_strlit("<");
    reveal_strlit("<=");
    reveal_strlit(">");
    reveal_strlit(">=");
    let text = operator_text(first);
    assert(text[0] == operator_text(second)[0]);
    assert(text.len() == operator_text(second).len());
    if text.len() == 2 {
        assert(text[1] == operator_text(second)[1]);
    }
}

proof fn lemma_lists(first: Column, second: Column, third: Column)
    ensures
        columns_text(seq![first]) == column_name(first),
        columns_text(seq![first, second]) == column_name(first) + ", "@ + column_name(second),
        columns_text(seq![first, second, third]) == column_name(first) + ", "@ + column_name(
            second,
        ) + ", "@ + column_name(third),
{
    reveal_with_fuel(columns_text, 4);
    assert(seq![first, second].drop_last() =~= seq![first]);
    assert(seq![first, second, third].drop_last() =~= seq![first, second]);
}

proof fn lemma_operand_lists(first: Operand, second: Operand)
    ensures
        operands_text(seq![first]) == operand_text(first),
        operands_text(seq![first, second]) == operand_text(first) + ", "@ + operand_text(second),
{
    reveal_with_fuel(operands_text, 3);
    assert(seq![first, second].drop_last() =~= seq![first]);
}

proof fn lemma_test_lists(first: Test, second: Test)
    ensures
        tests_text(seq![first]) == " WHERE "@ + test_text(first),
        tests_text(seq![first, second]) == " WHERE "@ + test_text(first) + " AND "@ + test_text(
            second,
        ),
        tests_text(seq![]) == Seq::<char>::empty(),
{
    reveal_with_fuel(tests_text, 3);
    assert(seq![first, second].drop_last() =~= seq![first]);
}

proof fn lemma_version_text(request: Request)
    requires
        request is ReadSchemaVersion,
    ensures
        statement_of(request)->0.sql == sql_text(sql_of(request)),
{
    lemma_lists(Column::Value, Column::Value, Column::Value);
    lemma_test_lists(named("version"@), undelivered());
    reveal_strlit("SELECT value FROM schema_metadata WHERE key = 'version'");
    reveal_strlit("SELECT ");
    reveal_strlit(" FROM ");
    reveal_strlit(" WHERE ");
    reveal_strlit(" = ");
    reveal_strlit("=");
    reveal_strlit("'");
    reveal_strlit(" ");
    reveal_strlit("schema_metadata");
    reveal_strlit("key");
    reveal_strlit("value");
    reveal_strlit("version");
    assert(statement_of(request)->0.sql =~= sql_text(sql_of(request)));
}

proof fn lemma_raise_text(request: Request)
    requires
        request is RecordVersion,
    ensures
        statement_of(request)->0.sql == sql_text(sql_of(request)),
{
    lemma_lists(Column::Key, Column::Value, Column::Value);
    lemma_operand_lists(Operand::Text("version"@), Operand::Parameter(1));
    reveal_strlit("INSERT INTO schema_metadata (key, value) VALUES ('version', ?1) ON CONFLICT(key) DO UPDATE SET value = excluded.value WHERE CAST(schema_metadata.value AS INTEGER) < CAST(excluded.value AS INTEGER)");
    reveal_strlit("UPDATE ");
    reveal_strlit("INSERT INTO ");
    reveal_strlit(" SET ");
    reveal_strlit(" WHERE ");
    reveal_strlit(" = ");
    reveal_strlit("=");
    reveal_strlit("?1");
    reveal_strlit("'");
    reveal_strlit(" ");
    reveal_strlit(", ");
    reveal_strlit(" (");
    reveal_strlit(") VALUES (");
    reveal_strlit(")");
    reveal_strlit(" ON CONFLICT(");
    reveal_strlit(") DO UPDATE SET ");
    reveal_strlit(" = excluded.");
    reveal_strlit(" WHERE CAST(");
    reveal_strlit(".");
    reveal_strlit(" AS INTEGER) < CAST(excluded.");
    reveal_strlit(" AS INTEGER)");
    reveal_strlit("schema_metadata");
    reveal_strlit("key");
    reveal_strlit("value");
    reveal_strlit("version");
    assert(statement_of(request)->0.sql =~= sql_text(sql_of(request)));
}

proof fn lemma_delivered_insert_text(request: Request)
    requires
        request is InsertMetric,
        request->InsertMetric_delivered_ts is Some,
    ensures
        statement_of(request)->0.sql == sql_text(sql_of(request)),
{
    lemma_lists(Column::EventJson, Column::DeliveredTs, Column::DeliveredTs);
    lemma_operand_lists(Operand::Parameter(1), Operand::Parameter(2));
    reveal_strlit("INSERT INTO metrics (event_json, delivered_ts) VALUES (?1, ?2)");
    reveal_strlit("INSERT INTO ");
    reveal_strlit("?1");
    reveal_strlit("?2");
    reveal_strlit(" ");
    reveal_strlit(", ");
    reveal_strlit(" (");
    reveal_strlit(") VALUES (");
    reveal_strlit(")");
    reveal_strlit("metrics");
    reveal_strlit("event_json");
    reveal_strlit("delivered_ts");
    assert(statement_of(request)->0.sql =~= sql_text(sql_of(request)));
}

proof fn lemma_insert_text(request: Request)
    requires
        request is InsertMetric,
        request->InsertMetric_delivered_ts is None,
    ensures
        statement_of(request)->0.sql == sql_text(sql_of(request)),
{
    lemma_lists(Column::EventJson, Column::DeliveredTs, Column::DeliveredTs);
    lemma_operand_lists(Operand::Parameter(1), Operand::Parameter(2));
    reveal_strlit("INSERT INTO metrics (event_json) VALUES (?1)");
    reveal_strlit("INSERT INTO ");
    reveal_strlit("?1");
    reveal_strlit(" ");
    reveal_strlit(" (");
    reveal_strlit(") VALUES (");
    reveal_strlit(")");
    reveal_strlit("metrics");
    reveal_strlit("event_json");
    assert(statement_of(request)->0.sql =~= sql_text(sql_of(request)));
}

proof fn lemma_pending_text(request: Request)
    requires
        request is SelectPending,
    ensures
        statement_of(request)->0.sql == sql_text(sql_of(request)),
{
    lemma_lists(Column::Id, Column::EventJson, Column::EventJson);
    lemma_test_lists(undelivered(), undelivered());
    reveal_strlit("SELECT id, event_json FROM metrics WHERE delivered_ts IS NULL ORDER BY id ASC LIMIT ?1");
    reveal_strlit("SELECT ");
    reveal_strlit(" FROM ");
    reveal_strlit(" WHERE ");
    reveal_strlit(" IS NULL");
    reveal_strlit(" ORDER BY ");
    reveal_strlit(" ASC");
    reveal_strlit(" LIMIT ");
    reveal_strlit("?1");
    reveal_strlit(" ");
    reveal_strlit(", ");
    reveal_strlit("metrics");
    reveal_strlit("id");
    reveal_strlit("event_json");
    reveal_strlit("delivered_ts");
    assert(statement_of(request)->0.sql =~= sql_text(sql_of(request)));
}

proof fn lemma_marking_text(request: Request)
    requires
        request is MarkDelivered,
    ensures
        statement_of(request)->0.sql == sql_text(sql_of(request)),
{
    lemma_test_lists(with_id(2), undelivered());
    reveal_strlit("UPDATE metrics SET delivered_ts = ?1 WHERE id = ?2 AND delivered_ts IS NULL");
    reveal_strlit("UPDATE ");
    reveal_strlit(" SET ");
    reveal_strlit(" WHERE ");
    reveal_strlit(" AND ");
    reveal_strlit(" IS NULL");
    reveal_strlit(" = ");
    reveal_strlit("=");
    reveal_strlit("?1");
    reveal_strlit("?2");
    reveal_strlit(" ");
    reveal_strlit("metrics");
    reveal_strlit("id");
    reveal_strlit("delivered_ts");
    assert(statement_of(request)->0.sql =~= sql_text(sql_of(request)));
}

proof fn lemma_last_prune_text(request: Request)
    requires
        request is ReadLastPrune,
    ensures
        statement_of(request)->0.sql == sql_text(sql_of(request)),
{
    lemma_lists(Column::Value, Column::Value, Column::Value);
    lemma_test_lists(named("metrics_last_prune_ts"@), undelivered());
    reveal_strlit("SELECT value FROM schema_metadata WHERE key = 'metrics_last_prune_ts'");
    reveal_strlit("SELECT ");
    reveal_strlit(" FROM ");
    reveal_strlit(" WHERE ");
    reveal_strlit(" = ");
    reveal_strlit("=");
    reveal_strlit("'");
    reveal_strlit(" ");
    reveal_strlit("metrics");
    reveal_strlit("schema_metadata");
    reveal_strlit("key");
    reveal_strlit("value");
    reveal_strlit("metrics_last_prune_ts");
    assert(statement_of(request)->0.sql =~= sql_text(sql_of(request)));
}

proof fn lemma_rows_text(request: Request)
    requires
        request is ReadMetricRows,
    ensures
        statement_of(request)->0.sql == sql_text(sql_of(request)),
{
    lemma_lists(Column::Id, Column::EventJson, Column::DeliveredTs);
    lemma_test_lists(undelivered(), undelivered());
    reveal_strlit("SELECT id, event_json, delivered_ts FROM metrics ORDER BY id ASC");
    reveal_strlit("SELECT ");
    reveal_strlit(" FROM ");
    reveal_strlit(" ORDER BY ");
    reveal_strlit(" ASC");
    reveal_strlit(" ");
    reveal_strlit(", ");
    reveal_strlit("metrics");
    reveal_strlit("id");
    reveal_strlit("event_json");
    reveal_strlit("delivered_ts");
    assert(statement_of(request)->0.sql =~= sql_text(sql_of(request)));
}

proof fn lemma_prune_text(request: Request)
    requires
        request is RecordPrune,
    ensures
        statement_of(request)->0.sql == sql_text(sql_of(request)),
{
    lemma_lists(Column::Key, Column::Value, Column::Value);
    lemma_operand_lists(Operand::Text("metrics_last_prune_ts"@), Operand::Parameter(1));
    reveal_strlit("INSERT OR REPLACE INTO schema_metadata (key, value) VALUES ('metrics_last_prune_ts', ?1)");
    reveal_strlit("INSERT OR REPLACE INTO ");
    reveal_strlit("?1");
    reveal_strlit("'");
    reveal_strlit(" ");
    reveal_strlit(", ");
    reveal_strlit(" (");
    reveal_strlit(") VALUES (");
    reveal_strlit(")");
    reveal_strlit("metrics");
    reveal_strlit("schema_metadata");
    reveal_strlit("key");
    reveal_strlit("value");
    reveal_strlit("metrics_last_prune_ts");
    assert(statement_of(request)->0.sql =~= sql_text(sql_of(request)));
}

proof fn lemma_delete_text(request: Request)
    requires
        request is DeleteMetric,
    ensures
        statement_of(request)->0.sql == sql_text(sql_of(request)),
{
    lemma_test_lists(with_id(1), undelivered());
    reveal_strlit("DELETE FROM metrics WHERE id = ?1");
    reveal_strlit("DELETE FROM ");
    reveal_strlit(" FROM ");
    reveal_strlit(" WHERE ");
    reveal_strlit(" = ");
    reveal_strlit("=");
    reveal_strlit("?1");
    reveal_strlit(" ");
    reveal_strlit("metrics");
    reveal_strlit("id");
    assert(statement_of(request)->0.sql =~= sql_text(sql_of(request)));
}

proof fn lemma_count_text(request: Request)
    requires
        request is CountPending,
    ensures
        statement_of(request)->0.sql == sql_text(sql_of(request)),
{
    lemma_test_lists(undelivered(), undelivered());
    reveal_strlit("SELECT COUNT(*) FROM metrics WHERE delivered_ts IS NULL");
    reveal_strlit("SELECT ");
    reveal_strlit("SELECT COUNT(*) FROM ");
    reveal_strlit(" FROM ");
    reveal_strlit(" WHERE ");
    reveal_strlit(" IS NULL");
    reveal_strlit(" ");
    reveal_strlit(")");
    reveal_strlit("metrics");
    reveal_strlit("delivered_ts");
    assert(statement_of(request)->0.sql =~= sql_text(sql_of(request)));
}

proof fn lemma_history_text(request: Request)
    requires
        request is ReadHistory,
    ensures
        statement_of(request)->0.sql == sql_text(sql_of(request)),
{
    lemma_lists(Column::EventJson, Column::EventJson, Column::EventJson);
    lemma_test_lists(undelivered(), undelivered());
    reveal_strlit("SELECT event_json FROM metrics ORDER BY id ASC");
    reveal_strlit("SELECT ");
    reveal_strlit(" FROM ");
    reveal_strlit(" ORDER BY ");
    reveal_strlit(" ASC");
    reveal_strlit(" ");
    reveal_strlit("metrics");
    reveal_strlit("id");
    reveal_strlit("event_json");
    assert(statement_of(request)->0.sql =~= sql_text(sql_of(request)));
}

proof fn lemma_last_sent_text(request: Request)
    requires
        request is ReadLastSent,
    ensures
        statement_of(request)->0.sql == sql_text(sql_of(request)),
{
    lemma_lists(Column::LastSentTs, Column::LastSentTs, Column::LastSentTs);
    lemma_test_lists(of_prompt(), undelivered());
    reveal_strlit("SELECT last_sent_ts FROM agent_usage_throttle WHERE prompt_id = ?1");
    reveal_strlit("SELECT ");
    reveal_strlit(" FROM ");
    reveal_strlit(" WHERE ");
    reveal_strlit(" = ");
    reveal_strlit("=");
    reveal_strlit("?1");
    reveal_strlit(" ");
    reveal_strlit("agent_usage_throttle");
    reveal_strlit("id");
    reveal_strlit("prompt_id");
    reveal_strlit("last_sent_ts");
    assert(statement_of(request)->0.sql =~= sql_text(sql_of(request)));
}

proof fn lemma_sent_text(request: Request)
    requires
        request is RecordSent,
    ensures
        statement_of(request)->0.sql == sql_text(sql_of(request)),
{
    lemma_lists(Column::PromptId, Column::LastSentTs, Column::LastSentTs);
    lemma_operand_lists(Operand::Parameter(1), Operand::Parameter(2));
    reveal_strlit("INSERT INTO agent_usage_throttle (prompt_id, last_sent_ts) VALUES (?1, ?2) ON CONFLICT(prompt_id) DO UPDATE SET last_sent_ts = excluded.last_sent_ts");
    reveal_strlit("UPDATE ");
    reveal_strlit("INSERT INTO ");
    reveal_strlit(" SET ");
    reveal_strlit(" = ");
    reveal_strlit("=");
    reveal_strlit("?1");
    reveal_strlit("?2");
    reveal_strlit(" ");
    reveal_strlit(", ");
    reveal_strlit(" (");
    reveal_strlit(") VALUES (");
    reveal_strlit(")");
    reveal_strlit(" ON CONFLICT(");
    reveal_strlit(") DO UPDATE SET ");
    reveal_strlit(" = excluded.");
    reveal_strlit(".");
    reveal_strlit("agent_usage_throttle");
    reveal_strlit("id");
    reveal_strlit("prompt_id");
    reveal_strlit("last_sent_ts");
    assert(statement_of(request)->0.sql =~= sql_text(sql_of(request)));
}

/// The statement of a request on rows reads as its statement in SQL.
pub proof fn law_statements_read_as_sql(request: Request)
    requires
        is_on_rows(request),
    ensures
        statement_of(request) is Some,
        statement_of(request)->0.sql == sql_text(sql_of(request)),
{
    match request {
        Request::ReadSchemaVersion => lemma_version_text(request),
        Request::RecordVersion { .. } => lemma_raise_text(request),
        Request::InsertMetric { delivered_ts, .. } => if delivered_ts is Some {
            lemma_delivered_insert_text(request)
        } else {
            lemma_insert_text(request)
        },
        Request::SelectPending { .. } => lemma_pending_text(request),
        Request::MarkDelivered { .. } => lemma_marking_text(request),
        Request::ReadLastPrune => lemma_last_prune_text(request),
        Request::ReadMetricRows => lemma_rows_text(request),
        Request::RecordPrune { .. } => lemma_prune_text(request),
        Request::DeleteMetric { .. } => lemma_delete_text(request),
        Request::CountPending => lemma_count_text(request),
        Request::ReadHistory => lemma_history_text(request),
        Request::ReadLastSent { .. } => lemma_last_sent_text(request),
        Request::RecordSent { .. } => lemma_sent_text(request),
        _ => {},
    }
}

/// The table of events as it was first defined.
pub open spec fn first_events() -> Definition {
    Definition::CreateTable {
        table: Table::Events,
        columns: seq![
            (Column::Id, Kind::Identifier),
            (Column::EventJson, Kind::RequiredText),
        ],
    }
}

/// The table of the rate limiter.
pub open spec fn throttle() -> Definition {
    Definition::CreateTable {
        table: Table::Throttle,
        columns: seq![
            (Column::PromptId, Kind::KeyText),
            (Column::LastSentTs, Kind::RequiredInteger),
        ],
    }
}

/// The column for the time of delivery.
pub open spec fn delivery() -> Definition {
    Definition::AddColumn {
        table: Table::Events,
        column: Column::DeliveredTs,
        kind: Kind::Integer,
    }
}

/// The index over the pending events.
pub open spec fn pending_index() -> Definition {
    Definition::CreateIndex {
        table: Table::Events,
        columns: seq![Column::DeliveredTs, Column::Id],
    }
}

/// The table of recorded facts.
pub open spec fn facts() -> Definition {
    Definition::CreateTable {
        table: Table::Facts,
        columns: seq![
            (Column::Key, Kind::RequiredKeyText),
            (Column::Value, Kind::RequiredText),
        ],
    }
}

proof fn lemma_defined_columns(first: (Column, Kind), second: (Column, Kind))
    ensures
        defined_columns_text(seq![first, second]) == column_name(first.0) + " "@ + kind_text(
            first.1,
        ) + ", "@ + column_name(second.0) + " "@ + kind_text(second.1),
{
    reveal_with_fuel(defined_columns_text, 3);
    assert(seq![first, second].drop_last() =~= seq![first]);
}

proof fn lemma_events_text()
    ensures
        migration_text(0) == definition_text(first_events()),
{
    lemma_defined_columns(
        (Column::Id, Kind::Identifier),
        (Column::EventJson, Kind::RequiredText),
    );
    reveal_strlit("CREATE TABLE IF NOT EXISTS metrics (id INTEGER PRIMARY KEY AUTOINCREMENT, event_json TEXT NOT NULL);");
    reveal_strlit("CREATE TABLE IF NOT EXISTS ");
    reveal_strlit("metrics");
    reveal_strlit(" (");
    reveal_strlit("id");
    reveal_strlit(" ");
    reveal_strlit("INTEGER PRIMARY KEY AUTOINCREMENT");
    reveal_strlit(", ");
    reveal_strlit("event_json");
    reveal_strlit("TEXT NOT NULL");
    reveal_strlit(");");
    assert(migration_text(0) =~= definition_text(first_events()));
}

proof fn lemma_throttle_text()
    ensures
        migration_text(1) == definition_text(throttle()),
{
    lemma_defined_columns(
        (Column::PromptId, Kind::KeyText),
        (Column::LastSentTs, Kind::RequiredInteger),
    );
    reveal_strlit("CREATE TABLE IF NOT EXISTS agent_usage_throttle (prompt_id TEXT PRIMARY KEY, last_sent_ts INTEGER NOT NULL);");
    reveal_strlit("CREATE TABLE IF NOT EXISTS ");
    reveal_strlit("agent_usage_throttle");
    reveal_strlit(" (");
    reveal_strlit("prompt_id");
    reveal_strlit(" ");
    reveal_strlit("TEXT PRIMARY KEY");
    reveal_strlit(", ");
    reveal_strlit("last_sent_ts");
    reveal_strlit("INTEGER NOT NULL");
    reveal_strlit(");");
    assert(migration_text(1) =~= definition_text(throttle()));
}

proof fn lemma_delivery_text()
    ensures
        definition_text(delivery()) == "ALTER TABLE metrics ADD COLUMN delivered_ts INTEGER;"@,
{
    reveal_strlit("ALTER TABLE metrics ADD COLUMN delivered_ts INTEGER;");
    reveal_strlit("ALTER TABLE ");
    reveal_strlit("metrics");
    reveal_strlit(" ADD COLUMN ");
    reveal_strlit("delivered_ts");
    reveal_strlit(" ");
    reveal_strlit("INTEGER");
    reveal_strlit(";");
    assert(definition_text(delivery()) =~= "ALTER TABLE metrics ADD COLUMN delivered_ts INTEGER;"@);
}

proof fn lemma_second_events_text()
    ensures
        migration_text(4) == migration_text(0) + " "@
            + "ALTER TABLE metrics ADD COLUMN delivered_ts INTEGER;"@,
{
    reveal_strlit("CREATE TABLE IF NOT EXISTS metrics (id INTEGER PRIMARY KEY AUTOINCREMENT, event_json TEXT NOT NULL); ALTER TABLE metrics ADD COLUMN delivered_ts INTEGER;");
    reveal_strlit("CREATE TABLE IF NOT EXISTS metrics (id INTEGER PRIMARY KEY AUTOINCREMENT, event_json TEXT NOT NULL);");
    reveal_strlit(" ");
    reveal_strlit("ALTER TABLE metrics ADD COLUMN delivered_ts INTEGER;");
    assert(migration_text(4) =~= migration_text(0) + " "@
        + "ALTER TABLE metrics ADD COLUMN delivered_ts INTEGER;"@);
}

proof fn lemma_index_text()
    ensures
        migration_text(5) == definition_text(pending_index()),
{
    lemma_lists(Column::DeliveredTs, Column::Id, Column::Id);
    reveal_strlit("CREATE INDEX IF NOT EXISTS metrics_delivered_ts_id ON metrics (delivered_ts, id);");
    reveal_strlit("CREATE INDEX IF NOT EXISTS metrics_delivered_ts_id ON ");
    reveal_strlit("metrics");
    reveal_strlit(" (");
    reveal_strlit("delivered_ts");
    reveal_strlit(", ");
    reveal_strlit("id");
    reveal_strlit(");");
    assert(migration_text(5) =~= definition_text(pending_index()));
}

proof fn lemma_facts_text()
    ensures
        statement_of(Request::CreateSchemaMetadata)->0.sql == definition_text(facts()),
{
    lemma_defined_columns(
        (Column::Key, Kind::RequiredKeyText),
        (Column::Value, Kind::RequiredText),
    );
    reveal_strlit("CREATE TABLE IF NOT EXISTS schema_metadata (key TEXT PRIMARY KEY NOT NULL, value TEXT NOT NULL);");
    reveal_strlit("CREATE TABLE IF NOT EXISTS ");
    reveal_strlit("schema_metadata");
    reveal_strlit(" (");
    reveal_strlit("key");
    reveal_strlit(" ");
    reveal_strlit("TEXT PRIMARY KEY NOT NULL");
    reveal_strlit(", ");
    reveal_strlit("value");
    reveal_strlit("TEXT NOT NULL");
    reveal_strlit(");");
    assert(statement_of(Request::CreateSchemaMetadata)->0.sql =~= definition_text(facts()));
}

/// The migrations read as the definitions that they are for: the table of events, that of the rate
/// limiter, the column for the time of delivery and the index over the pending events. Those from
/// versions 2 and 3 define nothing.
pub proof fn law_migrations_read_as_definitions()
    ensures
        migration_text(0) == definition_text(first_events()),
        migration_text(1) == definition_text(throttle()),
        migration_text(2).len() == 0,
        migration_text(3).len() == 0,
        migration_text(4) == definition_text(first_events()) + " "@ + definition_text(delivery()),
        migration_text(5) == definition_text(pending_index()),
        statement_of(Request::CreateSchemaMetadata)->0.sql == definition_text(facts()),
{
    lemma_events_text();
    lemma_throttle_text();
    lemma_delivery_text();
    lemma_second_events_text();
    lemma_index_text();
    lemma_facts_text();
    reveal_strlit("");
}

/// Every column of a table is made by the definitions, and no definition makes another.
pub proof fn law_definitions_make_all_columns(table: Table, column: Column)
    ensures
        columns_of(table).contains(column) <==> makes_column(first_events(), table, column)
            || makes_column(delivery(), table, column) || makes_column(throttle(), table, column)
            || makes_column(facts(), table, column),
{
    let events = first_events()->CreateTable_columns;
    let limits = throttle()->CreateTable_columns;
    let recorded = facts()->CreateTable_columns;
    assert(events[0].0 == Column::Id && events[1].0 == Column::EventJson);
    assert(limits[0].0 == Column::PromptId && limits[1].0 == Column::LastSentTs);
    assert(recorded[0].0 == Column::Key && recorded[1].0 == Column::Value);
}

/// What is prepared is the statement that then stores an event, and a migration is the statement of
/// its version.
pub proof fn law_prepared_is_what_is_run(
    event_json: String,
    delivered_ts: Option<i64>,
    from_version: usize,
)
    ensures
        statement_of(Request::PrepareInsert { delivered: delivered_ts is Some })->0.sql
            == statement_of(Request::InsertMetric { event_json, delivered_ts })->0.sql,
        from_version < 6 ==> statement_of(Request::Migrate { from_version })->0.sql
            == migration_text(from_version as int),
        from_version >= 6 ==> statement_of(Request::Migrate { from_version }) is None,
{
}

} // verus!
