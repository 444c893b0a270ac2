//! What the statements do to the rows of the tables, and what they return.

use crate::metrics::db_laws::{lemma_filter_ascends, lemma_filter_holds};
use crate::metrics::requests::{statement_of, ReplyView, Request, SqlValueView};
use crate::metrics::sql::{
    conflicting, finds, in_order, limited, new_row, passes, passes_all, returns_lines, rows_after,
    shown, updated, Cell, Column, Conflict, Operand, Order, Row, Sql, Table, Test,
};
use crate::metrics::statement_laws::{by_id, named, of_prompt, sql_of, undelivered, with_id};
use crate::metrics::tables::{
    change, is_pending, marked, pending_events, without, StoredEvent, Surroundings, Tables,
};
use crate::text::decimal_digits;
use vstd::prelude::*;

verus! {

/// The value for a time of delivery.
pub open spec fn delivery_cell(delivered_ts: Option<i64>) -> Cell {
    match delivered_ts {
        Some(ts) => Cell::Integer(ts as int),
        None => Cell::Null,
    }
}

/// The row of an event.
pub open spec fn event_row(event: StoredEvent) -> Row {
    map![
        Column::Id => Cell::Integer(event.id as int),
        Column::EventJson => Cell::Text(event.event_json@),
        Column::DeliveredTs => delivery_cell(event.delivered_ts),
    ]
}

/// The row of a recorded fact.
pub open spec fn fact_row(name: Seq<char>, value: Seq<char>) -> Row {
    map![Column::Key => Cell::Text(name), Column::Value => Cell::Text(value)]
}

/// The row of the last emission for a prompt.
pub open spec fn sent_row(prompt_id: Seq<char>, sent_ts: i64) -> Row {
    map![
        Column::PromptId => Cell::Text(prompt_id),
        Column::LastSentTs => Cell::Integer(sent_ts as int),
    ]
}

/// The rows of a table.
pub open spec fn table_rows(tables: Tables, table: Table) -> Set<Row> {
    match table {
        Table::Events => Set::new(
            |row: Row|
                exists|i: int|
                    0 <= i < tables.events.len() && row == event_row(#[trigger] tables.events[i]),
        ),
        Table::Facts => Set::new(
            |row: Row|
                (tables.version is Some && row == fact_row("version"@, tables.version->0)) || (
                tables.last_prune is Some && row == fact_row(
                    "metrics_last_prune_ts"@,
                    tables.last_prune->0,
                )),
        ),
        Table::Throttle => Set::new(
            |row: Row|
                exists|prompt_id: Seq<char>| #[trigger]
                    tables.last_sent.contains_key(prompt_id) && row == sent_row(
                        prompt_id,
                        tables.last_sent[prompt_id],
                    ),
        ),
    }
}

/// The parameters of the statement of a request.
pub open spec fn params_of(request: Request) -> Seq<SqlValueView> {
    statement_of(request)->0.params
}

proof fn lemma_two_tests(row: Row, first: Test, second: Test, params: Seq<SqlValueView>)
    ensures
        passes_all(row, seq![first, second], params) <==> passes(row, first, params) && passes(
            row,
            second,
            params,
        ),
        passes_all(row, seq![first], params) <==> passes(row, first, params),
        passes_all(row, seq![], params),
{
    let two = seq![first, second];
    assert(two[0] == first && two[1] == second);
    assert(seq![first][0] == first);
    if passes_all(row, two, params) {
        assert(passes(row, two[0], params));
        assert(passes(row, two[1], params));
    }
    if passes_all(row, seq![first], params) {
        assert(passes(row, seq![first][0], params));
    }
}

/// The statement that marks an event gives the pending row with its identifier the time of
/// delivery, and changes no other row.
pub proof fn law_marking_statement_marks_one_row(
    id: i64,
    delivered_ts: i64,
    rows: Set<Row>,
    row: Row,
)
    requires
        rows.contains(row),
    ensures
        ({
            let request = Request::MarkDelivered { id, delivered_ts };
            let sql = sql_of(request);
            let left = rows_after(sql, params_of(request), rows, 0);
            let wanted = row[Column::Id] == Cell::Integer(id as int) && row[Column::DeliveredTs]
                == Cell::Null;
            &&& sql matches Sql::Update { table: Table::Events, .. }
            &&& wanted ==> left.contains(
                row.insert(Column::DeliveredTs, Cell::Integer(delivered_ts as int)),
            )
            &&& !wanted ==> left.contains(row)
        }),
        forall|after: Row| #[trigger]
            rows_after(
                sql_of(Request::MarkDelivered { id, delivered_ts }),
                params_of(Request::MarkDelivered { id, delivered_ts }),
                rows,
                0,
            ).contains(after) ==> rows.contains(after) || exists|before: Row| #[trigger]
                rows.contains(before) && before[Column::Id] == Cell::Integer(id as int)
                    && before[Column::DeliveredTs] == Cell::Null && after == before.insert(
                    Column::DeliveredTs,
                    Cell::Integer(delivered_ts as int),
                ),
{
    let request = Request::MarkDelivered { id, delivered_ts };
    let params = params_of(request);
    let tests = seq![with_id(2), undelivered()];
    assert forall|before: Row|
        (#[trigger] passes_all(before, tests, params)) == (
        before[Column::Id] == Cell::Integer(id as int) && before[Column::DeliveredTs]
            == Cell::Null) by {
        lemma_two_tests(before, with_id(2), undelivered(), params);
    }
    assert(rows.contains(row));
    let sql = sql_of(request);
    let left = rows_after(sql, params, rows, 0);
    let after = updated(
        row,
        Column::DeliveredTs,
        Operand::Parameter(1),
        tests,
        params,
    );
    assert(left.contains(after));
}

/// Whether a statement of a request that writes leaves the rows of its table as they should be.
pub open spec fn writes_as_told(
    request: Request,
    table: Table,
    tables: Tables,
    surroundings: Surroundings,
) -> bool {
    rows_after(
        sql_of(request),
        params_of(request),
        table_rows(tables, table),
        tables.next_id,
    ) == table_rows(change(tables, request, surroundings).0, table)
}

proof fn lemma_marking_writes(
    id: i64,
    delivered_ts: i64,
    tables: Tables,
    surroundings: Surroundings,
)
    ensures
        writes_as_told(
            Request::MarkDelivered { id, delivered_ts },
            Table::Events,
            tables,
            surroundings,
        ),
{
    let request = Request::MarkDelivered { id, delivered_ts };
    let params = params_of(request);
    let rows = table_rows(tables, Table::Events);
    let tests = seq![with_id(2), undelivered()];
    let after = rows_after(sql_of(request), params, rows, tables.next_id);
    let changed = change(tables, request, surroundings).0;
    let expected = table_rows(changed, Table::Events);
    assert forall|event: StoredEvent|
        updated(
            event_row(event),
            Column::DeliveredTs,
            Operand::Parameter(1),
            tests,
            params,
        ) == #[trigger] event_row(marked(event, id, delivered_ts)) by {
        lemma_two_tests(event_row(event), with_id(2), undelivered(), params);
        assert(updated(
            event_row(event),
            Column::DeliveredTs,
            Operand::Parameter(1),
            tests,
            params,
        ) =~= event_row(marked(event, id, delivered_ts)));
    }
    assert forall|row: Row| after.contains(row) <==> expected.contains(row) by {
        if after.contains(row) {
            let before = choose|before: Row| #[trigger]
                rows.contains(before) && row == updated(
                    before,
                    Column::DeliveredTs,
                    Operand::Parameter(1),
                    tests,
                    params,
                );
            let i = choose|i: int|
                0 <= i < tables.events.len() && before == event_row(#[trigger] tables.events[i]);
            assert(changed.events[i] == marked(tables.events[i], id, delivered_ts));
            assert(row == event_row(changed.events[i]));
        }
        if expected.contains(row) {
            let i = choose|i: int|
                0 <= i < changed.events.len() && row == event_row(#[trigger] changed.events[i]);
            assert(changed.events[i] == marked(tables.events[i], id, delivered_ts));
            assert(rows.contains(event_row(tables.events[i])));
        }
    }
    assert(after =~= expected);
}

proof fn lemma_deleting_writes(id: i64, tables: Tables, surroundings: Surroundings)
    ensures
        writes_as_told(
            Request::DeleteMetric { id },
            Table::Events,
            tables,
            surroundings,
        ),
{
    let request = Request::DeleteMetric { id };
    let params = params_of(request);
    let rows = table_rows(tables, Table::Events);
    let after = rows_after(sql_of(request), params, rows, tables.next_id);
    let changed = change(tables, request, surroundings).0;
    let expected = table_rows(changed, Table::Events);
    let kept = |event: StoredEvent| !seq![id].contains(event.id);
    let tests = seq![with_id(1)];
    assert(seq![id][0] == id);
    assert forall|event: StoredEvent|
        passes_all(#[trigger] event_row(event), tests, params) == (event.id == id) by {
        lemma_two_tests(event_row(event), with_id(1), with_id(1), params);
    }
    assert forall|row: Row| after.contains(row) <==> expected.contains(row) by {
        if after.contains(row) {
            let i = choose|i: int|
                0 <= i < tables.events.len() && row == event_row(#[trigger] tables.events[i]);
            let event = tables.events[i];
            lemma_filter_holds(tables.events, kept, event);
            assert(!seq![id].contains(event.id));
            let j = choose|j: int| 0 <= j < changed.events.len() && changed.events[j] == event;
            assert(row == event_row(changed.events[j]));
        }
        if expected.contains(row) {
            let j = choose|j: int|
                0 <= j < changed.events.len() && row == event_row(#[trigger] changed.events[j]);
            let event = changed.events[j];
            assert(changed.events.contains(event));
            lemma_filter_holds(tables.events, kept, event);
            if event.id == id {
                assert(seq![id].contains(event.id));
            }
            let i = choose|i: int| 0 <= i < tables.events.len() && tables.events[i] == event;
            assert(row == event_row(tables.events[i]));
        }
    }
    assert(after =~= expected);
}

proof fn lemma_storing_writes(
    event_json: String,
    delivered_ts: Option<i64>,
    tables: Tables,
    surroundings: Surroundings,
)
    requires
        tables.sound(),
        i64::MIN <= tables.next_id <= i64::MAX,
    ensures
        writes_as_told(
            Request::InsertMetric { event_json, delivered_ts },
            Table::Events,
            tables,
            surroundings,
        ),
{
    let request = Request::InsertMetric { event_json, delivered_ts };
    let params = params_of(request);
    let rows = table_rows(tables, Table::Events);
    let after = rows_after(sql_of(request), params, rows, tables.next_id);
    let changed = change(tables, request, surroundings).0;
    let expected = table_rows(changed, Table::Events);
    let event = StoredEvent { id: tables.next_id as i64, event_json, delivered_ts };
    let columns = sql_of(request)->Insert_columns;
    let values = sql_of(request)->Insert_values;
    let added = new_row(Table::Events, columns, values, params, tables.next_id);
    assert(columns[0] == Column::EventJson);
    assert(columns.index_of(Column::EventJson) == 0);
    if delivered_ts is Some {
        assert(columns[1] == Column::DeliveredTs);
        assert(columns.index_of(Column::DeliveredTs) == 1);
    }
    assert(added =~= event_row(event));
    assert forall|row: Row| #[trigger] rows.contains(row) implies row[Column::Id]
        != added[Column::Id] by {
        let i = choose|i: int|
            0 <= i < tables.events.len() && row == event_row(#[trigger] tables.events[i]);
        assert(tables.events[i].id < tables.next_id);
    }
    assert forall|row: Row| after.contains(row) <==> expected.contains(row) by {
        if rows.contains(row) {
            let i = choose|i: int|
                0 <= i < tables.events.len() && row == event_row(#[trigger] tables.events[i]);
            assert(changed.events[i] == tables.events[i]);
        }
        assert(changed.events[tables.events.len() as int] == event);
        if expected.contains(row) {
            let i = choose|i: int|
                0 <= i < changed.events.len() && row == event_row(#[trigger] changed.events[i]);
            if i < tables.events.len() {
                assert(changed.events[i] == tables.events[i]);
            }
        }
    }
    assert(after =~= expected);
}

proof fn lemma_fact_row(
    name: Seq<char>,
    value: Seq<char>,
    params: Seq<SqlValueView>,
    next_id: int,
)
    requires
        params == seq![SqlValueView::Text(value)],
    ensures
        new_row(
            Table::Facts,
            seq![Column::Key, Column::Value],
            seq![Operand::Text(name), Operand::Parameter(1)],
            params,
            next_id,
        ) == fact_row(name, value),
{
    let columns = seq![Column::Key, Column::Value];
    assert(columns[0] == Column::Key);
    assert(columns[1] == Column::Value);
    assert(columns.index_of(Column::Key) == 0);
    assert(columns.index_of(Column::Value) == 1);
    assert(new_row(
        Table::Facts,
        columns,
        seq![Operand::Text(name), Operand::Parameter(1)],
        params,
        next_id,
    ) =~= fact_row(name, value));
}

proof fn lemma_fact_names()
    ensures
        "version"@ != "metrics_last_prune_ts"@,
{
    reveal_strlit("version");
    reveal_strlit("metrics_last_prune_ts");
    assert("version"@.len() != "metrics_last_prune_ts"@.len());
}

proof fn lemma_version_writes(version: usize, tables: Tables, surroundings: Surroundings)
    ensures
        writes_as_told(
            Request::RecordVersion { version },
            Table::Facts,
            tables,
            surroundings,
        ),
{
    let request = Request::RecordVersion { version };
    let params = params_of(request);
    let rows = table_rows(tables, Table::Facts);
    let after = rows_after(sql_of(request), params, rows, tables.next_id);
    let changed = change(tables, request, surroundings).0;
    let expected = table_rows(changed, Table::Facts);
    let digits = decimal_digits(version as nat);
    let added = fact_row("version"@, digits);
    let conflict = Conflict::Raise { key: Column::Key, column: Column::Value };
    lemma_fact_names();
    lemma_fact_row("version"@, digits, params, tables.next_id);
    if tables.version is Some {
        let old = fact_row("version"@, tables.version->0);
        assert(rows.contains(old) && old[Column::Key] == added[Column::Key]);
        assert(old.insert(Column::Value, added[Column::Value]) =~= added);
    }
    if tables.last_prune is Some {
        assert(rows.contains(fact_row("metrics_last_prune_ts"@, tables.last_prune->0)));
    }
    assert forall|row: Row| after.contains(row) <==> expected.contains(row) by {}
    assert(after =~= expected);
}

proof fn lemma_prune_time_writes(now: u64, tables: Tables, surroundings: Surroundings)
    ensures
        writes_as_told(Request::RecordPrune { now }, Table::Facts, tables, surroundings),
{
    let request = Request::RecordPrune { now };
    let params = params_of(request);
    let rows = table_rows(tables, Table::Facts);
    let after = rows_after(sql_of(request), params, rows, tables.next_id);
    let changed = change(tables, request, surroundings).0;
    let expected = table_rows(changed, Table::Facts);
    let digits = decimal_digits(now as nat);
    let added = fact_row("metrics_last_prune_ts"@, digits);
    lemma_fact_names();
    lemma_fact_row("metrics_last_prune_ts"@, digits, params, tables.next_id);
    if tables.version is Some {
        assert(rows.contains(fact_row("version"@, tables.version->0)));
    }
    if tables.last_prune is Some {
        let old = fact_row("metrics_last_prune_ts"@, tables.last_prune->0);
        assert(rows.contains(old) && old[Column::Key] == added[Column::Key]);
    }
    assert forall|row: Row| after.contains(row) <==> expected.contains(row) by {}
    assert(after =~= expected);
}

proof fn lemma_sent_writes(
    prompt_id: String,
    sent_ts: i64,
    tables: Tables,
    surroundings: Surroundings,
)
    ensures
        writes_as_told(
            Request::RecordSent { prompt_id, sent_ts },
            Table::Throttle,
            tables,
            surroundings,
        ),
{
    let request = Request::RecordSent { prompt_id, sent_ts };
    let params = params_of(request);
    let rows = table_rows(tables, Table::Throttle);
    let after = rows_after(sql_of(request), params, rows, tables.next_id);
    let changed = change(tables, request, surroundings).0;
    let expected = table_rows(changed, Table::Throttle);
    let columns = seq![Column::PromptId, Column::LastSentTs];
    let values = seq![Operand::Parameter(1), Operand::Parameter(2)];
    let added = new_row(Table::Throttle, columns, values, params, tables.next_id);
    let key = Column::PromptId;
    let conflict = Conflict::Update { key: Column::PromptId, column: Column::LastSentTs };
    assert(columns[0] == Column::PromptId);
    assert(columns[1] == Column::LastSentTs);
    assert(columns.index_of(Column::PromptId) == 0);
    assert(columns.index_of(Column::LastSentTs) == 1);
    assert(added =~= sent_row(prompt_id@, sent_ts));
    let taken = tables.last_sent.contains_key(prompt_id@);
    if taken {
        let old = sent_row(prompt_id@, tables.last_sent[prompt_id@]);
        assert(rows.contains(old) && old[key] == added[key]);
        assert(old.insert(Column::LastSentTs, added[Column::LastSentTs]) =~= added);
    }
    assert forall|row: Row| #[trigger] rows.contains(row) && row[key] == added[key] implies taken
        && row == sent_row(prompt_id@, tables.last_sent[prompt_id@]) by {}
    assert forall|row: Row| after.contains(row) <==> expected.contains(row) by {
        if after.contains(row) {
            if taken {
                let before = choose|before: Row| #[trigger]
                    rows.contains(before) && row == if before[key] == added[key] {
                        conflicting(before, added, conflict)
                    } else {
                        before
                    };
                if before[key] == added[key] {
                    assert(row == added);
                    assert(changed.last_sent.contains_key(prompt_id@));
                } else {
                    let other = choose|other: Seq<char>| #[trigger]
                        tables.last_sent.contains_key(other) && before == sent_row(
                            other,
                            tables.last_sent[other],
                        );
                    assert(changed.last_sent.contains_key(other));
                }
            } else if row == added {
                assert(changed.last_sent.contains_key(prompt_id@));
            } else {
                let other = choose|other: Seq<char>| #[trigger]
                    tables.last_sent.contains_key(other) && row == sent_row(
                        other,
                        tables.last_sent[other],
                    );
                assert(changed.last_sent.contains_key(other));
            }
        }
        if expected.contains(row) {
            let other = choose|other: Seq<char>| #[trigger]
                changed.last_sent.contains_key(other) && row == sent_row(
                    other,
                    changed.last_sent[other],
                );
            if other == prompt_id@ {
                if taken {
                    assert(rows.contains(sent_row(prompt_id@, tables.last_sent[prompt_id@])));
                }
            } else {
                assert(tables.last_sent.contains_key(other));
                assert(rows.contains(row));
                assert(row[key] != added[key]);
            }
        }
    }
    assert(after =~= expected);
}

/// The table that a request writes.
pub open spec fn written_table(request: Request) -> Option<Table> {
    match request {
        Request::MarkDelivered { .. } => Some(Table::Events),
        Request::DeleteMetric { .. } => Some(Table::Events),
        Request::InsertMetric { .. } => Some(Table::Events),
        Request::RecordVersion { .. } => Some(Table::Facts),
        Request::RecordPrune { .. } => Some(Table::Facts),
        Request::RecordSent { .. } => Some(Table::Throttle),
        _ => None,
    }
}

/// The statement of a request that writes leaves the rows of its table as the request is meant to.
pub proof fn law_statements_write_as_told(
    request: Request,
    tables: Tables,
    surroundings: Surroundings,
)
    requires
        tables.sound(),
        i64::MIN <= tables.next_id <= i64::MAX,
        written_table(request) is Some,
    ensures
        rows_after(
            sql_of(request),
            params_of(request),
            table_rows(tables, written_table(request)->0),
            tables.next_id,
        ) == table_rows(change(tables, request, surroundings).0, written_table(request)->0),
{
    match request {
        Request::MarkDelivered { id, delivered_ts } => lemma_marking_writes(
            id,
            delivered_ts,
            tables,
            surroundings,
        ),
        Request::DeleteMetric { id } => lemma_deleting_writes(id, tables, surroundings),
        Request::InsertMetric { event_json, delivered_ts } => lemma_storing_writes(
            event_json,
            delivered_ts,
            tables,
            surroundings,
        ),
        Request::RecordVersion { version } => lemma_version_writes(version, tables, surroundings),
        Request::RecordPrune { now } => lemma_prune_time_writes(now, tables, surroundings),
        Request::RecordSent { prompt_id, sent_ts } => lemma_sent_writes(
            prompt_id,
            sent_ts,
            tables,
            surroundings,
        ),
        _ => {},
    }
}

/// Rows by ascending identifiers that are exactly those of some events, each once, are the rows of
/// these events in their order.
proof fn lemma_listing(rows: Seq<Row>, events: Seq<StoredEvent>)
    requires
        forall|i: int, j: int|
            0 <= i < j < events.len() ==> (#[trigger] events[i]).id < (#[trigger] events[j]).id,
        rows.no_duplicates(),
        in_order(rows, by_id()),
        forall|row: Row| #[trigger]
            rows.contains(row) <==> exists|i: int|
                0 <= i < events.len() && row == event_row(#[trigger] events[i]),
    ensures
        rows.len() == events.len(),
        forall|i: int| 0 <= i < events.len() ==> rows[i] == event_row(#[trigger] events[i]),
    decreases events.len(),
{
    if events.len() == 0 {
        if rows.len() > 0 {
            assert(rows.contains(rows[0]));
        }
    } else {
        let end = events.len() - 1;
        let last = event_row(events[end]);
        assert(rows.contains(last));
        let k = choose|k: int| 0 <= k < rows.len() && rows[k] == last;
        let top = rows.len() - 1;
        assert(rows.contains(rows[top]));
        let i = choose|i: int| 0 <= i < events.len() && rows[top] == event_row(#[trigger] events[i]);
        if k < top {
            assert(rows[k][Column::Id]->Integer_0 <= rows[top][Column::Id]->Integer_0);
            if i < end {
                assert(events[i].id < events[end].id);
            }
            assert(rows[k] == rows[top]);
        }
        let fewer_rows = rows.drop_last();
        let fewer = events.drop_last();
        assert forall|row: Row| #[trigger] fewer_rows.contains(row) <==> exists|i: int|
            0 <= i < fewer.len() && row == event_row(#[trigger] fewer[i]) by {
            if fewer_rows.contains(row) {
                let at = choose|at: int| 0 <= at < fewer_rows.len() && fewer_rows[at] == row;
                assert(rows[at] == row);
                assert(rows.contains(row));
                let i = choose|i: int|
                    0 <= i < events.len() && row == event_row(#[trigger] events[i]);
                if i == end {
                    assert(rows[at] == rows[top]);
                }
                assert(fewer[i] == events[i]);
            }
            if exists|i: int| 0 <= i < fewer.len() && row == event_row(#[trigger] fewer[i]) {
                let i = choose|i: int|
                    0 <= i < fewer.len() && row == event_row(#[trigger] fewer[i]);
                assert(fewer[i] == events[i]);
                assert(row == event_row(events[i]));
                assert(rows.contains(row));
                let at = choose|at: int| 0 <= at < rows.len() && rows[at] == row;
                if at == top {
                    assert(row[Column::Id] == last[Column::Id]);
                    assert(events[i].id < events[end].id);
                }
                assert(fewer_rows[at] == row);
            }
        }
        lemma_listing(fewer_rows, fewer);
        assert forall|i: int| 0 <= i < events.len() implies rows[i] == event_row(
            #[trigger] events[i],
        ) by {
            if i < end {
                assert(fewer_rows[i] == event_row(fewer[i]));
            }
        }
    }
}

/// The rows that a query of the events finds, with a test or without.
proof fn lemma_found_events(
    tables: Tables,
    tests: Seq<Test>,
    params: Seq<SqlValueView>,
    order: Order,
    rows: Seq<Row>,
    wanted: Seq<StoredEvent>,
)
    requires
        finds(table_rows(tables, Table::Events), tests, params, order, rows),
        forall|event: StoredEvent| #[trigger]
            wanted.contains(event) <==> tables.events.contains(event) && passes_all(
                event_row(event),
                tests,
                params,
            ),
    ensures
        forall|row: Row| #[trigger]
            rows.contains(row) <==> exists|i: int|
                0 <= i < wanted.len() && row == event_row(#[trigger] wanted[i]),
{
    assert forall|row: Row| #[trigger] rows.contains(row) <==> exists|i: int|
        0 <= i < wanted.len() && row == event_row(#[trigger] wanted[i]) by {
        if rows.contains(row) {
            let k = choose|k: int|
                0 <= k < tables.events.len() && row == event_row(#[trigger] tables.events[k]);
            assert(tables.events.contains(tables.events[k]));
            assert(wanted.contains(tables.events[k]));
            let i = choose|i: int| 0 <= i < wanted.len() && wanted[i] == tables.events[k];
            assert(row == event_row(wanted[i]));
        }
        if exists|i: int| 0 <= i < wanted.len() && row == event_row(#[trigger] wanted[i]) {
            let i = choose|i: int|
                0 <= i < wanted.len() && row == event_row(#[trigger] wanted[i]);
            assert(wanted.contains(wanted[i]));
            let k = choose|k: int| 0 <= k < tables.events.len() && tables.events[k] == wanted[i];
            assert(row == event_row(tables.events[k]));
            assert(table_rows(tables, Table::Events).contains(row));
        }
    }
}

proof fn lemma_pending_found(tables: Tables, params: Seq<SqlValueView>)
    requires
        tables.sound(),
    ensures
        forall|event: StoredEvent| #[trigger]
            pending_events(tables.events).contains(event) <==> tables.events.contains(event)
                && passes_all(event_row(event), seq![undelivered()], params),
        forall|i: int, j: int|
            0 <= i < j < pending_events(tables.events).len() ==> (
            #[trigger] pending_events(tables.events)[i]).id < (
            #[trigger] pending_events(tables.events)[j]).id,
{
    let pending = |event: StoredEvent| is_pending(event);
    lemma_filter_ascends(tables.events, pending);
    assert forall|event: StoredEvent| #[trigger]
        pending_events(tables.events).contains(event) <==> tables.events.contains(event)
            && passes_all(event_row(event), seq![undelivered()], params) by {
        lemma_filter_holds(tables.events, pending, event);
        lemma_two_tests(event_row(event), undelivered(), undelivered(), params);
    }
}

/// Whether lines say what is answered. The texts of events are read outside.
pub open spec fn lines_say(
    lines: Seq<Seq<Cell>>,
    reply: ReplyView,
    surroundings: Surroundings,
) -> bool {
    match reply {
        ReplyView::Text(Some(text)) => lines == seq![seq![Cell::Text(text)]],
        ReplyView::Text(None) => lines.len() == 0,
        ReplyView::Integer(Some(number)) => lines == seq![seq![Cell::Integer(number as int)]],
        ReplyView::Integer(None) => lines.len() == 0,
        ReplyView::Pending(records) => lines.len() == records.len() && forall|i: int|
            0 <= i < lines.len() ==> #[trigger] lines[i] == seq![
                Cell::Integer(records[i].id as int),
                Cell::Text(records[i].event_json@),
            ],
        ReplyView::Rows(rows) => lines.len() == rows.len() && forall|i: int|
            0 <= i < lines.len() ==> {
                &&& (#[trigger] lines[i]).len() == 3
                &&& lines[i][0] == Cell::Integer(rows[i].id as int)
                &&& lines[i][1] matches Cell::Text(text) && (surroundings.event_time)(text)
                    == rows[i].event_ts
                &&& lines[i][2] == delivery_cell(rows[i].delivered_ts)
            },
        ReplyView::History(events) => lines.len() == events.len() && forall|i: int|
            0 <= i < lines.len() ==> {
                &&& (#[trigger] lines[i]).len() == 1
                &&& lines[i][0] matches Cell::Text(text) && (surroundings.event)(text) == events[i]
            },
        _ => false,
    }
}

proof fn lemma_select_returns(
    columns: Seq<Column>,
    table: Table,
    tests: Seq<Test>,
    order: Order,
    limit: Option<Operand>,
    params: Seq<SqlValueView>,
    rows: Set<Row>,
    lines: Seq<Seq<Cell>>,
) -> (found: Seq<Row>)
    requires
        returns_lines(Sql::Select { columns, table, tests, order, limit }, params, rows, lines),
    ensures
        finds(rows, tests, params, order, found),
        lines == limited(found, limit, params).map_values(|row: Row| shown(row, columns)),
{
    choose|found: Seq<Row>| #[trigger]
        finds(rows, tests, params, order, found) && lines == limited(
            found,
            limit,
            params,
        ).map_values(|row: Row| shown(row, columns))
}

proof fn lemma_pending_returned(
    limit: i64,
    tables: Tables,
    surroundings: Surroundings,
    lines: Seq<Seq<Cell>>,
)
    requires
        tables.sound(),
        limit >= 0,
        returns_lines(
            sql_of(Request::SelectPending { limit }),
            params_of(Request::SelectPending { limit }),
            table_rows(tables, Table::Events),
            lines,
        ),
    ensures
        lines_say(
            lines,
            change(tables, Request::SelectPending { limit }, surroundings).1,
            surroundings,
        ),
{
    let request = Request::SelectPending { limit };
    let params = params_of(request);
    let columns = seq![Column::Id, Column::EventJson];
    let found = lemma_select_returns(
        columns,
        Table::Events,
        seq![undelivered()],
        by_id(),
        Some(Operand::Parameter(1)),
        params,
        table_rows(tables, Table::Events),
        lines,
    );
    let pending = pending_events(tables.events);
    lemma_pending_found(tables, params);
    lemma_found_events(tables, seq![undelivered()], params, by_id(), found, pending);
    lemma_listing(found, pending);
    let records = change(tables, request, surroundings).1->Pending_0;
    assert(lines.len() == records.len());
    assert forall|i: int| 0 <= i < lines.len() implies #[trigger] lines[i] == seq![
        Cell::Integer(records[i].id as int),
        Cell::Text(records[i].event_json@),
    ] by {
        assert(found[i] == event_row(pending[i]));
        assert(lines[i] =~= seq![
            Cell::Integer(records[i].id as int),
            Cell::Text(records[i].event_json@),
        ]);
    }
}

proof fn lemma_all_returned(
    request: Request,
    tables: Tables,
    surroundings: Surroundings,
    lines: Seq<Seq<Cell>>,
)
    requires
        tables.sound(),
        request is ReadMetricRows || request is ReadHistory,
        returns_lines(
            sql_of(request),
            params_of(request),
            table_rows(tables, Table::Events),
            lines,
        ),
    ensures
        lines_say(lines, change(tables, request, surroundings).1, surroundings),
{
    let params = params_of(request);
    let columns = if request is ReadHistory {
        seq![Column::EventJson]
    } else {
        seq![Column::Id, Column::EventJson, Column::DeliveredTs]
    };
    let found = lemma_select_returns(
        columns,
        Table::Events,
        seq![],
        by_id(),
        None,
        params,
        table_rows(tables, Table::Events),
        lines,
    );
    assert forall|event: StoredEvent| #[trigger]
        tables.events.contains(event) <==> tables.events.contains(event) && passes_all(
            event_row(event),
            seq![],
            params,
        ) by {
        lemma_two_tests(event_row(event), undelivered(), undelivered(), params);
    }
    lemma_found_events(tables, seq![], params, by_id(), found, tables.events);
    lemma_listing(found, tables.events);
    assert forall|i: int| 0 <= i < lines.len() implies #[trigger] lines[i] == shown(
        event_row(tables.events[i]),
        columns,
    ) by {
        assert(found[i] == event_row(tables.events[i]));
    }
}

proof fn lemma_count_returned(
    tables: Tables,
    surroundings: Surroundings,
    lines: Seq<Seq<Cell>>,
)
    requires
        tables.sound(),
        tables.events.len() <= i64::MAX,
        returns_lines(
            sql_of(Request::CountPending),
            params_of(Request::CountPending),
            table_rows(tables, Table::Events),
            lines,
        ),
    ensures
        lines_say(lines, change(tables, Request::CountPending, surroundings).1, surroundings),
{
    let params = params_of(Request::CountPending);
    let tests = seq![undelivered()];
    let rows = table_rows(tables, Table::Events);
    let found = choose|found: Seq<Row>| #[trigger]
        finds(rows, tests, params, Order::Any, found) && lines == seq![
            seq![Cell::Integer(found.len() as int)],
        ];
    let pending = pending_events(tables.events);
    lemma_pending_found(tables, params);
    lemma_found_events(tables, tests, params, Order::Any, found, pending);
    let listed = pending.map_values(|event: StoredEvent| event_row(event));
    assert(listed.no_duplicates()) by {
        assert forall|i: int, j: int| 0 <= i < j < listed.len() implies listed[i]
            != listed[j] by {
            assert(pending[i].id < pending[j].id);
            assert(listed[i][Column::Id] != listed[j][Column::Id]);
        }
    }
    assert forall|row: Row| found.to_set().contains(row) <==> listed.to_set().contains(row) by {
        if found.contains(row) {
            let i = choose|i: int|
                0 <= i < pending.len() && row == event_row(#[trigger] pending[i]);
            assert(listed[i] == row);
        }
        if listed.contains(row) {
            let i = choose|i: int| 0 <= i < listed.len() && listed[i] == row;
            assert(row == event_row(pending[i]));
            assert(found.contains(row));
        }
    }
    assert(found.to_set() =~= listed.to_set());
    found.unique_seq_to_set();
    listed.unique_seq_to_set();
    tables.events.lemma_filter_len(|event: StoredEvent| is_pending(event));
}

/// A query that can find one row only.
proof fn lemma_one_found(
    rows: Set<Row>,
    tests: Seq<Test>,
    params: Seq<SqlValueView>,
    found: Seq<Row>,
    row: Row,
    there: bool,
)
    requires
        finds(rows, tests, params, Order::Any, found),
        forall|other: Row| #[trigger]
            rows.contains(other) && passes_all(other, tests, params) <==> there && other == row,
    ensures
        there ==> found == seq![row],
        !there ==> found.len() == 0,
{
    if there {
        assert(rows.contains(row) && passes_all(row, tests, params));
        assert(found.contains(row));
        assert forall|i: int| 0 <= i < found.len() implies found[i] == row by {
            assert(found.contains(found[i]));
        }
        if found.len() > 1 {
            assert(found[0] == found[1]);
        }
        assert(found =~= seq![row]);
    } else if found.len() > 0 {
        assert(found.contains(found[0]));
    }
}

proof fn lemma_fact_returned(
    request: Request,
    tables: Tables,
    surroundings: Surroundings,
    lines: Seq<Seq<Cell>>,
)
    requires
        request is ReadSchemaVersion || request is ReadLastPrune,
        returns_lines(
            sql_of(request),
            params_of(request),
            table_rows(tables, Table::Facts),
            lines,
        ),
    ensures
        lines_say(lines, change(tables, request, surroundings).1, surroundings),
{
    let params = params_of(request);
    let (name, recorded) = if request is ReadSchemaVersion {
        ("version"@, tables.version)
    } else {
        ("metrics_last_prune_ts"@, tables.last_prune)
    };
    let tests = seq![named(name)];
    let rows = table_rows(tables, Table::Facts);
    let columns = seq![Column::Value];
    let found = lemma_select_returns(
        columns,
        Table::Facts,
        tests,
        Order::Any,
        None,
        params,
        rows,
        lines,
    );
    let row = fact_row(name, recorded->0);
    lemma_fact_names();
    assert forall|other: Row| #[trigger]
        rows.contains(other) && passes_all(other, tests, params) <==> recorded is Some && other
            == row by {
        lemma_two_tests(other, named(name), named(name), params);
    }
    lemma_one_found(rows, tests, params, found, row, recorded is Some);
    if recorded is Some {
        assert(lines[0] =~= seq![Cell::Text(recorded->0)]);
        assert(lines =~= seq![seq![Cell::Text(recorded->0)]]);
    }
}

proof fn lemma_sent_returned(
    prompt_id: String,
    tables: Tables,
    surroundings: Surroundings,
    lines: Seq<Seq<Cell>>,
)
    requires
        returns_lines(
            sql_of(Request::ReadLastSent { prompt_id }),
            params_of(Request::ReadLastSent { prompt_id }),
            table_rows(tables, Table::Throttle),
            lines,
        ),
    ensures
        lines_say(
            lines,
            change(tables, Request::ReadLastSent { prompt_id }, surroundings).1,
            surroundings,
        ),
{
    let request = Request::ReadLastSent { prompt_id };
    let params = params_of(request);
    let tests = seq![of_prompt()];
    let rows = table_rows(tables, Table::Throttle);
    let columns = seq![Column::LastSentTs];
    let found = lemma_select_returns(
        columns,
        Table::Throttle,
        tests,
        Order::Any,
        None,
        params,
        rows,
        lines,
    );
    let there = tables.last_sent.contains_key(prompt_id@);
    let row = sent_row(prompt_id@, tables.last_sent[prompt_id@]);
    assert forall|other: Row| #[trigger]
        rows.contains(other) && passes_all(other, tests, params) <==> there && other == row by {
        lemma_two_tests(other, of_prompt(), of_prompt(), params);
    }
    lemma_one_found(rows, tests, params, found, row, there);
    if there {
        let number = tables.last_sent[prompt_id@] as int;
        assert(lines[0] =~= seq![Cell::Integer(number)]);
        assert(lines =~= seq![seq![Cell::Integer(number)]]);
    }
}

/// The table that a request reads.
pub open spec fn read_table(request: Request) -> Option<Table> {
    match request {
        Request::ReadSchemaVersion => Some(Table::Facts),
        Request::ReadLastPrune => Some(Table::Facts),
        Request::SelectPending { .. } => Some(Table::Events),
        Request::ReadMetricRows => Some(Table::Events),
        Request::CountPending => Some(Table::Events),
        Request::ReadHistory => Some(Table::Events),
        Request::ReadLastSent { .. } => Some(Table::Throttle),
        _ => None,
    }
}

/// Whatever lines the statement of a request that reads can return, they say what the request is
/// answered.
pub proof fn law_statements_return_as_told(
    request: Request,
    tables: Tables,
    surroundings: Surroundings,
    lines: Seq<Seq<Cell>>,
)
    requires
        tables.sound(),
        tables.events.len() <= i64::MAX,
        read_table(request) is Some,
        request matches Request::SelectPending { limit } ==> limit >= 0,
        returns_lines(
            sql_of(request),
            params_of(request),
            table_rows(tables, read_table(request)->0),
            lines,
        ),
    ensures
        lines_say(lines, change(tables, request, surroundings).1, surroundings),
{
    match request {
        Request::ReadSchemaVersion => lemma_fact_returned(request, tables, surroundings, lines),
        Request::ReadLastPrune => lemma_fact_returned(request, tables, surroundings, lines),
        Request::SelectPending { limit } => lemma_pending_returned(
            limit,
            tables,
            surroundings,
            lines,
        ),
        Request::ReadMetricRows => lemma_all_returned(request, tables, surroundings, lines),
        Request::CountPending => lemma_count_returned(tables, surroundings, lines),
        Request::ReadHistory => lemma_all_returned(request, tables, surroundings, lines),
        Request::ReadLastSent { prompt_id } => lemma_sent_returned(
            prompt_id,
            tables,
            surroundings,
            lines,
        ),
        _ => {},
    }
}

} // verus!
