//! The part of SQL that the statements of the metrics database are written in: how a statement
//! reads, and what it does to the rows of a table.

use crate::metrics::requests::SqlValueView;
use crate::metrics::tables::cast_integer;
use vstd::prelude::*;

verus! {

/// The tables.
pub enum Table {
    Events,
    Facts,
    Throttle,
}

/// The columns of the tables.
pub enum Column {
    Id,
    EventJson,
    DeliveredTs,
    Key,
    Value,
    PromptId,
    LastSentTs,
}

/// How a value is compared with another.
pub enum Operator {
    Equal,
    Different,
    Less,
    AtMost,
    Greater,
    AtLeast,
}

/// What a value is compared with, or what is written: the parameter of a number, or a text.
pub enum Operand {
    Parameter(nat),
    Text(Seq<char>),
}

/// What a row has to pass.
pub enum Test {
    Compare { column: Column, operator: Operator, operand: Operand },
    IsNull { column: Column },
}

/// In which order the rows come.
pub enum Order {
    Any,
    Ascending(Column),
    Descending(Column),
}

/// What becomes of a row whose key is taken.
pub enum Conflict {
    /// There is none to be expected.
    Unexpected,
    /// The other row goes.
    Replace,
    /// The other row takes over one value.
    Update { key: Column, column: Column },
    /// The other row takes over one value where its own, cast to a number, is less.
    Raise { key: Column, column: Column },
}

/// A statement on the rows of a table.
pub enum Sql {
    Select {
        columns: Seq<Column>,
        table: Table,
        tests: Seq<Test>,
        order: Order,
        limit: Option<Operand>,
    },
    Count { table: Table, tests: Seq<Test> },
    Update { table: Table, column: Column, value: Operand, tests: Seq<Test> },
    Delete { table: Table, tests: Seq<Test> },
    Insert { table: Table, columns: Seq<Column>, values: Seq<Operand>, conflict: Conflict },
}

/// The name of a table.
pub open spec fn table_name(table: Table) -> Seq<char> {
    match table {
        Table::Events => "metrics"@,
        Table::Facts => "schema_metadata"@,
        Table::Throttle => "agent_usage_throttle"@,
    }
}

/// The name of a column.
pub open spec fn column_name(column: Column) -> Seq<char> {
    match column {
        Column::Id => "id"@,
        Column::EventJson => "event_json"@,
        Column::DeliveredTs => "delivered_ts"@,
        Column::Key => "key"@,
        Column::Value => "value"@,
        Column::PromptId => "prompt_id"@,
        Column::LastSentTs => "last_sent_ts"@,
    }
}

/// How an operator reads.
pub open spec fn operator_text(operator: Operator) -> Seq<char> {
    match operator {
        Operator::Equal => "="@,
        Operator::Different => "<>"@,
        Operator::Less => "<"@,
        Operator::AtMost => "<="@,
        Operator::Greater => ">"@,
        Operator::AtLeast => ">="@,
    }
}

/// How an operand reads.
pub open spec fn operand_text(operand: Operand) -> Seq<char> {
    match operand {
        Operand::Parameter(number) => if number == 1 {
            "?1"@
        } else {
            "?2"@
        },
        Operand::Text(text) => "'"@ + text + "'"@,
    }
}

/// How a test reads.
pub open spec fn test_text(test: Test) -> Seq<char> {
    match test {
        Test::Compare { column, operator, operand } => column_name(column) + " "@ + operator_text(
            operator,
        ) + " "@ + operand_text(operand),
        Test::IsNull { column } => column_name(column) + " IS NULL"@,
    }
}

/// How tests read that a row has to pass all of.
pub open spec fn tests_text(tests: Seq<Test>) -> Seq<char>
    decreases tests.len(),
{
    if tests.len() == 0 {
        Seq::empty()
    } else if tests.len() == 1 {
        " WHERE "@ + test_text(tests[0])
    } else {
        tests_text(tests.drop_last()) + " AND "@ + test_text(tests.last())
    }
}

/// How a list of columns reads.
pub open spec fn columns_text(columns: Seq<Column>) -> Seq<char>
    decreases columns.len(),
{
    if columns.len() == 0 {
        Seq::empty()
    } else if columns.len() == 1 {
        column_name(columns[0])
    } else {
        columns_text(columns.drop_last()) + ", "@ + column_name(columns.last())
    }
}

/// How a list of operands reads.
pub open spec fn operands_text(operands: Seq<Operand>) -> Seq<char>
    decreases operands.len(),
{
    if operands.len() == 0 {
        Seq::empty()
    } else if operands.len() == 1 {
        operand_text(operands[0])
    } else {
        operands_text(operands.drop_last()) + ", "@ + operand_text(operands.last())
    }
}

/// How an order reads.
pub open spec fn order_text(order: Order) -> Seq<char> {
    match order {
        Order::Any => Seq::empty(),
        Order::Ascending(column) => " ORDER BY "@ + column_name(column) + " ASC"@,
        Order::Descending(column) => " ORDER BY "@ + column_name(column) + " DESC"@,
    }
}

/// How a limit reads, where there is one.
pub open spec fn limit_text(limit: Option<Operand>) -> Seq<char> {
    match limit {
        Some(operand) => " LIMIT "@ + operand_text(operand),
        None => Seq::empty(),
    }
}

/// How a statement says what to do where a row with the key is there.
pub open spec fn conflict_text(table: Table, conflict: Conflict) -> Seq<char> {
    match conflict {
        Conflict::Update { key, column } => " ON CONFLICT("@ + column_name(key)
            + ") DO UPDATE SET "@ + column_name(column) + " = excluded."@ + column_name(column),
        Conflict::Raise { key, column } => " ON CONFLICT("@ + column_name(key)
            + ") DO UPDATE SET "@ + column_name(column) + " = excluded."@ + column_name(column)
            + " WHERE CAST("@ + table_name(table) + "."@ + column_name(column)
            + " AS INTEGER) < CAST(excluded."@ + column_name(column) + " AS INTEGER)"@,
        _ => Seq::empty(),
    }
}

/// How a statement reads.
pub open spec fn sql_text(sql: Sql) -> Seq<char> {
    match sql {
        Sql::Select { columns, table, tests, order, limit } => "SELECT "@ + columns_text(columns)
            + " FROM "@ + table_name(table) + tests_text(tests) + order_text(order) + limit_text(
            limit,
        ),
        Sql::Count { table, tests } => "SELECT COUNT(*) FROM "@ + table_name(table) + tests_text(
            tests,
        ),
        Sql::Update { table, column, value, tests } => "UPDATE "@ + table_name(table) + " SET "@
            + column_name(column) + " = "@ + operand_text(value) + tests_text(tests),
        Sql::Delete { table, tests } => "DELETE FROM "@ + table_name(table) + tests_text(tests),
        Sql::Insert { table, columns, values, conflict } => (if conflict is Replace {
            "INSERT OR REPLACE INTO "@
        } else {
            "INSERT INTO "@
        }) + table_name(table) + " ("@ + columns_text(columns) + ") VALUES ("@ + operands_text(
            values,
        ) + ")"@ + conflict_text(table, conflict),
    }
}

/// A value in a row.
pub enum Cell {
    Null,
    Integer(int),
    Text(Seq<char>),
}

/// A row: its value in each column of its table.
pub type Row = Map<Column, Cell>;

/// What a parameter puts into a cell.
pub open spec fn cell_of(value: SqlValueView) -> Cell {
    match value {
        SqlValueView::Integer(number) => Cell::Integer(number),
        SqlValueView::Text(text) => Cell::Text(text),
    }
}

/// The value of an operand.
pub open spec fn operand_cell(operand: Operand, params: Seq<SqlValueView>) -> Cell {
    match operand {
        Operand::Parameter(number) => cell_of(params[number - 1]),
        Operand::Text(text) => Cell::Text(text),
    }
}

/// Whether a comparison holds. Nothing compares with a missing value.
pub open spec fn compares(operator: Operator, left: Cell, right: Cell) -> bool {
    match (left, right) {
        (Cell::Integer(left), Cell::Integer(right)) => match operator {
            Operator::Equal => left == right,
            Operator::Different => left != right,
            Operator::Less => left < right,
            Operator::AtMost => left <= right,
            Operator::Greater => left > right,
            Operator::AtLeast => left >= right,
        },
        (Cell::Text(left), Cell::Text(right)) => match operator {
            Operator::Equal => left == right,
            Operator::Different => left != right,
            _ => false,
        },
        _ => false,
    }
}

/// Whether a row passes a test.
pub open spec fn passes(row: Row, test: Test, params: Seq<SqlValueView>) -> bool {
    match test {
        Test::Compare { column, operator, operand } => compares(
            operator,
            row[column],
            operand_cell(operand, params),
        ),
        Test::IsNull { column } => row[column] is Null,
    }
}

/// Whether a row passes all tests.
pub open spec fn passes_all(row: Row, tests: Seq<Test>, params: Seq<SqlValueView>) -> bool {
    forall|i: int| 0 <= i < tests.len() ==> passes(row, #[trigger] tests[i], params)
}

/// Whether the rows come in an order.
pub open spec fn in_order(rows: Seq<Row>, order: Order) -> bool {
    match order {
        Order::Any => true,
        Order::Ascending(column) => forall|i: int, j: int|
            0 <= i < j < rows.len() ==> (#[trigger] rows[i])[column]->Integer_0 <= (
            #[trigger] rows[j])[column]->Integer_0,
        Order::Descending(column) => forall|i: int, j: int|
            0 <= i < j < rows.len() ==> (#[trigger] rows[i])[column]->Integer_0 >= (
            #[trigger] rows[j])[column]->Integer_0,
    }
}

/// Whether a list holds exactly the rows that pass all tests, each once, in an order.
pub open spec fn finds(
    table: Set<Row>,
    tests: Seq<Test>,
    params: Seq<SqlValueView>,
    order: Order,
    rows: Seq<Row>,
) -> bool {
    &&& rows.no_duplicates()
    &&& forall|row: Row| #[trigger]
        rows.contains(row) <==> table.contains(row) && passes_all(row, tests, params)
    &&& in_order(rows, order)
}

/// What is shown of a row.
pub open spec fn shown(row: Row, columns: Seq<Column>) -> Seq<Cell> {
    columns.map_values(|column: Column| row[column])
}

/// How many of the rows come.
pub open spec fn limited(rows: Seq<Row>, limit: Option<Operand>, params: Seq<SqlValueView>) -> Seq<
    Row,
> {
    match limit {
        Some(operand) => match operand_cell(operand, params) {
            Cell::Integer(most) => if 0 <= most < rows.len() {
                rows.take(most)
            } else {
                rows
            },
            _ => rows,
        },
        None => rows,
    }
}

/// Whether a statement can return these lines, given the rows of its table.
pub open spec fn returns_lines(
    sql: Sql,
    params: Seq<SqlValueView>,
    table: Set<Row>,
    lines: Seq<Seq<Cell>>,
) -> bool {
    match sql {
        Sql::Select { columns, tests, order, limit, .. } => exists|rows: Seq<Row>| #[trigger]
            finds(table, tests, params, order, rows) && lines == limited(
                rows,
                limit,
                params,
            ).map_values(|row: Row| shown(row, columns)),
        Sql::Count { tests, .. } => exists|rows: Seq<Row>| #[trigger]
            finds(table, tests, params, Order::Any, rows) && lines == seq![
                seq![Cell::Integer(rows.len() as int)],
            ],
        _ => lines.len() == 0,
    }
}

/// The new row of an insertion. What is not given is missing, and a missing identifier is made up.
pub open spec fn new_row(
    table: Table,
    columns: Seq<Column>,
    values: Seq<Operand>,
    params: Seq<SqlValueView>,
    next_id: int,
) -> Row {
    Map::new(
        |column: Column| columns_of(table).contains(column),
        |column: Column|
            if columns.contains(column) {
                operand_cell(values[columns.index_of(column)], params)
            } else if column is Id {
                Cell::Integer(next_id)
            } else {
                Cell::Null
            },
    )
}

/// The columns of a table.
pub open spec fn columns_of(table: Table) -> Set<Column> {
    match table {
        Table::Events => set![Column::Id, Column::EventJson, Column::DeliveredTs],
        Table::Facts => set![Column::Key, Column::Value],
        Table::Throttle => set![Column::PromptId, Column::LastSentTs],
    }
}

/// The column whose values tell the rows of a table apart.
pub open spec fn key_of(table: Table) -> Column {
    match table {
        Table::Events => Column::Id,
        Table::Facts => Column::Key,
        Table::Throttle => Column::PromptId,
    }
}

/// The number for which the value of a cell is taken when it is cast.
pub open spec fn cast(cell: Cell) -> int {
    match cell {
        Cell::Integer(number) => number,
        Cell::Text(text) => cast_integer(text),
        Cell::Null => 0,
    }
}

/// A row after an update.
pub open spec fn updated(
    row: Row,
    column: Column,
    value: Operand,
    tests: Seq<Test>,
    params: Seq<SqlValueView>,
) -> Row {
    if passes_all(row, tests, params) {
        row.insert(column, operand_cell(value, params))
    } else {
        row
    }
}

/// A row after another with its key was inserted.
pub open spec fn conflicting(row: Row, added: Row, conflict: Conflict) -> Row {
    match conflict {
        Conflict::Update { column, .. } => row.insert(column, added[column]),
        Conflict::Raise { column, .. } => if cast(row[column]) < cast(added[column]) {
            row.insert(column, added[column])
        } else {
            row
        },
        Conflict::Replace => added,
        Conflict::Unexpected => row,
    }
}

/// The rows of its table after a statement.
pub open spec fn rows_after(
    sql: Sql,
    params: Seq<SqlValueView>,
    table: Set<Row>,
    next_id: int,
) -> Set<Row> {
    match sql {
        Sql::Update { column, value, tests, .. } => Set::new(
            |row: Row|
                exists|before: Row| #[trigger]
                    table.contains(before) && row == updated(before, column, value, tests, params),
        ),
        Sql::Delete { tests, .. } => Set::new(
            |row: Row| table.contains(row) && !passes_all(row, tests, params),
        ),
        Sql::Insert { table: name, columns, values, conflict } => {
            let added = new_row(name, columns, values, params, next_id);
            let key = key_of(name);
            if exists|row: Row| #[trigger] table.contains(row) && row[key] == added[key] {
                Set::new(
                    |row: Row|
                        exists|before: Row| #[trigger]
                            table.contains(before) && row == if before[key] == added[key] {
                                conflicting(before, added, conflict)
                            } else {
                                before
                            },
                )
            } else {
                table.insert(added)
            }
        },
        _ => table,
    }
}

/// What a column can hold.
pub enum Kind {
    /// A number that tells the rows apart and is never given twice.
    Identifier,
    /// A text that tells the rows apart.
    KeyText,
    /// A text that tells the rows apart and is never missing.
    RequiredKeyText,
    /// A text that is never missing.
    RequiredText,
    /// A number that is never missing.
    RequiredInteger,
    /// A number.
    Integer,
}

/// A statement that defines a table, a column or an index, where it is not there yet.
pub enum Definition {
    CreateTable { table: Table, columns: Seq<(Column, Kind)> },
    AddColumn { table: Table, column: Column, kind: Kind },
    CreateIndex { table: Table, columns: Seq<Column> },
}

/// How the kind of a column reads.
pub open spec fn kind_text(kind: Kind) -> Seq<char> {
    match kind {
        Kind::Identifier => "INTEGER PRIMARY KEY AUTOINCREMENT"@,
        Kind::KeyText => "TEXT PRIMARY KEY"@,
        Kind::RequiredKeyText => "TEXT PRIMARY KEY NOT NULL"@,
        Kind::RequiredText => "TEXT NOT NULL"@,
        Kind::RequiredInteger => "INTEGER NOT NULL"@,
        Kind::Integer => "INTEGER"@,
    }
}

/// How the columns of a new table read.
pub open spec fn defined_columns_text(columns: Seq<(Column, Kind)>) -> Seq<char>
    decreases columns.len(),
{
    if columns.len() == 0 {
        Seq::empty()
    } else if columns.len() == 1 {
        column_name(columns[0].0) + " "@ + kind_text(columns[0].1)
    } else {
        defined_columns_text(columns.drop_last()) + ", "@ + column_name(columns.last().0) + " "@
            + kind_text(columns.last().1)
    }
}

/// How a definition reads.
pub open spec fn definition_text(definition: Definition) -> Seq<char> {
    match definition {
        Definition::CreateTable { table, columns } => "CREATE TABLE IF NOT EXISTS "@ + table_name(
            table,
        ) + " ("@ + defined_columns_text(columns) + ");"@,
        Definition::AddColumn { table, column, kind } => "ALTER TABLE "@ + table_name(table)
            + " ADD COLUMN "@ + column_name(column) + " "@ + kind_text(kind) + ";"@,
        Definition::CreateIndex { table, columns } =>
            "CREATE INDEX IF NOT EXISTS metrics_delivered_ts_id ON "@ + table_name(table) + " ("@
            + columns_text(columns) + ");"@,
    }
}

/// Whether a definition makes a column.
pub open spec fn makes_column(definition: Definition, table: Table, column: Column) -> bool {
    match definition {
        Definition::CreateTable { table: made, columns } => made == table && exists|i: int|
            0 <= i < columns.len() && (#[trigger] columns[i]).0 == column,
        Definition::AddColumn { table: changed, column: made, .. } => changed == table && made
            == column,
        Definition::CreateIndex { .. } => false,
    }
}

} // verus!
