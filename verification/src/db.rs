use vstd::prelude::*;

verus! {

/// An open SQLite database (`rusqlite::Connection`).
#[verifier::external_type_specification]
#[verifier::external_body]
pub struct ExConnection(rusqlite::Connection);

/// An error reported by SQLite (`rusqlite::Error`).
#[verifier::external_type_specification]
#[verifier::external_body]
pub struct ExDbError(rusqlite::Error);

/// One row of the `todos` table, column by column, as SQLite hands it out.
#[derive(Debug)]
pub struct RawRow {
    pub id: i64,
    pub title: String,
    pub completed: i64,
    pub created_at: String,
    pub completed_at: Option<String>,
}

/// A path of the file system (`std::path::PathBuf`).
#[verifier::external_type_specification]
#[verifier::external_body]
pub struct ExPathBuf(std::path::PathBuf);

/// Calls `rusqlite::Connection::open`, which opens (or creates) the database
/// file at `path`. Whether it succeeds depends on the file system, so nothing
/// is claimed of the outcome.
#[verifier::external_body]
pub(crate) fn open_connection(path: &std::path::PathBuf) -> (r: Result<rusqlite::Connection, rusqlite::Error>) {
    rusqlite::Connection::open(path)
}

/// Calls `rusqlite::Connection::execute_batch`, which runs the statements of
/// `sql` one after the other. The outcome depends on the database, so nothing
/// is claimed of it.
#[verifier::external_body]
pub(crate) fn execute_batch(conn: &rusqlite::Connection, sql: &str) -> (r: Result<(), rusqlite::Error>) {
    conn.execute_batch(sql)
}

/// A value bound to a parameter of an SQL statement.
#[derive(Debug, Clone, PartialEq, Eq)]
pub enum SqlValue {
    Int(i64),
    Text(String),
    Null,
}

/// A bound value as a plain value.
pub enum SqlValueView {
    Int(i64),
    Text(Seq<char>),
    Null,
}

impl View for SqlValue {
    type V = SqlValueView;

    open spec fn view(&self) -> SqlValueView {
        match self {
            SqlValue::Int(i) => SqlValueView::Int(*i),
            SqlValue::Text(t) => SqlValueView::Text(t@),
            SqlValue::Null => SqlValueView::Null,
        }
    }
}

/// The bound values, in order.
pub open spec fn values_view(values: Seq<SqlValue>) -> Seq<SqlValueView> {
    values.map_values(|v: SqlValue| v@)
}

/// Calls `rusqlite::Connection::execute`, which runs one statement with the
/// values bound to its parameters in order (`rusqlite::params_from_iter`;
/// each value converted to the `rusqlite::types::Value` of the same kind) and
/// returns the number of rows that it changed. The outcome depends on the
/// database, so nothing is claimed of it.
#[verifier::external_body]
pub(crate) fn execute(conn: &rusqlite::Connection, sql: &str, values: &Vec<SqlValue>) -> (r: Result<
    usize,
    rusqlite::Error,
>) {
    let values = values.iter().map(|v| match v {
        SqlValue::Int(i) => rusqlite::types::Value::Integer(*i),
        SqlValue::Text(t) => rusqlite::types::Value::Text(t.clone()),
        SqlValue::Null => rusqlite::types::Value::Null,
    });
    conn.execute(sql, rusqlite::params_from_iter(values))
}

/// Calls `rusqlite::Connection::last_insert_rowid`, the rowid of the row that
/// the last successful INSERT on this connection added. It depends on the
/// database, so nothing is claimed of it.
#[verifier::external_body]
pub(crate) fn last_insert_rowid(conn: &rusqlite::Connection) -> (r: i64) {
    conn.last_insert_rowid()
}

/// A prepared SQL statement (`rusqlite::Statement`).
#[verifier::external_type_specification]
#[verifier::external_body]
pub struct ExStatement<'conn>(rusqlite::Statement<'conn>);

/// One row of the result of a query (`rusqlite::Row`).
#[verifier::external_type_specification]
#[verifier::external_body]
pub struct ExRow<'stmt>(rusqlite::Row<'stmt>);

/// Calls `rusqlite::Connection::prepare`, which compiles `sql` into a
/// statement. Whether SQLite accepts it depends on the database, so nothing is
/// claimed of the outcome.
#[verifier::external_body]
pub(crate) fn prepare<'c>(conn: &'c rusqlite::Connection, sql: &str) -> (r: Result<rusqlite::Statement<'c>, rusqlite::Error>) {
    conn.prepare(sql)
}

/// Calls `rusqlite::Row::get`, the value of column `idx` of the row
/// converted to `T`, or the error of a missing column or of a value that does
/// not convert. The value depends on the database, so nothing is claimed of
/// it.
#[verifier::external_body]
pub(crate) fn column<T: rusqlite::types::FromSql>(row: &rusqlite::Row, idx: usize) -> (r: Result<T, rusqlite::Error>) {
    row.get(idx)
}

/// The five columns of a row of the `todos` table, in the order in which
/// the query of all rows selects them.
pub(crate) fn read_row(row: &rusqlite::Row) -> (r: Result<RawRow, rusqlite::Error>) {
    let id: i64 = column(row, 0)?;
    let title: String = column(row, 1)?;
    let completed: i64 = column(row, 2)?;
    let created_at: String = column(row, 3)?;
    let completed_at: Option<String> = column(row, 4)?;
    Ok(RawRow { id, title, completed, created_at, completed_at })
}

/// Runs the statement with `rusqlite::Statement::query_map`, without
/// parameters, reading each row with `read_row`, and collects the rows in the
/// order in which SQLite hands them out, each as read or as the error that
/// reading it gave. The rows depend on the database, so nothing is claimed of
/// them.
#[verifier::external_body]
pub(crate) fn query_rows(stmt: &mut rusqlite::Statement) -> (r: Result<Vec<Result<RawRow, rusqlite::Error>>, rusqlite::Error>) {
    let rows = stmt.query_map([], |row| read_row(row))?;
    Ok(rows.collect())
}

/// One exchange with the database, as the library's own code recorded it:
/// statements run as a batch and whether that succeeded; a statement with its
/// bound values and the number of rows it changed (none where it failed); the
/// rowid that SQLite reported for the last insert; a query and the rows it
/// gave (none where preparing or running it failed).
pub enum Event {
    Batch { sql: Seq<char>, ok: bool },
    Sent { sql: Seq<char>, values: Seq<SqlValueView>, changed: Option<usize> },
    RowId(i64),
    Query { sql: Seq<char>, rows: Option<Seq<Result<RawRow, rusqlite::Error>>> },
}

/// The number of rows an outcome reports changed, or none for a failure.
pub open spec fn changed_of(r: Result<usize, rusqlite::Error>) -> Option<usize> {
    match r {
        Ok(n) => Some(n),
        Err(_) => None,
    }
}

/// The rows that a query gave, or none where it failed.
pub open spec fn rows_seen(r: Result<Vec<Result<RawRow, rusqlite::Error>>, rusqlite::Error>) -> Option<Seq<Result<RawRow, rusqlite::Error>>> {
    match r {
        Ok(rows) => Some(rows@),
        Err(_) => None,
    }
}

/// An open database, with the record of every exchange that this library
/// has had with it since it was opened.
pub struct Db {
    conn: rusqlite::Connection,
    events: Ghost<Seq<Event>>,
}

impl Db {
    /// The exchanges with the database since it was opened, in order.
    pub closed spec fn events(&self) -> Seq<Event> {
        self.events@
    }

    /// Opens (or creates) the database file at `path`.
    pub fn open(path: &std::path::PathBuf) -> (r: Result<Db, rusqlite::Error>)
        ensures
            r matches Ok(db) ==> db.events() == Seq::<Event>::empty(),
    {
        match open_connection(path) {
            Ok(conn) => Ok(Db { conn, events: Ghost(Seq::empty()) }),
            Err(e) => Err(e),
        }
    }

    /// Runs the statements of `sql` one after the other.
    pub fn run_batch(&mut self, sql: &str) -> (r: Result<(), rusqlite::Error>)
        ensures
            final(self).events() == old(self).events().push(Event::Batch { sql: sql@, ok: r is Ok }),
    {
        let r = execute_batch(&self.conn, sql);
        self.events = Ghost(self.events@.push(Event::Batch { sql: sql@, ok: r is Ok }));
        r
    }

    /// Runs `sql` with `values` bound to its parameters, and returns the
    /// number of rows that it changed.
    pub fn send(&mut self, sql: &str, values: Vec<SqlValue>) -> (r: Result<usize, rusqlite::Error>)
        ensures
            final(self).events() == old(self).events().push(
                Event::Sent { sql: sql@, values: values_view(values@), changed: changed_of(r) },
            ),
    {
        let r = execute(&self.conn, sql, &values);
        self.events = Ghost(
            self.events@.push(Event::Sent { sql: sql@, values: values_view(values@), changed: changed_of(r) }),
        );
        r
    }

    /// The rowid that SQLite reports for the last insert on this
    /// connection.
    pub fn last_insert_rowid(&mut self) -> (r: i64)
        ensures
            final(self).events() == old(self).events().push(Event::RowId(r)),
    {
        let r = last_insert_rowid(&self.conn);
        self.events = Ghost(self.events@.push(Event::RowId(r)));
        r
    }

    /// Runs the query `sql` and reads the five columns of each row.
    pub fn select(&mut self, sql: &str) -> (r: Result<Vec<Result<RawRow, rusqlite::Error>>, rusqlite::Error>)
        ensures
            final(self).events() == old(self).events().push(
                Event::Query { sql: sql@, rows: rows_seen(r) },
            ),
    {
        let r = {
            let mut statement = match prepare(&self.conn, sql) {
                Ok(st) => st,
                Err(e) => {
                    self.events = Ghost(self.events@.push(Event::Query { sql: sql@, rows: None }));
                    return Err(e);
                },
            };
            query_rows(&mut statement)
        };
        self.events = Ghost(
            self.events@.push(
                Event::Query { sql: sql@, rows: rows_seen(r) },
            ),
        );
        r
    }
}

} // verus!
