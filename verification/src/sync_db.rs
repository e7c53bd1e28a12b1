//! The catalog in a SQLite database.
//!
//! Every request is a statement or two for the database engine, and what
//! the catalog decides from the rows that come back. The engine is reached
//! through the few functions below whose contracts are taken on trust. What
//! is handed to them is made by the functions of `statements`, one for each
//! statement, and what is decided from their results is verified for every
//! result.

use crate::database::models::{CatalogError, EntryQueryParam};
use crate::sync_db::statements::{enforcing, probing};
use vstd::prelude::*;

pub mod entries;
pub mod statements;
pub mod tags;

verus! {

/// `rusqlite::Connection`: a connection to a database. The library hands
/// it to the engine and never looks inside.
#[verifier::external_type_specification]
#[verifier::external_body]
pub struct ExConnection(rusqlite::Connection);

/// `rusqlite::Error`: a failure of the engine. The library turns it into
/// its words and never looks inside.
#[verifier::external_type_specification]
#[verifier::external_body]
pub struct ExEngineError(rusqlite::Error);

/// `rusqlite::Row`: a row that a query found, while the engine stands on
/// it. The library reads its columns through `column`.
#[verifier::external_type_specification]
#[verifier::external_body]
pub struct ExRow<'a>(rusqlite::Row<'a>);

/// `rusqlite::types::Value`: a value as the engine takes it. The library
/// makes one of each value that it hands to the engine.
#[verifier::external_type_specification]
#[verifier::external_body]
pub struct ExValue(rusqlite::types::Value);

/// What a column of a row holds.
#[derive(Debug, Clone)]
pub enum SqlValue {
    Null,
    Integer(i64),
    Text(String),
    /// A number with a fraction, or bytes: the catalog stores neither.
    Other,
}

/// The catalog, over one connection to its database.
pub struct SyncDb(rusqlite::Connection);

/// `rusqlite::Connection::open`: opens the database in the file `path`.
/// Nothing is claimed of the result.
#[verifier::external_body]
fn open_connection(path: &str) -> Result<rusqlite::Connection, rusqlite::Error> {
    rusqlite::Connection::open(path)
}

/// `rusqlite::Connection::execute_batch`: runs the statements of `sql`.
/// Nothing is claimed of the result.
#[verifier::external_body]
fn execute_batch(conn: &rusqlite::Connection, sql: &str) -> Result<(), rusqlite::Error> {
    conn.execute_batch(sql)
}

/// The value `param` as the engine takes it: text for text, an integer for
/// an integer. Nothing is claimed of the result, which only the engine
/// reads.
#[verifier::external_body]
fn engine_value(param: &EntryQueryParam) -> rusqlite::types::Value {
    match param {
        EntryQueryParam::String(text) => rusqlite::types::Value::Text(text.clone()),
        EntryQueryParam::Int(number) => rusqlite::types::Value::Integer(*number),
    }
}

/// `rusqlite::Connection::execute`: runs the statement `sql` with `params`
/// for its question marks, and returns the number of rows that it changed.
/// Nothing is claimed of the result.
#[verifier::external_body]
fn execute(conn: &rusqlite::Connection, sql: &str, params: &Vec<EntryQueryParam>) -> Result<
    usize,
    rusqlite::Error,
> {
    conn.execute(sql, rusqlite::params_from_iter(params.iter().map(engine_value)))
}

/// `rusqlite::Statement::insert`, on the statement that
/// `rusqlite::Connection::prepare` makes of `sql`: runs the statement, which
/// must insert one row, and returns the identity of that row. Nothing is
/// claimed of the result.
#[verifier::external_body]
fn insert(conn: &rusqlite::Connection, sql: &str, params: &Vec<EntryQueryParam>) -> Result<
    i64,
    rusqlite::Error,
> {
    conn.prepare(sql)?.insert(rusqlite::params_from_iter(params.iter().map(engine_value)))
}

/// `rusqlite::Row::get`: the value of column `index` of `row`. Nothing is
/// claimed of the result.
#[verifier::external_body]
fn column(row: &rusqlite::Row<'_>, index: usize) -> Result<SqlValue, rusqlite::Error> {
    Ok(
        match row.get::<usize, rusqlite::types::Value>(index)? {
            rusqlite::types::Value::Null => SqlValue::Null,
            rusqlite::types::Value::Integer(number) => SqlValue::Integer(number),
            rusqlite::types::Value::Text(text) => SqlValue::Text(text),
            rusqlite::types::Value::Real(_) => SqlValue::Other,
            rusqlite::types::Value::Blob(_) => SqlValue::Other,
        },
    )
}

/// The first `columns` columns of `row`: the engine is asked for each of
/// them, and the first failure ends the reading. Where no column is asked
/// for, the engine is not asked, and the reading succeeds.
fn read_columns(row: &rusqlite::Row<'_>, columns: usize) -> (values: Result<
    Vec<SqlValue>,
    rusqlite::Error,
>)
    ensures
        values matches Ok(v) ==> v@.len() == columns,
        columns == 0 ==> values is Ok,
{
    let mut values: Vec<SqlValue> = Vec::new();
    let mut i: usize = 0;
    while i < columns
        invariant
            i <= columns,
            values@.len() == i,
        decreases columns - i,
    {
        match column(row, i) {
            Ok(value) => {
                values.push(value);
            },
            Err(e) => {
                return Err(e);
            },
        }
        i = i + 1;
    }
    Ok(values)
}

/// `rusqlite::Connection::query_row` and `rusqlite::OptionalExtension::
/// optional`: runs the query `sql` and hands its first row to
/// `read_columns`; `None` where the query finds no row. A row that comes
/// back is what `read_columns` made of it, so it holds `columns` values.
#[verifier::external_body]
fn query_row(
    conn: &rusqlite::Connection,
    sql: &str,
    params: &Vec<EntryQueryParam>,
    columns: usize,
) -> (row: Result<Option<Vec<SqlValue>>, rusqlite::Error>)
    ensures
        row matches Ok(Some(values)) ==> values@.len() == columns,
{
    rusqlite::OptionalExtension::optional(
        conn.query_row(
            sql,
            rusqlite::params_from_iter(params.iter().map(engine_value)),
            |row| read_columns(row, columns),
        ),
    )
}

/// `rusqlite::Statement::query_map`, on the statement that
/// `rusqlite::Connection::prepare` makes of `sql`: runs the query and hands
/// each row to `read_columns`. Every row that comes back is what
/// `read_columns` made of it, so it holds `columns` values.
#[verifier::external_body]
fn query_rows(
    conn: &rusqlite::Connection,
    sql: &str,
    params: &Vec<EntryQueryParam>,
    columns: usize,
) -> (rows: Result<Vec<Vec<SqlValue>>, rusqlite::Error>)
    ensures
        rows matches Ok(list) ==> forall|i: int|
            0 <= i < list@.len() ==> (#[trigger] list@[i])@.len() == columns,
{
    conn.prepare(sql)?.query_map(
        rusqlite::params_from_iter(params.iter().map(engine_value)),
        |row| read_columns(row, columns),
    )?.collect()
}

/// The words of the engine's error `e` (its `Display`). Nothing is claimed
/// of the result.
#[verifier::external_body]
fn error_text(e: &rusqlite::Error) -> String {
    e.to_string()
}

/// `std::time::SystemTime::elapsed`, of the first second of 1970: the whole
/// seconds from then to now, or `None` where the clock stands before it.
/// Nothing is claimed of the result.
#[verifier::external_body]
fn seconds_since_epoch() -> Option<u64> {
    std::time::UNIX_EPOCH.elapsed().ok().map(|d| d.as_secs())
}

/// The time `seconds` as the catalog stores it: `seconds`, or the largest
/// time that can be stored, where it is beyond that; 0 where there is none.
pub fn stored_time(seconds: Option<u64>) -> (time: i64)
    ensures
        time == match seconds {
            Some(s) => if s <= i64::MAX {
                s as int
            } else {
                i64::MAX as int
            },
            None => 0,
        },
{
    match seconds {
        Some(s) => if s <= 9223372036854775807u64 {
            s as i64
        } else {
            9223372036854775807i64
        },
        None => 0,
    }
}

/// The time now, in seconds since the first second of 1970.
pub fn time() -> (now: i64)
    ensures
        now >= 0,
{
    stored_time(seconds_since_epoch())
}

/// The catalog's error for a failure of the engine.
pub(crate) fn failed(e: rusqlite::Error) -> (error: CatalogError)
    ensures
        error is Database,
{
    CatalogError::Database(error_text(&e))
}

/// The integer in the first column of `row`, where the row is there and
/// holds one.
pub fn first_integer(row: &Option<Vec<SqlValue>>) -> (number: Option<i64>)
    ensures
        number == match row {
            Some(values) => if values@.len() > 0 && values@[0] is Integer {
                Some(values@[0]->Integer_0)
            } else {
                None
            },
            None => None,
        },
{
    match row {
        Some(values) => {
            if values.len() > 0 {
                match &values[0] {
                    SqlValue::Integer(number) => Some(*number),
                    _ => None,
                }
            } else {
                None
            }
        },
        None => None,
    }
}

/// Whether a database needs the catalog's tables, by what came of asking
/// it for a tag category: it does, unless a row was found.
pub fn is_lacking(probe: &Result<Option<Vec<SqlValue>>, CatalogError>) -> (lacking: bool)
    ensures
        lacking == !(probe matches Ok(Some(_))),
{
    match probe {
        Ok(Some(_)) => false,
        _ => true,
    }
}

impl SyncDb {
    /// Opens the database in `file`, without looking into it.
    pub fn connect(file: &str) -> (db: Result<SyncDb, CatalogError>)
        ensures
            db matches Err(e) ==> e is Database,
    {
        match open_connection(file) {
            Ok(connection) => Ok(SyncDb(connection)),
            Err(e) => Err(failed(e)),
        }
    }

    /// Whether the database lacks the catalog's tables, or a first tag
    /// category: the engine is asked for a tag category, and `is_lacking`
    /// says what is made of its answer.
    pub fn needs_setup(&self) -> bool {
        let (sql, values, columns) = probing();
        is_lacking(&self.first_row(sql.as_str(), &values, columns))
    }

    /// Runs the statements `db_def`, which define the catalog's tables.
    pub fn setup(&self, db_def: &str) -> (done: Result<(), CatalogError>)
        ensures
            done matches Err(e) ==> e is Database,
    {
        match execute_batch(&self.0, db_def) {
            Ok(()) => Ok(()),
            Err(e) => Err(failed(e)),
        }
    }

    /// Has the engine hold the references between the tables.
    pub fn enforce_references(&self) -> (done: Result<(), CatalogError>)
        ensures
            done matches Err(e) ==> e is Database,
    {
        let (sql, values) = enforcing();
        match execute(&self.0, sql.as_str(), &values) {
            Ok(_) => Ok(()),
            Err(e) => Err(failed(e)),
        }
    }

    /// Opens the catalog in `file`; where the database is new, `db_def`
    /// defines its tables first.
    pub fn open(file: &str, db_def: &str) -> (db: Result<SyncDb, CatalogError>)
        ensures
            db matches Err(e) ==> e is Database,
    {
        match SyncDb::connect(file) {
            Err(e) => Err(e),
            Ok(db) => {
                if db.needs_setup() {
                    match db.setup(db_def) {
                        Err(e) => {
                            return Err(e);
                        },
                        Ok(()) => {},
                    }
                }
                match db.enforce_references() {
                    Err(e) => Err(e),
                    Ok(()) => Ok(db),
                }
            },
        }
    }

    /// The first row that the query `sql` finds, or `None`.
    pub(crate) fn first_row(&self, sql: &str, params: &Vec<EntryQueryParam>, columns: usize) -> (row:
        Result<Option<Vec<SqlValue>>, CatalogError>)
        ensures
            row matches Ok(Some(values)) ==> values@.len() == columns,
            row matches Err(e) ==> e is Database,
    {
        match query_row(&self.0, sql, params, columns) {
            Ok(row) => Ok(row),
            Err(e) => Err(failed(e)),
        }
    }

    /// All rows that the query `sql` finds.
    pub(crate) fn all_rows(&self, sql: &str, params: &Vec<EntryQueryParam>, columns: usize) -> (rows:
        Result<Vec<Vec<SqlValue>>, CatalogError>)
        ensures
            rows matches Ok(list) ==> forall|i: int|
                0 <= i < list@.len() ==> (#[trigger] list@[i])@.len() == columns,
            rows matches Err(e) ==> e is Database,
    {
        match query_rows(&self.0, sql, params, columns) {
            Ok(rows) => Ok(rows),
            Err(e) => Err(failed(e)),
        }
    }

    /// Runs the statement `sql`.
    pub(crate) fn run(&self, sql: &str, params: &Vec<EntryQueryParam>) -> (done: Result<(), CatalogError>)
        ensures
            done matches Err(e) ==> e is Database,
    {
        match execute(&self.0, sql, params) {
            Ok(_) => Ok(()),
            Err(e) => Err(failed(e)),
        }
    }

    /// Runs the statement `sql`, which inserts one row, and returns the
    /// identity of the row.
    pub(crate) fn insert_row(&self, sql: &str, params: &Vec<EntryQueryParam>) -> (id: Result<
        i64,
        CatalogError,
    >)
        ensures
            id matches Err(e) ==> e is Database,
    {
        match insert(&self.0, sql, params) {
            Ok(id) => Ok(id),
            Err(e) => Err(failed(e)),
        }
    }
}

} // verus!
