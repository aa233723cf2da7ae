//! The read-only store connection: opening and tuning it, and the calls into
//! `rusqlite` that the membership queries are made through.
//!
//! What the store holds is decided outside this library, by the database file
//! and by whoever writes to it while a run is under way. The contracts of the
//! calls below therefore promise nothing about the rows that come back.

use vstd::prelude::*;
use crate::error::{CheckError, ErrorKind};
use crate::query::membership_sql;

verus! {

/// A connection to the store.
#[verifier::external_type_specification]
#[verifier::external_body]
pub struct ExConnection(rusqlite::Connection);

/// A failure reported by the store.
#[verifier::external_type_specification]
#[verifier::external_body]
pub struct ExStoreError(rusqlite::Error);

/// What reading one result row gave: the outer `Err` when stepping to the
/// row failed, the inner `Err` when its first column is not a string.
pub type Fetched = Result<Result<String, rusqlite::Error>, rusqlite::Error>;

/// Longest wait, in seconds, for a store that other writers keep busy.
pub const BUSY_TIMEOUT_SECS: u64 = 5;

/// The largest busy timeout, in seconds, that the store accepts.
pub const MAX_BUSY_TIMEOUT_SECS: u64 = 2_147_483;

/// Performance and concurrency settings applied to a fresh connection. None
/// of them permits writing, and none changes what a query returns.
pub const TUNING_PRAGMAS: &'static str = "PRAGMA journal_mode = WAL;
         PRAGMA synchronous = NORMAL;
         PRAGMA temp_store = MEMORY;
         PRAGMA mmap_size = 268435456;
         PRAGMA cache_size = -64000;
         PRAGMA query_only = ON;
         PRAGMA locking_mode = NORMAL;
         PRAGMA read_uncommitted = 1;";

/// `rusqlite::Connection::open_with_flags`, with the flags for read-only
/// access without a connection mutex. Nothing is claimed of the outcome.
#[verifier::external_body]
fn open_read_only(db_path: &str) -> (res: Result<rusqlite::Connection, rusqlite::Error>) {
    rusqlite::Connection::open_with_flags(
        db_path,
        rusqlite::OpenFlags::SQLITE_OPEN_READ_ONLY | rusqlite::OpenFlags::SQLITE_OPEN_NO_MUTEX,
    )
}

/// `rusqlite::Connection::busy_timeout`. The outside function panics when the
/// timeout in milliseconds does not fit in 32 signed bits; `requires` keeps
/// such values out. Nothing is claimed of the outcome.
#[verifier::external_body]
fn set_busy_timeout(conn: &rusqlite::Connection, secs: u64) -> (res: Result<(), rusqlite::Error>)
    requires
        secs <= MAX_BUSY_TIMEOUT_SECS,
{
    conn.busy_timeout(std::time::Duration::from_secs(secs))
}

/// `rusqlite::Connection::execute_batch`. Nothing is claimed of the outcome.
#[verifier::external_body]
fn run_script(conn: &rusqlite::Connection, sql: &str) -> (res: Result<(), rusqlite::Error>) {
    conn.execute_batch(sql)
}

/// `rusqlite::Connection::prepare_cached`, then
/// `rusqlite::Statement::query_map` on the prepared query, with the
/// parameters that `rusqlite::params_from_iter` makes of `keys` and a row
/// function that is `rusqlite::Row::get` on column 0: prepares `sql`, or takes
/// it from the connection's cache, binds one positional parameter per key,
/// steps through the result and reads the first column of every row as a
/// string.
///
/// `requires` holds every caller to the membership query for exactly as many
/// keys as it binds. The outer `Err` means that preparing or binding failed.
/// Nothing is claimed of the rows, nor of their number.
#[verifier::external_body]
pub(crate) fn query_keys(conn: &rusqlite::Connection, sql: &str, keys: &[String]) -> (res: Result<
    Vec<Fetched>,
    rusqlite::Error,
>)
    requires
        sql@ == membership_sql(keys@.len()),
{
    let mut stmt = conn.prepare_cached(sql)?;
    let rows = stmt.query_map(rusqlite::params_from_iter(keys.iter()), |row| {
        Ok(row.get::<usize, String>(0))
    })?;
    Ok(rows.collect())
}

/// The `Display` text of a `rusqlite::Error`. Nothing is claimed of it.
#[verifier::external_body]
pub(crate) fn error_text(err: &rusqlite::Error) -> (text: String) {
    err.to_string()
}

/// The failure of the given kind that reports `err`.
pub(crate) fn failure(kind: ErrorKind, err: &rusqlite::Error) -> (e: CheckError)
    ensures
        e.kind == kind,
{
    CheckError::new(kind, error_text(err))
}

/// Opens the store at `db_path` for reading only and applies the busy
/// timeout and the tuning settings. Whether this succeeds is for the store
/// to decide; every failure is a connection failure.
pub fn open_store(db_path: &str) -> (res: Result<rusqlite::Connection, CheckError>)
    ensures
        res matches Err(e) ==> e.kind == ErrorKind::Connection,
{
    let conn = match open_read_only(db_path) {
        Ok(conn) => conn,
        Err(err) => {
            return Err(failure(ErrorKind::Connection, &err));
        },
    };
    if let Err(err) = set_busy_timeout(&conn, BUSY_TIMEOUT_SECS) {
        return Err(failure(ErrorKind::Connection, &err));
    }
    if let Err(err) = run_script(&conn, TUNING_PRAGMAS) {
        return Err(failure(ErrorKind::Connection, &err));
    }
    Ok(conn)
}

} // verus!
