use vstd::prelude::*;
use crate::block::IVec3;
use crate::error::WorldError;
use crate::map::MapBackend;

verus! {

/// Opaque handle of an open SQLite database.
///
/// Relies on `rusqlite::Connection` only as a type: nothing is assumed about
/// its values.
#[verifier::external_type_specification]
#[verifier::external_body]
pub struct ExConnection(rusqlite::Connection);

/// Relies on `rusqlite::Connection::open`: it opens the SQLite database at
/// the given path. Whether it succeeds depends on what is on disk, so nothing
/// is promised of the outcome.
#[verifier::external_body]
fn sqlite_open(path: &str) -> Result<rusqlite::Connection, rusqlite::Error> {
    rusqlite::Connection::open(path)
}

/// Relies on `rusqlite::Connection::query_one`: it runs the parameterized
/// point query for the block row at (x, y, z) and hands back its binary
/// `data` column. A query matched by no row reports
/// `rusqlite::Error::QueryReturnedNoRows`, mapped to `None` here; the result
/// depends on what the database holds, so nothing is promised of it.
#[verifier::external_body]
fn sqlite_fetch(
    conn: &rusqlite::Connection,
    x: i32,
    y: i32,
    z: i32,
) -> Result<Option<Vec<u8>>, rusqlite::Error> {
    match conn.query_one(
        "SELECT data FROM blocks WHERE x = ? AND y = ? AND z = ? LIMIT 1",
        [&x, &y, &z],
        |row| row.get(0),
    ) {
        Ok(data) => Ok(Some(data)),
        Err(rusqlite::Error::QueryReturnedNoRows) => Ok(None),
        Err(e) => Err(e),
    }
}

/// The SQLite-backed store: a table with integer columns `x, y, z` and a
/// binary `data` column, point-looked-up by exact coordinate match.
pub struct SqliteBackend {
    conn: rusqlite::Connection,
}

impl SqliteBackend {
    /// Opens the database file at `path`; a driver failure comes back as the
    /// SQLite error kind.
    pub fn new(path: &str) -> (r: Result<SqliteBackend, WorldError>)
        ensures
            r is Err ==> r->Err_0 is Sqlite,
    {
        match sqlite_open(path) {
            Ok(conn) => Ok(SqliteBackend { conn }),
            Err(e) => Err(WorldError::Sqlite(e)),
        }
    }
}

impl MapBackend for SqliteBackend {
    /// One point query; `BlockNotFound` when no row matches, the SQLite error
    /// kind on any driver failure, and nothing else.
    fn get_block_data(&mut self, pos: IVec3) -> (r: Result<Vec<u8>, WorldError>)
        ensures
            r matches Err(e) ==> e is BlockNotFound || e is Sqlite,
    {
        match sqlite_fetch(&self.conn, pos.x, pos.y, pos.z) {
            Ok(Some(data)) => Ok(data),
            Ok(None) => Err(WorldError::BlockNotFound),
            Err(e) => Err(WorldError::Sqlite(e)),
        }
    }
}

} // verus!
