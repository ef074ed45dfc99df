use vstd::prelude::*;
use crate::block::IVec3;
use crate::error::WorldError;
use crate::map::MapBackend;

verus! {

/// Opaque handle of an open PostgreSQL session.
///
/// Relies on `postgres::Client` only as a type: nothing is assumed about its
/// values.
#[verifier::external_type_specification]
#[verifier::external_body]
pub struct ExClient(postgres::Client);

/// Relies on `postgres::Client::connect`: it parses the configuration string
/// and opens a persistent connection without transport encryption. Whether it
/// succeeds depends on the network and the server, so nothing is promised of
/// the outcome.
#[verifier::external_body]
fn postgres_connect(dsn: &str) -> Result<postgres::Client, postgres::Error> {
    postgres::Client::connect(dsn, postgres::NoTls)
}

/// Relies on `postgres::Client::query_opt` and `Row::try_get`: the point
/// query for the block row at (x, y, z) yields `None` when no row matches,
/// else the row's binary `data` column; a column that cannot be read as bytes
/// (a NULL, a non-binary type) comes back as the driver's error, never a
/// panic. The result depends on what the server holds, so nothing is promised
/// of it.
///
/// The `?` placeholders below do not follow PostgreSQL's own `$n` convention;
/// confirm them against the server's wire protocol before reuse.
#[verifier::external_body]
fn postgres_fetch(
    client: &mut postgres::Client,
    x: i32,
    y: i32,
    z: i32,
) -> Result<Option<Vec<u8>>, postgres::Error> {
    match client.query_opt(
        "SELECT data FROM blocks WHERE posx = ? AND posy = ? AND posz = ? LIMIT 1",
        &[&x, &y, &z],
    ) {
        Ok(Some(row)) => match row.try_get(0) {
            Ok(data) => Ok(Some(data)),
            Err(e) => Err(e),
        },
        Ok(None) => Ok(None),
        Err(e) => Err(e),
    }
}

/// The PostgreSQL-backed store: a table with columns `posx, posy, posz, data`
/// reached over a network connection held for the session.
pub struct PostgresBackend {
    client: postgres::Client,
}

impl PostgresBackend {
    /// Connects with the given configuration string; a driver failure comes
    /// back as the PostgreSQL error kind.
    pub fn new(dsn: String) -> (r: Result<PostgresBackend, WorldError>)
        ensures
            r is Err ==> r->Err_0 is Postgres,
    {
        match postgres_connect(dsn.as_str()) {
            Ok(client) => Ok(PostgresBackend { client }),
            Err(e) => Err(WorldError::Postgres(e)),
        }
    }
}

impl MapBackend for PostgresBackend {
    /// One point query; `BlockNotFound` when no row matches, the PostgreSQL
    /// error kind on any driver failure, and nothing else.
    fn get_block_data(&mut self, pos: IVec3) -> (r: Result<Vec<u8>, WorldError>)
        ensures
            r matches Err(e) ==> e is BlockNotFound || e is Postgres,
    {
        match postgres_fetch(&mut self.client, pos.x, pos.y, pos.z) {
            Ok(Some(data)) => Ok(data),
            Ok(None) => Err(WorldError::BlockNotFound),
            Err(e) => Err(WorldError::Postgres(e)),
        }
    }
}

} // verus!
