use vstd::prelude::*;

verus! {

/// Opaque payload of a failure reported by the SQLite driver.
///
/// Relies on `rusqlite::Error` only as a type: nothing is assumed about its
/// values, they are carried through unread.
#[verifier::external_type_specification]
#[verifier::external_body]
pub struct ExSqliteError(rusqlite::Error);

/// Opaque payload of a failure reported by the PostgreSQL driver.
///
/// Relies on `postgres::Error` only as a type: nothing is assumed about its
/// values, they are carried through unread.
#[verifier::external_type_specification]
#[verifier::external_body]
pub struct ExPostgresError(postgres::Error);

/// Everything that can go wrong while fetching a block, decoding its payload,
/// or reading the world metadata text.
#[derive(Debug)]
pub enum WorldError {
    /// No row is stored for the requested block coordinate.
    BlockNotFound,
    /// The payload's version byte is below the minimum supported version;
    /// carries that byte.
    UnsupportedVersion(u8),
    /// A metadata line holds no `=` separator; carries the offending line,
    /// trimmed.
    UnexpectedFormat(String),
    /// A name in the payload's mapping table is not valid UTF-8.
    InvalidUtf8,
    /// A short read or a decompression failure.
    Io,
    /// The PostgreSQL driver failed; carries its error.
    Postgres(postgres::Error),
    /// The SQLite driver failed; carries its error.
    Sqlite(rusqlite::Error),
}

} // verus!
