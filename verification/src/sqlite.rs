//! The bundled cache store: rows and session records in a sqlite database,
//! reached through a handful of trusted wrappers, one statement each. The
//! session protocol itself — the three-way lookup, the seen-set discipline,
//! the eviction on close, rollback — is verified against what those
//! statements do to the named table contents.

use rusqlite::Connection;
use rusqlite::OptionalExtension;
use vstd::prelude::*;

use crate::codec::{
    decode_node, encode_node, lemma_node_round_trip, spec_decode,
};
use crate::memoized::{
    is_next_session_id, CacheLookup, CacheRow, MemoizedFsCache, MemoizedFsCacheSession,
};
use crate::node::{FsNode, FsNodeView};
use crate::{FsEntry, FsSyncError, ModTime};

verus! {

#[verifier::external_type_specification]
#[verifier::external_body]
pub struct ExConnection(Connection);

/// One row of the `fs_walker_cache` table, as stored.
pub struct DbRow {
    pub item: Seq<u8>,
    pub sec: u64,
    pub nano: u32,
    pub session_id: u32,
}

/// The rows of the `fs_walker_cache` table of this connection's database,
/// keyed by path. A missing table reads as an empty map.
pub uninterp spec fn db_cache_rows(c: Connection) -> Map<Seq<u8>, DbRow>;

/// The ids in the `fs_walker_sessions` table of this connection's database.
/// A missing table reads as an empty set.
pub uninterp spec fn db_sessions(c: Connection) -> Set<int>;

/// The paths in the transient seen-rows table of this connection. A missing
/// table reads as an empty set.
pub uninterp spec fn db_seen(c: Connection) -> Set<Seq<u8>>;

/// Whether this connection is inside an explicitly opened transaction.
pub uninterp spec fn db_in_tx(c: Connection) -> bool;

/// Relies on rusqlite::Connection::execute_batch: runs the two CREATE TABLE
/// IF NOT EXISTS statements of the cache schema. A table that exists is left
/// as it is and a missing one comes up empty, which is what a missing table
/// already reads as, so the contents never change.
#[verifier::external_body]
fn db_setup(conn: &mut Connection) -> (r: Result<(), FsSyncError>)
    ensures
        db_cache_rows(*final(conn)) == db_cache_rows(*old(conn)),
        db_sessions(*final(conn)) == db_sessions(*old(conn)),
        r is Err ==> db_seen(*final(conn)) == db_seen(*old(conn)),
{
    conn.execute_batch(
        "CREATE TABLE IF NOT EXISTS fs_walker_sessions (session_id INTEGER NOT NULL, \
         PRIMARY KEY (session_id)); \
         CREATE TABLE IF NOT EXISTS fs_walker_cache (path TEXT NOT NULL, \
         mtime_sec INTEGER NOT NULL, mtime_nano INTEGER NOT NULL, \
         session_id INTEGER NOT NULL, item BLOB NOT NULL, PRIMARY KEY (path), \
         FOREIGN KEY (session_id) REFERENCES fs_walker_sessions (session_id));",
    ).map_err(|_| FsSyncError::Store)
}

/// Relies on rusqlite::Connection::query_row with OptionalExtension: SELECT
/// of the row keyed by `path`, returning its blob, mtime seconds and mtime
/// nanoseconds, or None when no row has that path.
#[verifier::external_body]
fn db_select_row(conn: &mut Connection, path: &Vec<u8>) -> (r: Result<
    Option<(Vec<u8>, u64, u32)>,
    FsSyncError,
>)
    ensures
        db_cache_rows(*final(conn)) == db_cache_rows(*old(conn)),
        db_sessions(*final(conn)) == db_sessions(*old(conn)),
        db_seen(*final(conn)) == db_seen(*old(conn)),
        match r {
            Result::Ok(Some(row)) => {
                &&& db_cache_rows(*old(conn)).contains_key(path@)
                &&& db_cache_rows(*old(conn))[path@].item == row.0@
                &&& db_cache_rows(*old(conn))[path@].sec == row.1
                &&& db_cache_rows(*old(conn))[path@].nano == row.2
            },
            Result::Ok(None) => !db_cache_rows(*old(conn)).contains_key(path@),
            Result::Err(_) => true,
        },
{
    conn.query_row(
        "SELECT item, mtime_sec, mtime_nano FROM fs_walker_cache WHERE path = ?1",
        (path,),
        |row| Ok((row.get(0)?, row.get(1)?, row.get(2)?)),
    ).optional().map_err(|_| FsSyncError::Store)
}

/// Relies on rusqlite::Connection::execute: one INSERT .. ON CONFLICT(path)
/// DO UPDATE statement, so the row keyed by `path` afterwards holds exactly
/// the given mtime, session id and blob whether or not it existed before.
#[verifier::external_body]
fn db_upsert_row(
    conn: &mut Connection,
    path: &Vec<u8>,
    sec: u64,
    nano: u32,
    sid: u32,
    item: &Vec<u8>,
) -> (r: Result<(), FsSyncError>)
    ensures
        db_sessions(*final(conn)) == db_sessions(*old(conn)),
        db_seen(*final(conn)) == db_seen(*old(conn)),
        match r {
            Result::Ok(_) => db_cache_rows(*final(conn)) == db_cache_rows(*old(conn)).insert(
                path@,
                DbRow { item: item@, sec, nano, session_id: sid },
            ),
            Result::Err(_) => db_cache_rows(*final(conn)) == db_cache_rows(*old(conn)),
        },
{
    conn.execute(
        "INSERT INTO fs_walker_cache (path, mtime_sec, mtime_nano, session_id, item) \
         VALUES (?1, ?2, ?3, ?4, ?5) \
         ON CONFLICT(path) DO UPDATE SET mtime_sec = excluded.mtime_sec, \
         mtime_nano = excluded.mtime_nano, session_id = excluded.session_id, \
         item = excluded.item",
        (path, sec, nano, sid, item),
    ).map(|_| ()).map_err(|_| FsSyncError::Store)
}

/// Relies on rusqlite::Connection::execute_batch: CREATE TEMP TABLE for the
/// seen rows of this run; fails if a run is already open on this connection.
#[verifier::external_body]
fn db_create_seen(conn: &mut Connection) -> (r: Result<(), FsSyncError>)
    ensures
        db_cache_rows(*final(conn)) == db_cache_rows(*old(conn)),
        db_sessions(*final(conn)) == db_sessions(*old(conn)),
        r is Ok ==> db_seen(*final(conn)) == Set::<Seq<u8>>::empty(),
        r is Err ==> db_seen(*final(conn)) == db_seen(*old(conn)),
{
    conn.execute_batch(
        "CREATE TEMP TABLE fs_walker_last_session_seen_rows (path TEXT NOT NULL PRIMARY KEY);",
    ).map_err(|_| FsSyncError::Store)
}

/// Relies on rusqlite::Connection::execute: INSERT OR IGNORE of `path` into
/// the seen-rows table, a set-style insert.
#[verifier::external_body]
fn db_mark_seen(conn: &mut Connection, path: &Vec<u8>) -> (r: Result<(), FsSyncError>)
    ensures
        db_cache_rows(*final(conn)) == db_cache_rows(*old(conn)),
        db_sessions(*final(conn)) == db_sessions(*old(conn)),
        match r {
            Result::Ok(_) => db_seen(*final(conn)) == db_seen(*old(conn)).insert(path@),
            Result::Err(_) => db_seen(*final(conn)) == db_seen(*old(conn)),
        },
{
    conn.execute(
        "INSERT OR IGNORE INTO fs_walker_last_session_seen_rows (path) VALUES (?1)",
        (path,),
    ).map(|_| ()).map_err(|_| FsSyncError::Store)
}

/// Relies on rusqlite::Connection::execute: one DELETE keeping exactly the
/// cache rows whose path is in the seen-rows table.
#[verifier::external_body]
fn db_delete_unseen(conn: &mut Connection) -> (r: Result<(), FsSyncError>)
    ensures
        db_sessions(*final(conn)) == db_sessions(*old(conn)),
        db_seen(*final(conn)) == db_seen(*old(conn)),
        match r {
            Result::Ok(_) => db_cache_rows(*final(conn)) == db_cache_rows(*old(conn)).restrict(
                db_seen(*old(conn)),
            ),
            Result::Err(_) => db_cache_rows(*final(conn)) == db_cache_rows(*old(conn)),
        },
{
    conn.execute(
        "DELETE FROM fs_walker_cache WHERE path NOT IN \
         (SELECT path FROM fs_walker_last_session_seen_rows)",
        (),
    ).map(|_| ()).map_err(|_| FsSyncError::Store)
}

/// Relies on rusqlite::Connection::execute_batch: DROP TABLE of the
/// seen-rows table; cache rows and session records are untouched.
#[verifier::external_body]
fn db_drop_seen(conn: &mut Connection) -> (r: Result<(), FsSyncError>)
    ensures
        db_cache_rows(*final(conn)) == db_cache_rows(*old(conn)),
        db_sessions(*final(conn)) == db_sessions(*old(conn)),
{
    conn.execute_batch("DROP TABLE fs_walker_last_session_seen_rows;").map_err(
        |_| FsSyncError::Store,
    )
}

/// Relies on rusqlite::Connection::query_row: SELECT MAX(session_id), which
/// yields NULL on an empty table and otherwise the largest recorded id (an
/// error when that does not fit in u32).
#[verifier::external_body]
fn db_max_session(conn: &mut Connection) -> (r: Result<Option<u32>, FsSyncError>)
    ensures
        db_cache_rows(*final(conn)) == db_cache_rows(*old(conn)),
        db_sessions(*final(conn)) == db_sessions(*old(conn)),
        db_seen(*final(conn)) == db_seen(*old(conn)),
        match r {
            Result::Ok(Some(mx)) => db_sessions(*old(conn)).contains(mx as int) && (forall|s: int|
                db_sessions(*old(conn)).contains(s) ==> s <= mx),
            Result::Ok(None) => db_sessions(*old(conn)) == Set::<int>::empty(),
            Result::Err(_) => true,
        },
{
    conn.query_row(
        "SELECT MAX(session_id) FROM fs_walker_sessions",
        (),
        |row| row.get::<usize, Option<u32>>(0),
    ).map_err(|_| FsSyncError::Store)
}

/// Relies on rusqlite::Connection::execute: INSERT of one session id; fails
/// on a duplicate (primary key).
#[verifier::external_body]
fn db_insert_session(conn: &mut Connection, sid: u32) -> (r: Result<(), FsSyncError>)
    ensures
        db_cache_rows(*final(conn)) == db_cache_rows(*old(conn)),
        db_seen(*final(conn)) == db_seen(*old(conn)),
        match r {
            Result::Ok(_) => db_sessions(*final(conn)) == db_sessions(*old(conn)).insert(
                sid as int,
            ),
            Result::Err(_) => db_sessions(*final(conn)) == db_sessions(*old(conn)),
        },
{
    conn.execute(
        "INSERT INTO fs_walker_sessions (session_id) VALUES (?1)",
        (sid,),
    ).map(|_| ()).map_err(|_| FsSyncError::Store)
}

/// Relies on rusqlite::Connection::execute: one DELETE of every cache row
/// whose session id is at least `id`.
#[verifier::external_body]
fn db_delete_rows_from(conn: &mut Connection, id: u32) -> (r: Result<(), FsSyncError>)
    ensures
        db_sessions(*final(conn)) == db_sessions(*old(conn)),
        db_seen(*final(conn)) == db_seen(*old(conn)),
        match r {
            Result::Ok(_) => db_cache_rows(*final(conn)) == db_cache_rows(*old(conn)).restrict(
                db_cache_rows(*old(conn)).dom().filter(
                    (|p: Seq<u8>| db_cache_rows(*old(conn))[p].session_id < id),
                ),
            ),
            Result::Err(_) => db_cache_rows(*final(conn)) == db_cache_rows(*old(conn)),
        },
{
    conn.execute("DELETE FROM fs_walker_cache WHERE session_id >= ?1", (id,)).map(
        |_| (),
    ).map_err(|_| FsSyncError::Store)
}

/// Relies on rusqlite::Connection::execute: one DELETE of every session
/// record whose id is at least `id`.
#[verifier::external_body]
fn db_delete_sessions_from(conn: &mut Connection, id: u32) -> (r: Result<(), FsSyncError>)
    ensures
        db_cache_rows(*final(conn)) == db_cache_rows(*old(conn)),
        db_seen(*final(conn)) == db_seen(*old(conn)),
        match r {
            Result::Ok(_) => db_sessions(*final(conn)) == db_sessions(*old(conn)).filter(
                (|s: int| s < id),
            ),
            Result::Err(_) => db_sessions(*final(conn)) == db_sessions(*old(conn)),
        },
{
    conn.execute("DELETE FROM fs_walker_sessions WHERE session_id >= ?1", (id,)).map(
        |_| (),
    ).map_err(|_| FsSyncError::Store)
}

/// Relies on rusqlite::Connection::execute_batch: BEGIN DEFERRED, opening
/// the transaction that scopes a run (an error if one is already open);
/// table contents are unchanged.
#[verifier::external_body]
fn db_begin(conn: &mut Connection) -> (r: Result<(), FsSyncError>)
    ensures
        db_cache_rows(*final(conn)) == db_cache_rows(*old(conn)),
        db_sessions(*final(conn)) == db_sessions(*old(conn)),
        db_seen(*final(conn)) == db_seen(*old(conn)),
        r is Ok ==> db_in_tx(*final(conn)),
        r is Err ==> db_in_tx(*final(conn)) == db_in_tx(*old(conn)),
{
    conn.execute_batch("BEGIN DEFERRED;").map_err(|_| FsSyncError::Store)
}

/// Relies on rusqlite::Connection::execute_batch: COMMIT of the transaction
/// that scoped a run (an error if none is open); table contents are
/// unchanged (they become durable).
#[verifier::external_body]
fn db_commit(conn: &mut Connection) -> (r: Result<(), FsSyncError>)
    ensures
        db_cache_rows(*final(conn)) == db_cache_rows(*old(conn)),
        db_sessions(*final(conn)) == db_sessions(*old(conn)),
        db_seen(*final(conn)) == db_seen(*old(conn)),
        r is Ok ==> !db_in_tx(*final(conn)),
{
    conn.execute_batch("COMMIT;").map_err(|_| FsSyncError::Store)
}

/// The session-protocol view of stored rows: only rows whose blob decodes
/// are visible, as their decoded fingerprint.
pub open spec fn decoded_rows(m: Map<Seq<u8>, DbRow>) -> Map<Seq<u8>, CacheRow<FsNodeView>> {
    Map::new(
        |p: Seq<u8>| m.contains_key(p) && spec_decode(m[p].item) is Some,
        |p: Seq<u8>|
            CacheRow {
                item: spec_decode(m[p].item)->Some_0,
                mtime: ModTime { sec: m[p].sec, nano: m[p].nano },
                session_id: m[p].session_id,
            },
    )
}

/// Inserting a row whose blob decodes inserts its decoded form in the view.
pub proof fn lemma_decoded_rows_insert(
    m: Map<Seq<u8>, DbRow>,
    p: Seq<u8>,
    row: DbRow,
    node: FsNodeView,
)
    requires
        spec_decode(row.item) == Some(node),
    ensures
        decoded_rows(m.insert(p, row)) == decoded_rows(m).insert(
            p,
            CacheRow {
                item: node,
                mtime: ModTime { sec: row.sec, nano: row.nano },
                session_id: row.session_id,
            },
        ),
{
    assert(decoded_rows(m.insert(p, row)) =~= decoded_rows(m).insert(
        p,
        CacheRow {
            item: node,
            mtime: ModTime { sec: row.sec, nano: row.nano },
            session_id: row.session_id,
        },
    ));
}

/// Restricting rows commutes with decoding them.
pub proof fn lemma_decoded_rows_restrict(m: Map<Seq<u8>, DbRow>, s: Set<Seq<u8>>)
    ensures
        decoded_rows(m.restrict(s)) == decoded_rows(m).restrict(s),
{
    assert(decoded_rows(m.restrict(s)) =~= decoded_rows(m).restrict(s));
}

/// The bundled sqlite-backed cache: a connection whose database holds the
/// `fs_walker_cache` and `fs_walker_sessions` tables.
pub struct SqliteFsCache {
    pub conn: Connection,
}

impl SqliteFsCache {
    /// Wrap an open connection whose schema [`setup_sqlite_cache`] prepared.
    pub fn new(conn: Connection) -> (r: Self)
        ensures
            r.conn == conn,
    {
        SqliteFsCache { conn }
    }

    /// Open the transaction that scopes a run; the caller commits with
    /// [`Self::commit`] or discards everything by dropping the connection.
    pub fn begin(&mut self) -> (r: Result<(), FsSyncError>)
        ensures
            final(self).rows() == old(self).rows(),
            final(self).sessions() == old(self).sessions(),
            r is Ok ==> db_in_tx(final(self).conn),
    {
        db_begin(&mut self.conn)
    }

    /// Commit the run's transaction.
    pub fn commit(&mut self) -> (r: Result<(), FsSyncError>)
        ensures
            final(self).rows() == old(self).rows(),
            final(self).sessions() == old(self).sessions(),
            r is Ok ==> !db_in_tx(final(self).conn),
    {
        db_commit(&mut self.conn)
    }

    /// Hand the connection back.
    pub fn into_connection(self) -> (r: Connection)
        ensures
            r == self.conn,
    {
        self.conn
    }
}

impl MemoizedFsCache<FsNode> for SqliteFsCache {
    type Session = SqliteSycnSession;

    open spec fn rows(&self) -> Map<Seq<u8>, CacheRow<FsNodeView>> {
        decoded_rows(db_cache_rows(self.conn))
    }

    open spec fn sessions(&self) -> Set<int> {
        db_sessions(self.conn)
    }

    open spec fn inv(&self) -> bool {
        true
    }

    fn start_session(self) -> (r: Result<SqliteSycnSession, FsSyncError>) {
        let mut this = self;
        match db_create_seen(&mut this.conn) {
            Result::Ok(_) => {},
            Result::Err(e) => {
                return Result::Err(e);
            },
        }
        let mx = match db_max_session(&mut this.conn) {
            Result::Ok(mx) => mx,
            Result::Err(e) => {
                return Result::Err(e);
            },
        };
        let sid: u32 = match mx {
            Option::None => 1,
            Option::Some(m) => {
                if m == u32::MAX {
                    return Result::Err(FsSyncError::Store);
                }
                m + 1
            },
        };
        match db_insert_session(&mut this.conn, sid) {
            Result::Ok(_) => {},
            Result::Err(e) => {
                return Result::Err(e);
            },
        }
        Result::Ok(SqliteSycnSession { conn: this.conn, session_id: sid })
    }
}

/// An open run over the sqlite cache: the connection plus the allocated
/// session id. (The name keeps the spelling its users know.)
pub struct SqliteSycnSession {
    pub conn: Connection,
    pub session_id: u32,
}

impl MemoizedFsCacheSession<FsNode> for SqliteSycnSession {
    type Cache = SqliteFsCache;

    open spec fn cache_rows(c: &SqliteFsCache) -> Map<Seq<u8>, CacheRow<FsNodeView>> {
        decoded_rows(db_cache_rows(c.conn))
    }

    open spec fn cache_sessions(c: &SqliteFsCache) -> Set<int> {
        db_sessions(c.conn)
    }

    open spec fn cache_inv(c: &SqliteFsCache) -> bool {
        true
    }

    open spec fn rows(&self) -> Map<Seq<u8>, CacheRow<FsNodeView>> {
        decoded_rows(db_cache_rows(self.conn))
    }

    open spec fn seen(&self) -> Set<Seq<u8>> {
        db_seen(self.conn)
    }

    open spec fn sessions(&self) -> Set<int> {
        db_sessions(self.conn)
    }

    open spec fn id_spec(&self) -> u32 {
        self.session_id
    }

    open spec fn inv(&self) -> bool {
        true
    }

    fn probe(&mut self, path: &Vec<u8>, mtime: &ModTime) -> (r: Result<
        CacheLookup<FsNode>,
        FsSyncError,
    >) {
        match db_select_row(&mut self.conn, path) {
            Result::Err(e) => Result::Err(e),
            Result::Ok(None) => Result::Ok(CacheLookup::Miss),
            Result::Ok(Some(row)) => {
                let (blob, sec, nano) = row;
                let stored = ModTime { sec, nano };
                let node = match decode_node(&blob) {
                    Result::Ok(n) => n,
                    Result::Err(e) => {
                        return Result::Err(e);
                    },
                };
                if stored == *mtime {
                    match db_mark_seen(&mut self.conn, path) {
                        Result::Ok(_) => Result::Ok(
                            CacheLookup::Unchanged(FsEntry { item: node, mtime: stored }),
                        ),
                        Result::Err(e) => Result::Err(e),
                    }
                } else {
                    Result::Ok(CacheLookup::Changed(node))
                }
            },
        }
    }

    fn put_entry(&mut self, path: &Vec<u8>, mtime: &ModTime, item: FsNode) -> (r: Result<
        FsEntry<FsNode>,
        FsSyncError,
    >) {
        let blob = encode_node(&item);
        proof {
            crate::codec::lemma_exec_node_len_ok(item);
            lemma_node_round_trip(item@);
        }
        match db_upsert_row(&mut self.conn, path, mtime.sec, mtime.nano, self.session_id, &blob) {
            Result::Ok(_) => {},
            Result::Err(e) => {
                return Result::Err(e);
            },
        }
        proof {
            lemma_decoded_rows_insert(
                db_cache_rows(old(self).conn),
                path@,
                DbRow { item: blob@, sec: mtime.sec, nano: mtime.nano, session_id: self.session_id },
                item@,
            );
        }
        match db_mark_seen(&mut self.conn, path) {
            Result::Ok(_) => Result::Ok(FsEntry { item, mtime: ModTime { sec: mtime.sec, nano: mtime.nano } }),
            Result::Err(e) => Result::Err(e),
        }
    }

    fn end_session(self) -> (r: Result<SqliteFsCache, FsSyncError>) {
        let mut this = self;
        let ghost m0 = db_cache_rows(this.conn);
        let ghost s0 = db_seen(this.conn);
        match db_delete_unseen(&mut this.conn) {
            Result::Ok(_) => {},
            Result::Err(e) => {
                return Result::Err(e);
            },
        }
        proof {
            lemma_decoded_rows_restrict(m0, s0);
        }
        match db_drop_seen(&mut this.conn) {
            Result::Ok(_) => {},
            Result::Err(e) => {
                return Result::Err(e);
            },
        }
        Result::Ok(SqliteFsCache { conn: this.conn })
    }

    fn get_id(&self) -> u32 {
        self.session_id
    }
}

/// Create the cache schema if it is missing. The stored contents are never
/// touched, whether the call succeeds or fails.
pub fn setup_sqlite_cache(db: &mut Connection) -> (r: Result<(), FsSyncError>)
    ensures
        db_cache_rows(*final(db)) == db_cache_rows(*old(db)),
        db_sessions(*final(db)) == db_sessions(*old(db)),
{
    db_setup(db)
}

/// Roll the cache back to before session `id`: every cache row written at or
/// after `id` and every session record at or after `id` is deleted, so the
/// next run is allocated `id` again.
pub fn rollback_before_session_id(cache: &mut SqliteFsCache, id: u32) -> (r: Result<
    (),
    FsSyncError,
>)
    requires
        id >= 1,
    ensures
        match r {
            Result::Ok(_) => {
                &&& final(cache).sessions() == old(cache).sessions().filter((|s: int| s < id))
                &&& final(cache).rows() == old(cache).rows().restrict(
                    old(cache).rows().dom().filter(
                        (|p: Seq<u8>| old(cache).rows()[p].session_id < id),
                    ),
                )
            },
            Result::Err(_) => {
                &&& final(cache).sessions() == old(cache).sessions()
                &&& (final(cache).rows() == old(cache).rows() || final(cache).rows() == old(
                    cache,
                ).rows().restrict(
                    old(cache).rows().dom().filter(
                        (|p: Seq<u8>| old(cache).rows()[p].session_id < id),
                    ),
                ))
            },
        },
{
    match db_delete_rows_from(&mut cache.conn, id) {
        Result::Ok(_) => {},
        Result::Err(e) => {
            return Result::Err(e);
        },
    }
    proof {
        let m = db_cache_rows(old(cache).conn);
        lemma_decoded_rows_restrict(m, m.dom().filter((|p: Seq<u8>| m[p].session_id < id)));
        assert(decoded_rows(m).restrict(
            m.dom().filter((|p: Seq<u8>| m[p].session_id < id)),
        ) =~= decoded_rows(m).restrict(
            decoded_rows(m).dom().filter((|p: Seq<u8>| decoded_rows(m)[p].session_id < id)),
        ));
    }
    match db_delete_sessions_from(&mut cache.conn, id) {
        Result::Ok(_) => {},
        Result::Err(e) => {
            return Result::Err(e);
        },
    }
    Result::Ok(())
}

/// After a rollback to `k` of a cache whose recorded session ids are exactly
/// `1..=n`, the id the next run is allocated is `k` itself.
pub proof fn lemma_rollback_reassigns_id(sessions: Set<int>, n: int, k: u32, id: u32)
    requires
        forall|s: int| sessions.contains(s) <==> 1 <= s <= n,
        1 <= k,
        k as int <= n + 1,
        is_next_session_id(sessions.filter((|s: int| s < k)), id),
    ensures
        id == k,
{
    let filtered = sessions.filter((|s: int| s < k));
    if k == 1 {
        assert(!filtered.contains(id - 1));
        assert(id == 1);
    } else {
        assert(sessions.contains(k - 1));
        assert(filtered.contains(k - 1));
        assert(k - 1 < id);
        if id == 1 {
            assert(false);
        } else {
            assert(filtered.contains(id - 1));
            assert(id - 1 < k);
        }
    }
}

} // verus!
