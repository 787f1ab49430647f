use rusqlite::Connection;
use sausage::{
    rollback_before_session_id, setup_sqlite_cache, ChangeEvent, ChangeNotifier, EventKind,
    FsSyncError, FsTree, MemoizedFsCacheSession, MemoizedFsWalker, MemoizedFsWalkerSession,
    ModTime, RecordingWatcher, SqliteFsCache,
};

fn mt(sec: u64) -> ModTime {
    ModTime { sec, nano: 0 }
}

fn file(sec: u64) -> FsTree {
    FsTree::File { mtime: mt(sec) }
}

fn sym(sec: u64) -> FsTree {
    FsTree::Symlink { mtime: mt(sec) }
}

fn dir(sec: u64, children: Vec<(&str, FsTree)>) -> FsTree {
    FsTree::Folder {
        mtime: mt(sec),
        children: children
            .into_iter()
            .map(|(n, t)| (n.as_bytes().to_vec(), t))
            .collect(),
    }
}

fn ev(kind: EventKind, path: &str, mount: &str) -> ChangeEvent {
    ChangeEvent {
        kind,
        path: path.as_bytes().to_vec(),
        mount_path: mount.as_bytes().to_vec(),
    }
}

fn new_cache() -> SqliteFsCache {
    let mut conn = Connection::open_in_memory().unwrap();
    setup_sqlite_cache(&mut conn).unwrap();
    SqliteFsCache::new(conn)
}

/// One full run: walk `tree`, close the session, hand back the committed
/// cache, the session id and the recorded events.
fn run(
    cache: SqliteFsCache,
    root: &str,
    mount: &str,
    tree: &FsTree,
) -> (SqliteFsCache, u32, Vec<ChangeEvent>) {
    let notifier = ChangeNotifier::new(RecordingWatcher::new());
    let walker = MemoizedFsWalker::new(cache);
    let mut batch = walker.start_processing(notifier).unwrap();
    batch
        .add_path(&root.as_bytes().to_vec(), &mount.as_bytes().to_vec(), tree)
        .unwrap();
    let MemoizedFsWalkerSession { fs_processor, session } = batch;
    let sid = session.get_id();
    let cache = session.end_session().unwrap();
    (cache, sid, fs_processor.into_watcher().into_log())
}

fn asset_v1() -> FsTree {
    dir(
        100,
        vec![
            ("d1", dir(90, vec![])),
            (
                "d2",
                dir(
                    95,
                    vec![("d3", dir(80, vec![])), ("f3", file(70)), ("s1", sym(60))],
                ),
            ),
            ("f1", file(50)),
            ("f2", file(40)),
        ],
    )
}

fn asset_v2() -> FsTree {
    dir(
        200,
        vec![
            ("d1", dir(90, vec![])),
            ("f1", file(210)),
            ("f2", file(40)),
            ("f4", file(205)),
        ],
    )
}

#[test]
fn test_many_run() {
    let cache = new_cache();

    // First run: everything is new; entries appear children-first.
    let (cache, sid, events) = run(cache, "/base/asset", "asset", &asset_v1());
    assert_eq!(sid, 1);
    assert_eq!(
        events,
        vec![
            ev(EventKind::FolderAdded, "/base/asset/d1", "asset/d1"),
            ev(EventKind::FolderAdded, "/base/asset/d2/d3", "asset/d2/d3"),
            ev(EventKind::FileAdded, "/base/asset/d2/f3", "asset/d2/f3"),
            ev(EventKind::SymlinkAdded, "/base/asset/d2/s1", "asset/d2/s1"),
            ev(EventKind::FolderAdded, "/base/asset/d2", "asset/d2"),
            ev(EventKind::FileAdded, "/base/asset/f1", "asset/f1"),
            ev(EventKind::FileAdded, "/base/asset/f2", "asset/f2"),
            ev(EventKind::FolderAdded, "/base/asset", "asset"),
        ]
    );

    // Immediate re-run with no changes: no entry is reprocessed at all.
    let (cache, sid, events) = run(cache, "/base/asset", "asset", &asset_v1());
    assert_eq!(sid, 2);
    assert_eq!(events, vec![]);

    // Mutate: add f4, overwrite f1, delete the whole d2 subtree.
    let expected_diff = vec![
        ev(EventKind::FileChanged, "/base/asset/f1", "asset/f1"),
        ev(EventKind::FileAdded, "/base/asset/f4", "asset/f4"),
        ev(EventKind::FolderRemoved, "/base/asset/d2", "asset/d2"),
        ev(EventKind::FolderChanged, "/base/asset", "asset"),
    ];
    let (mut cache, sid, events) = run(cache, "/base/asset", "asset", &asset_v2());
    assert_eq!(sid, 3);
    assert_eq!(events, expected_diff);

    // Roll back to before session 3 and re-run with the same observation:
    // the session id is 3 again. Rows session 3 wrote (f1, f4, the root) are
    // gone, so those entries are re-emitted as additions; the d2 row was
    // already evicted by the committed session 3 and stays gone, so its
    // removal is not re-announced.
    rollback_before_session_id(&mut cache, 3).unwrap();
    let (cache, sid, events) = run(cache, "/base/asset", "asset", &asset_v2());
    assert_eq!(sid, 3);
    assert_eq!(
        events,
        vec![
            ev(EventKind::FileAdded, "/base/asset/f1", "asset/f1"),
            ev(EventKind::FileAdded, "/base/asset/f4", "asset/f4"),
            ev(EventKind::FolderAdded, "/base/asset", "asset"),
        ]
    );

    // Every row surviving the committed session lies on a path that run
    // visited: the evicted d2 subtree is gone from the store.
    let conn = cache.into_connection();
    let mut stmt = conn
        .prepare("SELECT path FROM fs_walker_cache ORDER BY path")
        .unwrap();
    let paths: Vec<Vec<u8>> = stmt
        .query_map((), |row| row.get(0))
        .unwrap()
        .map(|r| r.unwrap())
        .collect();
    let expected_paths: Vec<Vec<u8>> = vec![
        b"/base/asset".to_vec(),
        b"/base/asset/d1".to_vec(),
        b"/base/asset/f1".to_vec(),
        b"/base/asset/f2".to_vec(),
        b"/base/asset/f4".to_vec(),
    ];
    assert_eq!(paths, expected_paths);
}

#[test]
fn kind_change_file_to_symlink() {
    let cache = new_cache();
    let (cache, sid, events) = run(cache, "/base/f1", "f1", &file(100));
    assert_eq!(sid, 1);
    assert_eq!(events, vec![ev(EventKind::FileAdded, "/base/f1", "f1")]);

    let (cache, sid, events) = run(cache, "/base/f1", "f1", &sym(200));
    assert_eq!(sid, 2);
    assert_eq!(
        events,
        vec![
            ev(EventKind::FileRemoved, "/base/f1", "f1"),
            ev(EventKind::SymlinkAdded, "/base/f1", "f1"),
        ]
    );

    // The stored fingerprint is now Symlink: an unchanged re-run is silent.
    let (_cache, sid, events) = run(cache, "/base/f1", "f1", &sym(200));
    assert_eq!(sid, 3);
    assert_eq!(events, vec![]);
}

#[test]
fn empty_folder_becomes_non_empty() {
    let cache = new_cache();
    let (cache, _sid, _events) = run(cache, "/base/d1", "d1", &dir(10, vec![]));

    let with_x = dir(20, vec![("x", file(15))]);
    let (cache, _sid, events) = run(cache, "/base/d1", "d1", &with_x);
    assert_eq!(
        events,
        vec![
            ev(EventKind::FileAdded, "/base/d1/x", "d1/x"),
            ev(EventKind::FolderChanged, "/base/d1", "d1"),
        ]
    );

    // The stored folder now records x as a file child: removing it again is
    // classified as a file removal.
    let (_cache, _sid, events) = run(cache, "/base/d1", "d1", &dir(30, vec![]));
    assert_eq!(
        events,
        vec![
            ev(EventKind::FileRemoved, "/base/d1/x", "d1/x"),
            ev(EventKind::FolderChanged, "/base/d1", "d1"),
        ]
    );
}

#[test]
fn deep_change_without_parent_mtime_bump() {
    // Recursion is unconditional: a changed child is reprocessed even when
    // the parent folder's own mtime is unchanged, and the memoized parent
    // then produces no event of its own.
    let cache = new_cache();
    let (cache, _sid, _events) = run(
        cache,
        "/base/d",
        "d",
        &dir(100, vec![("f", file(50))]),
    );
    let (_cache, _sid, events) = run(
        cache,
        "/base/d",
        "d",
        &dir(100, vec![("f", file(60))]),
    );
    assert_eq!(events, vec![ev(EventKind::FileChanged, "/base/d/f", "d/f")]);
}

#[test]
fn transaction_scoping_begin_and_commit() {
    let mut cache = new_cache();
    assert!(cache.begin().is_ok());
    // A second BEGIN on the same connection is refused: one run at a time.
    assert_eq!(cache.begin().unwrap_err(), FsSyncError::Store);
    assert!(cache.commit().is_ok());
    // COMMIT without an open transaction is refused as well.
    assert_eq!(cache.commit().unwrap_err(), FsSyncError::Store);
}

#[test]
fn missing_schema_is_a_store_error() {
    let conn = Connection::open_in_memory().unwrap();
    let walker = MemoizedFsWalker::new(SqliteFsCache::new(conn));
    let notifier = ChangeNotifier::new(RecordingWatcher::new());
    let err = match walker.start_processing(notifier) {
        Ok(_) => panic!("a cache without its schema must be refused"),
        Err(e) => e,
    };
    assert_eq!(err, FsSyncError::Store);
}

#[test]
fn undecodable_fingerprint_is_a_corrupt_error() {
    let mut conn = Connection::open_in_memory().unwrap();
    setup_sqlite_cache(&mut conn).unwrap();
    conn.execute("INSERT INTO fs_walker_sessions (session_id) VALUES (1)", ())
        .unwrap();
    conn.execute(
        "INSERT INTO fs_walker_cache (path, mtime_sec, mtime_nano, session_id, item) \
         VALUES (?1, ?2, ?3, ?4, ?5)",
        (&b"/x".to_vec(), 5u64, 0u32, 1u32, &vec![9u8, 9u8]),
    )
    .unwrap();
    let walker = MemoizedFsWalker::new(SqliteFsCache::new(conn));
    let notifier = ChangeNotifier::new(RecordingWatcher::new());
    let mut batch = walker.start_processing(notifier).unwrap();
    // A differing mtime decodes the stored fingerprint to reclassify.
    let err = batch
        .add_path(&b"/x".to_vec(), &b"x".to_vec(), &file(99))
        .unwrap_err();
    assert_eq!(err, FsSyncError::Corrupt);
    // An equal mtime decodes it to hand the entry back.
    let err = batch
        .add_path(&b"/x".to_vec(), &b"x".to_vec(), &file(5))
        .unwrap_err();
    assert_eq!(err, FsSyncError::Corrupt);
}

#[test]
fn walker_bubbles_up_subtree_mtime() {
    let cache = new_cache();
    let tree = dir(100, vec![("a", file(300)), ("d", dir(50, vec![("b", sym(250))]))]);
    let notifier = ChangeNotifier::new(RecordingWatcher::new());
    let walker = MemoizedFsWalker::new(cache);
    let mut batch = walker.start_processing(notifier).unwrap();
    let entry = batch
        .add_path(&b"/r".to_vec(), &b"r".to_vec(), &tree)
        .unwrap();
    assert_eq!(entry.mtime, mt(300));
    let (_walker, sid) = batch.finish_processing().unwrap();
    assert_eq!(sid, 1);
}
