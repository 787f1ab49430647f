//! Incremental archive snapshots of a filesystem subtree.
//!
//! A memoized walker visits an observed file tree, consults a per-run cache
//! session keyed by path and modification time, and drives a pluggable
//! processor that turns change classifications into side effects (such as
//! emitting archive records). Paths and file names are handled as byte
//! strings throughout; callers convert to and from platform path types.

mod change_watcher;
mod codec;
mod input;
mod memoized;
mod node;
mod sqlite;

pub use change_watcher::{
    ev, file_events, folder_events, opt_node_view, removal_events, removed_kind_event,
    sub_children_view, sub_names_unique, symlink_events, ChangeEvent, ChangeEventView,
    ChangeNotifier, EventKind, FsChangeWatcher, RecordingWatcher,
};
pub use codec::{decode_node, encode_node, node_len_ok, spec_decode, spec_encode};
pub use input::{parse_input_path, spec_find, MOUNT_SEP};
pub use memoized::{
    children_names_unique, forest_cached, forest_calls, forest_max_mtime, forest_names_ok,
    forest_paths, is_next_session_id, lemma_forest_cached_index, lemma_forest_paths_app,
    lemma_first_run_silences_second, lemma_run_calls_cached, lemma_session_rows_visited,
    lemma_tree_cached_agree, lemma_tree_paths_len,
    lemma_tree_paths_shape, lemma_walk_replay, name_ok, row_hit, row_prev, run_calls,
    tree_cached, tree_child_names, tree_max_mtime, tree_names_ok, tree_paths, walk_effect,
    walk_frame, CacheLookup, CacheRow, FsTree, MemoizedFsCache, MemoizedFsCacheSession,
    MemoizedFsWalker, MemoizedFsWalkerSession,
};
pub use node::{folder_names_unique, has_child_name, FsNode, FsNodeType, FsNodeView};
pub use sqlite::{
    db_cache_rows, db_in_tx, db_seen, db_sessions, lemma_rollback_reassigns_id,
    rollback_before_session_id, setup_sqlite_cache, DbRow, SqliteFsCache, SqliteSycnSession,
};

use vstd::prelude::*;

verus! {

/// A filesystem "modified" timestamp at seconds + nanoseconds resolution.
/// Equality is exact at that resolution.
#[derive(Clone, Copy, PartialEq, Eq, Structural, Debug)]
pub struct ModTime {
    pub sec: u64,
    pub nano: u32,
}

impl ModTime {
    /// `self` is at or before `other` in time order (seconds first, then nanoseconds).
    pub open spec fn le(self, other: ModTime) -> bool {
        self.sec < other.sec || (self.sec == other.sec && self.nano <= other.nano)
    }
}

/// The later of two timestamps, at the spec level.
pub open spec fn spec_mtime_max(a: ModTime, b: ModTime) -> ModTime {
    if a.le(b) {
        b
    } else {
        a
    }
}

/// The later of two timestamps.
pub fn mtime_max(a: ModTime, b: ModTime) -> (r: ModTime)
    ensures
        r == spec_mtime_max(a, b),
{
    if a.sec > b.sec || (a.sec == b.sec && a.nano >= b.nano) {
        a
    } else {
        b
    }
}

/// An error of the sync core. `Store` is a failed cache-store operation,
/// `Corrupt` a stored fingerprint that does not decode, and `Emit` a failure
/// of the processor or watcher side effect.
#[derive(Clone, Copy, PartialEq, Eq, Structural, Debug)]
pub enum FsSyncError {
    Store,
    Corrupt,
    Emit,
}

/// What the cache hands back to the walker for one entry: the processor item
/// together with the subtree modification time bubbled up to this entry.
#[derive(Debug)]
pub struct FsEntry<T> {
    pub item: T,
    pub mtime: ModTime,
}

/// One processor invocation, as specifications see it: which method ran,
/// where, against which previous item, and — for folders — the child base
/// names of the sub map, in order.
pub struct ProcessorCallView<V> {
    pub kind: FsNodeType,
    pub path: Seq<u8>,
    pub mount_path: Seq<u8>,
    pub previous: Option<V>,
    pub sub_names: Seq<Seq<u8>>,
}

/// The view of an optional previous item.
pub open spec fn opt_item_view<I: View>(p: Option<I>) -> Option<<I as View>::V> {
    match p {
        Option::None => None,
        Option::Some(i) => Some(i@),
    }
}

/// The child base names of a sub map, in order.
pub open spec fn sub_names<I>(s: Seq<(Vec<u8>, FsEntry<I>)>) -> Seq<Seq<u8>> {
    s.map_values(|c: (Vec<u8>, FsEntry<I>)| c.0@)
}

/// File system processor implementation interface.
///
/// The walker calls one of these per visited entry on a cache miss; the item
/// returned is persisted in the cache and handed back as `previous` when the
/// entry is next reprocessed. Each successful call is recorded in
/// [`Self::calls`], so a caller's contract can pin which entries were
/// processed, with what, and in which order.
pub trait FsProcessor {
    /// Item yielded after processing a file system entry: a fingerprint, a
    /// hash, or anything else worth memoizing.
    type Item: View;

    /// The calls this processor has served, oldest first. Implementations
    /// that do not track them may leave the default.
    open spec fn calls(&self) -> Seq<ProcessorCallView<<Self::Item as View>::V>> {
        Seq::empty()
    }

    /// Process a file at `path`, mounted in the output under `mount_path`.
    fn process_file(
        &mut self,
        path: &Vec<u8>,
        mount_path: &Vec<u8>,
        previous: Option<Self::Item>,
    ) -> (r: Result<Self::Item, FsSyncError>)
        ensures
            r is Ok ==> final(self).calls() == old(self).calls().push(
                ProcessorCallView {
                    kind: FsNodeType::File,
                    path: path@,
                    mount_path: mount_path@,
                    previous: opt_item_view(previous),
                    sub_names: Seq::empty(),
                },
            ),
    ;

    /// Process a symlink (or any entry that is neither a regular file nor a
    /// directory) at `path`.
    fn process_symlink(
        &mut self,
        path: &Vec<u8>,
        mount_path: &Vec<u8>,
        previous: Option<Self::Item>,
    ) -> (r: Result<Self::Item, FsSyncError>)
        ensures
            r is Ok ==> final(self).calls() == old(self).calls().push(
                ProcessorCallView {
                    kind: FsNodeType::Symlink,
                    path: path@,
                    mount_path: mount_path@,
                    previous: opt_item_view(previous),
                    sub_names: Seq::empty(),
                },
            ),
    ;

    /// Process a folder whose direct children were just visited; `sub` maps
    /// each child base name to the entry the walk of that child produced.
    fn process_folder(
        &mut self,
        path: &Vec<u8>,
        mount_path: &Vec<u8>,
        sub: Vec<(Vec<u8>, FsEntry<Self::Item>)>,
        previous: Option<Self::Item>,
    ) -> (r: Result<Self::Item, FsSyncError>)
        ensures
            r is Ok ==> final(self).calls() == old(self).calls().push(
                ProcessorCallView {
                    kind: FsNodeType::Folder,
                    path: path@,
                    mount_path: mount_path@,
                    previous: opt_item_view(previous),
                    sub_names: sub_names(sub@),
                },
            ),
    ;
}

/// Byte-wise equality of two byte strings.
pub fn bytes_eq(a: &Vec<u8>, b: &Vec<u8>) -> (r: bool)
    ensures
        r == (a@ == b@),
{
    if a.len() != b.len() {
        assert(a@ != b@);
        return false;
    }
    let mut i: usize = 0;
    while i < a.len()
        invariant
            0 <= i <= a.len(),
            a@.len() == b@.len(),
            forall|j: int| 0 <= j < i ==> a@[j] == b@[j],
        decreases a.len() - i,
    {
        if a[i] != b[i] {
            return false;
        }
        i = i + 1;
    }
    proof {
        assert(a@ =~= b@);
    }
    true
}

/// The byte that separates path components.
pub const PATH_SEP: u8 = 47;

/// `base/name` at the spec level.
pub open spec fn spec_join(base: Seq<u8>, name: Seq<u8>) -> Seq<u8> {
    base + seq![PATH_SEP] + name
}

/// A copy of a byte string.
pub fn clone_bytes(v: &Vec<u8>) -> (r: Vec<u8>)
    ensures
        r@ == v@,
{
    let mut out: Vec<u8> = Vec::new();
    let mut i: usize = 0;
    while i < v.len()
        invariant
            0 <= i <= v.len(),
            out@ =~= v@.take(i as int),
        decreases v.len() - i,
    {
        out.push(v[i]);
        i = i + 1;
    }
    proof {
        assert(out@ =~= v@);
    }
    out
}

/// The suffix that marks a removal tombstone in the output archive:
/// the bytes of `.DELETED`.
pub open spec fn deleted_suffix() -> Seq<u8> {
    seq![46u8, 68u8, 69u8, 76u8, 69u8, 84u8, 69u8, 68u8]
}

/// The archive entry name under which the removal of `mount` is recorded:
/// `mount` with `.DELETED` appended.
pub fn tombstone_name(mount: &Vec<u8>) -> (r: Vec<u8>)
    ensures
        r@ == mount@ + deleted_suffix(),
{
    let mut out = clone_bytes(mount);
    out.push(46);
    out.push(68);
    out.push(69);
    out.push(76);
    out.push(69);
    out.push(84);
    out.push(69);
    out.push(68);
    proof {
        assert(out@ =~= mount@ + deleted_suffix());
    }
    out
}

/// `base/name` as a byte string.
pub fn join_path(base: &Vec<u8>, name: &Vec<u8>) -> (r: Vec<u8>)
    ensures
        r@ == spec_join(base@, name@),
{
    let mut v: Vec<u8> = Vec::new();
    let mut i: usize = 0;
    while i < base.len()
        invariant
            0 <= i <= base.len(),
            v@ =~= base@.take(i as int),
        decreases base.len() - i,
    {
        v.push(base[i]);
        i = i + 1;
    }
    v.push(PATH_SEP);
    let mut j: usize = 0;
    while j < name.len()
        invariant
            0 <= j <= name.len(),
            v@ =~= base@ + seq![PATH_SEP] + name@.take(j as int),
        decreases name.len() - j,
    {
        v.push(name[j]);
        j = j + 1;
    }
    proof {
        assert(v@ =~= base@ + seq![PATH_SEP] + name@);
    }
    v
}

} // verus!
