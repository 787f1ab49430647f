//! The memoized walker and the cache session protocol it relies on: visit an
//! observed file tree, skip the processor on entries whose cached
//! modification time is unchanged, and keep the cache consistent under a
//! transactional session.

use vstd::prelude::*;

use crate::node::FsNodeType;
use crate::{
    opt_item_view, spec_join, spec_mtime_max, sub_names, FsEntry, FsProcessor, FsSyncError,
    ModTime, ProcessorCallView, PATH_SEP,
};

verus! {

/// One observed filesystem subtree, as plain values: the caller performs the
/// filesystem scan (never this crate) and hands the walker the shape it saw.
/// An entry that is neither a regular file nor a directory is observed as a
/// `Symlink`.
pub enum FsTree {
    File { mtime: ModTime },
    Symlink { mtime: ModTime },
    Folder { mtime: ModTime, children: Vec<(Vec<u8>, FsTree)> },
}

impl FsTree {
    /// The entry's own modification time.
    pub open spec fn mtime(self) -> ModTime {
        match self {
            FsTree::File { mtime } => mtime,
            FsTree::Symlink { mtime } => mtime,
            FsTree::Folder { mtime, .. } => mtime,
        }
    }
}

/// The latest modification time anywhere in the subtree.
pub open spec fn tree_max_mtime(t: FsTree) -> ModTime
    decreases t,
{
    match t {
        FsTree::File { mtime } => mtime,
        FsTree::Symlink { mtime } => mtime,
        FsTree::Folder { mtime, children } => forest_max_mtime(mtime, children@),
    }
}

/// The latest of `m` and every subtree maximum in `cs`, folded left.
pub open spec fn forest_max_mtime(m: ModTime, cs: Seq<(Vec<u8>, FsTree)>) -> ModTime
    decreases cs,
{
    if cs.len() == 0 {
        m
    } else {
        forest_max_mtime(spec_mtime_max(m, tree_max_mtime(cs.first().1)), cs.drop_first())
    }
}

/// The filesystem paths of every entry in the subtree rooted at `root`.
pub open spec fn tree_paths(root: Seq<u8>, t: FsTree) -> Set<Seq<u8>>
    decreases t,
{
    match t {
        FsTree::File { .. } => set![root],
        FsTree::Symlink { .. } => set![root],
        FsTree::Folder { children, .. } => set![root].union(forest_paths(root, children@)),
    }
}

/// The filesystem paths of every entry in the subtrees of `cs`, children of `root`.
pub open spec fn forest_paths(root: Seq<u8>, cs: Seq<(Vec<u8>, FsTree)>) -> Set<Seq<u8>>
    decreases cs,
{
    if cs.len() == 0 {
        Set::empty()
    } else {
        tree_paths(spec_join(root, cs.first().0@), cs.first().1).union(
            forest_paths(root, cs.drop_first()),
        )
    }
}

/// One cache row as the session protocol models it.
pub struct CacheRow<V> {
    pub item: V,
    pub mtime: ModTime,
    pub session_id: u32,
}

/// Every entry of the subtree has a row whose stored mtime equals the
/// observed one: the memoized walk of this subtree does nothing.
pub open spec fn tree_cached<V>(
    rows: Map<Seq<u8>, CacheRow<V>>,
    root: Seq<u8>,
    t: FsTree,
) -> bool
    decreases t,
{
    &&& rows.contains_key(root)
    &&& rows[root].mtime == t.mtime()
    &&& match t {
        FsTree::Folder { children, .. } => forest_cached(rows, root, children@),
        _ => true,
    }
}

/// [`tree_cached`] over each child subtree.
pub open spec fn forest_cached<V>(
    rows: Map<Seq<u8>, CacheRow<V>>,
    root: Seq<u8>,
    cs: Seq<(Vec<u8>, FsTree)>,
) -> bool
    decreases cs,
{
    if cs.len() == 0 {
        true
    } else {
        tree_cached(rows, spec_join(root, cs.first().0@), cs.first().1) && forest_cached(
            rows,
            root,
            cs.drop_first(),
        )
    }
}

/// Every path of a subtree rooted at `root` is at least as long as `root`;
/// paths of child subtrees are strictly longer.
pub proof fn lemma_tree_paths_len(root: Seq<u8>, t: FsTree)
    ensures
        forall|q: Seq<u8>| tree_paths(root, t).contains(q) ==> q.len() >= root.len(),
    decreases t,
{
    match t {
        FsTree::File { .. } => {
            assert forall|q: Seq<u8>| tree_paths(root, t).contains(q) implies q.len()
                >= root.len() by {
                assert(q == root);
            }
        },
        FsTree::Symlink { .. } => {
            assert forall|q: Seq<u8>| tree_paths(root, t).contains(q) implies q.len()
                >= root.len() by {
                assert(q == root);
            }
        },
        FsTree::Folder { children, .. } => {
            lemma_forest_paths_len(root, children@);
            assert forall|q: Seq<u8>| tree_paths(root, t).contains(q) implies q.len()
                >= root.len() by {
                if forest_paths(root, children@).contains(q) {
                } else {
                    assert(q == root);
                }
            }
        },
    }
}

/// See [`lemma_tree_paths_len`].
pub proof fn lemma_forest_paths_len(root: Seq<u8>, cs: Seq<(Vec<u8>, FsTree)>)
    ensures
        forall|q: Seq<u8>| forest_paths(root, cs).contains(q) ==> q.len() > root.len(),
    decreases cs,
{
    if cs.len() == 0 {
    } else {
        lemma_tree_paths_len(spec_join(root, cs.first().0@), cs.first().1);
        lemma_forest_paths_len(root, cs.drop_first());
        assert forall|q: Seq<u8>| forest_paths(root, cs).contains(q) implies q.len()
            > root.len() by {
            if tree_paths(spec_join(root, cs.first().0@), cs.first().1).contains(q) {
                assert(q.len() >= spec_join(root, cs.first().0@).len());
                assert(spec_join(root, cs.first().0@).len() > root.len());
            } else {
                assert(forest_paths(root, cs.drop_first()).contains(q));
            }
        }
    }
}

/// Splitting a child list splits its path set.
pub proof fn lemma_forest_paths_app(
    root: Seq<u8>,
    xs: Seq<(Vec<u8>, FsTree)>,
    ys: Seq<(Vec<u8>, FsTree)>,
)
    ensures
        forest_paths(root, xs + ys) == forest_paths(root, xs).union(forest_paths(root, ys)),
    decreases xs,
{
    if xs.len() == 0 {
        assert(xs + ys =~= ys);
        assert(forest_paths(root, xs).union(forest_paths(root, ys)) =~= forest_paths(root, ys));
    } else {
        assert((xs + ys).first() == xs.first());
        assert((xs + ys).drop_first() =~= xs.drop_first() + ys);
        lemma_forest_paths_app(root, xs.drop_first(), ys);
        assert(forest_paths(root, xs + ys) =~= forest_paths(root, xs).union(
            forest_paths(root, ys),
        ));
    }
}

/// Scanning one more child adds exactly that child's subtree paths.
pub proof fn lemma_forest_paths_take_step(root: Seq<u8>, cs: Seq<(Vec<u8>, FsTree)>, i: int)
    requires
        0 <= i < cs.len(),
    ensures
        forest_paths(root, cs.take(i + 1)) == forest_paths(root, cs.take(i)).union(
            tree_paths(spec_join(root, cs[i].0@), cs[i].1),
        ),
{
    reveal_with_fuel(forest_paths, 3);
    let single = seq![cs[i]];
    assert(cs.take(i + 1) =~= cs.take(i) + single);
    lemma_forest_paths_app(root, cs.take(i), single);
    assert(single.drop_first() =~= Seq::<(Vec<u8>, FsTree)>::empty());
    assert(forest_paths(root, single) =~= tree_paths(spec_join(root, cs[i].0@), cs[i].1));
}

/// Folding a split child list folds the accumulators in sequence.
pub proof fn lemma_forest_max_app(
    m: ModTime,
    xs: Seq<(Vec<u8>, FsTree)>,
    ys: Seq<(Vec<u8>, FsTree)>,
)
    ensures
        forest_max_mtime(m, xs + ys) == forest_max_mtime(forest_max_mtime(m, xs), ys),
    decreases xs,
{
    if xs.len() == 0 {
        assert(xs + ys =~= ys);
    } else {
        assert((xs + ys).first() == xs.first());
        assert((xs + ys).drop_first() =~= xs.drop_first() + ys);
        lemma_forest_max_app(spec_mtime_max(m, tree_max_mtime(xs.first().1)), xs.drop_first(), ys);
    }
}

/// Scanning one more child folds in exactly that child's subtree maximum.
pub proof fn lemma_forest_max_take_step(m: ModTime, cs: Seq<(Vec<u8>, FsTree)>, i: int)
    requires
        0 <= i < cs.len(),
    ensures
        forest_max_mtime(m, cs.take(i + 1)) == spec_mtime_max(
            forest_max_mtime(m, cs.take(i)),
            tree_max_mtime(cs[i].1),
        ),
{
    reveal_with_fuel(forest_max_mtime, 3);
    let single = seq![cs[i]];
    assert(cs.take(i + 1) =~= cs.take(i) + single);
    lemma_forest_max_app(m, cs.take(i), single);
    assert(single.drop_first() =~= Seq::<(Vec<u8>, FsTree)>::empty());
}

/// A fully cached child list has each child subtree fully cached.
pub proof fn lemma_forest_cached_index<V>(
    rows: Map<Seq<u8>, CacheRow<V>>,
    root: Seq<u8>,
    cs: Seq<(Vec<u8>, FsTree)>,
    i: int,
)
    requires
        forest_cached(rows, root, cs),
        0 <= i < cs.len(),
    ensures
        tree_cached(rows, spec_join(root, cs[i].0@), cs[i].1),
    decreases i,
{
    if i == 0 {
    } else {
        assert(cs.drop_first()[i - 1] == cs[i]);
        lemma_forest_cached_index(rows, root, cs.drop_first(), i - 1);
    }
}

/// A real directory-entry name: it never contains the path separator.
pub open spec fn name_ok(n: Seq<u8>) -> bool {
    forall|i: int| 0 <= i < n.len() ==> n[i] != PATH_SEP
}

/// The child base names are pairwise distinct.
pub open spec fn children_names_unique(cs: Seq<(Vec<u8>, FsTree)>) -> bool {
    forall|i: int, j: int| 0 <= i < j < cs.len() ==> cs[i].0@ != cs[j].0@
}

/// The observation has the shape a real directory scan produces: within
/// every folder the child base names are pairwise distinct and free of the
/// path separator.
pub open spec fn tree_names_ok(t: FsTree) -> bool
    decreases t,
{
    match t {
        FsTree::File { .. } => true,
        FsTree::Symlink { .. } => true,
        FsTree::Folder { children, .. } => children_names_unique(children@) && forest_names_ok(
            children@,
        ),
    }
}

/// [`tree_names_ok`] over a child list, names included.
pub open spec fn forest_names_ok(cs: Seq<(Vec<u8>, FsTree)>) -> bool
    decreases cs,
{
    if cs.len() == 0 {
        true
    } else {
        name_ok(cs.first().0@) && tree_names_ok(cs.first().1) && forest_names_ok(cs.drop_first())
    }
}

/// A well-named child list is well named at each index.
pub proof fn lemma_forest_names_ok_index(cs: Seq<(Vec<u8>, FsTree)>, k: int)
    requires
        forest_names_ok(cs),
        0 <= k < cs.len(),
    ensures
        name_ok(cs[k].0@) && tree_names_ok(cs[k].1),
    decreases k,
{
    if k == 0 {
        assert(cs.first() == cs[0]);
    } else {
        assert(cs.drop_first()[k - 1] == cs[k]);
        lemma_forest_names_ok_index(cs.drop_first(), k - 1);
    }
}

/// Every path of a subtree either is the root itself or continues the root
/// with the separator immediately after it.
pub proof fn lemma_tree_paths_shape(root: Seq<u8>, t: FsTree)
    ensures
        forall|q: Seq<u8>| #[trigger] tree_paths(root, t).contains(q) ==> q == root || (q.len()
            >= root.len() + 1 && q.take(root.len() + 1 as int) == root + seq![PATH_SEP]),
    decreases t,
{
    match t {
        FsTree::File { .. } => {
            assert forall|q: Seq<u8>| #[trigger] tree_paths(root, t).contains(q) implies q
                == root by {}
        },
        FsTree::Symlink { .. } => {
            assert forall|q: Seq<u8>| #[trigger] tree_paths(root, t).contains(q) implies q
                == root by {}
        },
        FsTree::Folder { children, .. } => {
            lemma_forest_paths_shape(root, children@);
            assert forall|q: Seq<u8>| #[trigger] tree_paths(root, t).contains(q) implies q == root
                || (q.len() >= root.len() + 1 && q.take(root.len() + 1 as int) == root
                + seq![PATH_SEP]) by {
                if forest_paths(root, children@).contains(q) {
                } else {
                    assert(q == root);
                }
            }
        },
    }
}

/// See [`lemma_tree_paths_shape`]: paths of child subtrees always continue
/// the root with the separator.
pub proof fn lemma_forest_paths_shape(root: Seq<u8>, cs: Seq<(Vec<u8>, FsTree)>)
    ensures
        forall|q: Seq<u8>| #[trigger] forest_paths(root, cs).contains(q) ==> q.len() >= root.len()
            + 1 && q.take(root.len() + 1 as int) == root + seq![PATH_SEP],
    decreases cs,
{
    if cs.len() == 0 {
    } else {
        let j = spec_join(root, cs.first().0@);
        lemma_tree_paths_shape(j, cs.first().1);
        lemma_forest_paths_shape(root, cs.drop_first());
        assert forall|q: Seq<u8>| #[trigger] forest_paths(root, cs).contains(q) implies q.len()
            >= root.len() + 1 && q.take(root.len() + 1 as int) == root + seq![PATH_SEP] by {
            if tree_paths(j, cs.first().1).contains(q) {
                if q == j {
                    assert(q.take(root.len() + 1 as int) =~= root + seq![PATH_SEP]);
                } else {
                    assert(q.len() >= j.len() + 1 && q.take(j.len() + 1 as int) == j + seq![PATH_SEP]);
                    assert forall|k: int| 0 <= k < root.len() + 1 implies q[k] == (root
                        + seq![PATH_SEP])[k] by {
                        assert(q.take(j.len() + 1 as int)[k] == q[k]);
                        assert((j + seq![PATH_SEP])[k] == j[k]);
                    }
                    assert(q.take(root.len() + 1 as int) =~= root + seq![PATH_SEP]);
                }
            } else {
                assert(forest_paths(root, cs.drop_first()).contains(q));
            }
        }
    }
}

/// Under a separator-free child name, every path in that child's subtree
/// determines the name: the bytes after `root/` up to the next separator or
/// the end of the path are exactly the name.
pub proof fn lemma_tree_paths_segment(root: Seq<u8>, name: Seq<u8>, t: FsTree)
    requires
        name_ok(name),
    ensures
        forall|q: Seq<u8>| #[trigger] tree_paths(spec_join(root, name), t).contains(q) ==> q.len()
            >= root.len() + 1 as int + name.len() && q.subrange(
            root.len() + 1 as int,
            root.len() + 1 as int + name.len(),
        ) == name && (q.len() == root.len() + 1 as int + name.len() || q[root.len() + 1 as int + name.len()]
            == PATH_SEP),
{
    let j = spec_join(root, name);
    lemma_tree_paths_shape(j, t);
    assert forall|q: Seq<u8>| #[trigger] tree_paths(j, t).contains(q) implies q.len() >= root.len()
        + 1 + name.len() && q.subrange(root.len() + 1 as int, root.len() + 1 as int + name.len()) == name && (
    q.len() == root.len() + 1 as int + name.len() || q[root.len() + 1 as int + name.len()] == PATH_SEP) by {
        let end: int = root.len() + 1 as int + name.len();
        assert(j.len() == end);
        if q == j {
            assert(q.subrange(root.len() + 1 as int, end) =~= name);
        } else {
            assert(q.len() >= j.len() + 1 && q.take(j.len() + 1 as int) == j + seq![PATH_SEP]);
            assert forall|k: int| 0 <= k < j.len() + 1 implies q[k] == (j + seq![PATH_SEP])[k] by {
                assert(q.take(j.len() + 1 as int)[k] == q[k]);
            }
            assert(q.subrange(root.len() + 1 as int, end) =~= name);
            assert(q[end] == PATH_SEP);
        }
    }
}

/// Distinct separator-free sibling names give disjoint subtree path sets.
pub proof fn lemma_sibling_paths_disjoint(
    root: Seq<u8>,
    n1: Seq<u8>,
    t1: FsTree,
    n2: Seq<u8>,
    t2: FsTree,
)
    requires
        name_ok(n1),
        name_ok(n2),
        n1 != n2,
    ensures
        forall|q: Seq<u8>| #[trigger] tree_paths(spec_join(root, n1), t1).contains(q)
            ==> !tree_paths(spec_join(root, n2), t2).contains(q),
{
    lemma_tree_paths_segment(root, n1, t1);
    lemma_tree_paths_segment(root, n2, t2);
    assert forall|q: Seq<u8>| #[trigger] tree_paths(spec_join(root, n1), t1).contains(q)
        implies !tree_paths(spec_join(root, n2), t2).contains(q) by {
        if tree_paths(spec_join(root, n2), t2).contains(q) {
            if n1.len() == n2.len() {
                assert(q.subrange(root.len() + 1 as int, root.len() + 1 as int + n1.len()) == n1);
                assert(q.subrange(root.len() + 1 as int, root.len() + 1 as int + n2.len()) == n2);
                assert(n1 == n2);
            } else if n1.len() < n2.len() {
                let pos: int = root.len() + 1 as int + n1.len();
                assert(q.len() > pos);
                assert(q[pos] == PATH_SEP);
                assert(q.subrange(root.len() + 1 as int, root.len() + 1 as int + n2.len())[n1.len() as int]
                    == q[pos]);
                assert(n2[n1.len() as int] != PATH_SEP);
            } else {
                let pos: int = root.len() + 1 as int + n2.len();
                assert(q.len() > pos);
                assert(q[pos] == PATH_SEP);
                assert(q.subrange(root.len() + 1 as int, root.len() + 1 as int + n1.len())[n2.len() as int]
                    == q[pos]);
                assert(n1[n2.len() as int] != PATH_SEP);
            }
        }
    }
}

/// A path of a child list's subtrees lies in one of the children.
pub proof fn lemma_forest_paths_member(root: Seq<u8>, cs: Seq<(Vec<u8>, FsTree)>, q: Seq<u8>)
    requires
        forest_paths(root, cs).contains(q),
    ensures
        exists|k: int|
            0 <= k < cs.len() && #[trigger] tree_paths(spec_join(root, cs[k].0@), cs[k].1).contains(
                q,
            ),
    decreases cs,
{
    if cs.len() == 0 {
    } else {
        if tree_paths(spec_join(root, cs.first().0@), cs.first().1).contains(q) {
            assert(cs.first() == cs[0]);
            assert(tree_paths(spec_join(root, cs[0].0@), cs[0].1).contains(q));
        } else {
            lemma_forest_paths_member(root, cs.drop_first(), q);
            let k0 = choose|k: int|
                0 <= k < cs.drop_first().len() && #[trigger] tree_paths(
                    spec_join(root, cs.drop_first()[k].0@),
                    cs.drop_first()[k].1,
                ).contains(q);
            assert(cs.drop_first()[k0] == cs[k0 + 1]);
            assert(tree_paths(spec_join(root, cs[k0 + 1].0@), cs[k0 + 1].1).contains(q));
        }
    }
}

/// Paths of the already scanned children never reach into a later sibling's
/// subtree.
pub proof fn lemma_forest_take_sibling_disjoint(root: Seq<u8>, cs: Seq<(Vec<u8>, FsTree)>, k: int)
    requires
        children_names_unique(cs),
        forest_names_ok(cs),
        0 <= k < cs.len(),
    ensures
        forall|q: Seq<u8>| #[trigger] forest_paths(root, cs.take(k)).contains(q) ==> !tree_paths(
            spec_join(root, cs[k].0@),
            cs[k].1,
        ).contains(q),
{
    assert forall|q: Seq<u8>| #[trigger] forest_paths(root, cs.take(k)).contains(q)
        implies !tree_paths(spec_join(root, cs[k].0@), cs[k].1).contains(q) by {
        lemma_forest_paths_member(root, cs.take(k), q);
        let j = choose|j: int|
            0 <= j < cs.take(k).len() && #[trigger] tree_paths(
                spec_join(root, cs.take(k)[j].0@),
                cs.take(k)[j].1,
            ).contains(q);
        assert(cs.take(k)[j] == cs[j]);
        lemma_forest_names_ok_index(cs, j);
        lemma_forest_names_ok_index(cs, k);
        assert(cs[j].0@ != cs[k].0@);
        lemma_sibling_paths_disjoint(root, cs[j].0@, cs[j].1, cs[k].0@, cs[k].1);
    }
}

/// A cached subtree stays cached in any row map that agrees with the old one
/// on the subtree's paths.
pub proof fn lemma_tree_cached_agree<V>(
    r0: Map<Seq<u8>, CacheRow<V>>,
    r1: Map<Seq<u8>, CacheRow<V>>,
    root: Seq<u8>,
    t: FsTree,
)
    requires
        tree_cached(r0, root, t),
        forall|p: Seq<u8>| #[trigger]
            tree_paths(root, t).contains(p) ==> r1.contains_key(p) && r1[p] == r0[p],
    ensures
        tree_cached(r1, root, t),
    decreases t,
{
    assert(tree_paths(root, t).contains(root));
    match t {
        FsTree::File { .. } => {},
        FsTree::Symlink { .. } => {},
        FsTree::Folder { children, .. } => {
            assert forall|p: Seq<u8>| #[trigger] forest_paths(root, children@).contains(p)
                implies r1.contains_key(p) && r1[p] == r0[p] by {
                assert(tree_paths(root, t).contains(p));
            }
            lemma_forest_cached_agree(r0, r1, root, children@);
        },
    }
}

/// See [`lemma_tree_cached_agree`], over a child list.
pub proof fn lemma_forest_cached_agree<V>(
    r0: Map<Seq<u8>, CacheRow<V>>,
    r1: Map<Seq<u8>, CacheRow<V>>,
    root: Seq<u8>,
    cs: Seq<(Vec<u8>, FsTree)>,
)
    requires
        forest_cached(r0, root, cs),
        forall|p: Seq<u8>| #[trigger]
            forest_paths(root, cs).contains(p) ==> r1.contains_key(p) && r1[p] == r0[p],
    ensures
        forest_cached(r1, root, cs),
    decreases cs,
{
    if cs.len() == 0 {
    } else {
        assert forall|p: Seq<u8>| #[trigger]
            tree_paths(spec_join(root, cs.first().0@), cs.first().1).contains(p)
            implies r1.contains_key(p) && r1[p] == r0[p] by {
            assert(forest_paths(root, cs).contains(p));
        }
        lemma_tree_cached_agree(r0, r1, spec_join(root, cs.first().0@), cs.first().1);
        assert forall|p: Seq<u8>| #[trigger] forest_paths(root, cs.drop_first()).contains(p)
            implies r1.contains_key(p) && r1[p] == r0[p] by {
            assert(forest_paths(root, cs).contains(p));
        }
        lemma_forest_cached_agree(r0, r1, root, cs.drop_first());
    }
}

/// Extending a cached child list by one more cached child.
pub proof fn lemma_forest_cached_push<V>(
    r: Map<Seq<u8>, CacheRow<V>>,
    root: Seq<u8>,
    xs: Seq<(Vec<u8>, FsTree)>,
    y: (Vec<u8>, FsTree),
)
    requires
        forest_cached(r, root, xs),
        tree_cached(r, spec_join(root, y.0@), y.1),
    ensures
        forest_cached(r, root, xs.push(y)),
    decreases xs,
{
    if xs.len() == 0 {
        reveal_with_fuel(forest_cached, 3);
        assert(xs.push(y).first() == y);
        assert(xs.push(y).drop_first() =~= xs);
    } else {
        assert(xs.push(y).first() == xs.first());
        assert(xs.push(y).drop_first() =~= xs.drop_first().push(y));
        lemma_forest_cached_push(r, root, xs.drop_first(), y);
    }
}

/// The stored row lets the walker skip reprocessing `p`: a row is present
/// and its stored mtime equals the observed one.
pub open spec fn row_hit<V>(rows: Map<Seq<u8>, CacheRow<V>>, p: Seq<u8>, m: ModTime) -> bool {
    rows.contains_key(p) && rows[p].mtime == m
}

/// The previously stored item the processor is handed at `p`.
pub open spec fn row_prev<V>(rows: Map<Seq<u8>, CacheRow<V>>, p: Seq<u8>) -> Option<V> {
    if rows.contains_key(p) {
        Some(rows[p].item)
    } else {
        None
    }
}

/// The child base names of an observed folder, in order.
pub open spec fn tree_child_names(cs: Seq<(Vec<u8>, FsTree)>) -> Seq<Seq<u8>> {
    cs.map_values(|c: (Vec<u8>, FsTree)| c.0@)
}

/// The processor calls a successful walk of this subtree serves, oldest
/// first: children before their parent, exactly one call per entry whose
/// stored mtime misses the cache and none for an entry it hits, with the
/// previous item taken from the pre-walk rows and, for a folder, the
/// observed child names as the sub map's keys.
pub open spec fn run_calls<V>(
    rows: Map<Seq<u8>, CacheRow<V>>,
    root: Seq<u8>,
    mount: Seq<u8>,
    t: FsTree,
) -> Seq<ProcessorCallView<V>>
    decreases t,
{
    match t {
        FsTree::File { mtime } => if row_hit(rows, root, mtime) {
            Seq::empty()
        } else {
            seq![
                ProcessorCallView {
                    kind: FsNodeType::File,
                    path: root,
                    mount_path: mount,
                    previous: row_prev(rows, root),
                    sub_names: Seq::empty(),
                },
            ]
        },
        FsTree::Symlink { mtime } => if row_hit(rows, root, mtime) {
            Seq::empty()
        } else {
            seq![
                ProcessorCallView {
                    kind: FsNodeType::Symlink,
                    path: root,
                    mount_path: mount,
                    previous: row_prev(rows, root),
                    sub_names: Seq::empty(),
                },
            ]
        },
        FsTree::Folder { mtime, children } => forest_calls(rows, root, mount, children@) + (
        if row_hit(rows, root, mtime) {
            Seq::empty()
        } else {
            seq![
                ProcessorCallView {
                    kind: FsNodeType::Folder,
                    path: root,
                    mount_path: mount,
                    previous: row_prev(rows, root),
                    sub_names: tree_child_names(children@),
                },
            ]
        }),
    }
}

/// [`run_calls`] over a child list, children in order.
pub open spec fn forest_calls<V>(
    rows: Map<Seq<u8>, CacheRow<V>>,
    root: Seq<u8>,
    mount: Seq<u8>,
    cs: Seq<(Vec<u8>, FsTree)>,
) -> Seq<ProcessorCallView<V>>
    decreases cs,
{
    if cs.len() == 0 {
        Seq::empty()
    } else {
        run_calls(
            rows,
            spec_join(root, cs.first().0@),
            spec_join(mount, cs.first().0@),
            cs.first().1,
        ) + forest_calls(rows, root, mount, cs.drop_first())
    }
}

/// Splitting a child list splits its call sequence.
pub proof fn lemma_forest_calls_app<V>(
    rows: Map<Seq<u8>, CacheRow<V>>,
    root: Seq<u8>,
    mount: Seq<u8>,
    xs: Seq<(Vec<u8>, FsTree)>,
    ys: Seq<(Vec<u8>, FsTree)>,
)
    ensures
        forest_calls(rows, root, mount, xs + ys) == forest_calls(rows, root, mount, xs)
            + forest_calls(rows, root, mount, ys),
    decreases xs,
{
    if xs.len() == 0 {
        assert(xs + ys =~= ys);
        assert(forest_calls(rows, root, mount, xs) + forest_calls(rows, root, mount, ys)
            =~= forest_calls(rows, root, mount, ys));
    } else {
        assert((xs + ys).first() == xs.first());
        assert((xs + ys).drop_first() =~= xs.drop_first() + ys);
        lemma_forest_calls_app(rows, root, mount, xs.drop_first(), ys);
        assert(forest_calls(rows, root, mount, xs + ys) =~= forest_calls(rows, root, mount, xs)
            + forest_calls(rows, root, mount, ys));
    }
}

/// Scanning one more child appends exactly that child's subtree calls.
pub proof fn lemma_forest_calls_take_step<V>(
    rows: Map<Seq<u8>, CacheRow<V>>,
    root: Seq<u8>,
    mount: Seq<u8>,
    cs: Seq<(Vec<u8>, FsTree)>,
    i: int,
)
    requires
        0 <= i < cs.len(),
    ensures
        forest_calls(rows, root, mount, cs.take(i + 1)) == forest_calls(
            rows,
            root,
            mount,
            cs.take(i),
        ) + run_calls(rows, spec_join(root, cs[i].0@), spec_join(mount, cs[i].0@), cs[i].1),
{
    reveal_with_fuel(forest_calls, 3);
    let single = seq![cs[i]];
    assert(cs.take(i + 1) =~= cs.take(i) + single);
    lemma_forest_calls_app(rows, root, mount, cs.take(i), single);
    assert(single.drop_first() =~= Seq::<(Vec<u8>, FsTree)>::empty());
    assert(forest_calls(rows, root, mount, single) =~= run_calls(
        rows,
        spec_join(root, cs[i].0@),
        spec_join(mount, cs[i].0@),
        cs[i].1,
    ));
}

/// The call sequence of a subtree depends on the rows only at the subtree's
/// own paths.
pub proof fn lemma_run_calls_agree<V>(
    r0: Map<Seq<u8>, CacheRow<V>>,
    r1: Map<Seq<u8>, CacheRow<V>>,
    root: Seq<u8>,
    mount: Seq<u8>,
    t: FsTree,
)
    requires
        forall|p: Seq<u8>| #[trigger]
            tree_paths(root, t).contains(p) ==> (r0.contains_key(p) == r1.contains_key(p)) && (
            r0.contains_key(p) ==> r0[p] == r1[p]),
    ensures
        run_calls(r0, root, mount, t) == run_calls(r1, root, mount, t),
    decreases t,
{
    assert(tree_paths(root, t).contains(root));
    match t {
        FsTree::File { .. } => {},
        FsTree::Symlink { .. } => {},
        FsTree::Folder { children, .. } => {
            assert forall|p: Seq<u8>| #[trigger] forest_paths(root, children@).contains(p)
                implies (r0.contains_key(p) == r1.contains_key(p)) && (r0.contains_key(p)
                ==> r0[p] == r1[p]) by {
                assert(tree_paths(root, t).contains(p));
            }
            lemma_forest_calls_agree(r0, r1, root, mount, children@);
        },
    }
}

/// See [`lemma_run_calls_agree`], over a child list.
pub proof fn lemma_forest_calls_agree<V>(
    r0: Map<Seq<u8>, CacheRow<V>>,
    r1: Map<Seq<u8>, CacheRow<V>>,
    root: Seq<u8>,
    mount: Seq<u8>,
    cs: Seq<(Vec<u8>, FsTree)>,
)
    requires
        forall|p: Seq<u8>| #[trigger]
            forest_paths(root, cs).contains(p) ==> (r0.contains_key(p) == r1.contains_key(p)) && (
            r0.contains_key(p) ==> r0[p] == r1[p]),
    ensures
        forest_calls(r0, root, mount, cs) == forest_calls(r1, root, mount, cs),
    decreases cs,
{
    if cs.len() == 0 {
    } else {
        assert forall|p: Seq<u8>| #[trigger]
            tree_paths(spec_join(root, cs.first().0@), cs.first().1).contains(p) implies (
        r0.contains_key(p) == r1.contains_key(p)) && (r0.contains_key(p) ==> r0[p] == r1[p]) by {
            assert(forest_paths(root, cs).contains(p));
        }
        lemma_run_calls_agree(
            r0,
            r1,
            spec_join(root, cs.first().0@),
            spec_join(mount, cs.first().0@),
            cs.first().1,
        );
        assert forall|p: Seq<u8>| #[trigger] forest_paths(root, cs.drop_first()).contains(p)
            implies (r0.contains_key(p) == r1.contains_key(p)) && (r0.contains_key(p) ==> r0[p]
            == r1[p]) by {
            assert(forest_paths(root, cs).contains(p));
        }
        lemma_forest_calls_agree(r0, r1, root, mount, cs.drop_first());
    }
}

/// A fully cached subtree produces no processor calls at all.
pub proof fn lemma_run_calls_cached<V>(
    rows: Map<Seq<u8>, CacheRow<V>>,
    root: Seq<u8>,
    mount: Seq<u8>,
    t: FsTree,
)
    requires
        tree_cached(rows, root, t),
    ensures
        run_calls(rows, root, mount, t) == Seq::<ProcessorCallView<V>>::empty(),
    decreases t,
{
    match t {
        FsTree::File { .. } => {},
        FsTree::Symlink { .. } => {},
        FsTree::Folder { children, .. } => {
            lemma_forest_calls_cached(rows, root, mount, children@);
            assert(run_calls(rows, root, mount, t) =~= Seq::<ProcessorCallView<V>>::empty());
        },
    }
}

/// See [`lemma_run_calls_cached`], over a child list.
pub proof fn lemma_forest_calls_cached<V>(
    rows: Map<Seq<u8>, CacheRow<V>>,
    root: Seq<u8>,
    mount: Seq<u8>,
    cs: Seq<(Vec<u8>, FsTree)>,
)
    requires
        forest_cached(rows, root, cs),
    ensures
        forest_calls(rows, root, mount, cs) == Seq::<ProcessorCallView<V>>::empty(),
    decreases cs,
{
    if cs.len() == 0 {
    } else {
        lemma_run_calls_cached(
            rows,
            spec_join(root, cs.first().0@),
            spec_join(mount, cs.first().0@),
            cs.first().1,
        );
        lemma_forest_calls_cached(rows, root, mount, cs.drop_first());
        assert(forest_calls(rows, root, mount, cs) =~= Seq::<ProcessorCallView<V>>::empty());
    }
}

/// One successful walk silences the next: the rows a committed session
/// keeps are still an exact cache hit for every entry of the walked
/// subtree, so a second run over the same unchanged observation serves no
/// processor call at all.
pub proof fn lemma_first_run_silences_second<V>(
    r0: Map<Seq<u8>, CacheRow<V>>,
    s0: Set<Seq<u8>>,
    r1: Map<Seq<u8>, CacheRow<V>>,
    s1: Set<Seq<u8>>,
    root: Seq<u8>,
    mount: Seq<u8>,
    t: FsTree,
)
    requires
        walk_effect(r0, s0, r1, s1, root, t),
        tree_cached(r1, root, t),
    ensures
        tree_cached(r1.restrict(s1), root, t),
        run_calls(r1.restrict(s1), root, mount, t) == Seq::<ProcessorCallView<V>>::empty(),
{
    assert forall|p: Seq<u8>| #[trigger] tree_paths(root, t).contains(p) implies r1.restrict(
        s1,
    ).contains_key(p) && r1.restrict(s1)[p] == r1[p] by {
        assert(s1.contains(p));
        assert(r1.contains_key(p));
    }
    lemma_tree_cached_agree(r1, r1.restrict(s1), root, t);
    lemma_run_calls_cached(r1.restrict(s1), root, mount, t);
}

/// What the cache lookup of one entry can come back with.
pub enum CacheLookup<I> {
    /// The stored mtime equals the observed one: the stored entry, returned
    /// without invoking any processing.
    Unchanged(FsEntry<I>),
    /// A row exists but its mtime differs: the previously stored item.
    Changed(I),
    /// No row is stored for the path.
    Miss,
}

/// `id` is the id the next run must receive: one past the largest recorded
/// session id, or 1 when none is recorded.
pub open spec fn is_next_session_id(sessions: Set<int>, id: u32) -> bool {
    &&& forall|s: int| sessions.contains(s) ==> s < id
    &&& (id == 1 || sessions.contains(id - 1))
}

/// A run's transactional handle on the cache: it looks rows up by path and
/// mtime, upserts recomputed rows under its own session id, remembers which
/// paths it saw, and on close evicts every row it did not see.
pub trait MemoizedFsCacheSession<I: View>: Sized {
    /// The cache a committed session hands back. (Left unbounded to keep the
    /// two traits from bounding each other; the walker bounds it where it
    /// needs to start the next run.)
    type Cache: Sized;

    /// The rows of a committed cache value.
    spec fn cache_rows(c: &Self::Cache) -> Map<Seq<u8>, CacheRow<<I as View>::V>>;

    /// The recorded session ids of a committed cache value.
    spec fn cache_sessions(c: &Self::Cache) -> Set<int>;

    /// Well-formedness of a committed cache value.
    spec fn cache_inv(c: &Self::Cache) -> bool;

    /// The rows as visible to this session, keyed by path.
    spec fn rows(&self) -> Map<Seq<u8>, CacheRow<<I as View>::V>>;

    /// The paths this run has marked as seen.
    spec fn seen(&self) -> Set<Seq<u8>>;

    /// The recorded session ids, this session's included.
    spec fn sessions(&self) -> Set<int>;

    /// This session's id.
    spec fn id_spec(&self) -> u32;

    /// Well-formedness carried between operations.
    spec fn inv(&self) -> bool;

    /// Look `path` up against the observed `mtime`. `Unchanged` marks the
    /// path seen and returns the stored entry without any recomputation;
    /// `Changed` and `Miss` leave the session untouched so the caller can
    /// recompute and then [`Self::put_entry`].
    fn probe(&mut self, path: &Vec<u8>, mtime: &ModTime) -> (r: Result<CacheLookup<I>, FsSyncError>)
        requires
            old(self).inv(),
        ensures
            final(self).inv(),
            final(self).id_spec() == old(self).id_spec(),
            final(self).rows() == old(self).rows(),
            final(self).sessions() == old(self).sessions(),
            match r {
                Result::Ok(CacheLookup::Unchanged(entry)) => {
                    &&& old(self).rows().contains_key(path@)
                    &&& old(self).rows()[path@].mtime == *mtime
                    &&& entry.item@ == old(self).rows()[path@].item
                    &&& entry.mtime == *mtime
                    &&& final(self).seen() == old(self).seen().insert(path@)
                },
                Result::Ok(CacheLookup::Changed(prev)) => {
                    &&& old(self).rows().contains_key(path@)
                    &&& old(self).rows()[path@].mtime != *mtime
                    &&& prev@ == old(self).rows()[path@].item
                    &&& final(self).seen() == old(self).seen()
                },
                Result::Ok(CacheLookup::Miss) => {
                    &&& !old(self).rows().contains_key(path@)
                    &&& final(self).seen() == old(self).seen()
                },
                Result::Err(_) => final(self).seen() == old(self).seen() || final(self).seen()
                    == old(self).seen().insert(path@),
            },
    ;

    /// Write the row for `path` under this session's id and mark it seen.
    fn put_entry(&mut self, path: &Vec<u8>, mtime: &ModTime, item: I) -> (r: Result<
        FsEntry<I>,
        FsSyncError,
    >)
        requires
            old(self).inv(),
        ensures
            final(self).inv(),
            final(self).id_spec() == old(self).id_spec(),
            final(self).sessions() == old(self).sessions(),
            match r {
                Result::Ok(entry) => {
                    &&& final(self).rows() == old(self).rows().insert(
                        path@,
                        CacheRow {
                            item: item@,
                            mtime: *mtime,
                            session_id: old(self).id_spec(),
                        },
                    )
                    &&& final(self).seen() == old(self).seen().insert(path@)
                    &&& entry.item == item
                    &&& entry.mtime == *mtime
                },
                Result::Err(_) => {
                    &&& (final(self).rows() == old(self).rows() || final(self).rows() == old(self).rows().insert(
                        path@,
                        CacheRow {
                            item: item@,
                            mtime: *mtime,
                            session_id: old(self).id_spec(),
                        },
                    ))
                    &&& (final(self).seen() == old(self).seen() || final(self).seen() == old(self).seen().insert(path@))
                },
            },
    ;

    /// Close the session: every row whose path was not seen this run is
    /// deleted, the rest survive unchanged.
    fn end_session(self) -> (r: Result<Self::Cache, FsSyncError>)
        requires
            self.inv(),
        ensures
            match r {
                Result::Ok(cache) => {
                    &&& Self::cache_inv(&cache)
                    &&& Self::cache_rows(&cache) == self.rows().restrict(self.seen())
                    &&& Self::cache_sessions(&cache) == self.sessions()
                },
                Result::Err(_) => true,
            },
    ;

    /// The session's id.
    fn get_id(&self) -> (r: u32)
        ensures
            r == self.id_spec(),
    ;
}

/// A cache of rows and recorded session ids that can open transactional
/// sessions.
pub trait MemoizedFsCache<I: View>: Sized {
    /// The session handle this cache opens.
    type Session: MemoizedFsCacheSession<I>;

    /// The persisted rows, keyed by path.
    spec fn rows(&self) -> Map<Seq<u8>, CacheRow<<I as View>::V>>;

    /// The recorded session ids.
    spec fn sessions(&self) -> Set<int>;

    /// Well-formedness carried between operations.
    spec fn inv(&self) -> bool;

    /// Begin a run: allocate the next session id, record it, and hand back a
    /// session with an empty seen set over the same rows.
    fn start_session(self) -> (r: Result<Self::Session, FsSyncError>)
        requires
            self.inv(),
        ensures
            match r {
                Result::Ok(s) => {
                    &&& s.inv()
                    &&& s.rows() == self.rows()
                    &&& s.seen() == Set::<Seq<u8>>::empty()
                    &&& is_next_session_id(self.sessions(), s.id_spec())
                    &&& s.sessions() == self.sessions().insert(s.id_spec() as int)
                },
                Result::Err(_) => true,
            },
    ;
}

/// The row map after one walked subtree: no row outside the subtree's paths
/// is touched, no row is deleted, and nothing outside the old rows and the
/// subtree's paths appears.
pub open spec fn walk_frame<V>(
    r0: Map<Seq<u8>, CacheRow<V>>,
    r1: Map<Seq<u8>, CacheRow<V>>,
    root: Seq<u8>,
    t: FsTree,
) -> bool {
    &&& forall|p: Seq<u8>| #[trigger] r0.contains_key(p) ==> r1.contains_key(p)
    &&& forall|p: Seq<u8>| #[trigger]
        r1.contains_key(p) ==> r0.contains_key(p) || tree_paths(root, t).contains(p)
    &&& forall|p: Seq<u8>|
        r0.contains_key(p) && !tree_paths(root, t).contains(p) ==> #[trigger] r1[p] == r0[p]
}

/// What one successful walked subtree does to the session state: the row map
/// respects [`walk_frame`], every path of the subtree has a row afterwards,
/// and exactly the subtree's paths are newly marked seen.
pub open spec fn walk_effect<V>(
    r0: Map<Seq<u8>, CacheRow<V>>,
    s0: Set<Seq<u8>>,
    r1: Map<Seq<u8>, CacheRow<V>>,
    s1: Set<Seq<u8>>,
    root: Seq<u8>,
    t: FsTree,
) -> bool {
    &&& walk_frame(r0, r1, root, t)
    &&& forall|p: Seq<u8>| tree_paths(root, t).contains(p) ==> #[trigger] r1.contains_key(p)
    &&& s1 == s0.union(tree_paths(root, t))
}

/// Replaying the same observation against the same pre-session state leaves
/// the same row set present, the same rows seen, and every row outside the
/// walked paths identical: the walk is deterministic in everything but the
/// processor items it stores.
pub proof fn lemma_walk_replay<V>(
    r0: Map<Seq<u8>, CacheRow<V>>,
    s0: Set<Seq<u8>>,
    r1: Map<Seq<u8>, CacheRow<V>>,
    s1: Set<Seq<u8>>,
    r2: Map<Seq<u8>, CacheRow<V>>,
    s2: Set<Seq<u8>>,
    root: Seq<u8>,
    t: FsTree,
)
    requires
        walk_effect(r0, s0, r1, s1, root, t),
        walk_effect(r0, s0, r2, s2, root, t),
    ensures
        s1 == s2,
        r1.dom() == r2.dom(),
        forall|p: Seq<u8>|
            r1.contains_key(p) && !tree_paths(root, t).contains(p) ==> r1[p] == r2[p],
{
    assert(r1.dom() =~= r2.dom());
}

/// After a run that started with nothing seen, every row that survives the
/// session close lies on a path the run observed.
pub proof fn lemma_session_rows_visited<V>(
    r0: Map<Seq<u8>, CacheRow<V>>,
    r1: Map<Seq<u8>, CacheRow<V>>,
    s1: Set<Seq<u8>>,
    root: Seq<u8>,
    t: FsTree,
)
    requires
        walk_effect(r0, Set::<Seq<u8>>::empty(), r1, s1, root, t),
    ensures
        forall|p: Seq<u8>| #[trigger]
            r1.restrict(s1).contains_key(p) ==> tree_paths(root, t).contains(p),
{
}

/// Drives a processor over observed trees, memoizing each entry through a
/// cache keyed by path and modification time.
pub struct MemoizedFsWalker<C> {
    pub cache: C,
}

impl<C> MemoizedFsWalker<C> {
    /// Wrap a cache, ready to start a run.
    pub fn new(cache: C) -> (r: Self)
        ensures
            r.cache == cache,
    {
        MemoizedFsWalker { cache }
    }

    /// Begin a processing batch bound to a fresh session of the cache.
    pub fn start_processing<F: FsProcessor>(self, fs_processor: F) -> (r: Result<
        MemoizedFsWalkerSession<F, C::Session>,
        FsSyncError,
    >) where C: MemoizedFsCache<F::Item>
        requires
            self.cache.inv(),
        ensures
            match r {
                Result::Ok(s) => {
                    &&& s.session.inv()
                    &&& s.session.rows() == self.cache.rows()
                    &&& s.session.seen() == Set::<Seq<u8>>::empty()
                    &&& is_next_session_id(self.cache.sessions(), s.session.id_spec())
                    &&& s.session.sessions() == self.cache.sessions().insert(
                        s.session.id_spec() as int,
                    )
                    &&& s.fs_processor == fs_processor
                },
                Result::Err(_) => true,
            },
    {
        match self.cache.start_session() {
            Result::Ok(session) => Result::Ok(MemoizedFsWalkerSession { fs_processor, session }),
            Result::Err(e) => Result::Err(e),
        }
    }
}

/// One processing batch: a processor bound to an open cache session.
pub struct MemoizedFsWalkerSession<F: FsProcessor, S: MemoizedFsCacheSession<F::Item>> {
    pub fs_processor: F,
    pub session: S,
}

impl<F: FsProcessor, S: MemoizedFsCacheSession<F::Item>> MemoizedFsWalkerSession<F, S> {
    /// Walk one observed subtree standing at filesystem path `path` and
    /// mounted under `mount_path` in the output. Every entry of the subtree
    /// is looked up in the session; only entries whose stored mtime differs
    /// from the observed one (or that have no row) invoke the processor,
    /// children before their parent folder. The returned entry carries the
    /// latest mtime found anywhere in the subtree.
    #[verifier::loop_isolation(false)]
    #[verifier::rlimit(100)]
    pub fn add_path(&mut self, path: &Vec<u8>, mount_path: &Vec<u8>, tree: &FsTree) -> (r: Result<
        FsEntry<F::Item>,
        FsSyncError,
    >)
        requires
            old(self).session.inv(),
        ensures
            final(self).session.inv(),
            final(self).session.id_spec() == old(self).session.id_spec(),
            final(self).session.sessions() == old(self).session.sessions(),
            walk_frame(old(self).session.rows(), final(self).session.rows(), path@, *tree),
            match r {
                Result::Ok(entry) => {
                    &&& walk_effect(
                        old(self).session.rows(),
                        old(self).session.seen(),
                        final(self).session.rows(),
                        final(self).session.seen(),
                        path@,
                        *tree,
                    )
                    &&& entry.mtime == tree_max_mtime(*tree)
                    &&& final(self).session.rows().contains_key(path@)
                    &&& (if old(self).session.rows().contains_key(path@) && old(self).session.rows()[path@].mtime == tree.mtime() {
                        final(self).session.rows()[path@] == old(self).session.rows()[path@]
                            && entry.item@ == old(self).session.rows()[path@].item
                    } else {
                        final(self).session.rows()[path@].mtime == tree.mtime() && final(self).session.rows()[path@].session_id == old(self).session.id_spec() && final(self).session.rows()[path@].item == entry.item@
                    })
                    &&& (tree_cached(old(self).session.rows(), path@, *tree) ==> final(self).session.rows() == old(self).session.rows() && final(self).fs_processor
                        == old(self).fs_processor)
                    &&& (tree_names_ok(*tree) ==> tree_cached(
                        final(self).session.rows(),
                        path@,
                        *tree,
                    ))
                    &&& (tree_names_ok(*tree) ==> final(self).fs_processor.calls() == old(
                        self,
                    ).fs_processor.calls() + run_calls(
                        old(self).session.rows(),
                        path@,
                        mount_path@,
                        *tree,
                    ))
                },
                Result::Err(_) => {
                    &&& old(self).session.seen().subset_of(final(self).session.seen())
                    &&& final(self).session.seen().subset_of(
                        old(self).session.seen().union(tree_paths(path@, *tree)),
                    )
                    &&& (tree_cached(old(self).session.rows(), path@, *tree) ==> final(self).session.rows() == old(self).session.rows() && final(self).fs_processor
                        == old(self).fs_processor)
                },
            },
        decreases *tree,
    {
        match tree {
            FsTree::File { mtime } => {
                let m = *mtime;
                proof {
                    assert(tree_paths(path@, *tree) =~= set![path@]);
                }
                match self.session.probe(path, &m) {
                    Result::Ok(CacheLookup::Unchanged(entry)) => {
                        proof {
                            assert(self.session.seen() =~= old(self).session.seen().union(
                                tree_paths(path@, *tree),
                            ));
                            assert(self.fs_processor.calls() =~= old(
                                self,
                            ).fs_processor.calls() + run_calls(
                                old(self).session.rows(),
                                path@,
                                mount_path@,
                                *tree,
                            ));
                        }
                        Result::Ok(entry)
                    },
                    Result::Ok(CacheLookup::Changed(prev)) => {
                        let item = match self.fs_processor.process_file(
                            path,
                            mount_path,
                            Some(prev),
                        ) {
                            Result::Ok(item) => item,
                            Result::Err(e) => {
                                return Result::Err(e);
                            },
                        };
                        match self.session.put_entry(path, &m, item) {
                            Result::Ok(entry) => {
                                proof {
                                    assert(self.session.seen() =~= old(self).session.seen().union(tree_paths(path@, *tree)));
                                    assert(self.fs_processor.calls() =~= old(
                                        self,
                                    ).fs_processor.calls() + run_calls(
                                        old(self).session.rows(),
                                        path@,
                                        mount_path@,
                                        *tree,
                                    ));
                                }
                                Result::Ok(entry)
                            },
                            Result::Err(e) => Result::Err(e),
                        }
                    },
                    Result::Ok(CacheLookup::Miss) => {
                        let item = match self.fs_processor.process_file(path, mount_path, None) {
                            Result::Ok(item) => item,
                            Result::Err(e) => {
                                return Result::Err(e);
                            },
                        };
                        match self.session.put_entry(path, &m, item) {
                            Result::Ok(entry) => {
                                proof {
                                    assert(self.session.seen() =~= old(self).session.seen().union(tree_paths(path@, *tree)));
                                    assert(self.fs_processor.calls() =~= old(
                                        self,
                                    ).fs_processor.calls() + run_calls(
                                        old(self).session.rows(),
                                        path@,
                                        mount_path@,
                                        *tree,
                                    ));
                                }
                                Result::Ok(entry)
                            },
                            Result::Err(e) => Result::Err(e),
                        }
                    },
                    Result::Err(e) => Result::Err(e),
                }
            },
            FsTree::Symlink { mtime } => {
                let m = *mtime;
                proof {
                    assert(tree_paths(path@, *tree) =~= set![path@]);
                }
                match self.session.probe(path, &m) {
                    Result::Ok(CacheLookup::Unchanged(entry)) => {
                        proof {
                            assert(self.session.seen() =~= old(self).session.seen().union(
                                tree_paths(path@, *tree),
                            ));
                            assert(self.fs_processor.calls() =~= old(
                                self,
                            ).fs_processor.calls() + run_calls(
                                old(self).session.rows(),
                                path@,
                                mount_path@,
                                *tree,
                            ));
                        }
                        Result::Ok(entry)
                    },
                    Result::Ok(CacheLookup::Changed(prev)) => {
                        let item = match self.fs_processor.process_symlink(
                            path,
                            mount_path,
                            Some(prev),
                        ) {
                            Result::Ok(item) => item,
                            Result::Err(e) => {
                                return Result::Err(e);
                            },
                        };
                        match self.session.put_entry(path, &m, item) {
                            Result::Ok(entry) => {
                                proof {
                                    assert(self.session.seen() =~= old(self).session.seen().union(tree_paths(path@, *tree)));
                                    assert(self.fs_processor.calls() =~= old(
                                        self,
                                    ).fs_processor.calls() + run_calls(
                                        old(self).session.rows(),
                                        path@,
                                        mount_path@,
                                        *tree,
                                    ));
                                }
                                Result::Ok(entry)
                            },
                            Result::Err(e) => Result::Err(e),
                        }
                    },
                    Result::Ok(CacheLookup::Miss) => {
                        let item = match self.fs_processor.process_symlink(
                            path,
                            mount_path,
                            None,
                        ) {
                            Result::Ok(item) => item,
                            Result::Err(e) => {
                                return Result::Err(e);
                            },
                        };
                        match self.session.put_entry(path, &m, item) {
                            Result::Ok(entry) => {
                                proof {
                                    assert(self.session.seen() =~= old(self).session.seen().union(tree_paths(path@, *tree)));
                                    assert(self.fs_processor.calls() =~= old(
                                        self,
                                    ).fs_processor.calls() + run_calls(
                                        old(self).session.rows(),
                                        path@,
                                        mount_path@,
                                        *tree,
                                    ));
                                }
                                Result::Ok(entry)
                            },
                            Result::Err(e) => Result::Err(e),
                        }
                    },
                    Result::Err(e) => Result::Err(e),
                }
            },
            FsTree::Folder { mtime, children } => {
                let m = *mtime;
                let ghost cs = children@;
                let mut entry_map: Vec<(Vec<u8>, FsEntry<F::Item>)> = Vec::new();
                let mut max_mtime: ModTime = m;
                let mut i: usize = 0;
                while i < children.len()
                    invariant
                        0 <= i <= children.len(),
                        cs == children@,
                        self.session.inv(),
                        self.session.id_spec() == old(self).session.id_spec(),
                        self.session.sessions() == old(self).session.sessions(),
                        forall|p: Seq<u8>| #[trigger]
                            old(self).session.rows().contains_key(p)
                                ==> self.session.rows().contains_key(p),
                        forall|p: Seq<u8>| #[trigger]
                            self.session.rows().contains_key(p) ==> old(self).session.rows().contains_key(p) || forest_paths(
                                path@,
                                cs.take(i as int),
                            ).contains(p),
                        forall|p: Seq<u8>|
                            old(self).session.rows().contains_key(p) && !forest_paths(
                                path@,
                                cs.take(i as int),
                            ).contains(p) ==> #[trigger] self.session.rows()[p] == old(self).session.rows()[p],
                        forall|p: Seq<u8>|
                            forest_paths(path@, cs.take(i as int)).contains(p)
                                ==> #[trigger] self.session.rows().contains_key(p),
                        self.session.seen() == old(self).session.seen().union(
                            forest_paths(path@, cs.take(i as int)),
                        ),
                        max_mtime == forest_max_mtime(m, cs.take(i as int)),
                        forest_cached(old(self).session.rows(), path@, cs) ==> (
                        self.session.rows() == old(self).session.rows() && self.fs_processor
                            == old(self).fs_processor),
                        tree_names_ok(*tree) ==> forest_cached(
                            self.session.rows(),
                            path@,
                            cs.take(i as int),
                        ),
                        tree_names_ok(*tree) ==> self.fs_processor.calls() == old(
                            self,
                        ).fs_processor.calls() + forest_calls(
                            old(self).session.rows(),
                            path@,
                            mount_path@,
                            cs.take(i as int),
                        ),
                        entry_map@.len() == i,
                        forall|k: int| 0 <= k < i ==> #[trigger] entry_map@[k].0@ == cs[k].0@,
                    decreases children.len() - i,
                {
                    let child_real = crate::join_path(path, &children[i].0);
                    let child_mount = crate::join_path(mount_path, &children[i].0);
                    let name = crate::clone_bytes(&children[i].0);
                    let ghost rows_pre = self.session.rows();
                    proof {
                        lemma_forest_paths_take_step(path@, cs, i as int);
                        if forest_cached(old(self).session.rows(), path@, cs) {
                            lemma_forest_cached_index(
                                old(self).session.rows(),
                                path@,
                                cs,
                                i as int,
                            );
                        }
                        if tree_names_ok(*tree) {
                            lemma_forest_names_ok_index(cs, i as int);
                        }
                    }
                    let child_entry = match self.add_path(
                        &child_real,
                        &child_mount,
                        &children[i].1,
                    ) {
                        Result::Ok(e) => e,
                        Result::Err(e) => {
                            proof {
                                let whole = tree_paths(path@, *tree);
                                assert(whole =~= set![path@].union(forest_paths(path@, cs)));
                                assert(cs =~= cs.take(i as int) + cs.skip(i as int));
                                lemma_forest_paths_app(
                                    path@,
                                    cs.take(i as int),
                                    cs.skip(i as int),
                                );
                                assert(cs.skip(i as int).first() == cs[i as int]);
                                assert(forest_paths(path@, cs.skip(i as int)) =~= tree_paths(
                                    spec_join(path@, cs[i as int].0@),
                                    cs[i as int].1,
                                ).union(forest_paths(path@, cs.skip(i as int).drop_first())));
                                assert(old(self).session.seen().subset_of(
                                    self.session.seen(),
                                ));
                                assert(self.session.seen().subset_of(
                                    old(self).session.seen().union(whole),
                                ));
                                if tree_cached(old(self).session.rows(), path@, *tree) {
                                    assert(self.session.rows() == old(self).session.rows());
                                    assert(self.fs_processor == old(self).fs_processor);
                                }
                            }
                            return Result::Err(e);
                        },
                    };
                    max_mtime = crate::mtime_max(max_mtime, child_entry.mtime);
                    entry_map.push((name, child_entry));
                    proof {
                        lemma_forest_max_take_step(m, cs, i as int);
                        assert(self.session.seen() =~= old(self).session.seen().union(
                            forest_paths(path@, cs.take(i + 1)),
                        ));
                        if tree_names_ok(*tree) {
                            assert(tree_cached(
                                self.session.rows(),
                                child_real@,
                                cs[i as int].1,
                            ));
                            lemma_forest_take_sibling_disjoint(path@, cs, i as int);
                            assert forall|p: Seq<u8>| #[trigger]
                                forest_paths(path@, cs.take(i as int)).contains(p)
                                implies self.session.rows().contains_key(p)
                                && self.session.rows()[p] == rows_pre[p] by {
                                assert(rows_pre.contains_key(p));
                                assert(!tree_paths(child_real@, cs[i as int].1).contains(p));
                            }
                            lemma_forest_cached_agree(
                                rows_pre,
                                self.session.rows(),
                                path@,
                                cs.take(i as int),
                            );
                            assert(cs.take(i + 1) =~= cs.take(i as int).push(cs[i as int]));
                            lemma_forest_cached_push(
                                self.session.rows(),
                                path@,
                                cs.take(i as int),
                                cs[i as int],
                            );
                            assert forall|p: Seq<u8>| #[trigger]
                                tree_paths(child_real@, cs[i as int].1).contains(p)
                                implies (rows_pre.contains_key(p) == old(
                                self,
                            ).session.rows().contains_key(p)) && (rows_pre.contains_key(p)
                                ==> rows_pre[p] == old(self).session.rows()[p]) by {
                                assert(!forest_paths(path@, cs.take(i as int)).contains(p));
                            }
                            lemma_run_calls_agree(
                                rows_pre,
                                old(self).session.rows(),
                                child_real@,
                                child_mount@,
                                cs[i as int].1,
                            );
                            lemma_forest_calls_take_step(
                                old(self).session.rows(),
                                path@,
                                mount_path@,
                                cs,
                                i as int,
                            );
                            assert(self.fs_processor.calls() =~= old(
                                self,
                            ).fs_processor.calls() + forest_calls(
                                old(self).session.rows(),
                                path@,
                                mount_path@,
                                cs.take(i + 1),
                            ));
                        }
                        assert forall|p: Seq<u8>|
                            forest_paths(path@, cs.take(i + 1)).contains(p)
                                implies #[trigger] self.session.rows().contains_key(p) by {
                            if forest_paths(path@, cs.take(i as int)).contains(p) {
                                assert(rows_pre.contains_key(p));
                            } else {
                                assert(tree_paths(child_real@, cs[i as int].1).contains(p));
                            }
                        }
                        assert forall|p: Seq<u8>|
                            old(self).session.rows().contains_key(p) && !forest_paths(
                                path@,
                                cs.take(i + 1),
                            ).contains(p) implies #[trigger] self.session.rows()[p] == old(self).session.rows()[p] by {
                            assert(rows_pre.contains_key(p));
                            assert(!tree_paths(child_real@, cs[i as int].1).contains(p));
                            assert(rows_pre[p] == old(self).session.rows()[p]);
                        }
                    }
                    i = i + 1;
                }
                proof {
                    assert(cs.take(children@.len() as int) =~= cs);
                }
                match self.session.probe(path, &m) {
                    Result::Ok(CacheLookup::Unchanged(entry)) => {
                        proof {
                            lemma_forest_paths_len(path@, cs);
                            assert(!forest_paths(path@, cs).contains(path@));
                            assert(tree_paths(path@, *tree) =~= set![path@].union(
                                forest_paths(path@, cs),
                            ));
                            assert(self.session.seen() =~= old(self).session.seen().union(
                                tree_paths(path@, *tree),
                            ));
                            if tree_names_ok(*tree) {
                                assert(tree_cached(self.session.rows(), path@, *tree));
                                assert(row_hit(old(self).session.rows(), path@, m));
                                assert(self.fs_processor.calls() =~= old(
                                    self,
                                ).fs_processor.calls() + run_calls(
                                    old(self).session.rows(),
                                    path@,
                                    mount_path@,
                                    *tree,
                                ));
                            }
                        }
                        Result::Ok(FsEntry { item: entry.item, mtime: max_mtime })
                    },
                    Result::Ok(CacheLookup::Changed(prev)) => {
                        proof {
                            lemma_forest_paths_len(path@, cs);
                            assert(!forest_paths(path@, cs).contains(path@));
                        }
                        let ghost rows_bp = self.session.rows();
                        let ghost em = entry_map@;
                        let item = match self.fs_processor.process_folder(
                            path,
                            mount_path,
                            entry_map,
                            Some(prev),
                        ) {
                            Result::Ok(item) => item,
                            Result::Err(e) => {
                                proof {
                                    assert(tree_paths(path@, *tree) =~= set![path@].union(
                                        forest_paths(path@, cs),
                                    ));
                                }
                                return Result::Err(e);
                            },
                        };
                        match self.session.put_entry(path, &m, item) {
                            Result::Ok(entry) => {
                                proof {
                                    assert(tree_paths(path@, *tree) =~= set![path@].union(
                                        forest_paths(path@, cs),
                                    ));
                                    assert(self.session.seen() =~= old(self).session.seen().union(tree_paths(path@, *tree)));
                                    if tree_names_ok(*tree) {
                                        assert forall|p: Seq<u8>| #[trigger]
                                            forest_paths(path@, cs).contains(p)
                                            implies self.session.rows().contains_key(p)
                                            && self.session.rows()[p] == rows_bp[p] by {
                                            assert(p.len() > path@.len());
                                            assert(p != path@);
                                        }
                                        lemma_forest_cached_agree(
                                            rows_bp,
                                            self.session.rows(),
                                            path@,
                                            cs,
                                        );
                                        assert(tree_cached(self.session.rows(), path@, *tree));
                                        assert(!row_hit(old(self).session.rows(), path@, m));
                                        assert(sub_names(em) =~= tree_child_names(cs));
                                        assert(self.fs_processor.calls() =~= old(
                                            self,
                                        ).fs_processor.calls() + run_calls(
                                            old(self).session.rows(),
                                            path@,
                                            mount_path@,
                                            *tree,
                                        ));
                                    }
                                }
                                Result::Ok(FsEntry { item: entry.item, mtime: max_mtime })
                            },
                            Result::Err(e) => {
                                proof {
                                    assert(tree_paths(path@, *tree) =~= set![path@].union(
                                        forest_paths(path@, cs),
                                    ));
                                }
                                Result::Err(e)
                            },
                        }
                    },
                    Result::Ok(CacheLookup::Miss) => {
                        proof {
                            lemma_forest_paths_len(path@, cs);
                            assert(!forest_paths(path@, cs).contains(path@));
                        }
                        let ghost rows_bp = self.session.rows();
                        let ghost em = entry_map@;
                        let item = match self.fs_processor.process_folder(
                            path,
                            mount_path,
                            entry_map,
                            None,
                        ) {
                            Result::Ok(item) => item,
                            Result::Err(e) => {
                                proof {
                                    assert(tree_paths(path@, *tree) =~= set![path@].union(
                                        forest_paths(path@, cs),
                                    ));
                                }
                                return Result::Err(e);
                            },
                        };
                        match self.session.put_entry(path, &m, item) {
                            Result::Ok(entry) => {
                                proof {
                                    assert(tree_paths(path@, *tree) =~= set![path@].union(
                                        forest_paths(path@, cs),
                                    ));
                                    assert(self.session.seen() =~= old(self).session.seen().union(tree_paths(path@, *tree)));
                                    if tree_names_ok(*tree) {
                                        assert forall|p: Seq<u8>| #[trigger]
                                            forest_paths(path@, cs).contains(p)
                                            implies self.session.rows().contains_key(p)
                                            && self.session.rows()[p] == rows_bp[p] by {
                                            assert(p.len() > path@.len());
                                            assert(p != path@);
                                        }
                                        lemma_forest_cached_agree(
                                            rows_bp,
                                            self.session.rows(),
                                            path@,
                                            cs,
                                        );
                                        assert(tree_cached(self.session.rows(), path@, *tree));
                                        assert(!row_hit(old(self).session.rows(), path@, m));
                                        assert(sub_names(em) =~= tree_child_names(cs));
                                        assert(self.fs_processor.calls() =~= old(
                                            self,
                                        ).fs_processor.calls() + run_calls(
                                            old(self).session.rows(),
                                            path@,
                                            mount_path@,
                                            *tree,
                                        ));
                                    }
                                }
                                Result::Ok(FsEntry { item: entry.item, mtime: max_mtime })
                            },
                            Result::Err(e) => {
                                proof {
                                    assert(tree_paths(path@, *tree) =~= set![path@].union(
                                        forest_paths(path@, cs),
                                    ));
                                }
                                Result::Err(e)
                            },
                        }
                    },
                    Result::Err(e) => {
                        proof {
                            assert(tree_paths(path@, *tree) =~= set![path@].union(
                                forest_paths(path@, cs),
                            ));
                        }
                        Result::Err(e)
                    },
                }
            },
        }
    }

    /// Close the session and hand the walker back together with the
    /// session's id. Rows not seen by this run are evicted.
    pub fn finish_processing(self) -> (r: Result<
        (MemoizedFsWalker<S::Cache>, u32),
        FsSyncError,
    >)
        requires
            self.session.inv(),
        ensures
            match r {
                Result::Ok(pair) => {
                    &&& pair.1 == self.session.id_spec()
                    &&& S::cache_inv(&pair.0.cache)
                    &&& S::cache_rows(&pair.0.cache) == self.session.rows().restrict(
                        self.session.seen(),
                    )
                    &&& S::cache_sessions(&pair.0.cache) == self.session.sessions()
                },
                Result::Err(_) => true,
            },
    {
        let session_id = self.session.get_id();
        match self.session.end_session() {
            Result::Ok(cache) => Result::Ok((MemoizedFsWalker::new(cache), session_id)),
            Result::Err(e) => Result::Err(e),
        }
    }
}

} // verus!
