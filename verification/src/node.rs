//! The structural fingerprint stored in the cache for each visited path.

use vstd::prelude::*;

verus! {

/// The kind tag of a filesystem entry. Entries that are neither regular
/// files nor directories (sockets, devices, FIFOs) count as symlinks.
#[derive(Clone, Copy, PartialEq, Eq, Structural, Debug)]
pub enum FsNodeType {
    File,
    Symlink,
    Folder,
}

/// The structural fingerprint of a path as observed during the most recent
/// processing run. A folder records only the kind of each direct child, not
/// a recursive node: child-set changes show at one level, deeper changes are
/// detected by each child's own stored node.
#[derive(PartialEq, Eq, Debug)]
pub enum FsNode {
    File,
    Symlink,
    Folder(Vec<(Vec<u8>, FsNodeType)>),
}

/// The mathematical shape of an [`FsNode`]: folder children as a sequence of
/// (base name, kind) pairs.
pub enum FsNodeView {
    File,
    Symlink,
    Folder(Seq<(Seq<u8>, FsNodeType)>),
}

impl View for FsNode {
    type V = FsNodeView;

    open spec fn view(&self) -> FsNodeView {
        match self {
            FsNode::File => FsNodeView::File,
            FsNode::Symlink => FsNodeView::Symlink,
            FsNode::Folder(cs) => FsNodeView::Folder(children_view(cs@)),
        }
    }
}

impl FsNodeView {
    /// The kind tag of this fingerprint.
    pub open spec fn kind(self) -> FsNodeType {
        match self {
            FsNodeView::File => FsNodeType::File,
            FsNodeView::Symlink => FsNodeType::Symlink,
            FsNodeView::Folder(_) => FsNodeType::Folder,
        }
    }
}

/// No two children of a folder fingerprint share a base name. The
/// fingerprints the classifier builds from one directory enumeration have
/// this shape; a crafted stored blob need not, and classification then
/// emits one removal per stored occurrence.
pub open spec fn folder_names_unique(m: FsNodeView) -> bool {
    match m {
        FsNodeView::Folder(cs) => forall|i: int, j: int|
            0 <= i < j < cs.len() ==> cs[i].0 != cs[j].0,
        _ => true,
    }
}

/// `cs` holds a child of base name `n`.
pub open spec fn has_child_name(cs: Seq<(Seq<u8>, FsNodeType)>, n: Seq<u8>) -> bool {
    exists|i: int| 0 <= i < cs.len() && cs[i].0 == n
}

/// The spec-level (name, kind) children of an exec child vector.
pub open spec fn children_view(cs: Seq<(Vec<u8>, FsNodeType)>) -> Seq<(Seq<u8>, FsNodeType)> {
    cs.map_values(|c: (Vec<u8>, FsNodeType)| (c.0@, c.1))
}

impl FsNode {
    /// The kind tag of this fingerprint.
    pub fn node_type(&self) -> (r: FsNodeType)
        ensures
            r == self@.kind(),
    {
        match self {
            FsNode::File => FsNodeType::File,
            FsNode::Symlink => FsNodeType::Symlink,
            FsNode::Folder(_) => FsNodeType::Folder,
        }
    }
}

} // verus!
