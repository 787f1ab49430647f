//! Change classification: turns (previous fingerprint, current observation)
//! into added/changed/removed notifications for files, symlinks and folders.

use vstd::prelude::*;

use crate::node::{
    children_view, folder_names_unique, has_child_name, FsNode, FsNodeType, FsNodeView,
};
use crate::{
    clone_bytes, opt_item_view, spec_join, sub_names, FsEntry, FsProcessor, FsSyncError,
    ProcessorCallView,
};

verus! {

/// One of the nine classification outcomes.
#[derive(Clone, Copy, PartialEq, Eq, Structural, Debug)]
pub enum EventKind {
    FileAdded,
    FileChanged,
    FileRemoved,
    SymlinkAdded,
    SymlinkChanged,
    SymlinkRemoved,
    FolderAdded,
    FolderChanged,
    FolderRemoved,
}

/// A classification event: what happened, where on the filesystem, and under
/// which logical output path.
#[derive(PartialEq, Eq, Debug)]
pub struct ChangeEvent {
    pub kind: EventKind,
    pub path: Vec<u8>,
    pub mount_path: Vec<u8>,
}

/// The mathematical shape of a [`ChangeEvent`].
pub struct ChangeEventView {
    pub kind: EventKind,
    pub path: Seq<u8>,
    pub mount_path: Seq<u8>,
}

impl View for ChangeEvent {
    type V = ChangeEventView;

    open spec fn view(&self) -> ChangeEventView {
        ChangeEventView { kind: self.kind, path: self.path@, mount_path: self.mount_path@ }
    }
}

/// Shorthand for an event value in specifications.
pub open spec fn ev(kind: EventKind, path: Seq<u8>, mount_path: Seq<u8>) -> ChangeEventView {
    ChangeEventView { kind, path, mount_path }
}

/// Consumer of classification events. Each notification either consumes
/// exactly one event or fails without consuming any.
pub trait FsChangeWatcher {
    /// The events consumed so far, oldest first. Implementations that do not
    /// track them (pure sinks) may leave the default.
    open spec fn events(&self) -> Seq<ChangeEventView> {
        Seq::empty()
    }

    fn notify_file_added(&mut self, path: &Vec<u8>, mount_path: &Vec<u8>) -> (r: Result<
        (),
        FsSyncError,
    >)
        ensures
            r is Ok ==> final(self).events() == old(self).events().push(
                ev(EventKind::FileAdded, path@, mount_path@),
            ),
            r is Err ==> final(self).events() == old(self).events(),
    ;

    fn notify_file_changed(&mut self, path: &Vec<u8>, mount_path: &Vec<u8>) -> (r: Result<
        (),
        FsSyncError,
    >)
        ensures
            r is Ok ==> final(self).events() == old(self).events().push(
                ev(EventKind::FileChanged, path@, mount_path@),
            ),
            r is Err ==> final(self).events() == old(self).events(),
    ;

    fn notify_file_removed(&mut self, path: &Vec<u8>, mount_path: &Vec<u8>) -> (r: Result<
        (),
        FsSyncError,
    >)
        ensures
            r is Ok ==> final(self).events() == old(self).events().push(
                ev(EventKind::FileRemoved, path@, mount_path@),
            ),
            r is Err ==> final(self).events() == old(self).events(),
    ;

    fn notify_symlink_added(&mut self, path: &Vec<u8>, mount_path: &Vec<u8>) -> (r: Result<
        (),
        FsSyncError,
    >)
        ensures
            r is Ok ==> final(self).events() == old(self).events().push(
                ev(EventKind::SymlinkAdded, path@, mount_path@),
            ),
            r is Err ==> final(self).events() == old(self).events(),
    ;

    fn notify_symlink_changed(&mut self, path: &Vec<u8>, mount_path: &Vec<u8>) -> (r: Result<
        (),
        FsSyncError,
    >)
        ensures
            r is Ok ==> final(self).events() == old(self).events().push(
                ev(EventKind::SymlinkChanged, path@, mount_path@),
            ),
            r is Err ==> final(self).events() == old(self).events(),
    ;

    fn notify_symlink_removed(&mut self, path: &Vec<u8>, mount_path: &Vec<u8>) -> (r: Result<
        (),
        FsSyncError,
    >)
        ensures
            r is Ok ==> final(self).events() == old(self).events().push(
                ev(EventKind::SymlinkRemoved, path@, mount_path@),
            ),
            r is Err ==> final(self).events() == old(self).events(),
    ;

    fn notify_folder_added(&mut self, path: &Vec<u8>, mount_path: &Vec<u8>) -> (r: Result<
        (),
        FsSyncError,
    >)
        ensures
            r is Ok ==> final(self).events() == old(self).events().push(
                ev(EventKind::FolderAdded, path@, mount_path@),
            ),
            r is Err ==> final(self).events() == old(self).events(),
    ;

    fn notify_folder_changed(&mut self, path: &Vec<u8>, mount_path: &Vec<u8>) -> (r: Result<
        (),
        FsSyncError,
    >)
        ensures
            r is Ok ==> final(self).events() == old(self).events().push(
                ev(EventKind::FolderChanged, path@, mount_path@),
            ),
            r is Err ==> final(self).events() == old(self).events(),
    ;

    fn notify_folder_removed(&mut self, path: &Vec<u8>, mount_path: &Vec<u8>) -> (r: Result<
        (),
        FsSyncError,
    >)
        ensures
            r is Ok ==> final(self).events() == old(self).events().push(
                ev(EventKind::FolderRemoved, path@, mount_path@),
            ),
            r is Err ==> final(self).events() == old(self).events(),
    ;
}

/// The removal event that matches a previous child kind.
pub open spec fn removed_kind_event(k: FsNodeType, path: Seq<u8>, mount_path: Seq<u8>)
    -> ChangeEventView {
    match k {
        FsNodeType::File => ev(EventKind::FileRemoved, path, mount_path),
        FsNodeType::Symlink => ev(EventKind::SymlinkRemoved, path, mount_path),
        FsNodeType::Folder => ev(EventKind::FolderRemoved, path, mount_path),
    }
}

/// The view of an optional previous fingerprint.
pub open spec fn opt_node_view(p: Option<FsNode>) -> Option<FsNodeView> {
    match p {
        Option::None => None,
        Option::Some(n) => Some(n@),
    }
}

/// The events a current *file* produces against its previous fingerprint.
pub open spec fn file_events(prev: Option<FsNodeView>, path: Seq<u8>, mount_path: Seq<u8>)
    -> Seq<ChangeEventView> {
    match prev {
        Option::None => seq![ev(EventKind::FileAdded, path, mount_path)],
        Option::Some(FsNodeView::File) => seq![ev(EventKind::FileChanged, path, mount_path)],
        Option::Some(FsNodeView::Symlink) => seq![
            ev(EventKind::SymlinkRemoved, path, mount_path),
            ev(EventKind::FileAdded, path, mount_path),
        ],
        Option::Some(FsNodeView::Folder(_)) => seq![
            ev(EventKind::FolderRemoved, path, mount_path),
            ev(EventKind::FileAdded, path, mount_path),
        ],
    }
}

/// The events a current *symlink* produces against its previous fingerprint.
pub open spec fn symlink_events(prev: Option<FsNodeView>, path: Seq<u8>, mount_path: Seq<u8>)
    -> Seq<ChangeEventView> {
    match prev {
        Option::None => seq![ev(EventKind::SymlinkAdded, path, mount_path)],
        Option::Some(FsNodeView::File) => seq![
            ev(EventKind::FileRemoved, path, mount_path),
            ev(EventKind::SymlinkAdded, path, mount_path),
        ],
        Option::Some(FsNodeView::Symlink) => seq![ev(EventKind::SymlinkChanged, path, mount_path)],
        Option::Some(FsNodeView::Folder(_)) => seq![
            ev(EventKind::FolderRemoved, path, mount_path),
            ev(EventKind::SymlinkAdded, path, mount_path),
        ],
    }
}

/// One removal event per previous child, in previous order, for every child
/// whose base name is absent from the new children.
pub open spec fn removal_events(
    old_cs: Seq<(Seq<u8>, FsNodeType)>,
    new_cs: Seq<(Seq<u8>, FsNodeType)>,
    path: Seq<u8>,
    mount_path: Seq<u8>,
) -> Seq<ChangeEventView>
    decreases old_cs.len(),
{
    if old_cs.len() == 0 {
        Seq::empty()
    } else {
        let head = if has_child_name(new_cs, old_cs.first().0) {
            Seq::<ChangeEventView>::empty()
        } else {
            seq![
                removed_kind_event(
                    old_cs.first().1,
                    spec_join(path, old_cs.first().0),
                    spec_join(mount_path, old_cs.first().0),
                ),
            ]
        };
        head + removal_events(old_cs.drop_first(), new_cs, path, mount_path)
    }
}

/// The events a current *folder* with children `new_cs` produces against its
/// previous fingerprint.
pub open spec fn folder_events(
    prev: Option<FsNodeView>,
    path: Seq<u8>,
    mount_path: Seq<u8>,
    new_cs: Seq<(Seq<u8>, FsNodeType)>,
) -> Seq<ChangeEventView> {
    match prev {
        Option::None => seq![ev(EventKind::FolderAdded, path, mount_path)],
        Option::Some(FsNodeView::File) => seq![
            ev(EventKind::FileRemoved, path, mount_path),
            ev(EventKind::FolderAdded, path, mount_path),
        ],
        Option::Some(FsNodeView::Symlink) => seq![
            ev(EventKind::SymlinkRemoved, path, mount_path),
            ev(EventKind::FolderAdded, path, mount_path),
        ],
        Option::Some(FsNodeView::Folder(old_cs)) => removal_events(
            old_cs,
            new_cs,
            path,
            mount_path,
        ) + seq![ev(EventKind::FolderChanged, path, mount_path)],
    }
}

/// Splitting the previous children splits the removal events.
pub proof fn lemma_removal_events_app(
    xs: Seq<(Seq<u8>, FsNodeType)>,
    ys: Seq<(Seq<u8>, FsNodeType)>,
    new_cs: Seq<(Seq<u8>, FsNodeType)>,
    path: Seq<u8>,
    mount_path: Seq<u8>,
)
    ensures
        removal_events(xs + ys, new_cs, path, mount_path) == removal_events(
            xs,
            new_cs,
            path,
            mount_path,
        ) + removal_events(ys, new_cs, path, mount_path),
    decreases xs.len(),
{
    if xs.len() == 0 {
        assert(xs + ys =~= ys);
        assert(removal_events(xs, new_cs, path, mount_path) + removal_events(
            ys,
            new_cs,
            path,
            mount_path,
        ) =~= removal_events(ys, new_cs, path, mount_path));
    } else {
        assert((xs + ys).first() == xs.first());
        assert((xs + ys).drop_first() =~= xs.drop_first() + ys);
        lemma_removal_events_app(xs.drop_first(), ys, new_cs, path, mount_path);
        assert(removal_events(xs + ys, new_cs, path, mount_path) =~= removal_events(
            xs,
            new_cs,
            path,
            mount_path,
        ) + removal_events(ys, new_cs, path, mount_path));
    }
}

/// Extending the scanned prefix of the previous children by one child.
pub proof fn lemma_removal_events_take_step(
    old_cs: Seq<(Seq<u8>, FsNodeType)>,
    new_cs: Seq<(Seq<u8>, FsNodeType)>,
    path: Seq<u8>,
    mount_path: Seq<u8>,
    j: int,
)
    requires
        0 <= j < old_cs.len(),
    ensures
        removal_events(old_cs.take(j + 1), new_cs, path, mount_path) == removal_events(
            old_cs.take(j),
            new_cs,
            path,
            mount_path,
        ) + (if has_child_name(new_cs, old_cs[j].0) {
            Seq::<ChangeEventView>::empty()
        } else {
            seq![
                removed_kind_event(
                    old_cs[j].1,
                    spec_join(path, old_cs[j].0),
                    spec_join(mount_path, old_cs[j].0),
                ),
            ]
        }),
{
    reveal_with_fuel(removal_events, 3);
    let single = seq![old_cs[j]];
    assert(old_cs.take(j + 1) =~= old_cs.take(j) + single);
    lemma_removal_events_app(old_cs.take(j), single, new_cs, path, mount_path);
    assert(single.first() == old_cs[j]);
    assert(single.drop_first() =~= Seq::<(Seq<u8>, FsNodeType)>::empty());
    assert(removal_events(single.drop_first(), new_cs, path, mount_path)
        =~= Seq::<ChangeEventView>::empty());
    if has_child_name(new_cs, old_cs[j].0) {
        assert(removal_events(single, new_cs, path, mount_path)
            =~= Seq::<ChangeEventView>::empty());
    } else {
        assert(removal_events(single, new_cs, path, mount_path) =~= seq![
            removed_kind_event(
                old_cs[j].1,
                spec_join(path, old_cs[j].0),
                spec_join(mount_path, old_cs[j].0),
            ),
        ]);
    }
}

/// The (name, kind) children described by the sub-entry map the walker hands
/// to a folder.
pub open spec fn sub_children_view(s: Seq<(Vec<u8>, FsEntry<FsNode>)>) -> Seq<
    (Seq<u8>, FsNodeType),
> {
    s.map_values(|c: (Vec<u8>, FsEntry<FsNode>)| (c.0@, c.1.item@.kind()))
}

/// The sub map's child names are pairwise distinct.
pub open spec fn sub_names_unique(s: Seq<(Vec<u8>, FsEntry<FsNode>)>) -> bool {
    forall|i: int, j: int| 0 <= i < j < s.len() ==> s[i].0@ != s[j].0@
}

/// Whether one of the children is named `name`.
fn has_name(cs: &Vec<(Vec<u8>, FsNodeType)>, name: &Vec<u8>) -> (r: bool)
    ensures
        r == has_child_name(children_view(cs@), name@),
{
    let mut i: usize = 0;
    while i < cs.len()
        invariant
            0 <= i <= cs.len(),
            forall|j: int| 0 <= j < i ==> children_view(cs@)[j].0 != name@,
        decreases cs.len() - i,
    {
        if crate::bytes_eq(&cs[i].0, name) {
            assert(children_view(cs@)[i as int].0 == name@);
            return true;
        }
        i = i + 1;
    }
    false
}

/// Turns a watcher into a processor: classifies each visited entry against
/// its previous fingerprint and notifies the watcher of every change, then
/// returns the fingerprint of the current observation.
pub struct ChangeNotifier<W: FsChangeWatcher> {
    pub watcher: W,
    /// The processor calls served so far, tracked for specifications only.
    pub call_log: Ghost<Seq<ProcessorCallView<FsNodeView>>>,
}

impl<W: FsChangeWatcher> ChangeNotifier<W> {
    /// The events the wrapped watcher has consumed.
    pub open spec fn events(&self) -> Seq<ChangeEventView> {
        self.watcher.events()
    }

    pub fn new(watcher: W) -> (r: Self)
        ensures
            r.events() == watcher.events(),
            r.call_log@ == Seq::<ProcessorCallView<FsNodeView>>::empty(),
    {
        Self { watcher, call_log: Ghost(Seq::empty()) }
    }

    /// Hands the wrapped watcher back, once processing is over.
    pub fn into_watcher(self) -> (r: W)
        ensures
            r.events() == self.events(),
    {
        self.watcher
    }

    /// Classify a file observation. On success the watcher consumed exactly
    /// the events of the classification table and the new fingerprint is
    /// `File`; on failure it consumed a prefix of them.
    pub fn classify_file(
        &mut self,
        path: &Vec<u8>,
        mount_path: &Vec<u8>,
        previous: Option<FsNode>,
    ) -> (r: Result<FsNode, FsSyncError>)
        ensures
            final(self).call_log == old(self).call_log,
            ({
                let full = file_events(opt_node_view(previous), path@, mount_path@);
                match r {
                    Result::Ok(n) => n == FsNode::File && final(self).events() == old(self).events()
                        + full,
                    Result::Err(_) => exists|k: int|
                        0 <= k < full.len() && final(self).events() == old(self).events() + full.take(k),
                }
            }),
    {
        let ghost full = file_events(opt_node_view(previous), path@, mount_path@);
        match previous {
            Option::Some(FsNode::File) => {
                match self.watcher.notify_file_changed(path, mount_path) {
                    Result::Ok(_) => {},
                    Result::Err(e) => {
                        proof {
                            assert(self.events() == old(self).events() + full.take(0));
                        }
                        return Err(e);
                    },
                }
            },
            Option::Some(FsNode::Symlink) => {
                match self.watcher.notify_symlink_removed(path, mount_path) {
                    Result::Ok(_) => {},
                    Result::Err(e) => {
                        proof {
                            assert(self.events() == old(self).events() + full.take(0));
                        }
                        return Err(e);
                    },
                }
                match self.watcher.notify_file_added(path, mount_path) {
                    Result::Ok(_) => {},
                    Result::Err(e) => {
                        proof {
                            assert(self.events() =~= old(self).events() + full.take(1));
                        }
                        return Err(e);
                    },
                }
            },
            Option::Some(FsNode::Folder(_)) => {
                match self.watcher.notify_folder_removed(path, mount_path) {
                    Result::Ok(_) => {},
                    Result::Err(e) => {
                        proof {
                            assert(self.events() == old(self).events() + full.take(0));
                        }
                        return Err(e);
                    },
                }
                match self.watcher.notify_file_added(path, mount_path) {
                    Result::Ok(_) => {},
                    Result::Err(e) => {
                        proof {
                            assert(self.events() =~= old(self).events() + full.take(1));
                        }
                        return Err(e);
                    },
                }
            },
            Option::None => {
                match self.watcher.notify_file_added(path, mount_path) {
                    Result::Ok(_) => {},
                    Result::Err(e) => {
                        proof {
                            assert(self.events() == old(self).events() + full.take(0));
                        }
                        return Err(e);
                    },
                }
            },
        }
        proof {
            assert(self.events() =~= old(self).events() + full);
        }
        Ok(FsNode::File)
    }

    /// Classify a symlink observation; the mirror of [`Self::classify_file`].
    pub fn classify_symlink(
        &mut self,
        path: &Vec<u8>,
        mount_path: &Vec<u8>,
        previous: Option<FsNode>,
    ) -> (r: Result<FsNode, FsSyncError>)
        ensures
            final(self).call_log == old(self).call_log,
            ({
                let full = symlink_events(opt_node_view(previous), path@, mount_path@);
                match r {
                    Result::Ok(n) => n == FsNode::Symlink && final(self).events() == old(self).events()
                        + full,
                    Result::Err(_) => exists|k: int|
                        0 <= k < full.len() && final(self).events() == old(self).events() + full.take(k),
                }
            }),
    {
        let ghost full = symlink_events(opt_node_view(previous), path@, mount_path@);
        match previous {
            Option::Some(FsNode::File) => {
                match self.watcher.notify_file_removed(path, mount_path) {
                    Result::Ok(_) => {},
                    Result::Err(e) => {
                        proof {
                            assert(self.events() == old(self).events() + full.take(0));
                        }
                        return Err(e);
                    },
                }
                match self.watcher.notify_symlink_added(path, mount_path) {
                    Result::Ok(_) => {},
                    Result::Err(e) => {
                        proof {
                            assert(self.events() =~= old(self).events() + full.take(1));
                        }
                        return Err(e);
                    },
                }
            },
            Option::Some(FsNode::Symlink) => {
                match self.watcher.notify_symlink_changed(path, mount_path) {
                    Result::Ok(_) => {},
                    Result::Err(e) => {
                        proof {
                            assert(self.events() == old(self).events() + full.take(0));
                        }
                        return Err(e);
                    },
                }
            },
            Option::Some(FsNode::Folder(_)) => {
                match self.watcher.notify_folder_removed(path, mount_path) {
                    Result::Ok(_) => {},
                    Result::Err(e) => {
                        proof {
                            assert(self.events() == old(self).events() + full.take(0));
                        }
                        return Err(e);
                    },
                }
                match self.watcher.notify_symlink_added(path, mount_path) {
                    Result::Ok(_) => {},
                    Result::Err(e) => {
                        proof {
                            assert(self.events() =~= old(self).events() + full.take(1));
                        }
                        return Err(e);
                    },
                }
            },
            Option::None => {
                match self.watcher.notify_symlink_added(path, mount_path) {
                    Result::Ok(_) => {},
                    Result::Err(e) => {
                        proof {
                            assert(self.events() == old(self).events() + full.take(0));
                        }
                        return Err(e);
                    },
                }
            },
        }
        proof {
            assert(self.events() =~= old(self).events() + full);
        }
        Ok(FsNode::Symlink)
    }

    /// Classify a folder observation whose direct children were just walked.
    /// On success the watcher consumed one removal event per vanished
    /// previous child (in previous order) followed by the folder's own
    /// event, and the new fingerprint records exactly the observed child
    /// names with their kinds; on failure it consumed a prefix of those
    /// events.
    #[verifier::loop_isolation(false)]
    pub fn classify_folder(
        &mut self,
        path: &Vec<u8>,
        mount_path: &Vec<u8>,
        sub: Vec<(Vec<u8>, FsEntry<FsNode>)>,
        previous: Option<FsNode>,
    ) -> (r: Result<FsNode, FsSyncError>)
        ensures
            final(self).call_log == old(self).call_log,
            ({
                let new_cs = sub_children_view(sub@);
                let full = folder_events(opt_node_view(previous), path@, mount_path@, new_cs);
                match r {
                    Result::Ok(n) => n@ == FsNodeView::Folder(new_cs) && final(self).events()
                        == old(self).events() + full && (sub_names_unique(sub@)
                        ==> folder_names_unique(n@)),
                    Result::Err(_) => exists|k: int|
                        0 <= k < full.len() && final(self).events() == old(self).events()
                            + full.take(k),
                }
            }),
    {
        let ghost new_cs = sub_children_view(sub@);
        let ghost full = folder_events(opt_node_view(previous), path@, mount_path@, new_cs);
        let mut new_sub: Vec<(Vec<u8>, FsNodeType)> = Vec::new();
        let mut i: usize = 0;
        while i < sub.len()
            invariant
                0 <= i <= sub.len(),
                new_cs == sub_children_view(sub@),
                new_sub@.len() == i,
                forall|m: int|
                    0 <= m < i ==> new_sub@[m].0@ == new_cs[m].0 && new_sub@[m].1 == new_cs[m].1,
            decreases sub.len() - i,
        {
            let name = clone_bytes(&sub[i].0);
            let k = sub[i].1.item.node_type();
            proof {
                assert(sub_children_view(sub@)[i as int] == (
                    sub@[i as int].0@,
                    sub@[i as int].1.item@.kind(),
                ));
            }
            new_sub.push((name, k));
            i = i + 1;
        }
        proof {
            assert(children_view(new_sub@) =~= new_cs);
        }
        match previous {
            Option::Some(FsNode::File) => {
                match self.watcher.notify_file_removed(path, mount_path) {
                    Result::Ok(_) => {},
                    Result::Err(e) => {
                        proof {
                            assert(self.events() == old(self).events() + full.take(0));
                        }
                        return Err(e);
                    },
                }
                match self.watcher.notify_folder_added(path, mount_path) {
                    Result::Ok(_) => {},
                    Result::Err(e) => {
                        proof {
                            assert(self.events() =~= old(self).events() + full.take(1));
                        }
                        return Err(e);
                    },
                }
                proof {
                    assert(self.events() =~= old(self).events() + full);
                }
            },
            Option::Some(FsNode::Symlink) => {
                match self.watcher.notify_symlink_removed(path, mount_path) {
                    Result::Ok(_) => {},
                    Result::Err(e) => {
                        proof {
                            assert(self.events() == old(self).events() + full.take(0));
                        }
                        return Err(e);
                    },
                }
                match self.watcher.notify_folder_added(path, mount_path) {
                    Result::Ok(_) => {},
                    Result::Err(e) => {
                        proof {
                            assert(self.events() =~= old(self).events() + full.take(1));
                        }
                        return Err(e);
                    },
                }
                proof {
                    assert(self.events() =~= old(self).events() + full);
                }
            },
            Option::None => {
                match self.watcher.notify_folder_added(path, mount_path) {
                    Result::Ok(_) => {},
                    Result::Err(e) => {
                        proof {
                            assert(self.events() == old(self).events() + full.take(0));
                        }
                        return Err(e);
                    },
                }
                proof {
                    assert(self.events() =~= old(self).events() + full);
                }
            },
            Option::Some(FsNode::Folder(old_children)) => {
                let ghost old_cs = children_view(old_children@);
                proof {
                    assert(opt_node_view(previous) == Some(FsNodeView::Folder(old_cs)));
                    assert(full == removal_events(old_cs, new_cs, path@, mount_path@) + seq![
                        ev(EventKind::FolderChanged, path@, mount_path@),
                    ]);
                }
                let mut j: usize = 0;
                while j < old_children.len()
                    invariant
                        0 <= j <= old_children.len(),
                        self.call_log == old(self).call_log,
                        old_cs == children_view(old_children@),
                        new_cs == sub_children_view(sub@),
                        children_view(new_sub@) == new_cs,
                        full == removal_events(old_cs, new_cs, path@, mount_path@) + seq![
                            ev(EventKind::FolderChanged, path@, mount_path@),
                        ],
                        self.events() == old(self).events() + removal_events(
                            old_cs.take(j as int),
                            new_cs,
                            path@,
                            mount_path@,
                        ),
                    decreases old_children.len() - j,
                {
                    proof {
                        assert(children_view(old_children@)[j as int] == (
                            old_children@[j as int].0@,
                            old_children@[j as int].1,
                        ));
                    }
                    let ghost done = removal_events(
                        old_cs.take(j as int),
                        new_cs,
                        path@,
                        mount_path@,
                    );
                    if !has_name(&new_sub, &old_children[j].0) {
                        let full_sub_path = crate::join_path(path, &old_children[j].0);
                        let new_mount_path = crate::join_path(mount_path, &old_children[j].0);
                        let sent = match old_children[j].1 {
                            FsNodeType::File => self.watcher.notify_file_removed(
                                &full_sub_path,
                                &new_mount_path,
                            ),
                            FsNodeType::Symlink => self.watcher.notify_symlink_removed(
                                &full_sub_path,
                                &new_mount_path,
                            ),
                            FsNodeType::Folder => self.watcher.notify_folder_removed(
                                &full_sub_path,
                                &new_mount_path,
                            ),
                        };
                        match sent {
                            Result::Ok(_) => {
                                proof {
                                    lemma_removal_events_take_step(
                                        old_cs,
                                        new_cs,
                                        path@,
                                        mount_path@,
                                        j as int,
                                    );
                                    assert(self.events() =~= old(self).events() + removal_events(
                                        old_cs.take(j + 1),
                                        new_cs,
                                        path@,
                                        mount_path@,
                                    ));
                                }
                            },
                            Result::Err(err) => {
                                proof {
                                    assert(old_cs =~= old_cs.take(j as int) + old_cs.skip(
                                        j as int,
                                    ));
                                    lemma_removal_events_app(
                                        old_cs.take(j as int),
                                        old_cs.skip(j as int),
                                        new_cs,
                                        path@,
                                        mount_path@,
                                    );
                                    assert(full.take(done.len() as int) =~= done);
                                    assert((done.len() as int) < full.len());
                                    assert(self.events() == old(self).events() + full.take(
                                        done.len() as int,
                                    ));
                                    assert(self.events() == old(self).events()
                                        + full.subrange(0, done.len() as int));
                                    assert(exists|k: int|
                                        0 <= k < full.len() && self.events() == old(
                                            self,
                                        ).events() + full.subrange(0, k));
                                }
                                return Err(err);
                            },
                        }
                    } else {
                        proof {
                            lemma_removal_events_take_step(
                                old_cs,
                                new_cs,
                                path@,
                                mount_path@,
                                j as int,
                            );
                            assert(self.events() =~= old(self).events() + removal_events(
                                old_cs.take(j + 1),
                                new_cs,
                                path@,
                                mount_path@,
                            ));
                        }
                    }
                    j = j + 1;
                }
                proof {
                    assert(old_cs.take(old_children@.len() as int) =~= old_cs);
                }
                match self.watcher.notify_folder_changed(path, mount_path) {
                    Result::Ok(_) => {},
                    Result::Err(e) => {
                        proof {
                            let done = removal_events(old_cs, new_cs, path@, mount_path@);
                            assert(full.take(done.len() as int) =~= done);
                            assert((done.len() as int) < full.len());
                            assert(self.events() == old(self).events() + full.take(
                                done.len() as int,
                            ));
                            assert(self.events() == old(self).events() + full.subrange(
                                0,
                                done.len() as int,
                            ));
                            assert(exists|k: int|
                                0 <= k < full.len() && self.events() == old(self).events()
                                    + full.subrange(0, k));
                        }
                        return Err(e);
                    },
                }
                proof {
                    assert(self.events() =~= old(self).events() + full);
                }
            },
        }
        proof {
            if sub_names_unique(sub@) {
                assert forall|a: int, b: int|
                    0 <= a < b < sub_children_view(sub@).len() implies sub_children_view(
                    sub@,
                )[a].0 != sub_children_view(sub@)[b].0 by {
                    assert(sub_children_view(sub@)[a].0 == sub@[a].0@);
                    assert(sub_children_view(sub@)[b].0 == sub@[b].0@);
                }
            }
        }
        Ok(FsNode::Folder(new_sub))
    }
}

/// The walker-facing face of the notifier: each processed entry is
/// classified against its previous fingerprint and the watcher is notified;
/// the returned fingerprint always reflects the current kind.
impl<W: FsChangeWatcher> FsProcessor for ChangeNotifier<W> {
    type Item = FsNode;

    open spec fn calls(&self) -> Seq<ProcessorCallView<FsNodeView>> {
        self.call_log@
    }

    fn process_file(
        &mut self,
        path: &Vec<u8>,
        mount_path: &Vec<u8>,
        previous: Option<FsNode>,
    ) -> Result<FsNode, FsSyncError> {
        let ghost prev_v = opt_item_view(previous);
        let r = self.classify_file(path, mount_path, previous);
        if r.is_ok() {
            proof {
                self.call_log@ = self.call_log@.push(
                    ProcessorCallView {
                        kind: FsNodeType::File,
                        path: path@,
                        mount_path: mount_path@,
                        previous: prev_v,
                        sub_names: Seq::empty(),
                    },
                );
            }
        }
        r
    }

    fn process_symlink(
        &mut self,
        path: &Vec<u8>,
        mount_path: &Vec<u8>,
        previous: Option<FsNode>,
    ) -> Result<FsNode, FsSyncError> {
        let ghost prev_v = opt_item_view(previous);
        let r = self.classify_symlink(path, mount_path, previous);
        if r.is_ok() {
            proof {
                self.call_log@ = self.call_log@.push(
                    ProcessorCallView {
                        kind: FsNodeType::Symlink,
                        path: path@,
                        mount_path: mount_path@,
                        previous: prev_v,
                        sub_names: Seq::empty(),
                    },
                );
            }
        }
        r
    }

    fn process_folder(
        &mut self,
        path: &Vec<u8>,
        mount_path: &Vec<u8>,
        sub: Vec<(Vec<u8>, FsEntry<FsNode>)>,
        previous: Option<FsNode>,
    ) -> Result<FsNode, FsSyncError> {
        let ghost prev_v = opt_item_view(previous);
        let ghost subs = sub_names(sub@);
        let r = self.classify_folder(path, mount_path, sub, previous);
        if r.is_ok() {
            proof {
                self.call_log@ = self.call_log@.push(
                    ProcessorCallView {
                        kind: FsNodeType::Folder,
                        path: path@,
                        mount_path: mount_path@,
                        previous: prev_v,
                        sub_names: subs,
                    },
                );
            }
        }
        r
    }
}

/// A watcher that records every event it is notified of, oldest first.
pub struct RecordingWatcher {
    pub log: Vec<ChangeEvent>,
}

impl RecordingWatcher {
    pub fn new() -> (r: RecordingWatcher)
        ensures
            r.events() == Seq::<ChangeEventView>::empty(),
    {
        let r = RecordingWatcher { log: Vec::new() };
        proof {
            assert(r.events() =~= Seq::<ChangeEventView>::empty());
        }
        r
    }

    /// The recorded events.
    pub fn into_log(self) -> (r: Vec<ChangeEvent>)
        ensures
            r@.map_values(|e: ChangeEvent| e@) == self.events(),
    {
        self.log
    }

    fn push_event(&mut self, kind: EventKind, path: &Vec<u8>, mount_path: &Vec<u8>) -> (r: Result<
        (),
        FsSyncError,
    >)
        ensures
            r is Ok,
            final(self).events() == old(self).events().push(ev(kind, path@, mount_path@)),
    {
        self.log.push(
            ChangeEvent { kind, path: clone_bytes(path), mount_path: clone_bytes(mount_path) },
        );
        proof {
            assert(self.events() =~= old(self).events().push(ev(kind, path@, mount_path@)));
        }
        Ok(())
    }
}

impl FsChangeWatcher for RecordingWatcher {
    open spec fn events(&self) -> Seq<ChangeEventView> {
        self.log@.map_values(|e: ChangeEvent| e@)
    }

    fn notify_file_added(&mut self, path: &Vec<u8>, mount_path: &Vec<u8>) -> Result<
        (),
        FsSyncError,
    > {
        self.push_event(EventKind::FileAdded, path, mount_path)
    }

    fn notify_file_changed(&mut self, path: &Vec<u8>, mount_path: &Vec<u8>) -> Result<
        (),
        FsSyncError,
    > {
        self.push_event(EventKind::FileChanged, path, mount_path)
    }

    fn notify_file_removed(&mut self, path: &Vec<u8>, mount_path: &Vec<u8>) -> Result<
        (),
        FsSyncError,
    > {
        self.push_event(EventKind::FileRemoved, path, mount_path)
    }

    fn notify_symlink_added(&mut self, path: &Vec<u8>, mount_path: &Vec<u8>) -> Result<
        (),
        FsSyncError,
    > {
        self.push_event(EventKind::SymlinkAdded, path, mount_path)
    }

    fn notify_symlink_changed(&mut self, path: &Vec<u8>, mount_path: &Vec<u8>) -> Result<
        (),
        FsSyncError,
    > {
        self.push_event(EventKind::SymlinkChanged, path, mount_path)
    }

    fn notify_symlink_removed(&mut self, path: &Vec<u8>, mount_path: &Vec<u8>) -> Result<
        (),
        FsSyncError,
    > {
        self.push_event(EventKind::SymlinkRemoved, path, mount_path)
    }

    fn notify_folder_added(&mut self, path: &Vec<u8>, mount_path: &Vec<u8>) -> Result<
        (),
        FsSyncError,
    > {
        self.push_event(EventKind::FolderAdded, path, mount_path)
    }

    fn notify_folder_changed(&mut self, path: &Vec<u8>, mount_path: &Vec<u8>) -> Result<
        (),
        FsSyncError,
    > {
        self.push_event(EventKind::FolderChanged, path, mount_path)
    }

    fn notify_folder_removed(&mut self, path: &Vec<u8>, mount_path: &Vec<u8>) -> Result<
        (),
        FsSyncError,
    > {
        self.push_event(EventKind::FolderRemoved, path, mount_path)
    }
}

} // verus!
