use sausage::{
    ChangeEvent, ChangeNotifier, EventKind, FsChangeWatcher, FsEntry, FsNode, FsNodeType,
    FsSyncError, ModTime, RecordingWatcher,
};

fn ev(kind: EventKind, path: &str, mount: &str) -> ChangeEvent {
    ChangeEvent {
        kind,
        path: path.as_bytes().to_vec(),
        mount_path: mount.as_bytes().to_vec(),
    }
}

fn bytes(s: &str) -> Vec<u8> {
    s.as_bytes().to_vec()
}

fn notifier() -> ChangeNotifier<RecordingWatcher> {
    ChangeNotifier::new(RecordingWatcher::new())
}

fn old_folder(children: Vec<(&str, FsNodeType)>) -> FsNode {
    FsNode::Folder(
        children
            .into_iter()
            .map(|(n, k)| (n.as_bytes().to_vec(), k))
            .collect(),
    )
}

fn sub_entry(name: &str, item: FsNode) -> (Vec<u8>, FsEntry<FsNode>) {
    (
        name.as_bytes().to_vec(),
        FsEntry { item, mtime: ModTime { sec: 1, nano: 0 } },
    )
}

#[test]
fn file_classification_table() {
    let cases: Vec<(Option<FsNode>, Vec<ChangeEvent>)> = vec![
        (None, vec![ev(EventKind::FileAdded, "/p", "m")]),
        (Some(FsNode::File), vec![ev(EventKind::FileChanged, "/p", "m")]),
        (
            Some(FsNode::Symlink),
            vec![
                ev(EventKind::SymlinkRemoved, "/p", "m"),
                ev(EventKind::FileAdded, "/p", "m"),
            ],
        ),
        (
            Some(old_folder(vec![("a", FsNodeType::File)])),
            vec![
                ev(EventKind::FolderRemoved, "/p", "m"),
                ev(EventKind::FileAdded, "/p", "m"),
            ],
        ),
    ];
    for (prev, expected) in cases {
        let mut n = notifier();
        let out = n.classify_file(&bytes("/p"), &bytes("m"), prev).unwrap();
        assert_eq!(out, FsNode::File);
        assert_eq!(n.into_watcher().into_log(), expected);
    }
}

#[test]
fn symlink_classification_table() {
    let cases: Vec<(Option<FsNode>, Vec<ChangeEvent>)> = vec![
        (None, vec![ev(EventKind::SymlinkAdded, "/p", "m")]),
        (
            Some(FsNode::File),
            vec![
                ev(EventKind::FileRemoved, "/p", "m"),
                ev(EventKind::SymlinkAdded, "/p", "m"),
            ],
        ),
        (Some(FsNode::Symlink), vec![ev(EventKind::SymlinkChanged, "/p", "m")]),
        (
            Some(old_folder(vec![])),
            vec![
                ev(EventKind::FolderRemoved, "/p", "m"),
                ev(EventKind::SymlinkAdded, "/p", "m"),
            ],
        ),
    ];
    for (prev, expected) in cases {
        let mut n = notifier();
        let out = n.classify_symlink(&bytes("/p"), &bytes("m"), prev).unwrap();
        assert_eq!(out, FsNode::Symlink);
        assert_eq!(n.into_watcher().into_log(), expected);
    }
}

#[test]
fn folder_added_and_kind_change_classification() {
    let mut n = notifier();
    let out = n
        .classify_folder(&bytes("/p"), &bytes("m"), vec![], None)
        .unwrap();
    assert_eq!(out, FsNode::Folder(vec![]));
    assert_eq!(
        n.into_watcher().into_log(),
        vec![ev(EventKind::FolderAdded, "/p", "m")]
    );

    let mut n = notifier();
    n.classify_folder(&bytes("/p"), &bytes("m"), vec![], Some(FsNode::File))
        .unwrap();
    assert_eq!(
        n.into_watcher().into_log(),
        vec![
            ev(EventKind::FileRemoved, "/p", "m"),
            ev(EventKind::FolderAdded, "/p", "m"),
        ]
    );

    let mut n = notifier();
    n.classify_folder(&bytes("/p"), &bytes("m"), vec![], Some(FsNode::Symlink))
        .unwrap();
    assert_eq!(
        n.into_watcher().into_log(),
        vec![
            ev(EventKind::SymlinkRemoved, "/p", "m"),
            ev(EventKind::FolderAdded, "/p", "m"),
        ]
    );
}

#[test]
fn folder_changed_emits_removals_in_previous_order() {
    let prev = old_folder(vec![
        ("a", FsNodeType::File),
        ("b", FsNodeType::Symlink),
        ("c", FsNodeType::Folder),
    ]);
    let sub = vec![sub_entry("b", FsNode::Symlink)];
    let mut n = notifier();
    let out = n
        .classify_folder(&bytes("/p"), &bytes("m"), sub, Some(prev))
        .unwrap();
    assert_eq!(out, old_folder(vec![("b", FsNodeType::Symlink)]));
    assert_eq!(
        n.into_watcher().into_log(),
        vec![
            ev(EventKind::FileRemoved, "/p/a", "m/a"),
            ev(EventKind::FolderRemoved, "/p/c", "m/c"),
            ev(EventKind::FolderChanged, "/p", "m"),
        ]
    );
}

#[test]
fn folder_fingerprint_records_observed_child_names_and_kinds() {
    let sub = vec![
        sub_entry("d", old_folder(vec![("deep", FsNodeType::File)])),
        sub_entry("f", FsNode::File),
        sub_entry("s", FsNode::Symlink),
    ];
    let mut n = notifier();
    let out = n.classify_folder(&bytes("/p"), &bytes("m"), sub, None).unwrap();
    assert_eq!(
        out,
        old_folder(vec![
            ("d", FsNodeType::Folder),
            ("f", FsNodeType::File),
            ("s", FsNodeType::Symlink),
        ])
    );
}

struct FailingWatcher;

impl FsChangeWatcher for FailingWatcher {
    fn notify_file_added(&mut self, _path: &Vec<u8>, _mount_path: &Vec<u8>) -> Result<(), FsSyncError> {
        Err(FsSyncError::Emit)
    }
    fn notify_file_changed(&mut self, _path: &Vec<u8>, _mount_path: &Vec<u8>) -> Result<(), FsSyncError> {
        Err(FsSyncError::Emit)
    }
    fn notify_file_removed(&mut self, _path: &Vec<u8>, _mount_path: &Vec<u8>) -> Result<(), FsSyncError> {
        Err(FsSyncError::Emit)
    }
    fn notify_symlink_added(&mut self, _path: &Vec<u8>, _mount_path: &Vec<u8>) -> Result<(), FsSyncError> {
        Err(FsSyncError::Emit)
    }
    fn notify_symlink_changed(&mut self, _path: &Vec<u8>, _mount_path: &Vec<u8>) -> Result<(), FsSyncError> {
        Err(FsSyncError::Emit)
    }
    fn notify_symlink_removed(&mut self, _path: &Vec<u8>, _mount_path: &Vec<u8>) -> Result<(), FsSyncError> {
        Err(FsSyncError::Emit)
    }
    fn notify_folder_added(&mut self, _path: &Vec<u8>, _mount_path: &Vec<u8>) -> Result<(), FsSyncError> {
        Err(FsSyncError::Emit)
    }
    fn notify_folder_changed(&mut self, _path: &Vec<u8>, _mount_path: &Vec<u8>) -> Result<(), FsSyncError> {
        Err(FsSyncError::Emit)
    }
    fn notify_folder_removed(&mut self, _path: &Vec<u8>, _mount_path: &Vec<u8>) -> Result<(), FsSyncError> {
        Err(FsSyncError::Emit)
    }
}

#[test]
fn failing_watcher_surfaces_emit_error() {
    let mut n = ChangeNotifier::new(FailingWatcher);
    let r = n.classify_file(&bytes("/p"), &bytes("m"), None);
    assert_eq!(r.unwrap_err(), FsSyncError::Emit);
}
