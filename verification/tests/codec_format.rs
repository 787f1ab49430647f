use sausage::{decode_node, encode_node, FsNode, FsNodeType, FsSyncError};

fn folder(children: Vec<(&str, FsNodeType)>) -> FsNode {
    FsNode::Folder(
        children
            .into_iter()
            .map(|(n, k)| (n.as_bytes().to_vec(), k))
            .collect(),
    )
}

#[test]
fn encode_leaves_are_single_tags() {
    assert_eq!(encode_node(&FsNode::File), vec![0u8]);
    assert_eq!(encode_node(&FsNode::Symlink), vec![1u8]);
    assert_eq!(encode_node(&folder(vec![])), vec![2u8]);
}

#[test]
fn encode_folder_exact_bytes() {
    let n = folder(vec![("a", FsNodeType::File)]);
    assert_eq!(
        encode_node(&n),
        vec![2u8, 1, 0, 0, 0, 0, 0, 0, 0, b'a', 0]
    );
    let n2 = folder(vec![("ab", FsNodeType::Folder), ("c", FsNodeType::Symlink)]);
    assert_eq!(
        encode_node(&n2),
        vec![
            2u8, 2, 0, 0, 0, 0, 0, 0, 0, b'a', b'b', 2, 1, 0, 0, 0, 0, 0, 0, 0, b'c', 1
        ]
    );
}

#[test]
fn round_trip_preserves_fingerprints() {
    let samples = vec![
        FsNode::File,
        FsNode::Symlink,
        folder(vec![]),
        folder(vec![("a", FsNodeType::File)]),
        folder(vec![
            ("d1", FsNodeType::Folder),
            ("f1", FsNodeType::File),
            ("s1", FsNodeType::Symlink),
        ]),
        folder(vec![("", FsNodeType::File)]),
    ];
    for n in samples {
        let bytes = encode_node(&n);
        assert_eq!(decode_node(&bytes).unwrap(), n);
    }
}

#[test]
fn decode_rejects_malformed_encodings() {
    let bad: Vec<Vec<u8>> = vec![
        vec![],
        vec![7],
        vec![0, 0],
        vec![1, 1],
        vec![2, 5],
        vec![2, 1, 0, 0, 0, 0, 0, 0, 0],
        vec![2, 1, 0, 0, 0, 0, 0, 0, 0, b'a', 9],
        vec![2, 9, 0, 0, 0, 0, 0, 0, 0, b'a', 0],
    ];
    for b in bad {
        assert_eq!(decode_node(&b).unwrap_err(), FsSyncError::Corrupt);
    }
}

#[test]
fn node_type_reflects_kind() {
    assert_eq!(FsNode::File.node_type(), FsNodeType::File);
    assert_eq!(FsNode::Symlink.node_type(), FsNodeType::Symlink);
    assert_eq!(folder(vec![("x", FsNodeType::File)]).node_type(), FsNodeType::Folder);
}
