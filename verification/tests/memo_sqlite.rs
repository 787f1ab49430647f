use rusqlite::Connection;
use sausage::{
    setup_sqlite_cache, FsEntry, FsNode, FsProcessor, FsSyncError, FsTree, MemoizedFsWalker,
    ModTime, SqliteFsCache,
};

/// A processor that logs one line per processed entry, as the walker's
/// memoization decides to call it.
struct TestProcessor {
    acc: String,
}

impl TestProcessor {
    fn new() -> TestProcessor {
        TestProcessor { acc: String::from("\n") }
    }
}

impl FsProcessor for TestProcessor {
    type Item = FsNode;

    fn process_file(
        &mut self,
        path: &Vec<u8>,
        _mount_path: &Vec<u8>,
        _previous: Option<FsNode>,
    ) -> Result<FsNode, FsSyncError> {
        self.acc
            .push_str(&format!("F|{}\n", String::from_utf8_lossy(path)));
        Ok(FsNode::File)
    }

    fn process_symlink(
        &mut self,
        path: &Vec<u8>,
        _mount_path: &Vec<u8>,
        _previous: Option<FsNode>,
    ) -> Result<FsNode, FsSyncError> {
        self.acc
            .push_str(&format!("S|{}\n", String::from_utf8_lossy(path)));
        Ok(FsNode::Symlink)
    }

    fn process_folder(
        &mut self,
        path: &Vec<u8>,
        _mount_path: &Vec<u8>,
        sub: Vec<(Vec<u8>, FsEntry<FsNode>)>,
        _previous: Option<FsNode>,
    ) -> Result<FsNode, FsSyncError> {
        self.acc
            .push_str(&format!("D|{}|{}\n", String::from_utf8_lossy(path), sub.len()));
        Ok(FsNode::Folder(
            sub.iter().map(|(n, e)| (n.clone(), e.item.node_type())).collect(),
        ))
    }
}

fn mt(sec: u64) -> ModTime {
    ModTime { sec, nano: 0 }
}

#[test]
fn test1() {
    let mut conn = Connection::open_in_memory().unwrap();
    setup_sqlite_cache(&mut conn).unwrap();

    let tree = FsTree::Folder {
        mtime: mt(10),
        children: vec![
            (b"a".to_vec(), FsTree::File { mtime: mt(5) }),
            (
                b"1".to_vec(),
                FsTree::Folder {
                    mtime: mt(7),
                    children: vec![(b"b".to_vec(), FsTree::File { mtime: mt(6) })],
                },
            ),
            (b"c".to_vec(), FsTree::Symlink { mtime: mt(4) }),
        ],
    };

    let walker = MemoizedFsWalker::new(SqliteFsCache::new(conn));
    let mut batch = walker.start_processing(TestProcessor::new()).unwrap();
    let _ = batch
        .add_path(&b"testing".to_vec(), &b"testing".to_vec(), &tree)
        .unwrap();
    let result = &batch.fs_processor.acc;
    let expected = "\nF|testing/a\nF|testing/1/b\nD|testing/1|1\nS|testing/c\nD|testing|3\n";
    assert_eq!(
        result, expected,
        "\nresult: \n{}\nexpected: \n{}",
        result, expected
    );
    let (_walker, session_id) = batch.finish_processing().unwrap();
    assert_eq!(session_id, 1);
}
