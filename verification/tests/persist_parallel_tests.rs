use bof::BOFConfig;
use bof::BOFIndex;
use bof::FileMetaData;
use bof::FsChild;
use bof::FsNode;
use bof::MetaData;
use bof::IndexChildAction;
use bof::IndexError;
use bof::QueueItem;
use bof::UpdateChildAction;
use bof::enter_directory;
use bof::finalize_directory;
use bof::index_child_dispatch;
use bof::generate_key;
use bof::index_tree;
use bof::load_indices;
use bof::process_file_child;
use bof::update_child_locked;
use sha2::Digest;
use sha2::Sha256;

fn sha256_hex(s: &str) -> String {
    let mut hasher = Sha256::new();
    hasher.update(s.as_bytes());
    let digest = hasher.finalize();
    let mut out = String::new();
    for b in digest.as_slice() {
        out.push_str(&format!("{:02x}", b));
    }
    out
}

fn meta(mtime: u64, size: u64, inode: u64) -> FileMetaData {
    FileMetaData { ctime: 1_600_000_000, mtime, size, inode }
}

fn file(content: &str, mtime: u64, inode: u64) -> FsNode {
    FsNode::File {
        content: Some(content.to_owned()),
        meta: meta(mtime, content.len() as u64, inode),
    }
}

fn child(name: &str, node: FsNode) -> FsChild {
    FsChild { name: name.to_owned(), stat: Some(node) }
}

fn dir(children: Vec<FsChild>, inode: u64) -> FsNode {
    FsNode::Directory { children: Some(children), inode }
}

fn config() -> BOFConfig {
    BOFConfig { output_dir: ".bof".to_owned(), ignore_paths: Vec::new(), parallel: false }
}

// load(save(store)) reproduces the forward-entry set, here for a populated
// store.
#[test]
fn save_load_round_trip() {
    let tree = dir(
        vec![
            child("f.txt", file("hello", 10, 2)),
            child("sub", dir(vec![child("g.txt", file("world", 11, 4))], 3)),
        ],
        1,
    );
    let mut store = BOFIndex::new();
    index_tree(&"/a".to_owned(), &tree, &mut store, &config()).unwrap();

    let doc = store.to_persistent();
    let reloaded = load_indices(doc);

    for p in ["/a/f.txt", "/a/sub/g.txt"] {
        let before = store.find_entry(&p.to_owned()).unwrap();
        let after = reloaded.find_entry(&p.to_owned()).unwrap();
        assert_eq!(before.key, after.key);
        assert_eq!(before.path, after.path);
    }
    let key = sha256_hex("hellof.txt");
    assert_eq!(store.find_parents(&key).unwrap(), reloaded.find_parents(&key).unwrap());
    assert!(reloaded.find_entry(&"/a/missing".to_owned()).is_none());
}

// load(save(store)) reproduces the empty store too.
#[test]
fn save_load_round_trip_empty_store() {
    let store = BOFIndex::new();
    let doc = store.to_persistent();
    assert!(doc.entries.is_empty());
    assert!(doc.inverse_table.is_empty());
    let reloaded = load_indices(doc);
    assert!(reloaded.find_entry(&"/a".to_owned()).is_none());
}

// The concurrent scan's per-file work plus the finalizer barrier leave the
// store exactly as a sequential scan of the same flat directory does.
#[test]
fn concurrent_pieces_match_sequential_scan() {
    let dir_path = "/a".to_owned();
    let mut items: Vec<QueueItem> = Vec::new();
    for (name, content, ino) in [("f.txt", "hello", 2u64), ("g.txt", "world", 4u64)] {
        let m = meta(10, content.len() as u64, ino);
        let (d, e) = process_file_child(&dir_path, &name.to_owned(), &content.to_owned(), m);
        items.push(d);
        items.push(e);
    }
    let mut par_store = BOFIndex::new();
    let dir_key = generate_key("/a");
    let rec = finalize_directory(&mut par_store, items, &dir_path, dir_key, 1);

    let tree = dir(
        vec![child("f.txt", file("hello", 10, 2)), child("g.txt", file("world", 10, 4))],
        1,
    );
    let mut seq_store = BOFIndex::new();
    let seq_rec = index_tree(&dir_path, &tree, &mut seq_store, &config()).unwrap();

    for p in ["/a/f.txt", "/a/g.txt"] {
        let a = par_store.find_entry(&p.to_owned()).unwrap();
        let b = seq_store.find_entry(&p.to_owned()).unwrap();
        assert_eq!(a.key, b.key);
        assert_eq!(a.path, b.path);
    }
    match (rec, seq_rec) {
        (MetaData::Directory(a), MetaData::Directory(b)) => {
            assert_eq!(a.inode, b.inode);
            assert_eq!(a.data.len(), b.data.len());
            for (x, y) in a.data.iter().zip(b.data.iter()) {
                assert_eq!(x.name, y.name);
            }
        }
        _ => panic!("both records are directory records"),
    }
}

#[test]
fn locked_update_step_rehashes_stale_entry_in_place() {
    let tree = dir(vec![child("f.txt", file("hello", 10, 2))], 1);
    let mut store = BOFIndex::new();
    index_tree(&"/a".to_owned(), &tree, &mut store, &config()).unwrap();

    let action = update_child_locked(
        &mut store,
        &"/a".to_owned(),
        &"f.txt".to_owned(),
        &file("goodbye", 99, 2),
    );
    assert!(matches!(action, UpdateChildAction::Nothing));
    let e = store.find_entry(&"/a/f.txt".to_owned()).unwrap();
    assert_eq!(e.key, sha256_hex("goodbyef.txt"));
}

#[test]
fn locked_update_step_defers_new_work_to_the_caller() {
    let mut store = BOFIndex::new();

    let action = update_child_locked(
        &mut store,
        &"/a".to_owned(),
        &"new.txt".to_owned(),
        &file("fresh", 50, 9),
    );
    match action {
        UpdateChildAction::Queue(_, e) => match e {
            QueueItem::BOFEntry(entry) => {
                assert_eq!(entry.key, sha256_hex("freshnew.txt"));
                assert_eq!(entry.path, "/a/new.txt");
            }
            QueueItem::DirEntry(_) => panic!("second unit is the forward entry"),
        },
        _ => panic!("a new readable file is queued"),
    }
    assert!(store.find_entry(&"/a/new.txt".to_owned()).is_none());

    let action = update_child_locked(
        &mut store,
        &"/a".to_owned(),
        &"sub".to_owned(),
        &dir(vec![], 3),
    );
    assert!(matches!(action, UpdateChildAction::Descend));
}

#[test]
fn drain_order_does_not_change_the_forward_map() {
    let dir_path = "/a".to_owned();
    let m1 = meta(10, 5, 2);
    let m2 = meta(10, 5, 4);
    let (d1, e1) = process_file_child(&dir_path, &"f.txt".to_owned(), &"hello".to_owned(), m1);
    let (d2, e2) = process_file_child(&dir_path, &"g.txt".to_owned(), &"world".to_owned(), m2);

    let mut store_a = BOFIndex::new();
    finalize_directory(&mut store_a, vec![d1, e1, d2, e2], &dir_path, generate_key("/a"), 1);

    let (d1, e1) = process_file_child(&dir_path, &"f.txt".to_owned(), &"hello".to_owned(), m1);
    let (d2, e2) = process_file_child(&dir_path, &"g.txt".to_owned(), &"world".to_owned(), m2);
    let mut store_b = BOFIndex::new();
    finalize_directory(&mut store_b, vec![e2, d2, e1, d1], &dir_path, generate_key("/a"), 1);

    for p in ["/a/f.txt", "/a/g.txt"] {
        let a = store_a.find_entry(&p.to_owned()).unwrap();
        let b = store_b.find_entry(&p.to_owned()).unwrap();
        assert_eq!(a.key, b.key);
        assert_eq!(a.path, b.path);
    }
}

#[test]
fn scan_dispatch_decides_like_the_sequential_scan() {
    let cfg = config();
    let dir_path = "/a".to_owned();

    let c = child("f.txt", file("hello", 10, 2));
    match index_child_dispatch(&dir_path, &c, &cfg) {
        IndexChildAction::Queue(_, e) => match e {
            QueueItem::BOFEntry(entry) => {
                assert_eq!(entry.key, sha256_hex("hellof.txt"));
                assert_eq!(entry.path, "/a/f.txt");
            }
            QueueItem::DirEntry(_) => panic!("second unit is the forward entry"),
        },
        _ => panic!("a readable file is queued"),
    }

    let c = child("sub", dir(vec![], 3));
    assert!(matches!(index_child_dispatch(&dir_path, &c, &cfg), IndexChildAction::Descend));

    let c = child("link", FsNode::Other);
    assert!(matches!(index_child_dispatch(&dir_path, &c, &cfg), IndexChildAction::Skip));

    let c = FsChild { name: "gone".to_owned(), stat: None };
    assert!(matches!(index_child_dispatch(&dir_path, &c, &cfg), IndexChildAction::Skip));

    let cfg_ign = BOFConfig {
        output_dir: ".bof".to_owned(),
        ignore_paths: vec!["/a/f.txt".to_owned()],
        parallel: false,
    };
    let c = child("f.txt", file("hello", 10, 2));
    assert!(matches!(index_child_dispatch(&dir_path, &c, &cfg_ign), IndexChildAction::Skip));
}

#[test]
fn entering_a_directory_is_gated_like_the_sequential_scan() {
    let cfg = config();
    let root = "/a".to_owned();

    assert!(matches!(enter_directory(&root, &dir(vec![], 1), &cfg), Ok(None)));
    assert_eq!(
        enter_directory(&root, &file("hello", 10, 2), &cfg).unwrap_err(),
        IndexError::NotADirectory
    );
    assert_eq!(
        enter_directory(&root, &FsNode::Directory { children: None, inode: 1 }, &cfg)
            .unwrap_err(),
        IndexError::DirUnreadable
    );

    let cfg_ign = BOFConfig {
        output_dir: ".bof".to_owned(),
        ignore_paths: vec!["/a".to_owned()],
        parallel: false,
    };
    match enter_directory(&root, &dir(vec![child("f.txt", file("hello", 10, 2))], 1), &cfg_ign) {
        Ok(Some(MetaData::Directory(d))) => {
            assert!(d.data.is_empty());
            assert_eq!(d.inode, 1);
        }
        _ => panic!("an ignored directory yields its empty record"),
    }
}
