use bof::BOFConfig;
use bof::BOFIndex;
use bof::FileMetaData;
use bof::FsChild;
use bof::FsNode;
use bof::IndexError;
use bof::MetaData;
use bof::file_key;
use bof::generate_key;
use bof::index_directories;
use bof::index_tree;
use bof::join_path;
use bof::parent_dir;
use sha2::Digest;
use sha2::Sha256;

fn sha256_hex(s: &str) -> String {
    let mut hasher = Sha256::new();
    hasher.update(s.as_bytes());
    let digest = hasher.finalize();
    let mut out = String::new();
    for b in digest.as_slice() {
        out.push_str(&format!("{:02x}", b));
    }
    out
}

fn meta(mtime: u64, size: u64, inode: u64) -> FileMetaData {
    FileMetaData { ctime: 1_600_000_000, mtime, size, inode }
}

fn file(content: &str, mtime: u64, inode: u64) -> FsNode {
    FsNode::File {
        content: Some(content.to_owned()),
        meta: meta(mtime, content.len() as u64, inode),
    }
}

fn child(name: &str, node: FsNode) -> FsChild {
    FsChild { name: name.to_owned(), stat: Some(node) }
}

fn dir(children: Vec<FsChild>, inode: u64) -> FsNode {
    FsNode::Directory { children: Some(children), inode }
}

fn config() -> BOFConfig {
    BOFConfig { output_dir: ".bof".to_owned(), ignore_paths: Vec::new(), parallel: false }
}

fn config_ignoring(paths: &[&str]) -> BOFConfig {
    BOFConfig {
        output_dir: ".bof".to_owned(),
        ignore_paths: paths.iter().map(|p| (*p).to_owned()).collect(),
        parallel: false,
    }
}

#[test]
fn generate_key_matches_independent_digest() {
    assert_eq!(generate_key("hellof.txt"), sha256_hex("hellof.txt"));
    assert_eq!(generate_key(""), sha256_hex(""));
    assert_eq!(generate_key("/a"), sha256_hex("/a"));
}

#[test]
fn file_key_is_hash_of_content_then_name() {
    let content = "hello".to_owned();
    let name = "f.txt".to_owned();
    assert_eq!(file_key(&content, &name), sha256_hex("hellof.txt"));
}

#[test]
fn same_content_same_name_same_key_different_name_different_key() {
    let hello = "hello".to_owned();
    let a = file_key(&hello, &"f.txt".to_owned());
    let b = file_key(&hello, &"f.txt".to_owned());
    assert_eq!(a, b);
    let c = file_key(&hello, &"g.txt".to_owned());
    assert_ne!(a, c);
}

#[test]
fn parent_dir_cases() {
    assert_eq!(parent_dir(&"/a/f.txt".to_owned()), "/a");
    assert_eq!(parent_dir(&"/f.txt".to_owned()), "/");
    assert_eq!(parent_dir(&"f.txt".to_owned()), "");
    assert_eq!(parent_dir(&"/".to_owned()), ".");
    assert_eq!(parent_dir(&"".to_owned()), ".");
    assert_eq!(parent_dir(&"a/b/c".to_owned()), "a/b");
}

#[test]
fn join_path_inserts_separator() {
    assert_eq!(join_path(&"/a".to_owned(), &"f.txt".to_owned()), "/a/f.txt");
}

// Directory `/a` contains `f.txt` = "hello": indexing `/a` yields the
// forward entry `/a/f.txt` keyed by hash("hellof.txt"), and `/a`'s record
// has one child named `f.txt`.
#[test]
fn single_file_directory() {
    let tree = dir(vec![child("f.txt", file("hello", 10, 2))], 1);
    let mut store = BOFIndex::new();
    let rec = index_tree(&"/a".to_owned(), &tree, &mut store, &config()).unwrap();

    let entry = store.find_entry(&"/a/f.txt".to_owned()).expect("forward entry for the file");
    assert_eq!(entry.key, sha256_hex("hellof.txt"));
    assert_eq!(entry.path, "/a/f.txt");
    match &entry.metadata {
        MetaData::File(fm) => {
            assert_eq!(fm.mtime, 10);
            assert_eq!(fm.size, 5);
            assert_eq!(fm.inode, 2);
        }
        MetaData::Directory(_) => panic!("file entry holds a directory record"),
    }

    match rec {
        MetaData::Directory(d) => {
            assert_eq!(d.inode, 1);
            assert_eq!(d.data.len(), 1);
            assert_eq!(d.data[0].name, "f.txt");
        }
        MetaData::File(_) => panic!("root record is not a directory"),
    }

    assert!(store.find_entry(&"/a".to_owned()).is_none());
}

// `/a/f.txt` and `/b/f.txt` both contain "hello": indexing both roots makes
// the inverse-table entry for hash("hellof.txt") list both `/a` and `/b`.
#[test]
fn duplicate_content_lists_both_parents() {
    let root_a = dir(vec![child("f.txt", file("hello", 10, 2))], 1);
    let root_b = dir(vec![child("f.txt", file("hello", 20, 4))], 3);
    let roots = vec![("/a".to_owned(), root_a), ("/b".to_owned(), root_b)];
    let store = index_directories(&roots, &config());

    let key = sha256_hex("hellof.txt");
    let ea = store.find_entry(&"/a/f.txt".to_owned()).unwrap();
    let eb = store.find_entry(&"/b/f.txt".to_owned()).unwrap();
    assert_eq!(ea.key, key);
    assert_eq!(eb.key, key);

    let parents = store.find_parents(&key).expect("inverse row for the shared key");
    assert_eq!(parents.as_slice(), ["/a".to_owned(), "/b".to_owned()]);
}

// Indexing the same unchanged tree twice sequentially yields identical
// (path, key) forward entries; the inverse table legitimately repeats the
// parent.
#[test]
fn indexing_twice_keeps_forward_entries() {
    let tree = dir(
        vec![
            child("f.txt", file("hello", 10, 2)),
            child("sub", dir(vec![child("g.txt", file("world", 11, 4))], 3)),
        ],
        1,
    );
    let mut store = BOFIndex::new();
    index_tree(&"/a".to_owned(), &tree, &mut store, &config()).unwrap();
    let before: Vec<(String, String)> = ["/a/f.txt", "/a/sub/g.txt"]
        .iter()
        .map(|p| {
            let e = store.find_entry(&(*p).to_owned()).unwrap();
            (e.path.clone(), e.key.clone())
        })
        .collect();

    index_tree(&"/a".to_owned(), &tree, &mut store, &config()).unwrap();
    let after: Vec<(String, String)> = ["/a/f.txt", "/a/sub/g.txt"]
        .iter()
        .map(|p| {
            let e = store.find_entry(&(*p).to_owned()).unwrap();
            (e.path.clone(), e.key.clone())
        })
        .collect();
    assert_eq!(before, after);

    let parents = store.find_parents(&sha256_hex("hellof.txt")).unwrap();
    assert_eq!(parents.as_slice(), ["/a".to_owned(), "/a".to_owned()]);
}

// Ignoring a path gives zero forward entries for it and all descendants;
// its own record is an empty-children directory.
#[test]
fn ignored_root_contributes_nothing() {
    let tree = dir(
        vec![
            child("f.txt", file("hello", 10, 2)),
            child("sub", dir(vec![child("g.txt", file("world", 11, 4))], 3)),
        ],
        1,
    );
    let cfg = config_ignoring(&["/a"]);
    let mut store = BOFIndex::new();
    let rec = index_tree(&"/a".to_owned(), &tree, &mut store, &cfg).unwrap();

    match rec {
        MetaData::Directory(d) => {
            assert_eq!(d.inode, 1);
            assert!(d.data.is_empty());
        }
        MetaData::File(_) => panic!("ignored root record is not a directory"),
    }
    assert!(store.find_entry(&"/a/f.txt".to_owned()).is_none());
    assert!(store.find_entry(&"/a/sub/g.txt".to_owned()).is_none());
    assert!(store.find_parents(&sha256_hex("hellof.txt")).is_none());
}

#[test]
fn ignored_child_is_skipped_entirely() {
    let tree = dir(
        vec![
            child("f.txt", file("hello", 10, 2)),
            child("sub", dir(vec![child("g.txt", file("world", 11, 4))], 3)),
        ],
        1,
    );
    let cfg = config_ignoring(&["/a/sub"]);
    let mut store = BOFIndex::new();
    let rec = index_tree(&"/a".to_owned(), &tree, &mut store, &cfg).unwrap();

    match rec {
        MetaData::Directory(d) => assert_eq!(d.data.len(), 1),
        MetaData::File(_) => panic!("root record is not a directory"),
    }
    assert!(store.find_entry(&"/a/f.txt".to_owned()).is_some());
    assert!(store.find_entry(&"/a/sub/g.txt".to_owned()).is_none());
}

#[test]
fn indexing_a_file_root_fails() {
    let mut store = BOFIndex::new();
    let r = index_tree(&"/a".to_owned(), &file("hello", 10, 2), &mut store, &config());
    assert_eq!(r.unwrap_err(), IndexError::NotADirectory);
}

#[test]
fn indexing_an_unreadable_directory_fails() {
    let mut store = BOFIndex::new();
    let tree = FsNode::Directory { children: None, inode: 1 };
    let r = index_tree(&"/a".to_owned(), &tree, &mut store, &config());
    assert_eq!(r.unwrap_err(), IndexError::DirUnreadable);
}

#[test]
fn unreadable_file_and_odd_objects_are_skipped() {
    let tree = dir(
        vec![
            child("bad.bin", FsNode::File { content: None, meta: meta(10, 9, 2) }),
            child("link", FsNode::Other),
            FsChild { name: "gone".to_owned(), stat: None },
            child("f.txt", file("hello", 10, 5)),
        ],
        1,
    );
    let mut store = BOFIndex::new();
    let rec = index_tree(&"/a".to_owned(), &tree, &mut store, &config()).unwrap();
    match rec {
        MetaData::Directory(d) => {
            assert_eq!(d.data.len(), 1);
            assert_eq!(d.data[0].name, "f.txt");
        }
        MetaData::File(_) => panic!("root record is not a directory"),
    }
    assert!(store.find_entry(&"/a/bad.bin".to_owned()).is_none());
    assert!(store.find_entry(&"/a/f.txt".to_owned()).is_some());
}

#[test]
fn failed_root_leaves_other_roots_indexed() {
    let roots = vec![
        ("/bad".to_owned(), file("hello", 10, 2)),
        ("/a".to_owned(), dir(vec![child("f.txt", file("hello", 10, 3))], 1)),
    ];
    let store = index_directories(&roots, &config());
    assert!(store.find_entry(&"/a/f.txt".to_owned()).is_some());
}

#[test]
fn default_config_values() {
    let cfg = BOFConfig::default();
    assert_eq!(cfg.output_dir, ".bof");
    assert_eq!(cfg.ignore_paths, vec![".git".to_owned()]);
    assert!(!cfg.parallel);
}
