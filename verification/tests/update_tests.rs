use bof::BOFConfig;
use bof::BOFIndex;
use bof::FileMetaData;
use bof::FsChild;
use bof::FsNode;
use bof::IndexError;
use bof::MetaData;
use bof::index_tree;
use bof::update_directories;
use bof::update_tree;
use sha2::Digest;
use sha2::Sha256;

fn sha256_hex(s: &str) -> String {
    let mut hasher = Sha256::new();
    hasher.update(s.as_bytes());
    let digest = hasher.finalize();
    let mut out = String::new();
    for b in digest.as_slice() {
        out.push_str(&format!("{:02x}", b));
    }
    out
}

fn meta(mtime: u64, size: u64, inode: u64) -> FileMetaData {
    FileMetaData { ctime: 1_600_000_000, mtime, size, inode }
}

fn file(content: &str, mtime: u64, inode: u64) -> FsNode {
    FsNode::File {
        content: Some(content.to_owned()),
        meta: meta(mtime, content.len() as u64, inode),
    }
}

fn child(name: &str, node: FsNode) -> FsChild {
    FsChild { name: name.to_owned(), stat: Some(node) }
}

fn dir(children: Vec<FsChild>, inode: u64) -> FsNode {
    FsNode::Directory { children: Some(children), inode }
}

fn config() -> BOFConfig {
    BOFConfig { output_dir: ".bof".to_owned(), ignore_paths: Vec::new(), parallel: false }
}

fn two_file_tree(f_content: &str, f_mtime: u64) -> FsNode {
    dir(
        vec![
            child("f.txt", file(f_content, f_mtime, 2)),
            child("sub", dir(vec![child("g.txt", file("world", 11, 4))], 3)),
        ],
        1,
    )
}

// After changing exactly one file's content (and hence modification time),
// an update changes only that file's forward entry; every other entry and
// the whole inverse table stay byte-identical.
#[test]
fn update_rehashes_only_the_changed_file() {
    let mut store = BOFIndex::new();
    index_tree(&"/a".to_owned(), &two_file_tree("hello", 10), &mut store, &config()).unwrap();
    let g_key_before = store.find_entry(&"/a/sub/g.txt".to_owned()).unwrap().key.clone();
    let parents_before: Vec<String> =
        store.find_parents(&sha256_hex("hellof.txt")).unwrap().clone();

    let changed = two_file_tree("goodbye", 99);
    update_tree(&"/a".to_owned(), &changed, &mut store, &config()).unwrap();

    let f = store.find_entry(&"/a/f.txt".to_owned()).unwrap();
    assert_eq!(f.key, sha256_hex("goodbyef.txt"));
    match &f.metadata {
        MetaData::File(fm) => assert_eq!(fm.mtime, 99),
        MetaData::Directory(_) => panic!("file entry holds a directory record"),
    }

    let g = store.find_entry(&"/a/sub/g.txt".to_owned()).unwrap();
    assert_eq!(g.key, g_key_before);
    match &g.metadata {
        MetaData::File(fm) => assert_eq!(fm.mtime, 11),
        MetaData::Directory(_) => panic!("file entry holds a directory record"),
    }

    // update_entry never touches the inverse table: the old key's row stays.
    let parents_after: Vec<String> =
        store.find_parents(&sha256_hex("hellof.txt")).unwrap().clone();
    assert_eq!(parents_before, parents_after);
}

#[test]
fn update_leaves_unchanged_files_alone() {
    let mut store = BOFIndex::new();
    let tree = two_file_tree("hello", 10);
    index_tree(&"/a".to_owned(), &tree, &mut store, &config()).unwrap();
    let f_before = store.find_entry(&"/a/f.txt".to_owned()).unwrap().key.clone();

    update_tree(&"/a".to_owned(), &tree, &mut store, &config()).unwrap();
    let f_after = store.find_entry(&"/a/f.txt".to_owned()).unwrap();
    assert_eq!(f_after.key, f_before);
    assert_eq!(f_after.key, sha256_hex("hellof.txt"));
}

#[test]
fn update_records_new_files() {
    let mut store = BOFIndex::new();
    index_tree(&"/a".to_owned(), &two_file_tree("hello", 10), &mut store, &config()).unwrap();

    let grown = dir(
        vec![
            child("f.txt", file("hello", 10, 2)),
            child("sub", dir(vec![child("g.txt", file("world", 11, 4))], 3)),
            child("new.txt", file("fresh", 50, 9)),
        ],
        1,
    );
    update_tree(&"/a".to_owned(), &grown, &mut store, &config()).unwrap();

    let n = store.find_entry(&"/a/new.txt".to_owned()).unwrap();
    assert_eq!(n.key, sha256_hex("freshnew.txt"));
    let parents = store.find_parents(&sha256_hex("freshnew.txt")).unwrap();
    assert_eq!(parents.as_slice(), ["/a".to_owned()]);
}

#[test]
fn update_on_a_file_root_fails() {
    let mut store = BOFIndex::new();
    let r = update_tree(&"/a".to_owned(), &file("hello", 10, 2), &mut store, &config());
    assert_eq!(r.unwrap_err(), IndexError::NotADirectory);
}

#[test]
fn update_on_an_unreadable_directory_fails() {
    let mut store = BOFIndex::new();
    let tree = FsNode::Directory { children: None, inode: 1 };
    let r = update_tree(&"/a".to_owned(), &tree, &mut store, &config());
    assert_eq!(r.unwrap_err(), IndexError::DirUnreadable);
}

#[test]
fn update_never_removes_entries_for_deleted_files() {
    let mut store = BOFIndex::new();
    index_tree(&"/a".to_owned(), &two_file_tree("hello", 10), &mut store, &config()).unwrap();

    let shrunk = dir(vec![child("sub", dir(vec![], 3))], 1);
    update_tree(&"/a".to_owned(), &shrunk, &mut store, &config()).unwrap();
    assert!(store.find_entry(&"/a/f.txt".to_owned()).is_some());
    assert!(store.find_entry(&"/a/sub/g.txt".to_owned()).is_some());
}

#[test]
fn update_directories_attempts_every_root() {
    let mut store = BOFIndex::new();
    let roots = vec![
        ("/bad".to_owned(), file("x", 1, 7)),
        ("/a".to_owned(), dir(vec![child("f.txt", file("hello", 10, 2))], 1)),
    ];
    update_directories(&roots, &mut store, &config());
    assert!(store.find_entry(&"/a/f.txt".to_owned()).is_some());
}
