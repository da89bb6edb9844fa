//! The traversal engine of a full-scan session. It walks a snapshot of the
//! filesystem tree, records every readable regular file in the store, and
//! builds the recursive directory record.
//!
//! The snapshot is plain data handed in by the caller: for each object the
//! outcome of its stat call, for each regular file the outcome of reading
//! its content as text, for each directory the outcome of enumerating its
//! children. Per-child failures are skipped; the parent carries on.

use vstd::prelude::*;
use crate::config::BOFConfig;
use crate::hashing::file_key;
use crate::hashing::generate_key;
use crate::hashing::spec_file_key;
use crate::model::DirEntry;
use crate::model::DirEntryModel;
use crate::model::DirMetaData;
use crate::model::FileMetaData;
use crate::model::MetaData;
use crate::model::MetaModel;
use crate::model::StatInfo;
use crate::model::dir_entries_model;
use crate::model::lemma_dir_entries_model_push;
use crate::paths::join_path;
use crate::paths::spec_join_path;
use crate::store::BOFIndex;
use crate::store::StoreModel;
use crate::store::spec_add_file;
use crate::store::EntryModel;
use crate::store::spec_empty_store;

verus! {

/// Snapshot of one filesystem object: a regular file with its stat data and
/// the outcome of reading its content as text (`None` when unreadable), a
/// directory with its inode and the outcome of enumerating its children
/// (`None` when enumeration failed), or anything else (symlink, device,
/// socket, ...).
#[derive(Debug)]
pub enum FsNode {
    File { content: Option<String>, meta: FileMetaData },
    Directory { children: Option<Vec<FsChild>>, inode: u64 },
    Other,
}

/// One enumerated child: its base name, and its snapshot if its stat call
/// succeeded.
#[derive(Debug)]
pub struct FsChild {
    pub name: String,
    pub stat: Option<FsNode>,
}

/// Mathematical model of a snapshot node.
#[verifier::ext_equal]
pub enum FsNodeModel {
    File { content: Option<Seq<char>>, meta: FileMetaData },
    Directory { children: Option<Seq<FsChildModel>>, inode: u64 },
    Other,
}

/// Mathematical model of an enumerated child.
#[verifier::ext_equal]
pub struct FsChildModel {
    pub name: Seq<char>,
    pub stat: Option<FsNodeModel>,
}

/// Model of a children list, element by element.
pub open spec fn fs_children_model(s: Seq<FsChild>) -> Seq<FsChildModel>
    decreases s,
{
    if s.len() == 0 {
        Seq::empty()
    } else {
        fs_children_model(s.drop_last()).push(s.last()@)
    }
}

/// The model of a children list has the same length and models each child.
pub broadcast proof fn lemma_fs_children_model(s: Seq<FsChild>)
    ensures
        (#[trigger] fs_children_model(s)).len() == s.len(),
        forall|i: int| 0 <= i < s.len() ==> fs_children_model(s)[i] == s[i]@,
    decreases s,
{
    if s.len() > 0 {
        lemma_fs_children_model(s.drop_last());
        assert(fs_children_model(s) == fs_children_model(s.drop_last()).push(s.last()@));
        assert forall|i: int| 0 <= i < s.len() implies fs_children_model(s)[i] == s[i]@ by {
            if i < s.len() - 1 {
                assert(s.drop_last()[i] == s[i]);
                assert(fs_children_model(s)[i] == fs_children_model(s.drop_last())[i]);
            } else {
                assert(fs_children_model(s)[i] == s.last()@);
            }
        }
    }
}

impl View for FsNode {
    type V = FsNodeModel;

    open spec fn view(&self) -> FsNodeModel
        decreases self,
    {
        match self {
            FsNode::File { content, meta } => FsNodeModel::File {
                content: match content {
                    Some(text) => Some(text@),
                    None => None,
                },
                meta: *meta,
            },
            FsNode::Directory { children, inode } => FsNodeModel::Directory {
                children: match children {
                    Some(cs) => Some(fs_children_model(cs@)),
                    None => None,
                },
                inode: *inode,
            },
            FsNode::Other => FsNodeModel::Other,
        }
    }
}

impl View for FsChild {
    type V = FsChildModel;

    open spec fn view(&self) -> FsChildModel
        decreases self,
    {
        FsChildModel {
            name: self.name@,
            stat: match &self.stat {
                Some(node) => Some(node@),
                None => None,
            },
        }
    }
}

/// Why a session fails for a root: the target is not a directory, or its
/// children cannot be enumerated.
#[derive(Clone, Copy, Debug, PartialEq, Eq, Structural)]
pub enum IndexError {
    NotADirectory,
    DirUnreadable,
}

/// What a full scan of the tree rooted at `path` does to the store, and the
/// record it returns. An ignored directory contributes nothing and yields an
/// empty record; otherwise each readable regular file child is recorded,
/// each subdirectory is scanned recursively, and every other child (failed
/// stat, ignored, unreadable content, failed subscan, odd object kind) is
/// skipped.
pub open spec fn spec_index(
    path: Seq<char>,
    node: FsNodeModel,
    ignore: Seq<Seq<char>>,
    m: StoreModel,
) -> Result<(StoreModel, MetaModel), IndexError>
    decreases node,
{
    match node {
        FsNodeModel::Directory { children, inode } => {
            if ignore.contains(path) {
                Ok((m, MetaModel::Directory { children: Seq::empty(), inode }))
            } else {
                match children {
                    None => Err(IndexError::DirUnreadable),
                    Some(cs) => {
                        let r = spec_index_children(path, cs, ignore, m);
                        Ok((r.0, MetaModel::Directory { children: r.1, inode }))
                    },
                }
            }
        },
        _ => Err(IndexError::NotADirectory),
    }
}

/// The store and children records that scanning a directory's child list
/// builds up, in enumeration order.
pub open spec fn spec_index_children(
    dir: Seq<char>,
    cs: Seq<FsChildModel>,
    ignore: Seq<Seq<char>>,
    m: StoreModel,
) -> (StoreModel, Seq<DirEntryModel>)
    decreases cs,
{
    if cs.len() == 0 {
        (m, Seq::empty())
    } else {
        let r = spec_index_children(dir, cs.drop_last(), ignore, m);
        spec_index_child(dir, cs.last(), ignore, r.0, r.1)
    }
}

/// One child's contribution to the scan.
pub open spec fn spec_index_child(
    dir: Seq<char>,
    c: FsChildModel,
    ignore: Seq<Seq<char>>,
    m: StoreModel,
    es: Seq<DirEntryModel>,
) -> (StoreModel, Seq<DirEntryModel>)
    decreases c,
{
    match c.stat {
        None => (m, es),
        Some(node) => {
            let cpath = spec_join_path(dir, c.name);
            if ignore.contains(cpath) {
                (m, es)
            } else {
                match node {
                    FsNodeModel::File { content, meta } => match content {
                        Some(text) => (
                            spec_add_file(m, cpath, spec_file_key(text, c.name),
                                MetaModel::File(meta)),
                            es.push(DirEntryModel { name: c.name, data: MetaModel::File(meta) }),
                        ),
                        None => (m, es),
                    },
                    FsNodeModel::Directory { .. } => match spec_index(cpath, node, ignore, m) {
                        Ok(r) => (r.0, es.push(DirEntryModel { name: c.name, data: r.1 })),
                        Err(_) => (m, es),
                    },
                    FsNodeModel::Other => (m, es),
                }
            }
        },
    }
}

/// Scans the tree rooted at `path` into `bof_index`, exactly as
/// `spec_index` describes, and returns the root's record.
pub fn index_tree(
    path: &String,
    node: &FsNode,
    bof_index: &mut BOFIndex,
    config: &BOFConfig,
) -> (r: Result<MetaData, IndexError>)
    requires
        old(bof_index).wf(),
    ensures
        final(bof_index).wf(),
        (match r {
            Ok(meta) => spec_index(path@, node@, config.ignore_model(), old(bof_index)@)
                == Ok::<(StoreModel, MetaModel), IndexError>((final(bof_index)@, meta@)),
            Err(e) => spec_index(path@, node@, config.ignore_model(), old(bof_index)@)
                == Err::<(StoreModel, MetaModel), IndexError>(e)
                && final(bof_index)@ == old(bof_index)@,
        }),
    decreases node,
{
    let ghost ig = config.ignore_model();
    match node {
        FsNode::Directory { children, inode } => {
            if config.is_ignored(path) {
                let rec = MetaData::Directory(DirMetaData { data: Vec::new(), inode: *inode });
                proof {
                    assert(rec@ =~= (MetaModel::Directory {
                        children: Seq::empty(),
                        inode: *inode,
                    }));
                }
                Ok(rec)
            } else {
                match children {
                    None => Err(IndexError::DirUnreadable),
                    Some(cs) => {
                        let dir_key = generate_key(path.as_str());
                        let mut dir_entries: Vec<DirEntry> = Vec::new();
                        let n = cs.len();
                        let mut i: usize = 0;
                        proof {
                            lemma_fs_children_model(cs@);
                            assert(fs_children_model(cs@).subrange(0, 0) =~= Seq::empty());
                        }
                        while i < n
                            invariant
                                (*node == FsNode::Directory { children: Some(*cs), inode: *inode }),
                                ig == config.ignore_model(),
                                old(bof_index).wf(),
                                bof_index.wf(),
                                n == cs.len(),
                                i <= n,
                                ({
                                    let r = spec_index_children(
                                        path@,
                                        fs_children_model(cs@).subrange(0, i as int),
                                        ig,
                                        old(bof_index)@,
                                    );
                                    bof_index@ == r.0 && dir_entries_model(dir_entries@) == r.1
                                }),
                            decreases n - i,
                        {
                            let ghost pre_store = bof_index@;
                            let ghost pre_entries = dir_entries_model(dir_entries@);
                            let c = &cs[i];
                            proof {
                                lemma_fs_children_model(cs@);
                            }
                            match &c.stat {
                                None => {
                                    proof {
                                        assert(spec_index_child(path@, c@, ig, pre_store, pre_entries)
                                            == (pre_store, pre_entries));
                                    }
                                },
                                Some(cn) => {
                                    proof {
                                        assert(c@.stat == Some(cn@));
                                    }
                                    let cpath = join_path(path, &c.name);
                                    if config.is_ignored(&cpath) {
                                        proof {
                                            assert(ig.contains(spec_join_path(path@, c@.name)));
                                            assert(spec_index_child(path@, c@, ig, pre_store, pre_entries)
                                                == (pre_store, pre_entries));
                                        }
                                    } else {
                                        match cn {
                                            FsNode::File { content, meta } => {
                                                match content {
                                                    Some(text) => {
                                                        let key = file_key(text, &c.name);
                                                        let rec = bof_index.add_entry(
                                                            &cpath,
                                                            key,
                                                            &StatInfo::File(*meta),
                                                            None,
                                                        );
                                                        let e = DirEntry { name: c.name.clone(), data: rec };
                                                        proof {
                                                            lemma_dir_entries_model_push(dir_entries@, e);
                                                        }
                                                        dir_entries.push(e);
                                                        proof {
                                                            let sr = spec_index_child(
                                                                path@, c@, ig, pre_store, pre_entries);
                                                            assert(bof_index@ == sr.0);
                                                            assert(dir_entries_model(dir_entries@) =~= sr.1);
                                                        }
                                                    },
                                                    None => {
                                                        proof {
                                                            assert(spec_index_child(
                                                                path@, c@, ig, pre_store, pre_entries)
                                                                == (pre_store, pre_entries));
                                                        }
                                                    },
                                                }
                                            },
                                            FsNode::Directory { .. } => {
                                                proof {
                                                    let oc = node->Directory_children;
                                                    let v = oc->0;
                                                    assert(v == *cs);
                                                    let ch = v@[i as int];
                                                    assert(ch == *c);
                                                    assert(ch.stat->0 == *cn);
                                                    assert(decreases_to!(*node => node->Directory_children));
                                                    assert(decreases_to!(oc => oc->0));
                                                    assert(decreases_to!(v => v@));
                                                    assert(decreases_to!(v@ => v@[i as int]));
                                                    assert(decreases_to!(ch => ch.stat));
                                                    assert(decreases_to!(ch.stat => ch.stat->0));
                                                    assert(decreases_to!(*node => *cn));
                                                }
                                                match index_tree(&cpath, cn, bof_index, config) {
                                                    Ok(sub) => {
                                                        let e = DirEntry { name: c.name.clone(), data: sub };
                                                        proof {
                                                            lemma_dir_entries_model_push(dir_entries@, e);
                                                        }
                                                        dir_entries.push(e);
                                                        proof {
                                                            let sr = spec_index_child(
                                                                path@, c@, ig, pre_store, pre_entries);
                                                            assert(bof_index@ == sr.0);
                                                            assert(dir_entries_model(dir_entries@) =~= sr.1);
                                                        }
                                                    },
                                                    Err(_) => {
                                                        proof {
                                                            assert(spec_index_child(
                                                                path@, c@, ig, pre_store, pre_entries)
                                                                == (pre_store, pre_entries));
                                                        }
                                                    },
                                                }
                                            },
                                            FsNode::Other => {
                                                proof {
                                                    assert(spec_index_child(
                                                        path@, c@, ig, pre_store, pre_entries)
                                                        == (pre_store, pre_entries));
                                                }
                                            },
                                        }
                                    }
                                },
                            }
                            proof {
                                let models = fs_children_model(cs@);
                                let pre = models.subrange(0, i as int);
                                let cur = models.subrange(0, i + 1);
                                assert(cur.drop_last() =~= pre);
                                assert(cur.last() == models[i as int]);
                                assert(models[i as int] == cs@[i as int]@);
                                let rp = spec_index_children(path@, pre, ig, old(bof_index)@);
                                assert(rp == (pre_store, pre_entries));
                                assert(spec_index_children(path@, cur, ig, old(bof_index)@)
                                    == spec_index_child(path@, c@, ig, pre_store, pre_entries));
                            }
                            i += 1;
                        }
                        proof {
                            assert(fs_children_model(cs@).subrange(0, n as int)
                                =~= fs_children_model(cs@));
                        }
                        let ghost final_entries = dir_entries_model(dir_entries@);
                        let rec = bof_index.add_entry(
                            path,
                            dir_key,
                            &StatInfo::Directory { inode: *inode },
                            Some(dir_entries),
                        );
                        proof {
                            let sr = spec_index_children(
                                path@, fs_children_model(cs@), ig, old(bof_index)@);
                            assert(bof_index@ == sr.0);
                            assert(rec@ == (MetaModel::Directory {
                                children: sr.1,
                                inode: *inode,
                            }));
                        }
                        Ok(rec)
                    },
                }
            }
        },
        _ => Err(IndexError::NotADirectory),
    }
}

/// The store that a full-scan session over a list of roots builds: each
/// root is scanned in turn against one shared store; a root that fails is
/// skipped and the remaining roots are still attempted.
pub open spec fn spec_index_roots(
    roots: Seq<(String, FsNode)>,
    ignore: Seq<Seq<char>>,
    m: StoreModel,
) -> StoreModel
    decreases roots.len(),
{
    if roots.len() == 0 {
        m
    } else {
        let m1 = spec_index_roots(roots.drop_last(), ignore, m);
        match spec_index(roots.last().0@, roots.last().1@, ignore, m1) {
            Ok(r) => r.0,
            Err(_) => m1,
        }
    }
}

/// Runs a full-scan session: scans every root in turn into one fresh store
/// and returns it. A root that fails leaves the store as it was; the
/// remaining roots are still attempted.
pub fn index_directories(roots: &Vec<(String, FsNode)>, config: &BOFConfig) -> (r: BOFIndex)
    ensures
        r.wf(),
        r@ == spec_index_roots(roots@, config.ignore_model(), spec_empty_store()),
{
    let mut bof_index = BOFIndex::new();
    let n = roots.len();
    let mut i: usize = 0;
    proof {
        assert(bof_index@ =~= spec_empty_store());
        assert(roots@.subrange(0, 0) =~= Seq::<(String, FsNode)>::empty());
    }
    while i < n
        invariant
            bof_index.wf(),
            n == roots.len(),
            i <= n,
            bof_index@ == spec_index_roots(
                roots@.subrange(0, i as int),
                config.ignore_model(),
                spec_empty_store(),
            ),
        decreases n - i,
    {
        let ghost pre = bof_index@;
        let root = &roots[i];
        let _ = index_tree(&root.0, &root.1, &mut bof_index, config);
        proof {
            let cur = roots@.subrange(0, i + 1);
            assert(cur.drop_last() =~= roots@.subrange(0, i as int));
            assert(cur.last() == roots@[i as int]);
        }
        i += 1;
    }
    proof {
        assert(roots@.subrange(0, n as int) =~= roots@);
    }
    bof_index
}

/// The forward entries that a scan of the tree at `path` records: one per
/// readable, non-ignored regular file, keyed by the file's absolute path.
pub open spec fn spec_index_writes(
    path: Seq<char>,
    node: FsNodeModel,
    ignore: Seq<Seq<char>>,
) -> Map<Seq<char>, EntryModel>
    decreases node,
{
    match node {
        FsNodeModel::Directory { children, inode } => {
            if ignore.contains(path) {
                Map::empty()
            } else {
                match children {
                    None => Map::empty(),
                    Some(cs) => spec_index_writes_children(path, cs, ignore),
                }
            }
        },
        _ => Map::empty(),
    }
}

/// The forward entries that scanning a child list records.
pub open spec fn spec_index_writes_children(
    dir: Seq<char>,
    cs: Seq<FsChildModel>,
    ignore: Seq<Seq<char>>,
) -> Map<Seq<char>, EntryModel>
    decreases cs,
{
    if cs.len() == 0 {
        Map::empty()
    } else {
        spec_index_writes_children(dir, cs.drop_last(), ignore).union_prefer_right(
            spec_index_writes_child(dir, cs.last(), ignore),
        )
    }
}

/// The forward entries that one child contributes.
pub open spec fn spec_index_writes_child(
    dir: Seq<char>,
    c: FsChildModel,
    ignore: Seq<Seq<char>>,
) -> Map<Seq<char>, EntryModel>
    decreases c,
{
    match c.stat {
        None => Map::empty(),
        Some(node) => {
            let cpath = spec_join_path(dir, c.name);
            if ignore.contains(cpath) {
                Map::empty()
            } else {
                match node {
                    FsNodeModel::File { content, meta } => match content {
                        Some(text) => Map::empty().insert(
                            cpath,
                            EntryModel {
                                key: spec_file_key(text, c.name),
                                path: cpath,
                                metadata: MetaModel::File(meta),
                            },
                        ),
                        None => Map::empty(),
                    },
                    FsNodeModel::Directory { .. } => spec_index_writes(cpath, node, ignore),
                    FsNodeModel::Other => Map::empty(),
                }
            }
        },
    }
}

/// Whether a scan of `node` at `path` succeeds: the target is a directory
/// and, unless the path is ignored, its children could be enumerated.
pub open spec fn spec_index_succeeds(
    path: Seq<char>,
    node: FsNodeModel,
    ignore: Seq<Seq<char>>,
) -> bool {
    node is Directory && (ignore.contains(path) || node->Directory_children is Some)
}

/// The record that a successful scan returns, a function of the tree and
/// the ignore set alone.
pub open spec fn spec_index_meta(
    path: Seq<char>,
    node: FsNodeModel,
    ignore: Seq<Seq<char>>,
) -> MetaModel
    decreases node,
{
    match node {
        FsNodeModel::Directory { children, inode } => MetaModel::Directory {
            children: if ignore.contains(path) {
                Seq::empty()
            } else {
                match children {
                    Some(cs) => spec_index_records(path, cs, ignore),
                    None => Seq::empty(),
                }
            },
            inode,
        },
        _ => MetaModel::Directory { children: Seq::empty(), inode: 0 },
    }
}

/// The children records that scanning a child list returns.
pub open spec fn spec_index_records(
    dir: Seq<char>,
    cs: Seq<FsChildModel>,
    ignore: Seq<Seq<char>>,
) -> Seq<DirEntryModel>
    decreases cs,
{
    if cs.len() == 0 {
        Seq::empty()
    } else {
        let pre = spec_index_records(dir, cs.drop_last(), ignore);
        match spec_index_child_record(dir, cs.last(), ignore) {
            Some(d) => pre.push(d),
            None => pre,
        }
    }
}

/// The record one child contributes, if any.
pub open spec fn spec_index_child_record(
    dir: Seq<char>,
    c: FsChildModel,
    ignore: Seq<Seq<char>>,
) -> Option<DirEntryModel>
    decreases c,
{
    match c.stat {
        None => None,
        Some(node) => {
            let cpath = spec_join_path(dir, c.name);
            if ignore.contains(cpath) {
                None
            } else {
                match node {
                    FsNodeModel::File { content, meta } => match content {
                        Some(_) => Some(DirEntryModel { name: c.name, data: MetaModel::File(meta) }),
                        None => None,
                    },
                    FsNodeModel::Directory { .. } => if spec_index_succeeds(cpath, node, ignore) {
                        Some(DirEntryModel {
                            name: c.name,
                            data: spec_index_meta(cpath, node, ignore),
                        })
                    } else {
                        None
                    },
                    FsNodeModel::Other => None,
                }
            }
        },
    }
}

/// What a scan writes and returns depends on the tree and the ignore set
/// alone, never on the store it writes into: it succeeds exactly when
/// `spec_index_succeeds` says so, returns the record `spec_index_meta`
/// gives, and its whole effect on the forward map is to lay
/// `spec_index_writes` over whatever the store held. In particular the
/// record trees of two scans of one tree have identical shape and keys,
/// whatever store each scan started from.
pub proof fn lemma_index_describes(
    path: Seq<char>,
    node: FsNodeModel,
    ignore: Seq<Seq<char>>,
    m: StoreModel,
)
    ensures
        (spec_index(path, node, ignore, m) is Ok) == spec_index_succeeds(path, node, ignore),
        (spec_index(path, node, ignore, m) matches Ok(r) ==> r.1 == spec_index_meta(
            path, node, ignore,
        ) && r.0.forward == m.forward.union_prefer_right(spec_index_writes(path, node, ignore))),
    decreases node,
{
    match node {
        FsNodeModel::Directory { children, inode } => {
            if ignore.contains(path) {
                assert(m.forward.union_prefer_right(Map::empty()) =~= m.forward);
            } else {
                match children {
                    None => {},
                    Some(cs) => {
                        lemma_index_children_describes(path, cs, ignore, m);
                    },
                }
            }
        },
        _ => {},
    }
}

/// The child-list form of `lemma_index_describes`.
pub proof fn lemma_index_children_describes(
    dir: Seq<char>,
    cs: Seq<FsChildModel>,
    ignore: Seq<Seq<char>>,
    m: StoreModel,
)
    ensures
        ({
            let r = spec_index_children(dir, cs, ignore, m);
            r.1 == spec_index_records(dir, cs, ignore) && r.0.forward
                == m.forward.union_prefer_right(spec_index_writes_children(dir, cs, ignore))
        }),
    decreases cs,
{
    if cs.len() == 0 {
        assert(m.forward.union_prefer_right(Map::empty()) =~= m.forward);
    } else {
        lemma_index_children_describes(dir, cs.drop_last(), ignore, m);
        let rp = spec_index_children(dir, cs.drop_last(), ignore, m);
        lemma_index_child_describes(dir, cs.last(), ignore, rp.0, rp.1);
        let wp = spec_index_writes_children(dir, cs.drop_last(), ignore);
        let wc = spec_index_writes_child(dir, cs.last(), ignore);
        assert(m.forward.union_prefer_right(wp).union_prefer_right(wc)
            =~= m.forward.union_prefer_right(wp.union_prefer_right(wc)));
    }
}

/// The single-child form of `lemma_index_describes`.
pub proof fn lemma_index_child_describes(
    dir: Seq<char>,
    c: FsChildModel,
    ignore: Seq<Seq<char>>,
    m: StoreModel,
    es: Seq<DirEntryModel>,
)
    ensures
        ({
            let r = spec_index_child(dir, c, ignore, m, es);
            &&& r.0.forward == m.forward.union_prefer_right(
                spec_index_writes_child(dir, c, ignore))
            &&& r.1 == (match spec_index_child_record(dir, c, ignore) {
                Some(d) => es.push(d),
                None => es,
            })
        }),
    decreases c,
{
    match c.stat {
        None => {
            assert(m.forward.union_prefer_right(Map::empty()) =~= m.forward);
        },
        Some(node) => {
            let cpath = spec_join_path(dir, c.name);
            if ignore.contains(cpath) {
                assert(m.forward.union_prefer_right(Map::empty()) =~= m.forward);
            } else {
                match node {
                    FsNodeModel::File { content, meta } => match content {
                        Some(text) => {
                            let e = EntryModel {
                                key: spec_file_key(text, c.name),
                                path: cpath,
                                metadata: MetaModel::File(meta),
                            };
                            assert(m.forward.insert(cpath, e)
                                =~= m.forward.union_prefer_right(Map::empty().insert(cpath, e)));
                        },
                        None => {
                            assert(m.forward.union_prefer_right(Map::empty()) =~= m.forward);
                        },
                    },
                    FsNodeModel::Directory { .. } => {
                        lemma_index_describes(cpath, node, ignore, m);
                        if !spec_index_succeeds(cpath, node, ignore) {
                            assert(m.forward.union_prefer_right(Map::empty()) =~= m.forward);
                        }
                    },
                    FsNodeModel::Other => {
                        assert(m.forward.union_prefer_right(Map::empty()) =~= m.forward);
                    },
                }
            }
        },
    }
}

/// Scanning the same unchanged tree a second time, on top of the store the
/// first scan produced, leaves the forward-entry map exactly as it was: the
/// second pass re-records every file with the same path, key and metadata.
pub proof fn lemma_index_idempotent(
    path: Seq<char>,
    node: FsNodeModel,
    ignore: Seq<Seq<char>>,
    m: StoreModel,
)
    requires
        spec_index(path, node, ignore, m) is Ok,
    ensures
        ({
            let m1 = spec_index(path, node, ignore, m).unwrap().0;
            &&& spec_index(path, node, ignore, m1) is Ok
            &&& spec_index(path, node, ignore, m1).unwrap().0.forward == m1.forward
        }),
{
    let m1 = spec_index(path, node, ignore, m).unwrap().0;
    lemma_index_describes(path, node, ignore, m);
    lemma_index_describes(path, node, ignore, m1);
    let w = spec_index_writes(path, node, ignore);
    assert(m.forward.union_prefer_right(w).union_prefer_right(w)
        =~= m.forward.union_prefer_right(w));
}

/// Ignoring a path guarantees zero forward entries and zero inverse rows
/// for it and all its descendants: the scan leaves the store exactly as it
/// was, and the ignored root's own record is a directory with no children.
pub proof fn lemma_index_ignored_root(
    path: Seq<char>,
    node: FsNodeModel,
    ignore: Seq<Seq<char>>,
    m: StoreModel,
)
    requires
        node is Directory,
        ignore.contains(path),
    ensures
        spec_index(path, node, ignore, m) == Ok::<(StoreModel, MetaModel), IndexError>(
            (m, MetaModel::Directory { children: Seq::empty(), inode: node->Directory_inode }),
        ),
{
}

} // verus!
