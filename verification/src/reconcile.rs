//! The reconciler of an update session. It walks a snapshot of the current
//! filesystem tree against a previously loaded store: a file whose stored
//! modification time disagrees with the snapshot is re-hashed in place, a
//! path with no stored entry is recorded as new, and a path whose stored
//! record is a directory is a structural conflict and is skipped. Entries
//! whose files have disappeared are never removed.

use vstd::prelude::*;
use crate::config::BOFConfig;
use crate::hashing::file_key;
use crate::hashing::generate_key;
use crate::hashing::spec_file_key;
use crate::model::DirEntry;
use crate::model::DirEntryModel;
use crate::model::DirMetaData;
use crate::model::FileMetaData;
use crate::model::MetaData;
use crate::model::MetaModel;
use crate::model::StatInfo;
use crate::model::dir_entries_model;
use crate::model::lemma_dir_entries_model_push;
use crate::paths::join_path;
use crate::paths::spec_join_path;
use crate::store::BOFIndex;
use crate::store::EntryModel;
use crate::store::StoreModel;
use crate::store::spec_add_file;
use crate::traverse::FsChild;
use crate::traverse::FsChildModel;
use crate::traverse::FsNode;
use crate::traverse::FsNodeModel;
use crate::traverse::IndexError;
use crate::traverse::fs_children_model;
use crate::traverse::lemma_fs_children_model;

verus! {

/// What re-hashing the file at `path` does to the store: its forward entry
/// gets the new key and metadata; the inverse table is never touched.
pub open spec fn spec_replace_file(
    m: StoreModel,
    path: Seq<char>,
    key: Seq<char>,
    meta: FileMetaData,
) -> StoreModel {
    StoreModel {
        forward: m.forward.insert(
            path,
            EntryModel { key, path, metadata: MetaModel::File(meta) },
        ),
        inverse: m.inverse,
    }
}

/// What an update of the tree rooted at `path` does to the store, and the
/// record it returns. An ignored directory contributes nothing; otherwise
/// every child with a stored file entry is re-hashed in place exactly when
/// its modification time changed and its content is readable, a child with
/// a stored directory record is a structural conflict and is skipped, and a
/// child with no stored entry is recorded as a full scan would. The
/// returned record reuses the stored record when one stands at `path`,
/// else it is built from the newly recorded children alone.
pub open spec fn spec_update(
    path: Seq<char>,
    node: FsNodeModel,
    ignore: Seq<Seq<char>>,
    m: StoreModel,
) -> Result<(StoreModel, MetaModel), IndexError>
    decreases node,
{
    match node {
        FsNodeModel::Directory { children, inode } => {
            if ignore.contains(path) {
                Ok((m, MetaModel::Directory { children: Seq::empty(), inode }))
            } else {
                match children {
                    None => Err(IndexError::DirUnreadable),
                    Some(cs) => {
                        let r = spec_update_children(path, cs, ignore, m);
                        if r.0.forward.contains_key(path) {
                            Ok((r.0, r.0.forward[path].metadata))
                        } else {
                            Ok((r.0, MetaModel::Directory { children: r.1, inode }))
                        }
                    },
                }
            }
        },
        _ => Err(IndexError::NotADirectory),
    }
}

/// The store and fresh children records that reconciling a child list
/// builds up, in enumeration order.
pub open spec fn spec_update_children(
    dir: Seq<char>,
    cs: Seq<FsChildModel>,
    ignore: Seq<Seq<char>>,
    m: StoreModel,
) -> (StoreModel, Seq<DirEntryModel>)
    decreases cs,
{
    if cs.len() == 0 {
        (m, Seq::empty())
    } else {
        let r = spec_update_children(dir, cs.drop_last(), ignore, m);
        spec_update_child(dir, cs.last(), ignore, r.0, r.1)
    }
}

/// One child's contribution to the reconciliation.
pub open spec fn spec_update_child(
    dir: Seq<char>,
    c: FsChildModel,
    ignore: Seq<Seq<char>>,
    m: StoreModel,
    es: Seq<DirEntryModel>,
) -> (StoreModel, Seq<DirEntryModel>)
    decreases c,
{
    match c.stat {
        None => (m, es),
        Some(node) => {
            let cpath = spec_join_path(dir, c.name);
            if m.forward.contains_key(cpath) {
                match m.forward[cpath].metadata {
                    MetaModel::Directory { .. } => (m, es),
                    MetaModel::File(sf) => match node {
                        FsNodeModel::File { content, meta } => {
                            if sf.mtime != meta.mtime {
                                match content {
                                    Some(text) => (
                                        spec_replace_file(m, cpath,
                                            spec_file_key(text, c.name), meta),
                                        es,
                                    ),
                                    None => (m, es),
                                }
                            } else {
                                (m, es)
                            }
                        },
                        _ => (m, es),
                    },
                }
            } else {
                match node {
                    FsNodeModel::File { content, meta } => match content {
                        Some(text) => (
                            spec_add_file(m, cpath, spec_file_key(text, c.name),
                                MetaModel::File(meta)),
                            es.push(DirEntryModel { name: c.name, data: MetaModel::File(meta) }),
                        ),
                        None => (m, es),
                    },
                    FsNodeModel::Directory { .. } => match spec_update(cpath, node, ignore, m) {
                        Ok(r) => (r.0, es.push(DirEntryModel { name: c.name, data: r.1 })),
                        Err(_) => (m, es),
                    },
                    FsNodeModel::Other => (m, es),
                }
            }
        },
    }
}

/// Reconciles the tree rooted at `path` against `bof_index`, exactly as
/// `spec_update` describes, and returns the root's record.
pub fn update_tree(
    path: &String,
    node: &FsNode,
    bof_index: &mut BOFIndex,
    config: &BOFConfig,
) -> (r: Result<MetaData, IndexError>)
    requires
        old(bof_index).wf(),
    ensures
        final(bof_index).wf(),
        (match r {
            Ok(meta) => spec_update(path@, node@, config.ignore_model(), old(bof_index)@)
                == Ok::<(StoreModel, MetaModel), IndexError>((final(bof_index)@, meta@)),
            Err(e) => spec_update(path@, node@, config.ignore_model(), old(bof_index)@)
                == Err::<(StoreModel, MetaModel), IndexError>(e)
                && final(bof_index)@ == old(bof_index)@,
        }),
    decreases node,
{
    let ghost ig = config.ignore_model();
    match node {
        FsNode::Directory { children, inode } => {
            if config.is_ignored(path) {
                let rec = MetaData::Directory(DirMetaData { data: Vec::new(), inode: *inode });
                proof {
                    assert(rec@ =~= (MetaModel::Directory {
                        children: Seq::empty(),
                        inode: *inode,
                    }));
                }
                Ok(rec)
            } else {
                match children {
                    None => Err(IndexError::DirUnreadable),
                    Some(cs) => {
                        let dir_key = generate_key(path.as_str());
                        let mut dir_entries: Vec<DirEntry> = Vec::new();
                        let n = cs.len();
                        let mut i: usize = 0;
                        proof {
                            lemma_fs_children_model(cs@);
                            assert(fs_children_model(cs@).subrange(0, 0) =~= Seq::empty());
                        }
                        while i < n
                            invariant
                                (*node == FsNode::Directory {
                                    children: Some(*cs),
                                    inode: *inode,
                                }),
                                ig == config.ignore_model(),
                                old(bof_index).wf(),
                                bof_index.wf(),
                                n == cs.len(),
                                i <= n,
                                ({
                                    let r = spec_update_children(
                                        path@,
                                        fs_children_model(cs@).subrange(0, i as int),
                                        ig,
                                        old(bof_index)@,
                                    );
                                    bof_index@ == r.0 && dir_entries_model(dir_entries@) == r.1
                                }),
                            decreases n - i,
                        {
                            let ghost pre_store = bof_index@;
                            let ghost pre_entries = dir_entries_model(dir_entries@);
                            let c = &cs[i];
                            proof {
                                lemma_fs_children_model(cs@);
                            }
                            match &c.stat {
                                None => {
                                    proof {
                                        assert(spec_update_child(path@, c@, ig, pre_store, pre_entries)
                                            == (pre_store, pre_entries));
                                    }
                                },
                                Some(cn) => {
                                    proof {
                                        assert(c@.stat == Some(cn@));
                                    }
                                    let cpath = join_path(path, &c.name);
                                    let stored_file = match bof_index.find_entry(&cpath) {
                                        Some(entry) => match &entry.metadata {
                                            MetaData::Directory(..) => None,
                                            MetaData::File(sf) => Some(*sf),
                                        },
                                        None => None,
                                    };
                                    let has_entry = bof_index.find_entry(&cpath).is_some();
                                    if has_entry {
                                        match stored_file {
                                            None => {
                                                proof {
                                                    assert(spec_update_child(
                                                        path@, c@, ig, pre_store, pre_entries)
                                                        == (pre_store, pre_entries));
                                                }
                                            },
                                            Some(sf) => {
                                                match cn {
                                                    FsNode::File { content, meta } => {
                                                        if sf.mtime != meta.mtime {
                                                            match content {
                                                                Some(text) => {
                                                                    let key = file_key(text, &c.name);
                                                                    let _ = bof_index.update_entry(
                                                                        &cpath, key, meta);
                                                                    proof {
                                                                        let sr = spec_update_child(
                                                                            path@, c@, ig,
                                                                            pre_store, pre_entries);
                                                                        assert(bof_index@ =~= sr.0);
                                                                        assert(dir_entries_model(
                                                                            dir_entries@) == sr.1);
                                                                    }
                                                                },
                                                                None => {
                                                                    proof {
                                                                        assert(spec_update_child(
                                                                            path@, c@, ig,
                                                                            pre_store, pre_entries)
                                                                            == (pre_store, pre_entries));
                                                                    }
                                                                },
                                                            }
                                                        } else {
                                                            proof {
                                                                assert(spec_update_child(
                                                                    path@, c@, ig,
                                                                    pre_store, pre_entries)
                                                                    == (pre_store, pre_entries));
                                                            }
                                                        }
                                                    },
                                                    _ => {
                                                        proof {
                                                            assert(spec_update_child(
                                                                path@, c@, ig,
                                                                pre_store, pre_entries)
                                                                == (pre_store, pre_entries));
                                                        }
                                                    },
                                                }
                                            },
                                        }
                                    } else {
                                        match cn {
                                            FsNode::File { content, meta } => {
                                                match content {
                                                    Some(text) => {
                                                        let key = file_key(text, &c.name);
                                                        let rec = bof_index.add_entry(
                                                            &cpath,
                                                            key,
                                                            &StatInfo::File(*meta),
                                                            None,
                                                        );
                                                        let e = DirEntry {
                                                            name: c.name.clone(),
                                                            data: rec,
                                                        };
                                                        proof {
                                                            lemma_dir_entries_model_push(
                                                                dir_entries@, e);
                                                        }
                                                        dir_entries.push(e);
                                                        proof {
                                                            let sr = spec_update_child(
                                                                path@, c@, ig,
                                                                pre_store, pre_entries);
                                                            assert(bof_index@ == sr.0);
                                                            assert(dir_entries_model(dir_entries@)
                                                                =~= sr.1);
                                                        }
                                                    },
                                                    None => {
                                                        proof {
                                                            assert(spec_update_child(
                                                                path@, c@, ig,
                                                                pre_store, pre_entries)
                                                                == (pre_store, pre_entries));
                                                        }
                                                    },
                                                }
                                            },
                                            FsNode::Directory { .. } => {
                                                proof {
                                                    let oc = node->Directory_children;
                                                    let v = oc->0;
                                                    assert(v == *cs);
                                                    let ch = v@[i as int];
                                                    assert(ch == *c);
                                                    assert(ch.stat->0 == *cn);
                                                    assert(decreases_to!(
                                                        *node => node->Directory_children));
                                                    assert(decreases_to!(oc => oc->0));
                                                    assert(decreases_to!(v => v@));
                                                    assert(decreases_to!(v@ => v@[i as int]));
                                                    assert(decreases_to!(ch => ch.stat));
                                                    assert(decreases_to!(ch.stat => ch.stat->0));
                                                    assert(decreases_to!(*node => *cn));
                                                }
                                                match update_tree(&cpath, cn, bof_index, config) {
                                                    Ok(sub) => {
                                                        let e = DirEntry {
                                                            name: c.name.clone(),
                                                            data: sub,
                                                        };
                                                        proof {
                                                            lemma_dir_entries_model_push(
                                                                dir_entries@, e);
                                                        }
                                                        dir_entries.push(e);
                                                        proof {
                                                            let sr = spec_update_child(
                                                                path@, c@, ig,
                                                                pre_store, pre_entries);
                                                            assert(bof_index@ == sr.0);
                                                            assert(dir_entries_model(dir_entries@)
                                                                =~= sr.1);
                                                        }
                                                    },
                                                    Err(_) => {
                                                        proof {
                                                            assert(spec_update_child(
                                                                path@, c@, ig,
                                                                pre_store, pre_entries)
                                                                == (pre_store, pre_entries));
                                                        }
                                                    },
                                                }
                                            },
                                            FsNode::Other => {
                                                proof {
                                                    assert(spec_update_child(
                                                        path@, c@, ig, pre_store, pre_entries)
                                                        == (pre_store, pre_entries));
                                                }
                                            },
                                        }
                                    }
                                },
                            }
                            proof {
                                let models = fs_children_model(cs@);
                                let pre = models.subrange(0, i as int);
                                let cur = models.subrange(0, i + 1);
                                assert(cur.drop_last() =~= pre);
                                assert(cur.last() == models[i as int]);
                                assert(models[i as int] == cs@[i as int]@);
                                let rp = spec_update_children(path@, pre, ig, old(bof_index)@);
                                assert(rp == (pre_store, pre_entries));
                                assert(spec_update_children(path@, cur, ig, old(bof_index)@)
                                    == spec_update_child(path@, c@, ig, pre_store, pre_entries));
                            }
                            i += 1;
                        }
                        proof {
                            assert(fs_children_model(cs@).subrange(0, n as int)
                                =~= fs_children_model(cs@));
                        }
                        let reuse = match bof_index.find_entry(path) {
                            Some(entry) => Some(entry.metadata.clone()),
                            None => None,
                        };
                        match reuse {
                            Some(meta) => Ok(meta),
                            None => {
                                let rec = bof_index.add_entry(
                                    path,
                                    dir_key,
                                    &StatInfo::Directory { inode: *inode },
                                    Some(dir_entries),
                                );
                                Ok(rec)
                            },
                        }
                    },
                }
            }
        },
        _ => Err(IndexError::NotADirectory),
    }
}

/// The store that an update session over a list of roots leaves behind:
/// each root is reconciled in turn against one shared store; a root that
/// fails is skipped and the remaining roots are still attempted.
pub open spec fn spec_update_roots(
    roots: Seq<(String, FsNode)>,
    ignore: Seq<Seq<char>>,
    m: StoreModel,
) -> StoreModel
    decreases roots.len(),
{
    if roots.len() == 0 {
        m
    } else {
        let m1 = spec_update_roots(roots.drop_last(), ignore, m);
        match spec_update(roots.last().0@, roots.last().1@, ignore, m1) {
            Ok(r) => r.0,
            Err(_) => m1,
        }
    }
}

/// Runs an update session: reconciles every root in turn against the loaded
/// store. A root that fails leaves the store as it was; the remaining roots
/// are still attempted.
pub fn update_directories(
    roots: &Vec<(String, FsNode)>,
    bof_index: &mut BOFIndex,
    config: &BOFConfig,
)
    requires
        old(bof_index).wf(),
    ensures
        final(bof_index).wf(),
        final(bof_index)@ == spec_update_roots(roots@, config.ignore_model(), old(bof_index)@),
{
    let n = roots.len();
    let mut i: usize = 0;
    proof {
        assert(roots@.subrange(0, 0) =~= Seq::<(String, FsNode)>::empty());
    }
    while i < n
        invariant
            old(bof_index).wf(),
            bof_index.wf(),
            n == roots.len(),
            i <= n,
            bof_index@ == spec_update_roots(
                roots@.subrange(0, i as int),
                config.ignore_model(),
                old(bof_index)@,
            ),
        decreases n - i,
    {
        let root = &roots[i];
        let _ = update_tree(&root.0, &root.1, bof_index, config);
        proof {
            let cur = roots@.subrange(0, i + 1);
            assert(cur.drop_last() =~= roots@.subrange(0, i as int));
            assert(cur.last() == roots@[i as int]);
        }
        i += 1;
    }
    proof {
        assert(roots@.subrange(0, n as int) =~= roots@);
    }
}

/// Whether the snapshot tree and the store agree everywhere but possibly at
/// `changed`: every file child at any depth has a stored file entry, with equal
/// modification times unless the child's path is `changed`; subdirectories
/// recurse wherever the reconciler would descend.
pub open spec fn spec_synced_except(
    dir: Seq<char>,
    node: FsNodeModel,
    m: StoreModel,
    changed: Seq<char>,
) -> bool
    decreases node,
{
    match node {
        FsNodeModel::Directory { children, .. } => match children {
            Some(cs) => spec_synced_children_except(dir, cs, m, changed),
            None => true,
        },
        _ => true,
    }
}

/// The child-list form of `spec_synced_except`.
pub open spec fn spec_synced_children_except(
    dir: Seq<char>,
    cs: Seq<FsChildModel>,
    m: StoreModel,
    changed: Seq<char>,
) -> bool
    decreases cs,
{
    if cs.len() == 0 {
        true
    } else {
        spec_synced_children_except(dir, cs.drop_last(), m, changed)
            && spec_synced_child_except(dir, cs.last(), m, changed)
    }
}

/// The single-child form of `spec_synced_except`.
pub open spec fn spec_synced_child_except(
    dir: Seq<char>,
    c: FsChildModel,
    m: StoreModel,
    changed: Seq<char>,
) -> bool
    decreases c,
{
    match c.stat {
        None => true,
        Some(node) => {
            let cpath = spec_join_path(dir, c.name);
            match node {
                FsNodeModel::File { meta, .. } => m.forward.contains_key(cpath)
                    && (m.forward[cpath].metadata matches MetaModel::File(sf)
                        && (cpath == changed || sf.mtime == meta.mtime)),
                FsNodeModel::Directory { .. } => m.forward.contains_key(cpath)
                    || spec_synced_except(cpath, node, m, changed),
                FsNodeModel::Other => true,
            }
        },
    }
}

/// Whether store `a` is store `b` with at most the forward entry at `changed`
/// rewritten in place: same inverse table, same set of forward paths, the
/// same entry at every path but `changed`, and at `changed` still a file entry.
pub open spec fn spec_store_agrees_except(a: StoreModel, b: StoreModel, changed: Seq<char>) -> bool {
    &&& a.inverse == b.inverse
    &&& a.forward.dom() == b.forward.dom()
    &&& forall|p: Seq<char>| #[trigger] a.forward.contains_key(p) && p != changed
        ==> a.forward[p] == b.forward[p]
    &&& (a.forward.contains_key(changed) ==> a.forward[changed].metadata is File)
}

/// When the snapshot and the store agree everywhere but at one path `changed`,
/// an update run touches nothing but that path: the inverse table and the
/// set of forward paths stay exactly as they were, every forward entry
/// other than `changed`'s is left byte for byte as it was, and at most the entry
/// at `changed` is rewritten in place.
pub proof fn lemma_update_single_change(
    path: Seq<char>,
    node: FsNodeModel,
    ignore: Seq<Seq<char>>,
    m: StoreModel,
    m_in: StoreModel,
    changed: Seq<char>,
)
    requires
        spec_synced_except(path, node, m, changed),
        spec_store_agrees_except(m_in, m, changed),
    ensures
        (spec_update(path, node, ignore, m_in) matches Ok(r)
            ==> spec_store_agrees_except(r.0, m, changed)),
    decreases node,
{
    match node {
        FsNodeModel::Directory { children, .. } => match children {
            Some(cs) => {
                if !ignore.contains(path) {
                    lemma_update_children_single_change(path, cs, ignore, m, m_in, changed,
                        Seq::empty());
                }
            },
            None => {},
        },
        _ => {},
    }
}

/// The child-list form of `lemma_update_single_change`.
pub proof fn lemma_update_children_single_change(
    dir: Seq<char>,
    cs: Seq<FsChildModel>,
    ignore: Seq<Seq<char>>,
    m: StoreModel,
    m_in: StoreModel,
    changed: Seq<char>,
    es: Seq<DirEntryModel>,
)
    requires
        spec_synced_children_except(dir, cs, m, changed),
        spec_store_agrees_except(m_in, m, changed),
    ensures
        spec_store_agrees_except(spec_update_children(dir, cs, ignore, m_in).0, m, changed),
    decreases cs,
{
    if cs.len() > 0 {
        lemma_update_children_single_change(dir, cs.drop_last(), ignore, m, m_in, changed, es);
        let r = spec_update_children(dir, cs.drop_last(), ignore, m_in);
        lemma_update_child_single_change(dir, cs.last(), ignore, m, r.0, changed, r.1);
    }
}

/// The single-child form of `lemma_update_single_change`.
pub proof fn lemma_update_child_single_change(
    dir: Seq<char>,
    c: FsChildModel,
    ignore: Seq<Seq<char>>,
    m: StoreModel,
    m_in: StoreModel,
    changed: Seq<char>,
    es: Seq<DirEntryModel>,
)
    requires
        spec_synced_child_except(dir, c, m, changed),
        spec_store_agrees_except(m_in, m, changed),
    ensures
        spec_store_agrees_except(spec_update_child(dir, c, ignore, m_in, es).0, m, changed),
    decreases c,
{
    match c.stat {
        None => {},
        Some(node) => {
            let cpath = spec_join_path(dir, c.name);
            match node {
                FsNodeModel::File { content, meta } => {
                    assert(m.forward.contains_key(cpath));
                    assert(m_in.forward.dom() == m.forward.dom());
                    assert(m_in.forward.contains_key(cpath));
                    let r = spec_update_child(dir, c, ignore, m_in, es);
                    if cpath == changed {
                        assert(m_in.forward[changed].metadata is File);
                        if (m_in.forward[cpath].metadata matches MetaModel::File(sf)
                            && sf.mtime != meta.mtime && content is Some) {
                            assert(r.0.forward.dom() =~= m.forward.dom());
                        }
                    } else {
                        assert(m_in.forward[cpath] == m.forward[cpath]);
                        assert(m.forward[cpath].metadata matches MetaModel::File(sf)
                            && sf.mtime == meta.mtime);
                        assert(r.0 == m_in);
                    }
                },
                FsNodeModel::Directory { .. } => {
                    assert(m_in.forward.contains_key(cpath) == m.forward.contains_key(cpath));
                    if !m_in.forward.contains_key(cpath) {
                        assert(spec_synced_except(cpath, node, m, changed));
                        lemma_update_single_change(cpath, node, ignore, m, m_in, changed);
                    }
                },
                FsNodeModel::Other => {},
            }
        },
    }
}

/// When every file child of the tree has a stored file entry with an equal
/// modification time, and `changed` names no stored path at all, an update
/// run leaves the whole store exactly as it is: nothing is re-hashed,
/// nothing is added, the inverse table is untouched.
pub proof fn lemma_update_synced_unchanged(
    path: Seq<char>,
    node: FsNodeModel,
    ignore: Seq<Seq<char>>,
    m: StoreModel,
    changed: Seq<char>,
)
    requires
        spec_synced_except(path, node, m, changed),
        !m.forward.contains_key(changed),
    ensures
        (spec_update(path, node, ignore, m) matches Ok(r) ==> r.0 == m),
{
    lemma_update_single_change(path, node, ignore, m, m, changed);
    match spec_update(path, node, ignore, m) {
        Ok(r) => {
            assert(r.0.forward =~= m.forward);
            assert(r.0 =~= m);
        },
        Err(_) => {},
    }
}

} // verus!
