//! The per-child work and the under-lock steps of a concurrent session.
//!
//! A concurrent scan dispatches a directory's children as independent units
//! of work: a file's hashing runs off the lock and yields two queue units,
//! a subdirectory is descended into as a unit of its own. The directory's
//! finalizer is the barrier: once every child unit is done, it drains the
//! collected units into the store in one locked region. The caller owns the
//! scheduling (worker pool, queue, lock); every decision and every store
//! mutation stands here.

use vstd::prelude::*;
use crate::hashing::file_key;
use crate::hashing::spec_file_key;
use crate::model::DirEntry;
use crate::model::DirMetaData;
use crate::model::DirEntryModel;
use crate::model::FileMetaData;
use crate::model::MetaData;
use crate::model::MetaModel;
use crate::model::StatInfo;
use crate::model::dir_entries_model;
use crate::model::lemma_dir_entries_model_push;
use crate::paths::join_path;
use crate::paths::spec_join_path;
use crate::store::BOFEntry;
use crate::store::BOFIndex;
use crate::store::EntryModel;
use crate::store::StoreModel;
use crate::store::spec_add_file;
use crate::config::BOFConfig;
use crate::traverse::FsChild;
use crate::traverse::FsNode;
use crate::traverse::FsNodeModel;
use crate::traverse::IndexError;

verus! {

/// One unit that a worker hands to the directory's finalizer: a child
/// record for the children list, or a forward entry to record.
#[derive(Debug)]
pub enum QueueItem {
    DirEntry(DirEntry),
    BOFEntry(BOFEntry),
}

/// Mathematical model of a queue unit.
#[verifier::ext_equal]
pub enum QueueItemModel {
    DirEntry(DirEntryModel),
    BOFEntry(EntryModel),
}

impl View for QueueItem {
    type V = QueueItemModel;

    open spec fn view(&self) -> QueueItemModel {
        match self {
            QueueItem::DirEntry(d) => QueueItemModel::DirEntry(d@),
            QueueItem::BOFEntry(e) => QueueItemModel::BOFEntry(e@),
        }
    }
}

/// Model of a drained unit list, element by element.
pub open spec fn queue_items_model(s: Seq<QueueItem>) -> Seq<QueueItemModel>
    decreases s,
{
    if s.len() == 0 {
        Seq::empty()
    } else {
        queue_items_model(s.drop_last()).push(s.last()@)
    }
}

/// The model of a unit list has the same length and models each unit.
pub broadcast proof fn lemma_queue_items_model(s: Seq<QueueItem>)
    ensures
        (#[trigger] queue_items_model(s)).len() == s.len(),
        forall|i: int| 0 <= i < s.len() ==> queue_items_model(s)[i] == s[i]@,
    decreases s,
{
    if s.len() > 0 {
        lemma_queue_items_model(s.drop_last());
        assert(queue_items_model(s) == queue_items_model(s.drop_last()).push(s.last()@));
        assert forall|i: int| 0 <= i < s.len() implies queue_items_model(s)[i] == s[i]@ by {
            if i < s.len() - 1 {
                assert(s.drop_last()[i] == s[i]);
                assert(queue_items_model(s)[i] == queue_items_model(s.drop_last())[i]);
            } else {
                assert(queue_items_model(s)[i] == s.last()@);
            }
        }
    }
}

/// The work a concurrent scan does for one readable regular file, off the
/// lock: the child record for the children list and the forward entry for
/// the store, both handed to the finalizer as queue units.
pub fn process_file_child(
    dir: &String,
    name: &String,
    content: &String,
    meta: FileMetaData,
) -> (r: (QueueItem, QueueItem))
    ensures
        r.0@ == QueueItemModel::DirEntry(
            DirEntryModel { name: name@, data: MetaModel::File(meta) },
        ),
        r.1@ == QueueItemModel::BOFEntry(
            EntryModel {
                key: spec_file_key(content@, name@),
                path: spec_join_path(dir@, name@),
                metadata: MetaModel::File(meta),
            },
        ),
{
    let key = file_key(content, name);
    let path = join_path(dir, name);
    (
        QueueItem::DirEntry(DirEntry { name: name.clone(), data: MetaData::File(meta) }),
        QueueItem::BOFEntry(BOFEntry { key, path, metadata: MetaData::File(meta) }),
    )
}

/// What draining a unit list into the store does: every forward-entry unit
/// is recorded (its parent directory appended in the inverse table), and
/// the child records come out in queue order.
pub open spec fn spec_drain(items: Seq<QueueItemModel>, m: StoreModel) -> (
    StoreModel,
    Seq<DirEntryModel>,
)
    decreases items,
{
    if items.len() == 0 {
        (m, Seq::empty())
    } else {
        let r = spec_drain(items.drop_last(), m);
        match items.last() {
            QueueItemModel::DirEntry(d) => (r.0, r.1.push(d)),
            QueueItemModel::BOFEntry(e) => (spec_add_file(r.0, e.path, e.key, e.metadata), r.1),
        }
    }
}

/// The finalizer of one directory in a concurrent scan, run as a barrier
/// once every child unit is done, in one locked region: drains the
/// collected units into the store in queue order, then records the
/// directory itself, which adds no forward entry and returns the record
/// built from the drained children.
pub fn finalize_directory(
    bof_index: &mut BOFIndex,
    items: Vec<QueueItem>,
    path: &String,
    dir_key: String,
    inode: u64,
) -> (r: MetaData)
    requires
        old(bof_index).wf(),
        forall|i: int| 0 <= i < items@.len()
            ==> ((#[trigger] items@[i]@) matches QueueItemModel::BOFEntry(e)
                ==> e.metadata is File),
    ensures
        final(bof_index).wf(),
        ({
            let r2 = spec_drain(queue_items_model(items@), old(bof_index)@);
            final(bof_index)@ == r2.0 && r@ == (MetaModel::Directory { children: r2.1, inode })
        }),
{
    let mut dir_entries: Vec<DirEntry> = Vec::new();
    let n = items.len();
    let mut i: usize = 0;
    proof {
        lemma_queue_items_model(items@);
        assert(queue_items_model(items@).subrange(0, 0) =~= Seq::empty());
    }
    while i < n
        invariant
            old(bof_index).wf(),
            bof_index.wf(),
            n == items.len(),
            i <= n,
            forall|j: int| 0 <= j < items@.len()
                ==> ((#[trigger] items@[j]@) matches QueueItemModel::BOFEntry(e)
                    ==> e.metadata is File),
            ({
                let r2 = spec_drain(
                    queue_items_model(items@).subrange(0, i as int),
                    old(bof_index)@,
                );
                bof_index@ == r2.0 && dir_entries_model(dir_entries@) == r2.1
            }),
        decreases n - i,
    {
        let ghost pre_store = bof_index@;
        let ghost pre_entries = dir_entries_model(dir_entries@);
        proof {
            lemma_queue_items_model(items@);
        }
        match &items[i] {
            QueueItem::DirEntry(d) => {
                let e = d.clone();
                proof {
                    lemma_dir_entries_model_push(dir_entries@, e);
                }
                dir_entries.push(e);
            },
            QueueItem::BOFEntry(entry) => {
                match &entry.metadata {
                    MetaData::File(..) => {},
                    MetaData::Directory(..) => {
                        proof {
                            assert(items@[i as int]@ matches QueueItemModel::BOFEntry(e)
                                && !(e.metadata is File));
                            assert(false);
                        }
                    },
                }
                let key = entry.key.clone();
                let epath = entry.path.clone();
                let _ = bof_index.add_entry_meta(&epath, key, &entry.metadata, None);
            },
        }
        proof {
            let models = queue_items_model(items@);
            let pre = models.subrange(0, i as int);
            let cur = models.subrange(0, i + 1);
            assert(cur.drop_last() =~= pre);
            assert(cur.last() == models[i as int]);
            assert(models[i as int] == items@[i as int]@);
            assert(spec_drain(pre, old(bof_index)@) == (pre_store, pre_entries));
            assert((bof_index@, dir_entries_model(dir_entries@))
                =~= spec_drain(cur, old(bof_index)@));
        }
        i += 1;
    }
    proof {
        assert(queue_items_model(items@).subrange(0, n as int) =~= queue_items_model(items@));
    }
    bof_index.add_entry(path, dir_key, &StatInfo::Directory { inode }, Some(dir_entries))
}

/// The store after the under-lock step for a child that needs no further
/// work from its worker: re-hashed in place exactly when a stored file
/// entry disagrees with a readable file snapshot's modification time, and
/// untouched otherwise.
pub open spec fn spec_locked_step(
    m: StoreModel,
    cpath: Seq<char>,
    name: Seq<char>,
    node: FsNodeModel,
) -> StoreModel {
    if m.forward.contains_key(cpath) {
        match (m.forward[cpath].metadata, node) {
            (MetaModel::File(sf), FsNodeModel::File { content, meta }) => {
                if sf.mtime != meta.mtime {
                    match content {
                        Some(text) => StoreModel {
                            forward: m.forward.insert(
                                cpath,
                                EntryModel {
                                    key: spec_file_key(text, name),
                                    path: cpath,
                                    metadata: MetaModel::File(meta),
                                },
                            ),
                            inverse: m.inverse,
                        },
                        None => m,
                    }
                } else {
                    m
                }
            },
            _ => m,
        }
    } else {
        m
    }
}

/// What a concurrent reconciler's worker is to do for a child after the
/// under-lock step: nothing more, descend into a subdirectory off the lock,
/// or hand two units to the directory's finalizer.
#[derive(Debug)]
pub enum UpdateChildAction {
    Nothing,
    Descend,
    Queue(QueueItem, QueueItem),
}

/// The under-lock step of the concurrent reconciler for one child. A child
/// with a stored file entry is re-hashed in place right here exactly when
/// its modification time changed and its content is readable; a stored
/// directory record is a structural conflict and is skipped; a new readable
/// file yields its two queue units; a new subdirectory is left for the
/// caller to descend into off the lock; everything else is skipped. Nothing
/// else about the store changes.
pub fn update_child_locked(
    bof_index: &mut BOFIndex,
    dir: &String,
    name: &String,
    node: &FsNode,
) -> (r: UpdateChildAction)
    requires
        old(bof_index).wf(),
    ensures
        final(bof_index).wf(),
        ({
            let cpath = spec_join_path(dir@, name@);
            let m = old(bof_index)@;
            &&& (!m.forward.contains_key(cpath) && node@ is Directory ==> r is Descend)
            &&& (!m.forward.contains_key(cpath)
                && (node@ matches FsNodeModel::File { content: Some(_), .. }) ==> r is Queue)
            &&& match r {
                UpdateChildAction::Descend => final(bof_index)@ == m && node@ is Directory
                    && !m.forward.contains_key(cpath),
                UpdateChildAction::Queue(d, e) => final(bof_index)@ == m
                    && !m.forward.contains_key(cpath)
                    && (node@ matches FsNodeModel::File { content: Some(text), meta }
                        && d@ == QueueItemModel::DirEntry(
                            DirEntryModel { name: name@, data: MetaModel::File(meta) })
                        && e@ == QueueItemModel::BOFEntry(EntryModel {
                            key: spec_file_key(text, name@),
                            path: cpath,
                            metadata: MetaModel::File(meta),
                        })),
                UpdateChildAction::Nothing => final(bof_index)@ == spec_locked_step(
                    m, cpath, name@, node@),
            }
        }),
{
    let cpath = join_path(dir, name);
    let stored_file = match bof_index.find_entry(&cpath) {
        Some(entry) => match &entry.metadata {
            MetaData::Directory(..) => None,
            MetaData::File(sf) => Some(*sf),
        },
        None => None,
    };
    let has_entry = bof_index.find_entry(&cpath).is_some();
    if has_entry {
        match stored_file {
            None => UpdateChildAction::Nothing,
            Some(sf) => match node {
                FsNode::File { content, meta } => {
                    if sf.mtime != meta.mtime {
                        match content {
                            Some(text) => {
                                let key = file_key(text, name);
                                let _ = bof_index.update_entry(&cpath, key, meta);
                                UpdateChildAction::Nothing
                            },
                            None => UpdateChildAction::Nothing,
                        }
                    } else {
                        UpdateChildAction::Nothing
                    }
                },
                _ => UpdateChildAction::Nothing,
            },
        }
    } else {
        match node {
            FsNode::File { content, meta } => match content {
                Some(text) => {
                    let (d, e) = process_file_child(dir, name, text, *meta);
                    UpdateChildAction::Queue(d, e)
                },
                None => UpdateChildAction::Nothing,
            },
            FsNode::Directory { .. } => UpdateChildAction::Descend,
            FsNode::Other => UpdateChildAction::Nothing,
        }
    }
}

/// What a concurrent scan's worker is to do for one enumerated child:
/// nothing (failed stat, ignored path, unreadable content, odd object
/// kind), descend into a subdirectory off the lock, or hand a file's two
/// units to the directory's finalizer.
#[derive(Debug)]
pub enum IndexChildAction {
    Skip,
    Descend,
    Queue(QueueItem, QueueItem),
}

/// The per-child dispatch of a concurrent scan, run off the lock. Exactly a
/// non-ignored subdirectory is descended into; exactly a non-ignored
/// regular file with readable content yields its two queue units; every
/// other child is skipped.
pub fn index_child_dispatch(dir: &String, c: &FsChild, config: &BOFConfig) -> (r:
    IndexChildAction)
    ensures
        ({
            let cpath = spec_join_path(dir@, c@.name);
            let ig = config.ignore_model();
            &&& (r is Descend <==> (c@.stat matches Some(n) && n is Directory
                && !ig.contains(cpath)))
            &&& (r is Queue <==> (c@.stat matches Some(n)
                && (n matches FsNodeModel::File { content: Some(_), .. })
                && !ig.contains(cpath)))
            &&& (r matches IndexChildAction::Queue(d, e) ==> (c@.stat matches Some(
                FsNodeModel::File { content: Some(text), meta },
            ) && d@ == QueueItemModel::DirEntry(
                DirEntryModel { name: c@.name, data: MetaModel::File(meta) },
            ) && e@ == QueueItemModel::BOFEntry(EntryModel {
                key: spec_file_key(text, c@.name),
                path: cpath,
                metadata: MetaModel::File(meta),
            })))
        }),
{
    match &c.stat {
        None => IndexChildAction::Skip,
        Some(node) => {
            let cpath = join_path(dir, &c.name);
            if config.is_ignored(&cpath) {
                IndexChildAction::Skip
            } else {
                match node {
                    FsNode::File { content, meta } => match content {
                        Some(text) => {
                            let (d, e) = process_file_child(dir, &c.name, text, *meta);
                            IndexChildAction::Queue(d, e)
                        },
                        None => IndexChildAction::Skip,
                    },
                    FsNode::Directory { .. } => IndexChildAction::Descend,
                    FsNode::Other => IndexChildAction::Skip,
                }
            }
        },
    }
}

/// The first step a concurrent session takes at a directory, before its
/// children fan out: fail with `NotADirectory` or `DirUnreadable` exactly
/// as a sequential session would, and stop at an ignored path with its
/// empty-children record. `Ok(None)` means the session proceeds into the
/// children.
pub fn enter_directory(path: &String, node: &FsNode, config: &BOFConfig) -> (r: Result<
    Option<MetaData>,
    IndexError,
>)
    ensures
        ({
            let ig = config.ignore_model();
            &&& (match r {
                Ok(Some(rec)) => node@ is Directory && ig.contains(path@) && rec@
                    == (MetaModel::Directory {
                    children: Seq::empty(),
                    inode: node@->Directory_inode,
                }),
                Ok(None) => node@ is Directory && !ig.contains(path@)
                    && node@->Directory_children is Some,
                Err(e) => e == (if node@ is Directory {
                    IndexError::DirUnreadable
                } else {
                    IndexError::NotADirectory
                }),
            })
            &&& (r is Err <==> !(node@ is Directory) || (!ig.contains(path@)
                && node@->Directory_children is None))
        }),
{
    match node {
        FsNode::Directory { children, inode } => {
            if config.is_ignored(path) {
                let rec = MetaData::Directory(DirMetaData { data: Vec::new(), inode: *inode });
                proof {
                    assert(rec@ =~= (MetaModel::Directory {
                        children: Seq::empty(),
                        inode: *inode,
                    }));
                }
                Ok(Some(rec))
            } else {
                match children {
                    None => Err(IndexError::DirUnreadable),
                    Some(..) => Ok(None),
                }
            }
        },
        _ => Err(IndexError::NotADirectory),
    }
}

/// Whether some forward-entry unit of the list carries exactly `e`.
pub open spec fn drain_has_entry(items: Seq<QueueItemModel>, e: EntryModel) -> bool {
    exists|i: int| 0 <= i < items.len() && items[i] == QueueItemModel::BOFEntry(e)
}

/// Whether some forward-entry unit of the list stands at path `p`.
pub open spec fn drain_has_path(items: Seq<QueueItemModel>, p: Seq<char>) -> bool {
    exists|i: int| 0 <= i < items.len() && (#[trigger] items[i]) is BOFEntry
        && items[i]->BOFEntry_0.path == p
}

/// No two forward-entry units of the list share a path.
pub open spec fn drain_paths_distinct(items: Seq<QueueItemModel>) -> bool {
    forall|i: int, j: int| 0 <= i < j < items.len() && (#[trigger] items[i]) is BOFEntry
        && (#[trigger] items[j]) is BOFEntry
        ==> items[i]->BOFEntry_0.path != items[j]->BOFEntry_0.path
}

/// Draining pins the forward map pointwise: every forward-entry unit ends
/// up under its own path, and every path without a unit keeps exactly what
/// the store held, provided no two units share a path.
pub proof fn lemma_drain_forward(items: Seq<QueueItemModel>, m: StoreModel)
    requires
        drain_paths_distinct(items),
    ensures
        forall|e: EntryModel| #[trigger] drain_has_entry(items, e)
            ==> spec_drain(items, m).0.forward.contains_key(e.path)
                && spec_drain(items, m).0.forward[e.path] == e,
        forall|p: Seq<char>|
            #![trigger drain_has_path(items, p)]
            !drain_has_path(items, p) ==> spec_drain(items, m).0.forward.contains_key(p)
                == m.forward.contains_key(p) && (m.forward.contains_key(p)
                ==> spec_drain(items, m).0.forward[p] == m.forward[p]),
    decreases items.len(),
{
    if items.len() > 0 {
        let d = items.drop_last();
        assert(forall|i: int| 0 <= i < d.len() ==> d[i] == items[i]);
        lemma_drain_forward(d, m);
        let rd = spec_drain(d, m);
        let r = spec_drain(items, m);
        match items.last() {
            QueueItemModel::DirEntry(..) => {
                assert(r.0 == rd.0);
                assert forall|e: EntryModel| #[trigger] drain_has_entry(items, e)
                    implies r.0.forward.contains_key(e.path) && r.0.forward[e.path] == e by {
                    let i = choose|i: int| 0 <= i < items.len()
                        && items[i] == QueueItemModel::BOFEntry(e);
                    assert(i < d.len());
                    assert(drain_has_entry(d, e));
                }
                assert forall|p: Seq<char>| !drain_has_path(items, p)
                    implies r.0.forward.contains_key(p) == m.forward.contains_key(p)
                        && (m.forward.contains_key(p) ==> r.0.forward[p] == m.forward[p]) by {
                    if drain_has_path(d, p) {
                        let i = choose|i: int| 0 <= i < d.len() && d[i] is BOFEntry
                            && d[i]->BOFEntry_0.path == p;
                        assert(items[i] is BOFEntry && items[i]->BOFEntry_0.path == p);
                        assert(drain_has_path(items, p));
                    }
                    assert(!drain_has_path(d, p));
                }
            },
            QueueItemModel::BOFEntry(le) => {
                assert((EntryModel { key: le.key, path: le.path, metadata: le.metadata }) =~= le);
                assert(r.0.forward == rd.0.forward.insert(le.path, le));
                assert(items[items.len() - 1] is BOFEntry
                    && items[items.len() - 1]->BOFEntry_0 == le);
                assert forall|e: EntryModel| #[trigger] drain_has_entry(items, e)
                    implies r.0.forward.contains_key(e.path) && r.0.forward[e.path] == e by {
                    let i = choose|i: int| 0 <= i < items.len()
                        && items[i] == QueueItemModel::BOFEntry(e);
                    if i == items.len() - 1 {
                        assert(e == le);
                    } else {
                        assert(drain_has_entry(d, e));
                        assert(items[i] is BOFEntry && items[i]->BOFEntry_0 == e);
                        assert(e.path != le.path);
                    }
                }
                assert forall|p: Seq<char>| !drain_has_path(items, p)
                    implies r.0.forward.contains_key(p) == m.forward.contains_key(p)
                        && (m.forward.contains_key(p) ==> r.0.forward[p] == m.forward[p]) by {
                    assert(p != le.path);
                    if drain_has_path(d, p) {
                        let i = choose|i: int| 0 <= i < d.len() && d[i] is BOFEntry
                            && d[i]->BOFEntry_0.path == p;
                        assert(items[i] is BOFEntry && items[i]->BOFEntry_0.path == p);
                        assert(drain_has_path(items, p));
                    }
                    assert(!drain_has_path(d, p));
                }
            },
        }
    }
}

/// Two drains of the same forward-entry units — in any order, interleaved
/// with any child-record units — leave the same forward map, provided no
/// two units share a path: the store a concurrent scan builds does not
/// depend on the order in which its workers' units reached the queue. The
/// inverse-table parent lists and the children-list order may still vary,
/// as the concurrency model allows.
pub proof fn lemma_drain_order_insensitive(
    s: Seq<QueueItemModel>,
    t: Seq<QueueItemModel>,
    m: StoreModel,
)
    requires
        drain_paths_distinct(s),
        drain_paths_distinct(t),
        forall|e: EntryModel|
            #![trigger drain_has_entry(s, e)]
            #![trigger drain_has_entry(t, e)]
            drain_has_entry(s, e) <==> drain_has_entry(t, e),
    ensures
        spec_drain(s, m).0.forward == spec_drain(t, m).0.forward,
{
    lemma_drain_forward(s, m);
    lemma_drain_forward(t, m);
    let fs = spec_drain(s, m).0.forward;
    let ft = spec_drain(t, m).0.forward;
    assert forall|p: Seq<char>| drain_has_path(s, p) == drain_has_path(t, p) by {
        if drain_has_path(s, p) {
            let i = choose|i: int| 0 <= i < s.len() && s[i] is BOFEntry
                && s[i]->BOFEntry_0.path == p;
            let e = s[i]->BOFEntry_0;
            assert(s[i] == QueueItemModel::BOFEntry(e));
            assert(drain_has_entry(s, e));
            assert(drain_has_entry(t, e));
            let j = choose|j: int| 0 <= j < t.len() && t[j] == QueueItemModel::BOFEntry(e);
            assert(t[j] is BOFEntry && t[j]->BOFEntry_0.path == p);
            assert(drain_has_path(t, p));
        }
        if drain_has_path(t, p) {
            let i = choose|i: int| 0 <= i < t.len() && t[i] is BOFEntry
                && t[i]->BOFEntry_0.path == p;
            let e = t[i]->BOFEntry_0;
            assert(t[i] == QueueItemModel::BOFEntry(e));
            assert(drain_has_entry(t, e));
            assert(drain_has_entry(s, e));
            let j = choose|j: int| 0 <= j < s.len() && s[j] == QueueItemModel::BOFEntry(e);
            assert(s[j] is BOFEntry && s[j]->BOFEntry_0.path == p);
            assert(drain_has_path(s, p));
        }
    }
    assert forall|p: Seq<char>| #[trigger] fs.dom().contains(p) == ft.dom().contains(p) by {
        if drain_has_path(s, p) {
            let i = choose|i: int| 0 <= i < s.len() && s[i] is BOFEntry
                && s[i]->BOFEntry_0.path == p;
            let e = s[i]->BOFEntry_0;
            assert(s[i] == QueueItemModel::BOFEntry(e));
            assert(drain_has_entry(s, e));
            assert(drain_has_entry(t, e));
            assert(fs.contains_key(p) && fs[p] == e);
            assert(ft.contains_key(p) && ft[p] == e);
        } else {
            assert(!drain_has_path(t, p));
        }
    }
    assert forall|p: Seq<char>| #[trigger] ft.dom().contains(p) implies fs[p] == ft[p] by {
        if drain_has_path(s, p) {
            let i = choose|i: int| 0 <= i < s.len() && s[i] is BOFEntry
                && s[i]->BOFEntry_0.path == p;
            let e = s[i]->BOFEntry_0;
            assert(s[i] == QueueItemModel::BOFEntry(e));
            assert(drain_has_entry(s, e));
            assert(drain_has_entry(t, e));
            assert(fs.contains_key(p) && fs[p] == e);
            assert(ft.contains_key(p) && ft[p] == e);
        } else {
            assert(!drain_has_path(t, p));
        }
    }
    assert(fs.dom() =~= ft.dom());
    assert(fs =~= ft);
}

} // verus!
