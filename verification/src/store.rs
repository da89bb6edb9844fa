//! The index store: the forward map from absolute path to entry, and the
//! inverse table from identity key to the parent directories recorded for
//! it. All mutation goes through whole-operation methods.

use vstd::prelude::*;
use crate::model::DirEntry;
use crate::model::DirMetaData;
use crate::model::FileMetaData;
use crate::model::MetaData;
use crate::model::MetaModel;
use crate::model::StatInfo;
use crate::model::dir_entries_model;
use crate::paths::parent_dir;
use crate::paths::spec_parent_dir;

verus! {

/// A forward entry: the identity key and metadata recorded for a path.
#[derive(Debug)]
pub struct BOFEntry {
    pub key: String,
    pub path: String,
    pub metadata: MetaData,
}

/// Mathematical model of a forward entry.
#[verifier::ext_equal]
pub struct EntryModel {
    pub key: Seq<char>,
    pub path: Seq<char>,
    pub metadata: MetaModel,
}

impl View for BOFEntry {
    type V = EntryModel;

    open spec fn view(&self) -> EntryModel {
        EntryModel { key: self.key@, path: self.path@, metadata: self.metadata@ }
    }
}

impl Clone for BOFEntry {
    /// The copy has the same model.
    fn clone(&self) -> (r: Self)
        ensures
            r@ == self@,
    {
        BOFEntry {
            key: self.key.clone(),
            path: self.path.clone(),
            metadata: self.metadata.clone(),
        }
    }
}

/// One row of the inverse table: a key and the parent directories recorded
/// under it, in insertion order, not deduplicated.
#[derive(Debug)]
pub struct InverseRow {
    pub key: String,
    pub parents: Vec<String>,
}

impl Clone for InverseRow {
    /// The copy has the same key and the same parent list.
    fn clone(&self) -> (r: Self)
        ensures
            r.key@ == self.key@,
            r.parents.deep_view() == self.parents.deep_view(),
    {
        let parents = self.parents.clone();
        proof {
            assert(parents.deep_view() =~= self.parents.deep_view());
        }
        InverseRow { key: self.key.clone(), parents }
    }
}

/// Mathematical model of the whole store.
#[verifier::ext_equal]
pub struct StoreModel {
    pub forward: Map<Seq<char>, EntryModel>,
    pub inverse: Map<Seq<char>, Seq<Seq<char>>>,
}

/// The forward map that a sequence of entries builds up, a later entry at
/// the same path replacing an earlier one.
pub open spec fn forward_model(s: Seq<BOFEntry>) -> Map<Seq<char>, EntryModel>
    decreases s.len(),
{
    if s.len() == 0 {
        Map::empty()
    } else {
        forward_model(s.drop_last()).insert(s.last().path@, s.last()@)
    }
}

/// The inverse map that a sequence of rows builds up, a later row with the
/// same key replacing an earlier one.
pub open spec fn inverse_model(s: Seq<InverseRow>) -> Map<Seq<char>, Seq<Seq<char>>>
    decreases s.len(),
{
    if s.len() == 0 {
        Map::empty()
    } else {
        inverse_model(s.drop_last()).insert(s.last().key@, s.last().parents.deep_view())
    }
}

/// Appending an entry inserts it into the forward map.
pub proof fn lemma_forward_model_push(s: Seq<BOFEntry>, e: BOFEntry)
    ensures
        forward_model(s.push(e)) == forward_model(s).insert(e.path@, e@),
{
    assert(s.push(e).drop_last() =~= s);
}

/// Appending a row inserts it into the inverse map.
pub proof fn lemma_inverse_model_push(s: Seq<InverseRow>, r: InverseRow)
    ensures
        inverse_model(s.push(r)) == inverse_model(s).insert(r.key@, r.parents.deep_view()),
{
    assert(s.push(r).drop_last() =~= s);
}

/// With pairwise distinct paths, the forward map holds exactly the entries
/// of the sequence, each under its own path.
pub proof fn lemma_forward_model_unique(s: Seq<BOFEntry>)
    requires
        forall|i: int, j: int| 0 <= i < j < s.len() ==> s[i].path@ != s[j].path@,
    ensures
        forall|i: int| 0 <= i < s.len() ==> forward_model(s).contains_key(#[trigger] s[i].path@)
            && forward_model(s)[s[i].path@] == s[i]@,
        forall|p: Seq<char>| #[trigger] forward_model(s).contains_key(p)
            ==> exists|i: int| 0 <= i < s.len() && s[i].path@ == p,
    decreases s.len(),
{
    if s.len() > 0 {
        let d = s.drop_last();
        assert(forall|i: int| 0 <= i < d.len() ==> d[i] == s[i]);
        lemma_forward_model_unique(d);
        assert forall|p: Seq<char>| #[trigger] forward_model(s).contains_key(p)
            implies exists|i: int| 0 <= i < s.len() && s[i].path@ == p by {
            if p == s.last().path@ {
                assert(s[s.len() - 1].path@ == p);
            } else {
                assert(forward_model(d).contains_key(p));
                let i = choose|i: int| 0 <= i < d.len() && d[i].path@ == p;
                assert(s[i].path@ == p);
            }
        }
    }
}

/// With pairwise distinct keys, the inverse map holds exactly the rows of
/// the sequence, each under its own key.
pub proof fn lemma_inverse_model_unique(s: Seq<InverseRow>)
    requires
        forall|i: int, j: int| 0 <= i < j < s.len() ==> s[i].key@ != s[j].key@,
    ensures
        forall|i: int| 0 <= i < s.len() ==> inverse_model(s).contains_key(#[trigger] s[i].key@)
            && inverse_model(s)[s[i].key@] == s[i].parents.deep_view(),
        forall|k: Seq<char>| #[trigger] inverse_model(s).contains_key(k)
            ==> exists|i: int| 0 <= i < s.len() && s[i].key@ == k,
    decreases s.len(),
{
    if s.len() > 0 {
        let d = s.drop_last();
        assert(forall|i: int| 0 <= i < d.len() ==> d[i] == s[i]);
        lemma_inverse_model_unique(d);
        assert forall|k: Seq<char>| #[trigger] inverse_model(s).contains_key(k)
            implies exists|i: int| 0 <= i < s.len() && s[i].key@ == k by {
            if k == s.last().key@ {
                assert(s[s.len() - 1].key@ == k);
            } else {
                assert(inverse_model(d).contains_key(k));
                let i = choose|i: int| 0 <= i < d.len() && d[i].key@ == k;
                assert(s[i].key@ == k);
            }
        }
    }
}

/// Replacing the entry at a path updates the forward map at that path.
pub proof fn lemma_forward_model_update(s: Seq<BOFEntry>, i: int, e: BOFEntry)
    requires
        forall|x: int, y: int| 0 <= x < y < s.len() ==> s[x].path@ != s[y].path@,
        0 <= i < s.len(),
        e.path@ == s[i].path@,
    ensures
        forward_model(s.update(i, e)) == forward_model(s).insert(e.path@, e@),
    decreases s.len(),
{
    let t = s.update(i, e);
    if i == s.len() - 1 {
        assert(t.drop_last() =~= s.drop_last());
        assert(t.last() == e);
        assert(forward_model(t) =~= forward_model(s).insert(e.path@, e@));
    } else {
        let d = s.drop_last();
        assert(forall|x: int| 0 <= x < d.len() ==> d[x] == s[x]);
        lemma_forward_model_update(d, i, e);
        assert(t.drop_last() =~= d.update(i, e));
        assert(t.last() == s.last());
        assert(s.last().path@ != e.path@);
        assert(forward_model(t) =~= forward_model(s).insert(e.path@, e@));
    }
}

/// Replacing the row at a key updates the inverse map at that key.
pub proof fn lemma_inverse_model_update(s: Seq<InverseRow>, i: int, r: InverseRow)
    requires
        forall|x: int, y: int| 0 <= x < y < s.len() ==> s[x].key@ != s[y].key@,
        0 <= i < s.len(),
        r.key@ == s[i].key@,
    ensures
        inverse_model(s.update(i, r)) == inverse_model(s).insert(r.key@, r.parents.deep_view()),
    decreases s.len(),
{
    let t = s.update(i, r);
    if i == s.len() - 1 {
        assert(t.drop_last() =~= s.drop_last());
        assert(t.last() == r);
        assert(inverse_model(t) =~= inverse_model(s).insert(r.key@, r.parents.deep_view()));
    } else {
        let d = s.drop_last();
        assert(forall|x: int| 0 <= x < d.len() ==> d[x] == s[x]);
        lemma_inverse_model_update(d, i, r);
        assert(t.drop_last() =~= d.update(i, r));
        assert(t.last() == s.last());
        assert(s.last().key@ != r.key@);
        assert(inverse_model(t) =~= inverse_model(s).insert(r.key@, r.parents.deep_view()));
    }
}

/// Two entry sequences with the same models build the same forward map.
pub proof fn lemma_forward_model_congruent(s: Seq<BOFEntry>, t: Seq<BOFEntry>)
    requires
        s.len() == t.len(),
        forall|i: int| 0 <= i < s.len() ==> s[i]@ == #[trigger] t[i]@,
    ensures
        forward_model(s) == forward_model(t),
    decreases s.len(),
{
    if s.len() > 0 {
        assert(forall|i: int| 0 <= i < s.len() - 1
            ==> s.drop_last()[i]@ == #[trigger] t.drop_last()[i]@);
        lemma_forward_model_congruent(s.drop_last(), t.drop_last());
        assert(s.last()@ == t.last()@);
        assert(s.last().path@ == t.last().path@);
    }
}


/// The model of an empty store.
pub open spec fn spec_empty_store() -> StoreModel {
    StoreModel { forward: Map::empty(), inverse: Map::empty() }
}

/// The parent-directory list recorded under a key, empty if the key has no
/// row yet.
pub open spec fn spec_inverse_parents(m: StoreModel, key: Seq<char>) -> Seq<Seq<char>> {
    if m.inverse.contains_key(key) {
        m.inverse[key]
    } else {
        Seq::empty()
    }
}

/// What recording a file does to the store: the forward entry at `path` is
/// inserted or replaced, and the file's parent directory is appended under
/// `key` in the inverse table.
pub open spec fn spec_add_file(
    m: StoreModel,
    path: Seq<char>,
    key: Seq<char>,
    metadata: MetaModel,
) -> StoreModel {
    StoreModel {
        forward: m.forward.insert(path, EntryModel { key, path, metadata }),
        inverse: m.inverse.insert(
            key,
            spec_inverse_parents(m, key).push(spec_parent_dir(path)),
        ),
    }
}

/// The index store. The forward map holds at most one entry per path; the
/// inverse table holds at most one row per key.
#[derive(Debug)]
pub struct BOFIndex {
    entries: Vec<BOFEntry>,
    inverse_table: Vec<InverseRow>,
}

impl View for BOFIndex {
    type V = StoreModel;

    closed spec fn view(&self) -> StoreModel {
        StoreModel {
            forward: forward_model(self.entries@),
            inverse: inverse_model(self.inverse_table@),
        }
    }
}

impl BOFIndex {
    /// Paths are pairwise distinct in the forward list and keys are pairwise
    /// distinct in the inverse table.
    pub closed spec fn wf(&self) -> bool {
        &&& forall|i: int, j: int| 0 <= i < j < self.entries@.len()
            ==> self.entries@[i].path@ != self.entries@[j].path@
        &&& forall|i: int, j: int| 0 <= i < j < self.inverse_table@.len()
            ==> self.inverse_table@[i].key@ != self.inverse_table@[j].key@
    }

    /// A fresh, empty store.
    pub fn new() -> (r: Self)
        ensures
            r.wf(),
            r@.forward == Map::<Seq<char>, EntryModel>::empty(),
            r@.inverse == Map::<Seq<char>, Seq<Seq<char>>>::empty(),
    {
        BOFIndex { entries: Vec::new(), inverse_table: Vec::new() }
    }

    /// Inserts the entry into the forward map, replacing any entry that
    /// stands at the same path.
    fn insert_forward(&mut self, entry: BOFEntry)
        requires
            old(self).wf(),
        ensures
            final(self).wf(),
            (final(self)@ == StoreModel {
                forward: old(self)@.forward.insert(entry.path@, entry@),
                inverse: old(self)@.inverse,
            }),
    {
        let n = self.entries.len();
        let mut i: usize = 0;
        while i < n
            invariant
                *self == *old(self),
                old(self).wf(),
                n == self.entries.len(),
                i <= n,
                forall|j: int| 0 <= j < i ==> self.entries@[j].path@ != entry.path@,
            decreases n - i,
        {
            if self.entries[i].path == entry.path {
                proof {
                    lemma_forward_model_update(self.entries@, i as int, entry);
                }
                self.entries.set(i, entry);
                return ;
            }
            i += 1;
        }
        proof {
            lemma_forward_model_unique(self.entries@);
            lemma_forward_model_push(self.entries@, entry);
            assert(!forward_model(self.entries@).contains_key(entry.path@));
        }
        self.entries.push(entry);
    }

    /// Appends a parent directory under `key` in the inverse table, creating
    /// the row if the key has none yet.
    fn append_inverse(&mut self, key: &String, parent: String)
        requires
            old(self).wf(),
        ensures
            final(self).wf(),
            (final(self)@ == StoreModel {
                forward: old(self)@.forward,
                inverse: old(self)@.inverse.insert(
                    key@,
                    spec_inverse_parents(old(self)@, key@).push(parent@),
                ),
            }),
    {
        let n = self.inverse_table.len();
        let mut i: usize = 0;
        while i < n
            invariant
                *self == *old(self),
                old(self).wf(),
                n == self.inverse_table.len(),
                i <= n,
                forall|j: int| 0 <= j < i ==> self.inverse_table@[j].key@ != key@,
            decreases n - i,
        {
            if self.inverse_table[i].key == *key {
                proof {
                    lemma_inverse_model_unique(self.inverse_table@);
                }
                let mut parents = self.inverse_table[i].parents.clone();
                proof {
                    assert(parents.deep_view() =~= self.inverse_table@[i as int].parents.deep_view());
                }
                let ghost before = parents.deep_view();
                parents.push(parent);
                proof {
                    assert(parents.deep_view() =~= before.push(parent@));
                }
                let row = InverseRow { key: key.clone(), parents };
                proof {
                    lemma_inverse_model_update(self.inverse_table@, i as int, row);
                }
                self.inverse_table.set(i, row);
                return ;
            }
            i += 1;
        }
        let mut parents: Vec<String> = Vec::new();
        parents.push(parent);
        let row = InverseRow { key: key.clone(), parents };
        proof {
            lemma_inverse_model_unique(self.inverse_table@);
            assert(row.parents.deep_view() =~= Seq::<Seq<char>>::empty().push(parent@));
            lemma_inverse_model_push(self.inverse_table@, row);
            assert(!inverse_model(self.inverse_table@).contains_key(key@));
        }
        self.inverse_table.push(row);
    }

    /// Records a freshly scanned object. A regular file gets a forward entry
    /// at `path` (replacing any earlier one) and its parent directory is
    /// appended under `key` in the inverse table; a directory gets no
    /// forward entry, only a record built from the accumulated children.
    pub fn add_entry(
        &mut self,
        path: &String,
        key: String,
        metadata: &StatInfo,
        dir_entries: Option<Vec<DirEntry>>,
    ) -> (r: MetaData)
        requires
            old(self).wf(),
            metadata is Directory ==> dir_entries is Some,
        ensures
            final(self).wf(),
            (match *metadata {
                StatInfo::File(fm) => final(self)@ == spec_add_file(
                    old(self)@, path@, key@, MetaModel::File(fm),
                ) && r@ == MetaModel::File(fm),
                StatInfo::Directory { inode } => final(self)@ == old(self)@ && r@
                    == (MetaModel::Directory {
                    children: dir_entries_model(dir_entries.unwrap()@),
                    inode,
                }),
            }),
    {
        let parent = parent_dir(path);
        match metadata {
            StatInfo::File(fm) => {
                let entry = BOFEntry {
                    key: key.clone(),
                    path: path.clone(),
                    metadata: MetaData::File(*fm),
                };
                self.insert_forward(entry);
                self.append_inverse(&key, parent);
                MetaData::File(*fm)
            },
            StatInfo::Directory { inode } => {
                MetaData::Directory(DirMetaData { data: dir_entries.unwrap(), inode: *inode })
            },
        }
    }

    /// Records an already-normalized record, as the concurrent scan does
    /// when it drains its queue. Same effect as `add_entry`.
    pub fn add_entry_meta(
        &mut self,
        path: &String,
        key: String,
        metadata: &MetaData,
        dir_entries: Option<Vec<DirEntry>>,
    ) -> (r: MetaData)
        requires
            old(self).wf(),
            metadata is Directory ==> dir_entries is Some,
        ensures
            final(self).wf(),
            (match *metadata {
                MetaData::File(_) => final(self)@ == spec_add_file(
                    old(self)@, path@, key@, metadata@,
                ) && r@ == metadata@,
                MetaData::Directory(..) => final(self)@ == old(self)@ && r@
                    == (MetaModel::Directory {
                    children: dir_entries_model(dir_entries.unwrap()@),
                    inode: metadata@->Directory_inode,
                }),
            }),
    {
        let parent = parent_dir(path);
        match metadata {
            MetaData::File(..) => {
                let entry = BOFEntry {
                    key: key.clone(),
                    path: path.clone(),
                    metadata: metadata.clone(),
                };
                self.insert_forward(entry);
                self.append_inverse(&key, parent);
                metadata.clone()
            },
            MetaData::Directory(dir_meta) => {
                MetaData::Directory(DirMetaData {
                    data: dir_entries.unwrap(),
                    inode: dir_meta.inode,
                })
            },
        }
    }

    /// Replaces the key and metadata of the forward entry at `path`; a no-op
    /// when no entry stands there. The inverse table is never touched.
    pub fn update_entry(&mut self, path: &String, key: String, metadata: &FileMetaData) -> (r:
        MetaData)
        requires
            old(self).wf(),
        ensures
            final(self).wf(),
            final(self)@.inverse == old(self)@.inverse,
            old(self)@.forward.contains_key(path@) ==> final(self)@.forward == old(
                self,
            )@.forward.insert(
                path@,
                (EntryModel { key: key@, path: path@, metadata: MetaModel::File(*metadata) }),
            ),
            !old(self)@.forward.contains_key(path@) ==> final(self)@ == old(self)@,
            r@ == MetaModel::File(*metadata),
    {
        let n = self.entries.len();
        let mut i: usize = 0;
        while i < n
            invariant
                *self == *old(self),
                old(self).wf(),
                n == self.entries.len(),
                i <= n,
                forall|j: int| 0 <= j < i ==> self.entries@[j].path@ != path@,
            decreases n - i,
        {
            if self.entries[i].path == *path {
                proof {
                    lemma_forward_model_unique(self.entries@);
                }
                let entry = BOFEntry {
                    key,
                    path: path.clone(),
                    metadata: MetaData::File(*metadata),
                };
                proof {
                    lemma_forward_model_update(self.entries@, i as int, entry);
                }
                self.entries.set(i, entry);
                return MetaData::File(*metadata);
            }
            i += 1;
        }
        proof {
            lemma_forward_model_unique(self.entries@);
            assert(!forward_model(self.entries@).contains_key(path@));
        }
        MetaData::File(*metadata)
    }

    /// The forward entry at `path`, if one stands there.
    pub fn find_entry(&self, path: &String) -> (r: Option<&BOFEntry>)
        requires
            self.wf(),
        ensures
            (match r {
                Some(e) => self@.forward.contains_key(path@) && e@ == self@.forward[path@],
                None => !self@.forward.contains_key(path@),
            }),
    {
        let n = self.entries.len();
        let mut i: usize = 0;
        while i < n
            invariant
                self.wf(),
                n == self.entries.len(),
                i <= n,
                forall|j: int| 0 <= j < i ==> self.entries@[j].path@ != path@,
            decreases n - i,
        {
            if self.entries[i].path == *path {
                proof {
                    lemma_forward_model_unique(self.entries@);
                }
                return Some(&self.entries[i]);
            }
            i += 1;
        }
        proof {
            lemma_forward_model_unique(self.entries@);
        }
        None
    }

    /// The parent-directory list recorded under `key`, if the key has a row.
    pub fn find_parents(&self, key: &String) -> (r: Option<&Vec<String>>)
        requires
            self.wf(),
        ensures
            (match r {
                Some(ps) => self@.inverse.contains_key(key@) && ps.deep_view() == self@.inverse[key@],
                None => !self@.inverse.contains_key(key@),
            }),
    {
        let n = self.inverse_table.len();
        let mut i: usize = 0;
        while i < n
            invariant
                self.wf(),
                n == self.inverse_table.len(),
                i <= n,
                forall|j: int| 0 <= j < i ==> self.inverse_table@[j].key@ != key@,
            decreases n - i,
        {
            if self.inverse_table[i].key == *key {
                proof {
                    lemma_inverse_model_unique(self.inverse_table@);
                }
                return Some(&self.inverse_table[i].parents);
            }
            i += 1;
        }
        proof {
            lemma_inverse_model_unique(self.inverse_table@);
        }
        None
    }
}

/// Two row sequences with the same keys and parent lists build the same
/// inverse map.
pub proof fn lemma_inverse_model_congruent(s: Seq<InverseRow>, t: Seq<InverseRow>)
    requires
        s.len() == t.len(),
        forall|i: int| 0 <= i < s.len() ==> s[i].key@ == #[trigger] t[i].key@
            && s[i].parents.deep_view() == t[i].parents.deep_view(),
    ensures
        inverse_model(s) == inverse_model(t),
    decreases s.len(),
{
    if s.len() > 0 {
        assert(forall|i: int| 0 <= i < s.len() - 1 ==> s.drop_last()[i].key@
            == #[trigger] t.drop_last()[i].key@
            && s.drop_last()[i].parents.deep_view() == t.drop_last()[i].parents.deep_view());
        lemma_inverse_model_congruent(s.drop_last(), t.drop_last());
        assert(s.last().key@ == t.last().key@);
        assert(s.last().parents.deep_view() == t.last().parents.deep_view());
    }
}

/// The interchange form of the store, as the persistence adapter writes and
/// reads it: the forward entries as an ordered sequence, plus the inverse
/// table.
#[derive(Debug)]
pub struct IntBOFIndex {
    pub entries: Vec<BOFEntry>,
    pub inverse_table: Vec<InverseRow>,
}

impl BOFIndex {
    /// The interchange document of this store: its entry list folds back to
    /// exactly this forward map, and its rows to exactly this inverse table.
    pub fn to_persistent(&self) -> (r: IntBOFIndex)
        requires
            self.wf(),
        ensures
            forward_model(r.entries@) == self@.forward,
            inverse_model(r.inverse_table@) == self@.inverse,
    {
        let entries = self.entries.clone();
        let inverse_table = self.inverse_table.clone();
        proof {
            assert(forall|i: int| 0 <= i < self.entries@.len()
                ==> entries@[i]@ == #[trigger] self.entries@[i]@);
            lemma_forward_model_congruent(entries@, self.entries@);
            assert(forall|i: int| 0 <= i < self.inverse_table@.len()
                ==> inverse_table@[i].key@ == #[trigger] self.inverse_table@[i].key@
                    && inverse_table@[i].parents.deep_view()
                        == self.inverse_table@[i].parents.deep_view());
            lemma_inverse_model_congruent(inverse_table@, self.inverse_table@);
        }
        IntBOFIndex { entries, inverse_table }
    }

    /// Inserts the row into the inverse table, replacing any row that
    /// stands under the same key.
    fn insert_row(&mut self, row: InverseRow)
        requires
            old(self).wf(),
        ensures
            final(self).wf(),
            (final(self)@ == StoreModel {
                forward: old(self)@.forward,
                inverse: old(self)@.inverse.insert(row.key@, row.parents.deep_view()),
            }),
    {
        let n = self.inverse_table.len();
        let mut i: usize = 0;
        while i < n
            invariant
                *self == *old(self),
                old(self).wf(),
                n == self.inverse_table.len(),
                i <= n,
                forall|j: int| 0 <= j < i ==> self.inverse_table@[j].key@ != row.key@,
            decreases n - i,
        {
            if self.inverse_table[i].key == row.key {
                proof {
                    lemma_inverse_model_update(self.inverse_table@, i as int, row);
                }
                self.inverse_table.set(i, row);
                return ;
            }
            i += 1;
        }
        proof {
            lemma_inverse_model_unique(self.inverse_table@);
            lemma_inverse_model_push(self.inverse_table@, row);
            assert(!inverse_model(self.inverse_table@).contains_key(row.key@));
        }
        self.inverse_table.push(row);
    }
}

/// Rebuilds a store from an interchange document: the path-keyed forward
/// map from the entry sequence (a later entry at the same path winning) and
/// the inverse table from the rows. Loading what `to_persistent` produced
/// reproduces the original store's maps exactly.
pub fn load_indices(doc: IntBOFIndex) -> (r: BOFIndex)
    ensures
        r.wf(),
        r@.forward == forward_model(doc.entries@),
        r@.inverse == inverse_model(doc.inverse_table@),
{
    let mut bof_index = BOFIndex::new();
    let n = doc.entries.len();
    let mut i: usize = 0;
    proof {
        assert(doc.entries@.subrange(0, 0) =~= Seq::<BOFEntry>::empty());
    }
    while i < n
        invariant
            bof_index.wf(),
            n == doc.entries.len(),
            i <= n,
            bof_index@.forward == forward_model(doc.entries@.subrange(0, i as int)),
            bof_index@.inverse == Map::<Seq<char>, Seq<Seq<char>>>::empty(),
        decreases n - i,
    {
        let entry = doc.entries[i].clone();
        bof_index.insert_forward(entry);
        proof {
            let cur = doc.entries@.subrange(0, i + 1);
            assert(cur.drop_last() =~= doc.entries@.subrange(0, i as int));
            assert(cur.last() == doc.entries@[i as int]);
        }
        i += 1;
    }
    proof {
        assert(doc.entries@.subrange(0, n as int) =~= doc.entries@);
    }
    let rn = doc.inverse_table.len();
    let mut j: usize = 0;
    proof {
        assert(doc.inverse_table@.subrange(0, 0) =~= Seq::<InverseRow>::empty());
    }
    while j < rn
        invariant
            bof_index.wf(),
            rn == doc.inverse_table.len(),
            j <= rn,
            bof_index@.forward == forward_model(doc.entries@),
            bof_index@.inverse == inverse_model(doc.inverse_table@.subrange(0, j as int)),
        decreases rn - j,
    {
        let row = doc.inverse_table[j].clone();
        bof_index.insert_row(row);
        proof {
            let cur = doc.inverse_table@.subrange(0, j + 1);
            assert(cur.drop_last() =~= doc.inverse_table@.subrange(0, j as int));
            assert(cur.last() == doc.inverse_table@[j as int]);
        }
        j += 1;
    }
    proof {
        assert(doc.inverse_table@.subrange(0, rn as int) =~= doc.inverse_table@);
    }
    bof_index
}

/// Reloading a saved store reproduces it exactly, for every store, the
/// empty one included: a saved document carries exactly the store's two
/// maps, and the document alone determines what a load rebuilds.
pub proof fn lemma_save_load_round_trip(
    s: StoreModel,
    entries: Seq<BOFEntry>,
    rows: Seq<InverseRow>,
    loaded: StoreModel,
)
    requires
        forward_model(entries) == s.forward,
        inverse_model(rows) == s.inverse,
        loaded.forward == forward_model(entries),
        loaded.inverse == inverse_model(rows),
    ensures
        loaded == s,
{
    assert(loaded =~= s);
}

} // verus!
