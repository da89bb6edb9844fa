//! The in-memory data model of the index: portable file metadata and the
//! recursive directory record tree, together with their mathematical models.

use vstd::prelude::*;

verus! {

/// Portable snapshot of a regular file's stat data at scan time.
/// Timestamps are absolute instants in whole seconds since the epoch.
#[derive(Clone, Copy, Debug, PartialEq, Eq, Structural)]
pub struct FileMetaData {
    pub ctime: u64,
    pub mtime: u64,
    pub size: u64,
    pub inode: u64,
}

/// Normalized stat data of a filesystem object, as the platform adapter
/// reports it: a regular file's stat fields, or a directory's inode.
#[derive(Clone, Copy, Debug, PartialEq, Eq, Structural)]
pub enum StatInfo {
    Directory { inode: u64 },
    File(FileMetaData),
}

/// Record of a directory: its children, in enumeration order, and its inode.
#[derive(Debug)]
pub struct DirMetaData {
    pub data: Vec<DirEntry>,
    pub inode: u64,
}

/// A named edge of the record tree.
#[derive(Debug)]
pub struct DirEntry {
    pub name: String,
    pub data: MetaData,
}

/// Tagged union over file and directory records; a finite rooted tree.
#[derive(Debug)]
pub enum MetaData {
    Directory(DirMetaData),
    File(FileMetaData),
}

/// Mathematical model of a `MetaData` tree.
#[verifier::ext_equal]
pub enum MetaModel {
    Directory { children: Seq<DirEntryModel>, inode: u64 },
    File(FileMetaData),
}

/// Mathematical model of a `DirEntry`.
#[verifier::ext_equal]
pub struct DirEntryModel {
    pub name: Seq<char>,
    pub data: MetaModel,
}

/// Model of a children list, element by element.
pub open spec fn dir_entries_model(s: Seq<DirEntry>) -> Seq<DirEntryModel>
    decreases s,
{
    if s.len() == 0 {
        Seq::empty()
    } else {
        dir_entries_model(s.drop_last()).push(s.last()@)
    }
}

/// The model of a children list has the same length and models each entry.
pub broadcast proof fn lemma_dir_entries_model(s: Seq<DirEntry>)
    ensures
        (#[trigger] dir_entries_model(s)).len() == s.len(),
        forall|i: int| 0 <= i < s.len() ==> dir_entries_model(s)[i] == s[i]@,
    decreases s,
{
    if s.len() > 0 {
        lemma_dir_entries_model(s.drop_last());
        assert(dir_entries_model(s) == dir_entries_model(s.drop_last()).push(s.last()@));
        assert forall|i: int| 0 <= i < s.len() implies dir_entries_model(s)[i] == s[i]@ by {
            if i < s.len() - 1 {
                assert(s.drop_last()[i] == s[i]);
                assert(dir_entries_model(s)[i] == dir_entries_model(s.drop_last())[i]);
            } else {
                assert(dir_entries_model(s)[i] == s.last()@);
            }
        }
    }
}

/// Appending an entry appends its model.
pub proof fn lemma_dir_entries_model_push(s: Seq<DirEntry>, e: DirEntry)
    ensures
        dir_entries_model(s.push(e)) == dir_entries_model(s).push(e@),
{
    assert(s.push(e).drop_last() =~= s);
}

impl View for MetaData {
    type V = MetaModel;

    open spec fn view(&self) -> MetaModel
        decreases self,
    {
        match self {
            MetaData::File(f) => MetaModel::File(*f),
            MetaData::Directory(d) => MetaModel::Directory {
                children: dir_entries_model(d.data@),
                inode: d.inode,
            },
        }
    }
}

impl View for DirEntry {
    type V = DirEntryModel;

    open spec fn view(&self) -> DirEntryModel
        decreases self,
    {
        DirEntryModel { name: self.name@, data: self.data@ }
    }
}

impl View for DirMetaData {
    type V = MetaModel;

    open spec fn view(&self) -> MetaModel {
        MetaData::Directory(*self)@
    }
}

impl Clone for MetaData {
    /// Deep copy of a record tree; the copy has the same model.
    fn clone(&self) -> (r: Self)
        ensures
            r@ == self@,
        decreases self,
    {
        match self {
            MetaData::File(f) => MetaData::File(*f),
            MetaData::Directory(d) => MetaData::Directory(d.clone()),
        }
    }
}

impl Clone for DirMetaData {
    /// Deep copy of a directory record; the copy has the same model.
    fn clone(&self) -> (r: Self)
        ensures
            r@ == self@,
        decreases self,
    {
        let mut data: Vec<DirEntry> = Vec::new();
        let mut i: usize = 0;
        while i < self.data.len()
            invariant
                i <= self.data.len(),
                data.len() == i,
                forall|j: int| 0 <= j < i ==> data[j]@ == self.data[j]@,
            decreases self.data.len() - i,
        {
            data.push(self.data[i].clone());
            i += 1;
        }
        let r = DirMetaData { data, inode: self.inode };
        proof {
            lemma_dir_entries_model(r.data@);
            lemma_dir_entries_model(self.data@);
            assert(dir_entries_model(r.data@) =~= dir_entries_model(self.data@));
            assert(r@ =~= self@);
        }
        r
    }
}

impl Clone for DirEntry {
    /// Deep copy of a named edge; the copy has the same model.
    fn clone(&self) -> (r: Self)
        ensures
            r@ == self@,
        decreases self,
    {
        DirEntry { name: self.name.clone(), data: self.data.clone() }
    }
}


} // verus!
