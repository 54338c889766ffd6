use vstd::prelude::*;
use crate::kvmap::PathMap;
use crate::util::now_millis;

verus! {

/// A value cached from persistent storage, with the dirty flag that marks
/// unsaved edits and an edit counter used to decide whether a completed save
/// covered the latest edit.
#[derive(Debug)]
pub struct DataNode<Value> {
    pub data: Value,
    pub dirty: bool,
    pub version: u64,
    pub deleted_metadata: Option<DeletedMetadata>,
}

impl<V> DataNode<V> {
    pub fn new(data: V) -> (r: Self)
        ensures
            r.data == data,
            r.dirty == false,
            r.version == 0,
            r.deleted_metadata is None,
    {
        DataNode { data, dirty: false, version: 0, deleted_metadata: None }
    }

    #[verifier::when_used_as_spec(spec_is_deleted)]
    pub fn is_deleted(&self) -> (b: bool)
        ensures
            b == self.spec_is_deleted(),
    {
        self.deleted_metadata.is_some()
    }

    pub open spec fn spec_is_deleted(&self) -> bool {
        self.deleted_metadata is Some
    }
}

/// Timestamps captured from a file's metadata, in milliseconds since the
/// Unix epoch.
#[derive(Debug, Clone, Copy, PartialEq, Eq, Structural)]
pub struct FileMetadata {
    pub creation_time: u64,
    pub modification_time: u64,
}

/// A directory listing entry: the full path of a subdirectory or a file.
#[derive(Debug, PartialEq, Eq)]
pub enum DirEntry {
    Dir(String),
    File(String),
}

impl DirEntry {
    pub open spec fn path_spec(&self) -> Seq<char> {
        match self {
            DirEntry::Dir(p) => p@,
            DirEntry::File(p) => p@,
        }
    }

    pub fn path(&self) -> (r: &str)
        ensures
            r@ == self.path_spec(),
    {
        match self {
            DirEntry::Dir(path) => path.as_str(),
            DirEntry::File(path) => path.as_str(),
        }
    }
}

/// The name-keyed entries of one directory listing.
#[derive(Debug)]
pub struct Directory {
    pub entries: PathMap<DirEntry>,
}

/// The entry map described by a name/entry list, later pairs winning.
pub open spec fn entry_map_of(s: Seq<(String, DirEntry)>) -> Map<Seq<char>, DirEntry>
    decreases s.len(),
{
    if s.len() == 0 {
        Map::empty()
    } else {
        entry_map_of(s.drop_last()).insert(s.last().0@, s.last().1)
    }
}

impl Default for Directory {
    fn default() -> (r: Self)
        ensures
            r.entries.wf(),
            r.entries@ == Map::<Seq<char>, DirEntry>::empty(),
    {
        Directory { entries: PathMap::new() }
    }
}

impl Directory {
    /// Build a listing from named entries; a repeated name keeps the later
    /// entry.
    pub fn from_entries(list: Vec<(String, DirEntry)>) -> (r: Self)
        ensures
            r.entries.wf(),
            r.entries@ == entry_map_of(list@),
    {
        let n = list.len();
        let mut entries = PathMap::<DirEntry>::new();
        proof {
            assert(list@.take(0) =~= Seq::<(String, DirEntry)>::empty());
            assert(entries@ =~= entry_map_of(list@.take(0)));
        }
        let mut i: usize = 0;
        while i < n
            invariant
                n == list@.len(),
                0 <= i <= n,
                entries.wf(),
                entries@ == entry_map_of(list@.take(i as int)),
            decreases n - i,
        {
            proof {
                assert(list@.take(i + 1).drop_last() =~= list@.take(i as int));
                assert(list@.take(i + 1).last() == list@[i as int]);
            }
            let pair = &list[i];
            entries.insert(pair.0.clone(), clone_entry(&pair.1));
            i += 1;
        }
        proof {
            assert(list@.take(n as int) =~= list@);
        }
        Directory { entries }
    }
}

/// A copy of a directory entry, equal to the original.
pub fn clone_entry(e: &DirEntry) -> (r: DirEntry)
    ensures
        r == *e,
{
    match e {
        DirEntry::Dir(p) => DirEntry::Dir(p.clone()),
        DirEntry::File(p) => DirEntry::File(p.clone()),
    }
}

/// When and from where an object was soft-deleted.
#[derive(Debug)]
pub struct DeletedMetadata {
    pub deletion_time: u64,
    pub origin_path: String,
}

impl DeletedMetadata {
    pub fn deleted_now(origin_path: String) -> (r: Self)
        ensures
            r.origin_path == origin_path,
    {
        DeletedMetadata { deletion_time: now_millis(), origin_path }
    }
}

} // verus!
