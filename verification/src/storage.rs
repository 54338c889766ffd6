use vstd::prelude::*;
use crate::id_gen::TimestampRandIdGen;
use crate::kvmap::{KeyMap, PathMap};
use crate::naming::generate_unique_name;
use crate::naming::name_views;
use crate::naming::suffixed;
use crate::tree::{TreeNode, TreeStore};
use crate::util::now_millis;

verus! {

pub type ObjectId = u64;

/// A stored object: a payload plus bookkeeping timestamps, addressed by an
/// id that never changes.  `deletion_time` is the soft-delete flag: a set
/// timestamp marks the object logically deleted without touching its tree
/// position or any directory entry naming it.
#[derive(Debug)]
pub struct DataNode<V> {
    pub id: ObjectId,
    pub data: V,
    pub creation_time: u64,
    pub modification_time: u64,
    pub deletion_time: Option<u64>,
}

impl<V> DataNode<V> {
    /// The id this node was created under.
    pub open spec fn id_spec(&self) -> ObjectId {
        self.id
    }

    pub fn new(id: ObjectId, data: V, now: u64) -> (r: Self)
        ensures
            r.id_spec() == id,
            r.data == data,
            r.creation_time == now,
            r.modification_time == now,
            r.deletion_time is None,
    {
        DataNode { id, data, creation_time: now, modification_time: now, deletion_time: None }
    }

    /// Record a modification at the current time.
    pub fn touch(&mut self)
        ensures
            final(self).id_spec() == old(self).id_spec(),
            final(self).data == old(self).data,
            final(self).creation_time == old(self).creation_time,
            final(self).deletion_time == old(self).deletion_time,
    {
        self.modification_time = now_millis();
    }

    /// Soft-delete: record a deletion timestamp; nothing else changes.
    pub fn delete(&mut self)
        ensures
            final(self).is_deleted(),
            final(self).id_spec() == old(self).id_spec(),
            final(self).data == old(self).data,
            final(self).creation_time == old(self).creation_time,
            final(self).modification_time == old(self).modification_time,
    {
        self.deletion_time = Some(now_millis());
    }

    /// Undo a soft delete.
    pub fn restore(&mut self)
        ensures
            !final(self).is_deleted(),
            final(self).id_spec() == old(self).id_spec(),
            final(self).data == old(self).data,
            final(self).creation_time == old(self).creation_time,
            final(self).modification_time == old(self).modification_time,
    {
        self.deletion_time = None;
    }

    #[verifier::when_used_as_spec(spec_is_deleted)]
    pub fn is_deleted(&self) -> (b: bool)
        ensures
            b == self.spec_is_deleted(),
    {
        self.deletion_time.is_some()
    }

    pub open spec fn spec_is_deleted(&self) -> bool {
        self.deletion_time is Some
    }

    pub fn id(&self) -> (r: ObjectId)
        ensures
            r == self.id_spec(),
    {
        self.id
    }
}

/// The tree payload for a directory node: a back-reference to the directory
/// object's id.
#[derive(Debug, Clone, Copy, PartialEq, Eq, Structural)]
pub struct DirNode {
    pub dir_obj_id: ObjectId,
}

impl DirNode {
    pub open spec fn dir_id_spec(&self) -> ObjectId {
        self.dir_obj_id
    }

    pub fn dir_id(&self) -> (r: ObjectId)
        ensures
            r == self.dir_id_spec(),
    {
        self.dir_obj_id
    }

    pub fn new(dir_obj_id: ObjectId) -> (r: Self)
        ensures
            r.dir_id_spec() == dir_obj_id,
    {
        DirNode { dir_obj_id }
    }
}

/// A directory: a display name and a map from entry names to object ids.
/// The map is injective by name; an entry is a back-reference, never
/// ownership, so removing one never destroys the referenced object.
#[derive(Debug)]
pub struct Directory {
    pub name: String,
    pub entries: PathMap<ObjectId>,
}

impl Directory {
    pub fn with_name(name: String) -> (r: Self)
        ensures
            r.name == name,
            r.entries.wf(),
            r.entries@ == Map::<Seq<char>, ObjectId>::empty(),
    {
        Directory { name, entries: PathMap::new() }
    }

    /// A name not yet bound in this directory: the candidate itself when it
    /// is free, else the candidate with the smallest free `" #<k>"` suffix.
    pub fn get_new_unique_name(&self, new_name: String) -> (r: String)
        ensures
            !self.entries@.contains_key(r@),
            !self.entries@.contains_key(new_name@) ==> r@ == new_name@,
            r@ == new_name@ || exists|k: nat|
                1 <= k && r@ == suffixed(new_name@, k) && forall|j: nat|
                    1 <= j < k ==> self.entries@.contains_key(#[trigger] suffixed(new_name@, j)),
    {
        let names = self.entries.keys();
        proof {
            self.entries.lemma_dom_is_key_seq();
            assert(name_views(names@) == self.entries.key_seq());
        }
        let r = generate_unique_name(&names, new_name);
        proof {
            if r@ != new_name@ {
                let k = choose|k: nat|
                    1 <= k && r@ == suffixed(new_name@, k) && forall|j: nat|
                        1 <= j < k ==> name_views(names@).contains(
                            #[trigger] suffixed(new_name@, j),
                        );
                assert forall|j: nat| 1 <= j < k implies self.entries@.contains_key(
                    #[trigger] suffixed(new_name@, j),
                ) by {
                    assert(name_views(names@).contains(suffixed(new_name@, j)));
                }
                assert(1 <= k && r@ == suffixed(new_name@, k) && forall|j: nat|
                    1 <= j < k ==> self.entries@.contains_key(#[trigger] suffixed(new_name@, j)));
            }
        }
        r
    }

    /// Bind `id` under a collision-free variant of `name`, returning the
    /// name that was chosen: the candidate itself when free, else the
    /// candidate with the smallest free `" #<k>"` suffix.
    pub fn add_entry_with_unique_name(&mut self, id: ObjectId, name: String) -> (r: String)
        requires
            old(self).entries.wf(),
        ensures
            final(self).entries.wf(),
            !old(self).entries@.contains_key(r@),
            final(self).entries@ == old(self).entries@.insert(r@, id),
            !old(self).entries@.contains_key(name@) ==> r@ == name@,
            r@ == name@ || exists|k: nat|
                1 <= k && r@ == suffixed(name@, k) && forall|j: nat|
                    1 <= j < k ==> old(self).entries@.contains_key(#[trigger] suffixed(name@, j)),
            final(self).name == old(self).name,
    {
        let unique = self.get_new_unique_name(name);
        let ghost chosen = unique@;
        let stored = unique.clone();
        self.entries.insert(stored, id);
        unique
    }
}

/// A stored value is either a directory or a leaf payload.
#[derive(Debug)]
pub enum DataType<V> {
    Dir(Directory),
    File(V),
}

pub fn as_dir<V>(data: &DataType<V>) -> (r: Option<&Directory>)
    ensures
        match r {
            Some(d) => data is Dir && *d == data->Dir_0,
            None => !(data is Dir),
        },
{
    match data {
        DataType::Dir(dir) => Some(dir),
        _ => None,
    }
}

pub fn as_dir_mut<V>(data: &mut DataType<V>) -> (r: Option<&mut Directory>)
    ensures
        match r {
            Some(d) => (*old(data)) is Dir && *d == (*old(data))->Dir_0 && *final(data)
                == DataType::<V>::Dir(*final(d)),
            None => !((*old(data)) is Dir) && *final(data) == *old(data),
        },
{
    match data {
        DataType::Dir(dir) => Some(dir),
        _ => None,
    }
}

/// The object store: a map from ids to objects, and a tree over the ids of
/// the directory objects.  Ids are handed out by a timestamp-based generator
/// and checked fresh against a strictly increasing bound.
pub struct Storage<V> {
    dir_tree: TreeStore<DirNode>,
    objects: KeyMap<DataNode<DataType<V>>>,
    gen: TimestampRandIdGen,
    next_id: ObjectId,
}

impl<V> View for Storage<V> {
    type V = Map<ObjectId, DataNode<DataType<V>>>;

    closed spec fn view(&self) -> Map<ObjectId, DataNode<DataType<V>>> {
        self.objects@
    }
}

impl<V> Storage<V> {
    /// The id of the root directory.
    pub closed spec fn root_id_spec(&self) -> ObjectId {
        self.dir_tree.root_spec()
    }

    /// The directory tree, as a map from ids to tree nodes.
    pub closed spec fn tree_spec(&self) -> Map<ObjectId, TreeNode<DirNode>> {
        self.dir_tree@
    }

    /// The ids of all objects, in insertion order.
    pub closed spec fn id_order(&self) -> Seq<ObjectId> {
        self.objects.key_seq()
    }

    /// The distance of directory `k` from the root of the tree.
    pub closed spec fn depth_of(&self, k: ObjectId) -> nat {
        self.dir_tree.depth_of(k)
    }

    /// Bound below which every stored id lies; fresh ids are drawn at or
    /// above it.
    pub closed spec fn id_bound(&self) -> ObjectId {
        self.next_id
    }

    /// Well-formedness: the underlying maps are consistent, the tree holds
    /// exactly the ids of the directory objects, every node knows its own
    /// id, and every stored id lies below `id_bound`.
    pub closed spec fn wf(&self) -> bool {
        &&& self.objects.wf()
        &&& self.dir_tree.wf()
        &&& forall|k: ObjectId|
            #[trigger] self.dir_tree@.contains_key(k) ==> self.objects@.contains_key(k)
                && self.objects@[k].data is Dir && self.dir_tree@[k].value.dir_id_spec() == k
        &&& forall|k: ObjectId|
            #[trigger] self.objects@.contains_key(k) ==> self.objects@[k].id_spec() == k && (
            self.objects@[k].data is Dir ==> self.dir_tree@.contains_key(k)) && k < self.next_id
    }

    /// What `wf` guarantees, stated for callers.
    pub proof fn lemma_wf_invariant(&self)
        requires
            self.wf(),
        ensures
            self@.contains_key(self.root_id_spec()),
            self@[self.root_id_spec()].data is Dir,
            self.tree_spec().contains_key(self.root_id_spec()),
            forall|k: ObjectId|
                #[trigger] self.tree_spec().contains_key(k) ==> self@.contains_key(k)
                    && self@[k].data is Dir,
            forall|k: ObjectId|
                #[trigger] self@.contains_key(k) ==> self@[k].id_spec() == k && (self@[k].data
                    is Dir ==> self.tree_spec().contains_key(k)),
    {
        self.dir_tree.lemma_wf_invariant();
    }

    /// The tree invariant, restated over the store's tree view: the root is
    /// present and parentless; every other directory has exactly one parent
    /// that lists it among its ordered children; every child link points
    /// back to its parent; child lists have no duplicates; and depths
    /// witness that parent links lead to the root.
    pub proof fn lemma_tree_invariant(&self)
        requires
            self.wf(),
        ensures
            self.tree_spec().contains_key(self.root_id_spec()),
            self.tree_spec()[self.root_id_spec()].parent is None,
            forall|k: ObjectId|
                #[trigger] self.tree_spec().contains_key(k) && k != self.root_id_spec()
                    ==> self.tree_spec()[k].parent is Some,
            forall|k: ObjectId|
                #[trigger] self.tree_spec().contains_key(k) && self.tree_spec()[k].parent
                    is Some ==> {
                    let p = self.tree_spec()[k].parent->Some_0;
                    k != self.root_id_spec() && self.tree_spec().contains_key(p)
                        && self.tree_spec()[p].children@.contains(k) && self.depth_of(k)
                        == self.depth_of(p) + 1
                },
            forall|k: ObjectId, i: int|
                #[trigger] self.tree_spec().contains_key(k) && 0 <= i < self.tree_spec()[
                    k].children@.len() ==> self.tree_spec().contains_key(
                    #[trigger] self.tree_spec()[k].children@[i],
                ) && self.tree_spec()[self.tree_spec()[k].children@[i]].parent == Some(k),
            forall|k: ObjectId|
                #[trigger] self.tree_spec().contains_key(k) ==> self.tree_spec()[
                    k].children@.no_duplicates(),
            self.depth_of(self.root_id_spec()) == 0,
    {
        self.dir_tree.lemma_wf_invariant();
    }

    /// Pick an id that no stored object uses, and advance the bound past it.
    fn fresh_id(&mut self) -> (id: ObjectId)
        requires
            old(self).id_bound() < u64::MAX,
        ensures
            final(self).id_bound() == id + 1,
            id >= old(self).id_bound(),
            final(self)@ == old(self)@,
            final(self).objects == old(self).objects,
            final(self).dir_tree == old(self).dir_tree,
    {
        let g = self.gen.next_id();
        let id = if g >= self.next_id && g < u64::MAX {
            g
        } else {
            self.next_id
        };
        self.next_id = id + 1;
        id
    }

    /// Create a store whose root is the given directory.
    pub fn with_root(root: Directory) -> (r: Self)
        ensures
            r.wf(),
            r@.contains_key(r.root_id_spec()),
            r@[r.root_id_spec()].data == DataType::<V>::Dir(root),
            !r@[r.root_id_spec()].is_deleted(),
            forall|k: ObjectId| #[trigger] r@.contains_key(k) ==> k == r.root_id_spec(),
            r.tree_spec()[r.root_id_spec()].children@ == Seq::<ObjectId>::empty(),
    {
        let mut gen = TimestampRandIdGen::new();
        let id = gen.next_id();
        let id = if id < u64::MAX {
            id
        } else {
            0
        };
        let now = now_millis();
        let node = DataNode::new(id, DataType::<V>::Dir(root), now);
        let dir_node = DirNode::new(id);
        let mut objects = KeyMap::<DataNode<DataType<V>>>::new();
        objects.insert(id, node);
        let dir_tree = TreeStore::with_root(id, dir_node);
        let r = Storage { dir_tree, objects, gen, next_id: id + 1 };
        proof {
            r.dir_tree.lemma_wf_invariant();
        }
        r
    }

    /// The id of the root directory.
    pub fn root_dir_id(&self) -> (r: ObjectId)
        ensures
            r == self.root_id_spec(),
    {
        self.dir_tree.root_key()
    }

    /// Look an object up by id.
    pub fn get_object(&self, id: ObjectId) -> (r: Option<&DataNode<DataType<V>>>)
        requires
            self.wf(),
        ensures
            match r {
                Some(n) => self@.contains_key(id) && *n == self@[id],
                None => !self@.contains_key(id),
            },
    {
        self.objects.get(id)
    }

    /// The parent directory's id, `None` at the root or for an unknown id.
    pub fn get_dir_parent_id(&self, dir_id: ObjectId) -> (r: Option<ObjectId>)
        requires
            self.wf(),
        ensures
            match r {
                Some(p) => self.tree_spec().contains_key(dir_id)
                    && self.tree_spec()[dir_id].parent == Some(p),
                None => !self.tree_spec().contains_key(dir_id)
                    || self.tree_spec()[dir_id].parent is None,
            },
    {
        match self.dir_tree.get_node(dir_id) {
            Some(node) => node.parent,
            None => None,
        }
    }

    /// The root directory.
    pub fn root_dir(&self) -> (r: &Directory)
        requires
            self.wf(),
        ensures
            self@[self.root_id_spec()].data is Dir,
            *r == self@[self.root_id_spec()].data->Dir_0,
    {
        proof {
            self.lemma_wf_invariant();
        }
        let id = self.dir_tree.root_key();
        match self.objects.get(id) {
            Some(obj) => match as_dir(&obj.data) {
                Some(dir) => dir,
                None => unreached(),
            },
            None => unreached(),
        }
    }

    /// A value update at `id` that keeps the id and the directory/file kind
    /// keeps the store well-formed.
    proof fn lemma_wf_value_update(
        pre: Self,
        post: Self,
        id: ObjectId,
        nv: DataNode<DataType<V>>,
    )
        requires
            pre.wf(),
            pre.objects@.contains_key(id),
            nv.id_spec() == id,
            nv.data is Dir <==> pre.objects@[id].data is Dir,
            post.objects.wf(),
            post.objects@ == pre.objects@.insert(id, nv),
            post.dir_tree == pre.dir_tree,
            post.next_id == pre.next_id,
        ensures
            post.wf(),
    {
    }

    /// Look an object up for mutation.  The store stays well-formed as long
    /// as the caller leaves the node's id and its directory/file kind alone.
    pub fn get_object_mut(&mut self, id: ObjectId) -> (r: Option<&mut DataNode<DataType<V>>>)
        requires
            old(self).wf(),
        ensures
            match r {
                Some(v) => old(self)@.contains_key(id) && *v == old(self)@[id] && final(self)@
                    == old(self)@.insert(id, *final(v)) && final(self).tree_spec() == old(self).tree_spec() && final(self).root_id_spec() == old(self).root_id_spec() && final(self).id_order() == old(self).id_order() && final(self).id_bound() == old(self).id_bound() && ((final(v).id_spec() == id && ((final(v).data is Dir) <==> (old(self)@[id].data is Dir))) ==> final(self).wf()),
                None => !old(self)@.contains_key(id) && *final(self) == *old(self),
            },
    {
        proof {
            if old(self)@.contains_key(id) {
                assert forall|nv: DataNode<DataType<V>>, post: Self|
                    #![trigger post.view(), old(self).view().insert(id, nv)]
                    (post.objects@ == old(self).objects@.insert(id, nv) && post.objects.wf()
                        && post.dir_tree == old(self).dir_tree && post.next_id == old(self).next_id
                        && nv.id_spec() == id && ((nv.data is Dir) <==> (old(self).objects@[id].data
                        is Dir))) implies post.wf() by {
                    Self::lemma_wf_value_update(*old(self), post, id, nv);
                }
            }
        }
        self.objects.get_mut(id)
    }

    /// The root directory, for mutation of its name or entries.
    pub fn root_dir_mut(&mut self) -> (r: &mut Directory)
        requires
            old(self).wf(),
        ensures
            old(self)@[old(self).root_id_spec()].data is Dir,
            *r == old(self)@[old(self).root_id_spec()].data->Dir_0,
            final(self).wf(),
            final(self).tree_spec() == old(self).tree_spec(),
            final(self).root_id_spec() == old(self).root_id_spec(),
            final(self).id_order() == old(self).id_order(),
            final(self).id_bound() == old(self).id_bound(),
            final(self)@ == old(self)@.insert(
                old(self).root_id_spec(),
                DataNode {
                    id: old(self).root_id_spec(),
                    data: DataType::<V>::Dir(*final(r)),
                    creation_time: old(self)@[old(self).root_id_spec()].creation_time,
                    modification_time: old(self)@[old(self).root_id_spec()].modification_time,
                    deletion_time: old(self)@[old(self).root_id_spec()].deletion_time,
                },
            ),
    {
        proof {
            self.lemma_wf_invariant();
        }
        let id = self.dir_tree.root_key();
        match self.get_object_mut(id) {
            Some(node) => match &mut node.data {
                DataType::Dir(dir) => dir,
                _ => unreached(),
            },
            None => unreached(),
        }
    }

    /// Insert a fresh directory under an existing one and return its id.
    pub fn add_dir(&mut self, parent_dir_id: ObjectId, dir: Directory) -> (id: ObjectId)
        requires
            old(self).wf(),
            old(self).tree_spec().contains_key(parent_dir_id),
            old(self).id_bound() < u64::MAX,
        ensures
            final(self).wf(),
            !old(self)@.contains_key(id),
            final(self)@.contains_key(id),
            final(self)@[id].data == DataType::<V>::Dir(dir),
            final(self)@[id].id_spec() == id,
            !final(self)@[id].is_deleted(),
            forall|x: ObjectId|
                #[trigger] final(self)@.contains_key(x) <==> (old(self)@.contains_key(x) || x
                    == id),
            forall|x: ObjectId|
                x != id && old(self)@.contains_key(x) ==> final(self)@[x] == old(self)@[x],
            final(self).tree_spec().contains_key(id),
            final(self).tree_spec()[id].parent == Some(parent_dir_id),
            final(self).tree_spec()[id].children@ == Seq::<ObjectId>::empty(),
            final(self).tree_spec()[parent_dir_id].children@ == old(self).tree_spec()[parent_dir_id].children@.push(id),
            forall|x: ObjectId|
                #[trigger] final(self).tree_spec().contains_key(x) <==> (old(self).tree_spec().contains_key(x) || x == id),
            forall|x: ObjectId|
                x != id && x != parent_dir_id && old(self).tree_spec().contains_key(x) ==> final(self).tree_spec()[x] == old(self).tree_spec()[x],
            final(self).root_id_spec() == old(self).root_id_spec(),
    {
        proof {
            self.lemma_wf_invariant();
        }
        let id = self.fresh_id();
        let now = now_millis();
        let node = DataNode::new(id, DataType::<V>::Dir(dir), now);
        self.objects.insert(id, node);
        let r = self.dir_tree.add_node(parent_dir_id, id, DirNode::new(id));
        match r {
            Ok(()) => {},
            Err(_) => {
                proof {
                    assert(old(self).dir_tree@.contains_key(parent_dir_id));
                }
                unreached()
            },
        }
        id
    }

    /// Insert a fresh, unfiled leaf object and return its id.  Linking it
    /// into a directory's entries is a separate step.
    pub fn add_object(&mut self, object: V) -> (id: ObjectId)
        requires
            old(self).wf(),
            old(self).id_bound() < u64::MAX,
        ensures
            final(self).wf(),
            !old(self)@.contains_key(id),
            final(self)@.contains_key(id),
            final(self)@[id].data == DataType::<V>::File(object),
            final(self)@[id].id_spec() == id,
            !final(self)@[id].is_deleted(),
            forall|x: ObjectId|
                #[trigger] final(self)@.contains_key(x) <==> (old(self)@.contains_key(x) || x
                    == id),
            forall|x: ObjectId|
                x != id && old(self)@.contains_key(x) ==> final(self)@[x] == old(self)@[x],
            final(self).tree_spec() == old(self).tree_spec(),
            final(self).root_id_spec() == old(self).root_id_spec(),
    {
        let id = self.fresh_id();
        let now = now_millis();
        let node = DataNode::new(id, DataType::<V>::File(object), now);
        self.objects.insert(id, node);
        id
    }

    /// Soft-delete `id`.  Returns whether the id was found; the object keeps
    /// its tree position and directory entries either way.
    pub fn delete(&mut self, id: ObjectId) -> (found: bool)
        requires
            old(self).wf(),
        ensures
            final(self).wf(),
            found == old(self)@.contains_key(id),
            final(self).tree_spec() == old(self).tree_spec(),
            final(self).root_id_spec() == old(self).root_id_spec(),
            found ==> final(self)@[id].is_deleted() && final(self)@[id].data == old(self)@[id].data && final(self)@[id].id_spec() == id && final(self)@ == old(self)@.insert(
                id,
                final(self)@[id],
            ),
            !found ==> *final(self) == *old(self),
    {
        let r = self.objects.get_mut(id);
        let found = match r {
            Some(node) => {
                node.delete();
                true
            },
            None => false,
        };
        proof {
            if found {
                Self::lemma_wf_value_update(
                    *old(self),
                    *self,
                    id,
                    self.objects@[id],
                );
                assert(self@ =~= old(self)@.insert(id, self@[id]));
            }
        }
        found
    }

    /// Clear the soft-delete mark on `id`.  Returns whether the id was found.
    pub fn restore(&mut self, id: ObjectId) -> (found: bool)
        requires
            old(self).wf(),
        ensures
            final(self).wf(),
            found == old(self)@.contains_key(id),
            final(self).tree_spec() == old(self).tree_spec(),
            final(self).root_id_spec() == old(self).root_id_spec(),
            found ==> !final(self)@[id].is_deleted() && final(self)@[id].data == old(self)@[id].data && final(self)@[id].id_spec() == id && final(self)@ == old(self)@.insert(
                id,
                final(self)@[id],
            ),
            !found ==> *final(self) == *old(self),
    {
        let r = self.objects.get_mut(id);
        let found = match r {
            Some(node) => {
                node.restore();
                true
            },
            None => false,
        };
        proof {
            if found {
                Self::lemma_wf_value_update(
                    *old(self),
                    *self,
                    id,
                    self.objects@[id],
                );
                assert(self@ =~= old(self)@.insert(id, self@[id]));
            }
        }
        found
    }
}

impl<V> Storage<V> {
    /// Soft delete only hides: a soft-deleted child of `parent` is excluded
    /// from the filtered listing that `get_sub_directories` returns, a child
    /// that is not soft-deleted is included, and in both cases the object
    /// itself stays in the store, reachable by `get_object`.
    pub proof fn lemma_soft_delete_visibility(self, parent: ObjectId, id: ObjectId)
        requires
            self.wf(),
            self.tree_spec().contains_key(parent),
            self.tree_spec()[parent].children@.contains(id),
        ensures
            self@.contains_key(id),
            self@[id].spec_is_deleted() ==> !self.tree_spec()[parent].children@.filter(
                |c: ObjectId| !self@[c].spec_is_deleted(),
            ).contains(id),
            !self@[id].spec_is_deleted() ==> self.tree_spec()[parent].children@.filter(
                |c: ObjectId| !self@[c].spec_is_deleted(),
            ).contains(id),
    {
        self.dir_tree.lemma_wf_invariant();
        let j = choose|j: int|
            0 <= j < self.tree_spec()[parent].children@.len()
                && self.tree_spec()[parent].children@[j] == id;
        assert(self.tree_spec().contains_key(id));
        let cs = self.tree_spec()[parent].children@;
        let f = |c: ObjectId| !self@[c].spec_is_deleted();
        broadcast use vstd::seq_lib::group_filter_ensures;
        if self@[id].spec_is_deleted() {
            if cs.filter(f).contains(id) {
                let w = choose|w: int| 0 <= w < cs.filter(f).len() && cs.filter(f)[w] == id;
                assert(f(cs.filter(f)[w]));
            }
        } else {
            assert(f(cs[j]));
            assert(cs.filter(f).contains(cs[j]));
        }
    }
}

/// Whether some entry of `d` references object `id`.
pub open spec fn dir_links_to(d: Directory, id: ObjectId) -> bool {
    exists|n: Seq<char>| #[trigger] d.entries@.contains_key(n) && d.entries@[n] == id
}

/// Whether directory `d` has an entry referencing `id`.
pub fn dir_has_link(d: &Directory, id: ObjectId) -> (b: bool)
    requires
        d.entries.wf(),
    ensures
        b == dir_links_to(*d, id),
{
    let n = d.entries.len();
    let mut i: usize = 0;
    while i < n
        invariant
            d.entries.wf(),
            n == d.entries.key_seq().len(),
            0 <= i <= n,
            forall|j: int| 0 <= j < i ==> d.entries.val_at(j) != id,
        decreases n - i,
    {
        let v = d.entries.value_at(i);
        if *v == id {
            proof {
                d.entries.lemma_entry(i as int);
            }
            return true;
        }
        i += 1;
    }
    proof {
        if dir_links_to(*d, id) {
            let nm = choose|nm: Seq<char>| #[trigger] d.entries@.contains_key(nm)
                && d.entries@[nm] == id;
            d.entries.lemma_contains_position(nm);
            let j = choose|j: int|
                0 <= j < d.entries.key_seq().len() && d.entries.key_seq()[j] == nm;
            d.entries.lemma_entry(j);
        }
    }
    false
}

impl<V> Storage<V> {
    /// Entry maps always point at stored objects, at every directory.
    pub open spec fn entry_target_ok(&self, k: ObjectId, n: Seq<char>) -> bool {
        (self@.contains_key(k) && self@[k].data is Dir
            && self@[k].data->Dir_0.entries@.contains_key(n)) ==> self@.contains_key(
            self@[k].data->Dir_0.entries@[n],
        )
    }

    /// Every directory entry of the store resolves in the object map.  A
    /// dangling entry marks storage corruption, so listings require this.
    pub open spec fn entries_ok(&self) -> bool {
        forall|k: ObjectId, n: Seq<char>| #[trigger] self.entry_target_ok(k, n)
    }

    /// Every directory entry wellformedness: entry maps have distinct names.
    pub open spec fn entry_maps_wf(&self) -> bool {
        forall|k: ObjectId|
            #[trigger] self@.contains_key(k) && self@[k].data is Dir
                ==> self@[k].data->Dir_0.entries.wf()
    }

    /// The id of the first directory, in insertion order, that has an entry
    /// referencing `file_id`.
    fn find_file_dir_id(&self, file_id: ObjectId) -> (r: Option<ObjectId>)
        requires
            self.wf(),
            self.entry_maps_wf(),
        ensures
            match r {
                Some(k) => self@.contains_key(k) && self@[k].data is Dir && dir_links_to(
                    self@[k].data->Dir_0,
                    file_id,
                ),
                None => forall|k: ObjectId|
                    #[trigger] self@.contains_key(k) && self@[k].data is Dir ==> !dir_links_to(
                        self@[k].data->Dir_0,
                        file_id,
                    ),
            },
    {
        let n = self.objects.len();
        let mut i: usize = 0;
        while i < n
            invariant
                self.wf(),
                self.entry_maps_wf(),
                n == self.id_order().len(),
                0 <= i <= n,
                forall|j: int|
                    0 <= j < i ==> !((#[trigger] self@[self.id_order()[j]].data) is Dir
                        && dir_links_to(self@[self.id_order()[j]].data->Dir_0, file_id)),
            decreases n - i,
        {
            let node = self.objects.value_at(i);
            match as_dir(&node.data) {
                Some(dir) => {
                    proof {
                        self.objects.lemma_entry(i as int);
                    }
                    if dir_has_link(dir, file_id) {
                        return Some(self.objects.key_at(i));
                    }
                },
                None => {},
            }
            i += 1;
        }
        proof {
            assert forall|k: ObjectId|
                #[trigger] self@.contains_key(k) && self@[k].data is Dir implies !dir_links_to(
                self@[k].data->Dir_0,
                file_id,
            ) by {
                self.objects.lemma_contains_position(k);
                let j = choose|j: int|
                    0 <= j < self.id_order().len() && self.id_order()[j] == k;
            }
        }
        None
    }

    /// The first directory object whose entries reference `file_id`.
    pub fn find_file_dir(&self, file_id: ObjectId) -> (r: Option<&DataNode<DataType<V>>>)
        requires
            self.wf(),
            self.entry_maps_wf(),
        ensures
            match r {
                Some(node) => exists|k: ObjectId|
                    #[trigger] self@.contains_key(k) && *node == self@[k] && self@[k].data is Dir
                        && dir_links_to(self@[k].data->Dir_0, file_id),
                None => forall|k: ObjectId|
                    #[trigger] self@.contains_key(k) && self@[k].data is Dir ==> !dir_links_to(
                        self@[k].data->Dir_0,
                        file_id,
                    ),
            },
    {
        match self.find_file_dir_id(file_id) {
            Some(k) => self.get_object(k),
            None => None,
        }
    }

    /// The first directory object whose entries reference `file_id`, for
    /// mutation.  The store stays well-formed as long as the caller leaves
    /// the node's id and kind alone.
    pub fn find_file_dir_mut(&mut self, file_id: ObjectId) -> (r: Option<
        &mut DataNode<DataType<V>>,
    >)
        requires
            old(self).wf(),
            old(self).entry_maps_wf(),
        ensures
            match r {
                Some(v) => exists|k: ObjectId|
                    #[trigger] old(self)@.contains_key(k) && *v == old(self)@[k] && old(self)@[k].data is Dir && dir_links_to(old(self)@[k].data->Dir_0, file_id) && final(self)@ == old(self)@.insert(k, *final(v)) && final(self).tree_spec() == old(self).tree_spec() && final(self).root_id_spec() == old(self).root_id_spec() && ((
                    final(v).id_spec() == k && ((final(v).data is Dir) <==> (old(self)@[k].data
                        is Dir))) ==> final(self).wf()),
                None => (forall|k: ObjectId|
                    #[trigger] old(self)@.contains_key(k) && old(self)@[k].data is Dir
                        ==> !dir_links_to(old(self)@[k].data->Dir_0, file_id)) && *final(self)
                    == *old(self),
            },
    {
        match self.find_file_dir_id(file_id) {
            Some(k) => self.get_object_mut(k),
            None => None,
        }
    }

    /// The entries of directory `dir_id`: each name together with the object
    /// it references, in entry insertion order.  `None` when `dir_id` is
    /// unknown or not a directory.
    pub fn dir_objects(&self, dir_id: ObjectId) -> (r: Option<
        Vec<(String, &DataNode<DataType<V>>)>,
    >)
        requires
            self.wf(),
            self.entry_maps_wf(),
            self.entries_ok(),
        ensures
            match r {
                Some(v) => self@.contains_key(dir_id) && self@[dir_id].data is Dir && {
                    let d = self@[dir_id].data->Dir_0;
                    &&& v@.len() == d.entries.key_seq().len()
                    &&& forall|i: int|
                        0 <= i < v@.len() ==> (#[trigger] v@[i]).0@ == d.entries.key_seq()[i]
                            && d.entries@.contains_key(v@[i].0@) && self@.contains_key(
                            d.entries@[v@[i].0@],
                        ) && *(v@[i].1) == self@[d.entries@[v@[i].0@]]
                },
                None => !self@.contains_key(dir_id) || !(self@[dir_id].data is Dir),
            },
    {
        let dir = match self.objects.get(dir_id) {
            Some(node) => match as_dir(&node.data) {
                Some(d) => d,
                None => {
                    return None;
                },
            },
            None => {
                return None;
            },
        };
        let n = dir.entries.len();
        let mut out: Vec<(String, &DataNode<DataType<V>>)> = Vec::new();
        let mut i: usize = 0;
        while i < n
            invariant
                self.wf(),
                self.entry_maps_wf(),
                self.entries_ok(),
                self@.contains_key(dir_id),
                self@[dir_id].data is Dir,
                *dir == self@[dir_id].data->Dir_0,
                dir.entries.wf(),
                n == dir.entries.key_seq().len(),
                0 <= i <= n,
                out@.len() == i,
                forall|j: int|
                    0 <= j < i ==> (#[trigger] out@[j]).0@ == dir.entries.key_seq()[j]
                        && dir.entries@.contains_key(out@[j].0@) && self@.contains_key(
                        dir.entries@[out@[j].0@],
                    ) && *(out@[j].1) == self@[dir.entries@[out@[j].0@]],
            decreases n - i,
        {
            let name = dir.entries.key_at(i);
            let target = dir.entries.value_at(i);
            proof {
                dir.entries.lemma_entry(i as int);
                assert(self.entry_target_ok(dir_id, name@));
            }
            let obj = match self.objects.get(*target) {
                Some(o) => o,
                None => unreached(),
            };
            out.push((name.clone(), obj));
            i += 1;
        }
        Some(out)
    }

    /// The children of directory `dir_id` that are not soft-deleted, in
    /// child order.  `None` when `dir_id` is not in the tree.
    pub fn get_sub_directories(&self, dir_id: ObjectId) -> (r: Option<
        Vec<&DataNode<DataType<V>>>,
    >)
        requires
            self.wf(),
        ensures
            match r {
                Some(v) => self.tree_spec().contains_key(dir_id) && {
                    let kept = self.tree_spec()[dir_id].children@.filter(
                        |c: ObjectId| !self@[c].spec_is_deleted(),
                    );
                    &&& v@.len() == kept.len()
                    &&& forall|i: int|
                        0 <= i < v@.len() ==> *(#[trigger] v@[i]) == self@[kept[i]]
                            && self@.contains_key(kept[i])
                },
                None => !self.tree_spec().contains_key(dir_id),
            },
    {
        let children = match self.dir_tree.get_children(dir_id) {
            Some(c) => c,
            None => {
                return None;
            },
        };
        proof {
            self.dir_tree.lemma_wf_invariant();
        }
        let ghost f = |c: ObjectId| !self@[c].spec_is_deleted();
        proof {
            reveal_with_fuel(Seq::<_>::filter, 2);
            assert(children@.take(0).filter(f) =~= Seq::<ObjectId>::empty());
        }
        let n = children.len();
        let mut out: Vec<&DataNode<DataType<V>>> = Vec::new();
        let mut i: usize = 0;
        while i < n
            invariant
                self.wf(),
                self.tree_spec().contains_key(dir_id),
                *children == self.tree_spec()[dir_id].children,
                n == children@.len(),
                0 <= i <= n,
                forall|j: int|
                    0 <= j < n ==> self.tree_spec().contains_key(#[trigger] children@[j]),
                f == (|c: ObjectId| !self@[c].spec_is_deleted()),
                out@.len() == children@.take(i as int).filter(f).len(),
                forall|j: int|
                    0 <= j < out@.len() ==> *(#[trigger] out@[j]) == self@[children@.take(
                        i as int,
                    ).filter(f)[j]] && self@.contains_key(children@.take(i as int).filter(f)[j]),
            decreases n - i,
        {
            let c = children[i];
            let obj = match self.objects.get(c) {
                Some(o) => o,
                None => unreached(),
            };
            proof {
                reveal_with_fuel(Seq::<_>::filter, 2);
                let pre = children@.take(i as int);
                let post = children@.take(i + 1);
                let single = seq![c];
                assert(pre + single =~= post);
                Seq::<ObjectId>::filter_distributes_over_add(pre, single, f);
                assert(single.drop_last() =~= Seq::<ObjectId>::empty());
                assert(single.last() == c);
                assert(single.len() == 1);
                assert(Seq::<ObjectId>::empty().filter(f) =~= Seq::<ObjectId>::empty());
                assert(single.filter(f) == if f(c) {
                    Seq::<ObjectId>::empty().push(c)
                } else {
                    Seq::<ObjectId>::empty()
                });
                assert(post.filter(f) == if f(c) {
                    pre.filter(f).push(c)
                } else {
                    pre.filter(f)
                });
            }
            if !obj.is_deleted() {
                out.push(obj);
            }
            i += 1;
        }
        proof {
            assert(children@.take(n as int) =~= children@);
        }
        Some(out)
    }

    /// The chain of directory markers from the root down to `cur`.
    fn collect_path(&self, cur: ObjectId) -> (r: Vec<DirNode>)
        requires
            self.wf(),
            self.tree_spec().contains_key(cur),
        ensures
            r@.len() >= 1,
            r@[0].dir_id_spec() == self.root_id_spec(),
            r@[r@.len() - 1].dir_id_spec() == cur,
            forall|j: int|
                0 <= j < r@.len() ==> self.tree_spec().contains_key(
                    (#[trigger] r@[j]).dir_id_spec(),
                ) && r@[j] == self.tree_spec()[r@[j].dir_id_spec()].value,
            forall|j: int|
                1 <= j < r@.len() ==> self.tree_spec()[(#[trigger] r@[j]).dir_id_spec()].parent
                    == Some(r@[j - 1].dir_id_spec()),
        decreases self.depth_of(cur),
    {
        proof {
            self.dir_tree.lemma_wf_invariant();
        }
        let node = match self.dir_tree.get_node(cur) {
            Some(n) => n,
            None => unreached(),
        };
        match node.parent {
            None => {
                let mut v: Vec<DirNode> = Vec::new();
                v.push(node.value);
                proof {
                    assert(self.tree_spec()[cur].parent is None);
                    if cur != self.root_id_spec() {
                        assert(self.tree_spec()[cur].parent is Some);
                    }
                }
                v
            },
            Some(p) => {
                let mut v = self.collect_path(p);
                v.push(node.value);
                v
            },
        }
    }

    /// The ordered list of directory markers from the root to the directory
    /// whose entries reference `id`; `None` when no directory does.
    pub fn get_object_path(&self, id: ObjectId) -> (r: Option<Vec<DirNode>>)
        requires
            self.wf(),
            self.entry_maps_wf(),
        ensures
            match r {
                Some(path) => {
                    &&& path@.len() >= 1
                    &&& path@[0].dir_id_spec() == self.root_id_spec()
                    &&& self@.contains_key(path@[path@.len() - 1].dir_id_spec())
                    &&& self@[path@[path@.len() - 1].dir_id_spec()].data is Dir
                    &&& dir_links_to(
                        self@[path@[path@.len() - 1].dir_id_spec()].data->Dir_0,
                        id,
                    )
                    &&& forall|j: int|
                        0 <= j < path@.len() ==> self.tree_spec().contains_key(
                            (#[trigger] path@[j]).dir_id_spec(),
                        )
                    &&& forall|j: int|
                        1 <= j < path@.len() ==> self.tree_spec()[(
                        #[trigger] path@[j]).dir_id_spec()].parent == Some(
                            path@[j - 1].dir_id_spec(),
                        )
                },
                None => forall|k: ObjectId|
                    #[trigger] self@.contains_key(k) && self@[k].data is Dir ==> !dir_links_to(
                        self@[k].data->Dir_0,
                        id,
                    ),
            },
    {
        match self.find_file_dir_id(id) {
            Some(k) => Some(self.collect_path(k)),
            None => None,
        }
    }
}

} // verus!
