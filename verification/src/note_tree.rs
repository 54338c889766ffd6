use vstd::prelude::*;
use crate::folder::NoteFolder;
use crate::folder::note_map_of;
use crate::note::Note;
use crate::tree::TreeStore;
use crate::tree::TreeNode;

verus! {

/// Folders of notes arranged as a tree, the root folder holding the
/// initially given notes.
pub struct NoteFolderTree {
    tree: TreeStore<NoteFolder>,
}

impl NoteFolderTree {
    pub closed spec fn wf(&self) -> bool {
        &&& self.tree.wf()
        &&& forall|k: u64| #[trigger] self.tree@.contains_key(k) ==> self.tree@[k].value.wf()
    }

    /// The folders, as a map from folder key to tree node.
    pub closed spec fn tree_spec(&self) -> Map<u64, TreeNode<NoteFolder>> {
        self.tree@
    }

    pub closed spec fn root_key_spec(&self) -> u64 {
        self.tree.root_spec()
    }

    /// A tree whose root folder holds the given notes.
    pub fn with_items(notes: Vec<(u64, Note)>) -> (r: Self)
        ensures
            r.wf(),
            r.tree_spec().contains_key(r.root_key_spec()),
            r.tree_spec()[r.root_key_spec()].value.items@ == note_map_of(notes@),
            r.tree_spec()[r.root_key_spec()].value.name@ == "_root"@,
            forall|k: u64| #[trigger] r.tree_spec().contains_key(k) ==> k == r.root_key_spec(),
    {
        let root_folder = NoteFolder::with_items(String::from_str("_root"), notes);
        let id = root_folder.id;
        NoteFolderTree { tree: TreeStore::with_root(id, root_folder) }
    }

    pub fn root_folder(&self) -> (r: &NoteFolder)
        requires
            self.wf(),
        ensures
            *r == self.tree_spec()[self.root_key_spec()].value,
            self.tree_spec().contains_key(self.root_key_spec()),
    {
        &self.tree.root_node().value
    }

    /// The root folder, for mutation.  The caller may change its contents
    /// freely; the tree around it is untouched.
    pub fn root_folder_mut(&mut self) -> (r: &mut NoteFolder)
        requires
            old(self).wf(),
        ensures
            *r == old(self).tree_spec()[old(self).root_key_spec()].value,
            old(self).tree_spec().contains_key(old(self).root_key_spec()),
            final(self).root_key_spec() == old(self).root_key_spec(),
            final(self).tree_spec() == old(self).tree_spec().insert(
                old(self).root_key_spec(),
                TreeNode {
                    value: *final(r),
                    children: old(self).tree_spec()[old(self).root_key_spec()].children,
                    parent: old(self).tree_spec()[old(self).root_key_spec()].parent,
                },
            ),
            final(r).wf() ==> final(self).wf(),
    {
        proof {
            self.tree.lemma_wf_invariant();
        }
        let root = self.tree.root_key();
        match self.tree.value_mut(root) {
            Some(folder) => folder,
            None => unreached(),
        }
    }

    pub fn get_folder(&self, id: &u64) -> (r: Option<&NoteFolder>)
        requires
            self.wf(),
        ensures
            match r {
                Some(f) => self.tree_spec().contains_key(*id) && *f == self.tree_spec()[*id].value,
                None => !self.tree_spec().contains_key(*id),
            },
    {
        match self.tree.get_node(*id) {
            Some(node) => Some(&node.value),
            None => None,
        }
    }

    /// The first folder, in folder insertion order, that holds the note.
    pub fn find_note_folder(&self, note_id: &u64) -> (r: Option<&NoteFolder>)
        requires
            self.wf(),
        ensures
            match r {
                Some(f) => exists|k: u64|
                    #[trigger] self.tree_spec().contains_key(k) && *f == self.tree_spec()[k].value
                        && self.tree_spec()[k].value.items@.contains_key(*note_id),
                None => forall|k: u64|
                    #[trigger] self.tree_spec().contains_key(k) ==> !self.tree_spec()[
                        k].value.items@.contains_key(*note_id),
            },
    {
        let values = self.tree.node_values();
        let n = values.len();
        let mut i: usize = 0;
        while i < n
            invariant
                self.wf(),
                n == values@.len(),
                n == self.tree.key_order().len(),
                0 <= i <= n,
                forall|j: int|
                    0 <= j < n ==> *(#[trigger] values@[j]) == self.tree@[self.tree.key_order()[
                        j]].value && self.tree@.contains_key(self.tree.key_order()[j]),
                forall|j: int|
                    0 <= j < i ==> !self.tree@[self.tree.key_order()[
                        j]].value.items@.contains_key(*note_id),
            decreases n - i,
        {
            let folder = values[i];
            if folder.items.contains_key(*note_id) {
                return Some(folder);
            }
            i += 1;
        }
        proof {
            assert forall|k: u64| #[trigger] self.tree_spec().contains_key(k) implies !self
                .tree_spec()[k].value.items@.contains_key(*note_id) by {
                self.tree.lemma_wf_invariant();
                self.tree.lemma_key_position(k);
            }
        }
        None
    }

    /// Create an empty folder under `parent_folder_id` and return its key,
    /// drawn fresh against the existing folder keys so that, whenever the
    /// parent exists, the folder is really inserted.  With an unknown
    /// parent the tree is left unchanged and the drawn key is returned
    /// anyway, as the original did.
    pub fn add_folder(&mut self, parent_folder_id: &u64, folder_name: String) -> (id: u64)
        requires
            old(self).wf(),
        ensures
            final(self).wf(),
            final(self).root_key_spec() == old(self).root_key_spec(),
            !old(self).tree_spec().contains_key(id),
            old(self).tree_spec().contains_key(*parent_folder_id) ==> final(self).tree_spec().contains_key(id) && final(self).tree_spec()[id].value.name == folder_name
                && final(self).tree_spec()[id].value.id == id && final(self).tree_spec()[id].value.items@ == Map::<u64, Note>::empty() && final(self).tree_spec()[
                id].parent == Some(*parent_folder_id) && final(self).tree_spec()[
                *parent_folder_id].children@ == old(self).tree_spec()[
                *parent_folder_id].children@.push(id) && (forall|x: u64|
                #[trigger] final(self).tree_spec().contains_key(x) <==> (old(self).tree_spec().contains_key(x) || x == id)),
            !old(self).tree_spec().contains_key(*parent_folder_id) ==> final(self).tree_spec()
                == old(self).tree_spec(),
    {
        let mut folder = NoteFolder::empty(folder_name);
        let folder_id = self.tree.fresh_key(folder.id);
        folder.id = folder_id;
        let r = self.tree.add_node(*parent_folder_id, folder_id, folder);
        proof {
            match r {
                Ok(()) => {
                    assert forall|k: u64| #[trigger] self.tree@.contains_key(k) implies self
                        .tree@[k].value.wf() by {
                        if k != folder_id && k != *parent_folder_id {
                            assert(old(self).tree@[k] == self.tree@[k]);
                        }
                    }
                },
                Err(e) => {
                    assert(e is ParentNotFound);
                },
            }
        }
        folder_id
    }

    /// The folders directly under `folder_id`, in insertion order.
    pub fn get_sub_folders(&self, folder_id: &u64) -> (r: Option<Vec<&NoteFolder>>)
        requires
            self.wf(),
        ensures
            match r {
                Some(v) => self.tree_spec().contains_key(*folder_id) && {
                    let cs = self.tree_spec()[*folder_id].children@;
                    &&& v@.len() == cs.len()
                    &&& forall|i: int|
                        0 <= i < v@.len() ==> self.tree_spec().contains_key(cs[i]) && *(
                        #[trigger] v@[i]) == self.tree_spec()[cs[i]].value
                },
                None => !self.tree_spec().contains_key(*folder_id),
            },
    {
        let children = match self.tree.get_children(*folder_id) {
            Some(c) => c,
            None => {
                return None;
            },
        };
        proof {
            self.tree.lemma_wf_invariant();
        }
        let n = children.len();
        let mut out: Vec<&NoteFolder> = Vec::new();
        let mut i: usize = 0;
        while i < n
            invariant
                self.wf(),
                self.tree_spec().contains_key(*folder_id),
                *children == self.tree_spec()[*folder_id].children,
                n == children@.len(),
                0 <= i <= n,
                forall|j: int|
                    0 <= j < n ==> self.tree_spec().contains_key(#[trigger] children@[j]),
                out@.len() == i,
                forall|j: int|
                    0 <= j < i ==> self.tree_spec().contains_key(children@[j]) && *(
                    #[trigger] out@[j]) == self.tree_spec()[children@[j]].value,
            decreases n - i,
        {
            let c = children[i];
            match self.tree.get_node(c) {
                Some(node) => {
                    out.push(&node.value);
                },
                None => unreached(),
            }
            i += 1;
        }
        Some(out)
    }
}

} // verus!
