use vstd::prelude::*;
use crate::kvmap::KeyMap;

verus! {

/// A node of the arena tree: a value, the keys of the children in insertion
/// order, and the key of the parent (`None` exactly at the root).
#[derive(Debug)]
pub struct TreeNode<V> {
    pub value: V,
    pub children: Vec<u64>,
    pub parent: Option<u64>,
}

/// Why an insertion was refused.
#[derive(Debug, Clone, Copy, PartialEq, Eq, Structural)]
pub enum TreeError {
    ParentNotFound,
    DuplicateKey,
}

/// A rooted tree held as an arena: nodes are addressed by `u64` keys, and the
/// parent/child links are keys, never owning references, so the structure is
/// cycle-free by construction.  A ghost depth map witnesses that parent links
/// always lead toward the root.
pub struct TreeStore<V> {
    root: u64,
    nodes: KeyMap<TreeNode<V>>,
    depth: Ghost<Map<u64, nat>>,
}

impl<V> View for TreeStore<V> {
    type V = Map<u64, TreeNode<V>>;

    closed spec fn view(&self) -> Map<u64, TreeNode<V>> {
        self.nodes@
    }
}

impl<V> TreeStore<V> {
    /// The key of the root node.
    pub closed spec fn root_spec(&self) -> u64 {
        self.root
    }

    /// The keys of all nodes, in insertion order.
    pub closed spec fn key_order(&self) -> Seq<u64> {
        self.nodes.key_seq()
    }

    /// The distance of node `k` from the root.
    pub closed spec fn depth_of(&self, k: u64) -> nat {
        self.depth@[k]
    }

    /// Structural consistency of one node.
    spec fn node_ok(&self, k: u64) -> bool {
        let n = self.nodes@[k];
        &&& match n.parent {
            Some(p) => {
                &&& k != self.root
                &&& self.nodes@.contains_key(p)
                &&& self.nodes@[p].children@.contains(k)
                &&& self.depth@.contains_key(k)
                &&& self.depth@.contains_key(p)
                &&& self.depth@[k] == self.depth@[p] + 1
            },
            None => {
                &&& k == self.root
                &&& self.depth@.contains_key(k)
                &&& self.depth@[k] == 0
            },
        }
        &&& n.children@.no_duplicates()
        &&& forall|i: int|
            0 <= i < n.children@.len() ==> self.nodes@.contains_key(#[trigger] n.children@[i])
                && self.nodes@[n.children@[i]].parent == Some(k)
    }

    /// Well-formedness: the root is present and parentless, every other node
    /// has exactly one parent that lists it as a child, every child link
    /// points back to its parent, and depths decrease along parent links.
    pub closed spec fn wf(&self) -> bool {
        &&& self.nodes.wf()
        &&& self.nodes@.contains_key(self.root)
        &&& forall|k: u64| #[trigger] self.nodes@.contains_key(k) ==> self.node_ok(k)
    }

    /// The tree invariant, stated for callers: every key except the root has
    /// a parent in the tree, and `parent_of(child) = p` implies that `child`
    /// is among `children_of(p)`; symmetrically every child link points back
    /// to its parent.  Depths witness that parent links lead to the root.
    pub proof fn lemma_wf_invariant(&self)
        requires
            self.wf(),
        ensures
            self@.contains_key(self.root_spec()),
            self@[self.root_spec()].parent is None,
            forall|k: u64|
                #[trigger] self@.contains_key(k) && k != self.root_spec() ==> self@[k].parent
                    is Some,
            forall|k: u64|
                #[trigger] self@.contains_key(k) && self@[k].parent is Some ==> {
                    let p = self@[k].parent->Some_0;
                    k != self.root_spec() && self@.contains_key(p)
                        && self@[p].children@.contains(k) && self.depth_of(k) == self.depth_of(p)
                        + 1
                },
            forall|k: u64, i: int|
                #[trigger] self@.contains_key(k) && 0 <= i < self@[k].children@.len()
                    ==> self@.contains_key(#[trigger] self@[k].children@[i])
                    && self@[self@[k].children@[i]].parent == Some(k),
            forall|k: u64| #[trigger] self@.contains_key(k) ==> self@[k].children@.no_duplicates(),
            self.depth_of(self.root_spec()) == 0,
    {
        assert(self.nodes@.contains_key(self.root));
        assert(self.node_ok(self.root));
    }

    /// Every key of the tree stands at some position of the key order.
    pub proof fn lemma_key_position(&self, k: u64)
        requires
            self@.contains_key(k),
        ensures
            exists|i: int| 0 <= i < self.key_order().len() && self.key_order()[i] == k,
    {
        self.nodes.lemma_contains_position(k);
        let i = choose|i: int|
            0 <= i < self.nodes.key_seq().len() && self.nodes.key_seq()[i] == k;
        assert(self.key_order()[i] == k);
    }

    /// A key that no node of the tree uses.
    pub fn fresh_key(&self, base: u64) -> (k: u64)
        requires
            self.wf(),
        ensures
            !self@.contains_key(k),
    {
        self.nodes.fresh_key(base)
    }

    /// Create a tree holding a single root node.
    pub fn with_root(key: u64, value: V) -> (r: Self)
        ensures
            r.wf(),
            r.root_spec() == key,
            r@.contains_key(key),
            r@[key].value == value,
            r@[key].children@ == Seq::<u64>::empty(),
            r@[key].parent is None,
            forall|k: u64| #[trigger] r@.contains_key(k) ==> k == key,
            r.key_order() == seq![key],
    {
        let mut nodes = KeyMap::<TreeNode<V>>::new();
        nodes.insert(key, TreeNode { value, children: Vec::new(), parent: None });
        let r = TreeStore { root: key, nodes, depth: Ghost(Map::<u64, nat>::empty().insert(key, 0)) };
        proof {
            assert(r.key_order() =~= seq![key]);
        }
        r
    }

    /// Look a node up by key.
    pub fn get_node(&self, key: u64) -> (r: Option<&TreeNode<V>>)
        requires
            self.wf(),
        ensures
            match r {
                Some(n) => self@.contains_key(key) && *n == self@[key],
                None => !self@.contains_key(key),
            },
    {
        self.nodes.get(key)
    }

    /// The root node.
    pub fn root_node(&self) -> (r: &TreeNode<V>)
        requires
            self.wf(),
        ensures
            *r == self@[self.root_spec()],
            self@.contains_key(self.root_spec()),
    {
        match self.nodes.get(self.root) {
            Some(n) => n,
            None => {
                proof {
                    assert(self.nodes@.contains_key(self.root));
                }
                unreached()
            },
        }
    }

    /// The root key.
    pub fn root_key(&self) -> (r: u64)
        ensures
            r == self.root_spec(),
    {
        self.root
    }

    /// The ordered children of a node.
    pub fn get_children(&self, key: u64) -> (r: Option<&Vec<u64>>)
        requires
            self.wf(),
        ensures
            match r {
                Some(c) => self@.contains_key(key) && *c == self@[key].children,
                None => !self@.contains_key(key),
            },
    {
        match self.nodes.get(key) {
            Some(n) => Some(&n.children),
            None => None,
        }
    }

    /// The parent key of a node.
    pub fn get_parent(&self, key: u64) -> (r: Option<Option<u64>>)
        requires
            self.wf(),
        ensures
            match r {
                Some(p) => self@.contains_key(key) && p == self@[key].parent,
                None => !self@.contains_key(key),
            },
    {
        match self.nodes.get(key) {
            Some(n) => Some(n.parent),
            None => None,
        }
    }

    /// References to all node values, in insertion order.
    pub fn node_values(&self) -> (r: Vec<&V>)
        requires
            self.wf(),
        ensures
            r@.len() == self.key_order().len(),
            forall|i: int|
                0 <= i < r@.len() ==> *(#[trigger] r@[i]) == self@[self.key_order()[i]].value
                    && self@.contains_key(self.key_order()[i]),
    {
        let n = self.nodes.len();
        let mut r: Vec<&V> = Vec::new();
        let mut i: usize = 0;
        while i < n
            invariant
                self.wf(),
                n == self.key_order().len(),
                0 <= i <= n,
                r@.len() == i,
                forall|j: int|
                    0 <= j < i ==> *(#[trigger] r@[j]) == self@[self.key_order()[j]].value
                        && self@.contains_key(self.key_order()[j]),
            decreases n - i,
        {
            let node = self.nodes.value_at(i);
            r.push(&node.value);
            i += 1;
        }
        r
    }

    /// Insert `value` as a fresh leaf under `parent`.  Fails, leaving the
    /// tree unchanged, exactly when the parent is absent or the key is
    /// already taken.
    pub fn add_node(&mut self, parent: u64, key: u64, value: V) -> (r: Result<(), TreeError>)
        requires
            old(self).wf(),
        ensures
            final(self).wf(),
            final(self).root_spec() == old(self).root_spec(),
            match r {
                Ok(()) => {
                    &&& old(self)@.contains_key(parent)
                    &&& !old(self)@.contains_key(key)
                    &&& final(self)@.contains_key(key)
                    &&& final(self)@[key].value == value
                    &&& final(self)@[key].children@ == Seq::<u64>::empty()
                    &&& final(self)@[key].parent == Some(parent)
                    &&& final(self)@[parent].children@ == old(self)@[parent].children@.push(key)
                    &&& final(self)@[parent].value == old(self)@[parent].value
                    &&& final(self)@[parent].parent == old(self)@[parent].parent
                    &&& forall|x: u64|
                        #[trigger] final(self)@.contains_key(x) <==> (old(self)@.contains_key(x)
                            || x == key)
                    &&& forall|x: u64|
                        x != key && x != parent && old(self)@.contains_key(x) ==> final(self)@[x]
                            == old(self)@[x]
                    &&& final(self).key_order() == old(self).key_order().push(key)
                    &&& final(self).depth_of(key) == final(self).depth_of(parent) + 1
                },
                Err(TreeError::ParentNotFound) => !old(self)@.contains_key(parent) && *final(self)
                    == *old(self),
                Err(TreeError::DuplicateKey) => old(self)@.contains_key(parent)
                    && old(self)@.contains_key(key) && *final(self) == *old(self),
            },
    {
        if !self.nodes.contains_key(parent) {
            return Err(TreeError::ParentNotFound);
        }
        if self.nodes.contains_key(key) {
            return Err(TreeError::DuplicateKey);
        }
        let ghost pre = *self;
        match self.nodes.get_mut(parent) {
            Some(node) => {
                node.children.push(key);
            },
            None => {
                unreached()
            },
        }
        let ghost mid = *self;
        proof {
            assert(mid.nodes@ =~= pre.nodes@.insert(
                parent,
                TreeNode {
                    value: pre.nodes@[parent].value,
                    children: mid.nodes@[parent].children,
                    parent: pre.nodes@[parent].parent,
                },
            ));
        }
        self.nodes.insert(key, TreeNode { value, children: Vec::new(), parent: Some(parent) });
        proof {
            let d = self.depth@;
            let dp = d[parent];
            self.depth@ = d.insert(key, (dp + 1) as nat);
        }
        proof {
            let post = *self;
            assert(pre.node_ok(parent));
            assert forall|k: u64| #[trigger] post.nodes@.contains_key(k) implies post.node_ok(k) by {
                if k == key {
                    assert(post.nodes@[parent].children@.last() == key);
                    assert(post.nodes@[parent].children@.contains(key));
                } else {
                    assert(pre.nodes@.contains_key(k));
                    assert(pre.node_ok(k));
                    let n_pre = pre.nodes@[k];
                    let n_post = post.nodes@[k];
                    if k == parent {
                        assert(n_post.children@ == n_pre.children@.push(key));
                        assert forall|i: int| 0 <= i < n_post.children@.len() implies
                            post.nodes@.contains_key(#[trigger] n_post.children@[i])
                                && post.nodes@[n_post.children@[i]].parent == Some(k) by {
                            if i < n_pre.children@.len() {
                                assert(n_post.children@[i] == n_pre.children@[i]);
                                assert(pre.nodes@.contains_key(n_pre.children@[i]));
                                assert(n_pre.children@[i] != key);
                            } else {
                                assert(n_post.children@[i] == key);
                            }
                        }
                        assert(n_post.children@.no_duplicates()) by {
                            assert forall|i: int, j: int|
                                0 <= i < n_post.children@.len() && 0 <= j < n_post.children@.len()
                                    && i != j implies n_post.children@[i] != n_post.children@[j] by {
                                if i < n_pre.children@.len() && j < n_pre.children@.len() {
                                } else if i < n_pre.children@.len() {
                                    assert(n_post.children@[j] == key);
                                    assert(pre.nodes@.contains_key(n_pre.children@[i]));
                                } else {
                                    assert(n_post.children@[i] == key);
                                    assert(pre.nodes@.contains_key(n_pre.children@[j]));
                                }
                            }
                        }
                    } else {
                        assert(n_post.children@ == n_pre.children@);
                        assert forall|i: int| 0 <= i < n_post.children@.len() implies
                            post.nodes@.contains_key(#[trigger] n_post.children@[i])
                                && post.nodes@[n_post.children@[i]].parent == Some(k) by {
                            assert(pre.nodes@.contains_key(n_pre.children@[i]));
                            assert(n_pre.children@[i] != key);
                            if n_pre.children@[i] == parent {
                                assert(post.nodes@[parent].parent == pre.nodes@[parent].parent);
                            }
                        }
                    }
                    match n_post.parent {
                        Some(p) => {
                            assert(n_post.parent == n_pre.parent);
                            assert(pre.nodes@[p].children@.contains(k));
                            let w = choose|w: int|
                                0 <= w < pre.nodes@[p].children@.len() && pre.nodes@[p].children@[w]
                                    == k;
                            if p == parent {
                                assert(post.nodes@[p].children@[w] == k);
                                assert(post.nodes@[p].children@.contains(k));
                            } else {
                                assert(post.nodes@[p].children@ == pre.nodes@[p].children@);
                            }
                        },
                        None => {},
                    }
                }
            }
        }
        Ok(())
    }

    /// Whether `k` lies in the subtree rooted at `anc`: walking parent
    /// links upward from `k` reaches `anc`.
    pub open spec fn in_subtree(self, anc: u64, k: u64) -> bool
        decreases self.depth_of(k) when self.wf()
    {
        if !self@.contains_key(k) {
            false
        } else if k == anc {
            true
        } else {
            match self@[k].parent {
                Some(p) => self.in_subtree(anc, p),
                None => false,
            }
        }
    }

    /// Members of a subtree lie at or below its root.
    pub proof fn lemma_in_subtree_depth(self, anc: u64, k: u64)
        requires
            self.wf(),
            self.in_subtree(anc, k),
        ensures
            self@.contains_key(k),
            self.depth_of(k) >= self.depth_of(anc),
        decreases self.depth_of(k),
    {
        if self@.contains_key(k) && k != anc {
            match self@[k].parent {
                Some(p) => {
                    assert(self.node_ok(k));
                    self.lemma_in_subtree_depth(anc, p);
                },
                None => {},
            }
        }
    }

    /// Every subtree member ends up collected once the collection is closed
    /// under children and holds the subtree's root.
    proof fn lemma_subtree_collected(pre: Self, sub: Map<u64, TreeNode<V>>, key: u64, x: u64)
        requires
            pre.wf(),
            sub.contains_key(key),
            forall|y: u64, j: int|
                #[trigger] sub.contains_key(y) && 0 <= j < sub[y].children@.len()
                    ==> sub.contains_key(#[trigger] sub[y].children@[j]),
            forall|y: u64|
                #[trigger] sub.contains_key(y) ==> pre@.contains_key(y) && sub[y].children
                    == pre@[y].children,
            pre.in_subtree(key, x),
        ensures
            sub.contains_key(x),
        decreases pre.depth_of(x),
    {
        if x != key {
            assert(pre@.contains_key(x));
            assert(pre.node_ok(x));
            let p = pre@[x].parent->Some_0;
            Self::lemma_subtree_collected(pre, sub, key, p);
            assert(pre@[p].children@.contains(x));
            let j = choose|j: int| 0 <= j < pre@[p].children@.len() && pre@[p].children@[j] == x;
            assert(sub[p].children@[j] == x);
            assert(sub.contains_key(sub[p].children@[j]));
        }
    }

    /// Detach the subtree rooted at `key` and hand it back as a tree of its
    /// own.  Removing the root, or an unknown key, fails and changes
    /// nothing.  The detached region holds exactly the keys reachable from
    /// `key`, both trees stay well-formed, and the former parent merely
    /// loses the one child entry.
    pub fn remove_subtree(&mut self, key: u64) -> (r: Option<TreeStore<V>>)
        requires
            old(self).wf(),
        ensures
            final(self).wf(),
            final(self).root_spec() == old(self).root_spec(),
            match r {
                Some(sub) => {
                    &&& old(self)@.contains_key(key) && key != old(self).root_spec()
                    &&& sub.wf() && sub.root_spec() == key
                    &&& forall|x: u64|
                        #[trigger] sub@.contains_key(x) <==> old(self).in_subtree(key, x)
                    &&& forall|x: u64|
                        #[trigger] final(self)@.contains_key(x) <==> (old(self)@.contains_key(x)
                            && !old(self).in_subtree(key, x))
                    &&& sub@[key].value == old(self)@[key].value
                    &&& sub@[key].children == old(self)@[key].children
                    &&& sub@[key].parent is None
                    &&& forall|x: u64|
                        #[trigger] sub@.contains_key(x) && x != key ==> sub@[x] == old(self)@[x]
                    &&& {
                        let p = old(self)@[key].parent->Some_0;
                        &&& (forall|x: u64|
                            #[trigger] final(self)@.contains_key(x) && x != p ==> final(self)@[x]
                                == old(self)@[x])
                        &&& final(self)@.contains_key(p)
                        &&& final(self)@[p].value == old(self)@[p].value
                        &&& final(self)@[p].parent == old(self)@[p].parent
                        &&& !final(self)@[p].children@.contains(key)
                        &&& exists|i: int|
                            0 <= i < old(self)@[p].children@.len() && old(self)@[p].children@[i]
                                == key && final(self)@[p].children@ == old(
                                self,
                            )@[p].children@.remove(i)
                    }
                },
                None => (*final(self) == *old(self)) && (key == old(self).root_spec() || !old(
                    self,
                )@.contains_key(key)),
            },
    {
        if key == self.root {
            return None;
        }
        let p_out = match self.nodes.get(key) {
            Some(n) => match n.parent {
                Some(p) => p,
                None => {
                    proof {
                        assert(old(self).node_ok(key));
                    }
                    unreached()
                },
            },
            None => {
                return None;
            },
        };
        let ghost pre = *old(self);
        proof {
            assert(pre.node_ok(key));
            if pre.in_subtree(key, p_out) {
                pre.lemma_in_subtree_depth(key, p_out);
            }
            assert(!pre.in_subtree(key, p_out));
            assert(key != p_out);
        }
        // detach `key` from its parent's ordered child list
        let idx = self.find_child_index(p_out, key);
        let ghost i0 = idx as int;
        match self.nodes.get_mut(p_out) {
            Some(node) => {
                let _ = node.children.remove(idx);
            },
            None => unreached(),
        }
        let ghost base = *self;
        proof {
            assert(base.nodes@ == pre.nodes@.insert(p_out, base.nodes@[p_out]));
            assert(forall|x: u64|
                #[trigger] base.nodes@.contains_key(x) <==> pre.nodes@.contains_key(x));
            assert(forall|x: u64|
                x != p_out && #[trigger] base.nodes@.contains_key(x) ==> base.nodes@[x]
                    == pre.nodes@[x]);
        }
        // collect the subtree with a worklist
        let mut sub_nodes: KeyMap<TreeNode<V>> = KeyMap::new();
        let mut stack: Vec<u64> = Vec::new();
        stack.push(key);
        proof {
            assert(stack@[0] == key);
            assert(stack@.contains(key));
        }
        while stack.len() > 0
            invariant
                pre.wf(),
                pre@.contains_key(key),
                key != pre.root_spec(),
                pre@[key].parent == Some(p_out),
                !pre.in_subtree(key, p_out),
                self.root == pre.root_spec(),
                self.depth == pre.depth,
                self.nodes.wf(),
                sub_nodes.wf(),
                forall|x: u64|
                    #[trigger] self.nodes@.contains_key(x) ==> base.nodes@.contains_key(x)
                        && self.nodes@[x] == base.nodes@[x],
                forall|x: u64|
                    #[trigger] base.nodes@.contains_key(x) <==> (self.nodes@.contains_key(x)
                        || sub_nodes@.contains_key(x)),
                forall|x: u64| !(self.nodes@.contains_key(x) && #[trigger] sub_nodes@.contains_key(x)),
                forall|x: u64| #[trigger] sub_nodes@.contains_key(x) ==> pre.in_subtree(key, x),
                forall|x: u64|
                    #[trigger] sub_nodes@.contains_key(x) && x != key ==> sub_nodes@[x]
                        == pre.nodes@[x],
                sub_nodes@.contains_key(key) ==> sub_nodes@[key].value == pre.nodes@[key].value
                    && sub_nodes@[key].children == pre.nodes@[key].children
                    && sub_nodes@[key].parent is None,
                forall|i: int|
                    0 <= i < stack@.len() ==> pre.in_subtree(key, #[trigger] stack@[i]),
                forall|y: u64, j: int|
                    #[trigger] sub_nodes@.contains_key(y) && 0 <= j < sub_nodes@[y].children@.len()
                        ==> (sub_nodes@.contains_key(#[trigger] sub_nodes@[y].children@[j])
                        || stack@.contains(sub_nodes@[y].children@[j])),
                sub_nodes@.contains_key(key) || stack@.contains(key),
                base.nodes@ == pre.nodes@.insert(p_out, base.nodes@[p_out]),
                base.nodes@[p_out].value == pre.nodes@[p_out].value,
                base.nodes@[p_out].parent == pre.nodes@[p_out].parent,
                0 <= i0 < pre.nodes@[p_out].children@.len(),
                pre.nodes@[p_out].children@[i0] == key,
                base.nodes@[p_out].children@ == pre.nodes@[p_out].children@.remove(i0),
            decreases self.nodes.key_seq().len(), stack@.len(),
        {
            let ghost stack_pre = stack@;
            let id = match stack.pop() {
                Some(id) => id,
                None => unreached(),
            };
            let node = match self.nodes.remove(id) {
                Some(n) => n,
                None => {
                    proof {
                        assert(stack_pre[stack_pre.len() - 1] == id);
                        assert(pre.in_subtree(key, id));
                        assert(pre.nodes@.contains_key(id));
                        assert(base.nodes@.contains_key(id));
                        assert(sub_nodes@.contains_key(id));
                        assert(stack@ == stack_pre.take(stack_pre.len() - 1));
                        assert forall|y: u64, jj: int|
                            #[trigger] sub_nodes@.contains_key(y) && 0 <= jj
                                < sub_nodes@[y].children@.len() implies (sub_nodes@.contains_key(
                            #[trigger] sub_nodes@[y].children@[jj],
                        ) || stack@.contains(sub_nodes@[y].children@[jj])) by {
                            let c = sub_nodes@[y].children@[jj];
                            if !sub_nodes@.contains_key(c) && stack_pre.contains(c) {
                                let w = choose|w: int|
                                    0 <= w < stack_pre.len() && #[trigger] stack_pre[w] == c;
                                if w < stack_pre.len() - 1 {
                                    assert(stack@[w] == c);
                                } else {
                                    assert(c == id);
                                }
                            }
                        }
                        if !sub_nodes@.contains_key(key) && stack_pre.contains(key) {
                            let w = choose|w: int|
                                0 <= w < stack_pre.len() && #[trigger] stack_pre[w] == key;
                            if w < stack_pre.len() - 1 {
                                assert(stack@[w] == key);
                            } else {
                                assert(key == id);
                            }
                        }
                    }
                    continue ;
                },
            };
            proof {
                assert(pre.in_subtree(key, id));
                assert(id != p_out);
                assert(node == pre.nodes@[id]);
                assert(pre.node_ok(id));
            }
            let m = node.children.len();
            let mut j: usize = 0;
            while j < m
                invariant
                    m == node.children@.len(),
                    0 <= j <= m,
                    stack@ == stack_pre.take(stack_pre.len() - 1) + node.children@.take(j as int),
                decreases m - j,
            {
                let c = node.children[j];
                stack.push(c);
                proof {
                    assert(stack@ =~= stack_pre.take(stack_pre.len() - 1) + node.children@.take(
                        j + 1,
                    ));
                }
                j += 1;
            }
            proof {
                assert(node.children@.take(m as int) =~= node.children@);
                assert forall|i: int| 0 <= i < stack@.len() implies pre.in_subtree(
                    key,
                    #[trigger] stack@[i],
                ) by {
                    if i < stack_pre.len() - 1 {
                        assert(stack@[i] == stack_pre[i]);
                    } else {
                        let c = stack@[i];
                        assert(c == node.children@[i - (stack_pre.len() - 1)]);
                        assert(pre.nodes@.contains_key(c));
                        assert(pre.nodes@[c].parent == Some(id));
                        if c == key {
                            assert(pre.nodes@[key].parent == Some(p_out));
                        }
                        assert(pre.in_subtree(key, c));
                    }
                }
            }
            if id == key {
                let filed = TreeNode { value: node.value, children: node.children, parent: None };
                sub_nodes.insert(key, filed);
            } else {
                sub_nodes.insert(id, node);
            }
            proof {
                if !sub_nodes@.contains_key(key) && stack_pre.contains(key) {
                    let w = choose|w: int|
                        0 <= w < stack_pre.len() && #[trigger] stack_pre[w] == key;
                    if w < stack_pre.len() - 1 {
                        assert(stack_pre.take(stack_pre.len() - 1)[w] == key);
                        assert(stack@[w] == key);
                    } else {
                        assert(key == id);
                    }
                }
                assert forall|y: u64, jj: int|
                    #[trigger] sub_nodes@.contains_key(y) && 0 <= jj
                        < sub_nodes@[y].children@.len() implies (sub_nodes@.contains_key(
                    #[trigger] sub_nodes@[y].children@[jj],
                ) || stack@.contains(sub_nodes@[y].children@[jj])) by {
                    let c = sub_nodes@[y].children@[jj];
                    if y == id {
                        assert(sub_nodes@[y].children@ == node.children@);
                        assert(stack@[stack_pre.len() - 1 + jj] == c);
                    } else {
                        if stack_pre.take(stack_pre.len() - 1).contains(c) {
                            let w = choose|w: int|
                                0 <= w < stack_pre.take(stack_pre.len() - 1).len()
                                    && #[trigger] stack_pre.take(stack_pre.len() - 1)[w] == c;
                            assert(stack@[w] == c);
                        } else if stack_pre.contains(c) {
                            let w = choose|w: int|
                                0 <= w < stack_pre.len() && #[trigger] stack_pre[w] == c;
                            if w < stack_pre.len() - 1 {
                                assert(stack_pre.take(stack_pre.len() - 1)[w] == c);
                            }
                            assert(w == stack_pre.len() - 1);
                            assert(c == id);
                        }
                    }
                }
            }
        }
        // everything reachable from `key` is now in `sub_nodes`
        proof {
            assert forall|x: u64| pre.in_subtree(key, x) implies sub_nodes@.contains_key(x) by {
                Self::lemma_subtree_collected(pre, sub_nodes@, key, x);
            }
        }
        let ghost sub_depth = Map::<u64, nat>::new(
            |x: u64| pre.in_subtree(key, x),
            |x: u64| (pre.depth@[x] - pre.depth@[key]) as nat,
        );
        let sub = TreeStore { root: key, nodes: sub_nodes, depth: Ghost(sub_depth) };
        proof {
            assert forall|k: u64| #[trigger] sub.nodes@.contains_key(k) implies sub.node_ok(k) by {
                assert(pre.in_subtree(key, k));
                pre.lemma_in_subtree_depth(key, k);
                assert(pre.node_ok(k));
                assert forall|i: int| 0 <= i < sub.nodes@[k].children@.len() implies
                    sub.nodes@.contains_key(#[trigger] sub.nodes@[k].children@[i])
                        && sub.nodes@[sub.nodes@[k].children@[i]].parent == Some(k) by {
                    let c = sub.nodes@[k].children@[i];
                    assert(sub.nodes@[k].children == pre.nodes@[k].children);
                    assert(pre.nodes@.contains_key(c));
                    assert(pre.nodes@[c].parent == Some(k));
                    if c == key {
                        assert(pre.nodes@[key].parent == Some(p_out));
                        assert(k == p_out);
                        pre.lemma_in_subtree_depth(key, k);
                        assert(pre.in_subtree(key, p_out));
                    }
                    assert(pre.in_subtree(key, c));
                    Self::lemma_subtree_collected(pre, sub.nodes@, key, c);
                }
                if k != key {
                    let p = pre.nodes@[k].parent->Some_0;
                    assert(pre.in_subtree(key, p));
                    pre.lemma_in_subtree_depth(key, p);
                    Self::lemma_subtree_collected(pre, sub.nodes@, key, p);
                    assert(sub.nodes@[p].children == pre.nodes@[p].children);
                    assert(pre.nodes@[p].children@.contains(k));
                }
            }
            assert(sub.wf());
        }
        // the remaining tree: exactly the keys outside the subtree
        proof {
            assert forall|k: u64| #[trigger] self.nodes@.contains_key(k) implies self.node_ok(k) by {
                assert(base.nodes@.contains_key(k));
                assert(pre.nodes@.contains_key(k));
                assert(!pre.in_subtree(key, k));
                assert(pre.node_ok(k));
                assert forall|i: int| 0 <= i < self.nodes@[k].children@.len() implies
                    self.nodes@.contains_key(#[trigger] self.nodes@[k].children@[i])
                        && self.nodes@[self.nodes@[k].children@[i]].parent == Some(k) by {
                    let c = self.nodes@[k].children@[i];
                    assert(self.nodes@[k] == base.nodes@[k]);
                    if k == p_out {
                        assert(self.nodes@[k].children@ == pre.nodes@[k].children@.remove(i0));
                        if i < i0 {
                            assert(c == pre.nodes@[k].children@[i]);
                        } else {
                            assert(c == pre.nodes@[k].children@[i + 1]);
                        }
                        assert(pre.nodes@[k].children@.contains(c));
                        let w = choose|w: int|
                            0 <= w < pre.nodes@[k].children@.len() && pre.nodes@[k].children@[w]
                                == c;
                        assert(pre.nodes@.contains_key(c));
                        assert(pre.nodes@[c].parent == Some(k));
                        assert(pre.nodes@[k].children@.no_duplicates());
                        assert(c != key);
                    } else {
                        assert(self.nodes@[k].children == pre.nodes@[k].children);
                        assert(pre.nodes@.contains_key(c));
                        assert(pre.nodes@[c].parent == Some(k));
                        if c == key {
                            assert(pre.nodes@[key].parent == Some(p_out));
                            assert(k == p_out);
                        }
                    }
                    assert(!pre.in_subtree(key, c)) by {
                        if pre.in_subtree(key, c) {
                            assert(c != key);
                            assert(pre.in_subtree(key, k));
                        }
                    }
                    assert(!sub_nodes@.contains_key(c));
                    assert(base.nodes@.contains_key(c));
                    assert(self.nodes@.contains_key(c));
                    assert(self.nodes@[c] == base.nodes@[c]);
                    if c == p_out {
                        assert(base.nodes@[c].parent == pre.nodes@[c].parent);
                    } else {
                        assert(base.nodes@[c] == pre.nodes@[c]);
                    }
                }
                if k == p_out {
                    assert(self.nodes@[k].children@.no_duplicates()) by {
                        assert(pre.nodes@[k].children@.no_duplicates());
                        assert forall|a: int, b: int|
                            0 <= a < self.nodes@[k].children@.len() && 0 <= b
                                < self.nodes@[k].children@.len() && a != b implies
                            self.nodes@[k].children@[a] != self.nodes@[k].children@[b] by {
                            let ca = if a < i0 { a } else { a + 1 };
                            let cb = if b < i0 { b } else { b + 1 };
                            assert(self.nodes@[k].children@[a] == pre.nodes@[k].children@[ca]);
                            assert(self.nodes@[k].children@[b] == pre.nodes@[k].children@[cb]);
                        }
                    }
                }
                match self.nodes@[k].parent {
                    Some(p) => {
                        assert(self.nodes@[k].parent == pre.nodes@[k].parent);
                        assert(!pre.in_subtree(key, p)) by {
                            if pre.in_subtree(key, p) {
                                assert(pre.in_subtree(key, k));
                            }
                        }
                        assert(pre.nodes@.contains_key(p));
                        assert(base.nodes@.contains_key(p));
                        assert(!sub_nodes@.contains_key(p));
                        assert(self.nodes@.contains_key(p));
                        assert(pre.nodes@[p].children@.contains(k));
                        if p == p_out {
                            let w = choose|w: int|
                                0 <= w < pre.nodes@[p].children@.len()
                                    && pre.nodes@[p].children@[w] == k;
                            assert(k != key) by {
                                assert(!pre.in_subtree(key, k));
                            }
                            assert(w != i0);
                            if w < i0 {
                                assert(self.nodes@[p].children@[w] == k);
                            } else {
                                assert(self.nodes@[p].children@[w - 1] == k);
                            }
                            assert(self.nodes@[p].children@.contains(k));
                        } else {
                            assert(self.nodes@[p].children@.contains(k));
                        }
                    },
                    None => {
                        assert(k == pre.root_spec());
                    },
                }
            }
            assert(self.nodes@.contains_key(self.root)) by {
                assert(pre.nodes@.contains_key(pre.root_spec()));
                assert(pre.node_ok(pre.root_spec()));
                assert(!pre.in_subtree(key, pre.root_spec()));
                assert(base.nodes@.contains_key(pre.root_spec()));
                assert(!sub_nodes@.contains_key(pre.root_spec()));
            }
            assert(self.wf());
            assert(self.nodes@.contains_key(p_out)) by {
                assert(pre.nodes@.contains_key(p_out));
                assert(base.nodes@.contains_key(p_out));
                assert(!sub_nodes@.contains_key(p_out));
            }
            assert(!self.nodes@[p_out].children@.contains(key)) by {
                if self.nodes@[p_out].children@.contains(key) {
                    let w = choose|w: int|
                        0 <= w < self.nodes@[p_out].children@.len()
                            && self.nodes@[p_out].children@[w] == key;
                    let cw = if w < i0 { w } else { w + 1 };
                    assert(pre.nodes@[p_out].children@[cw] == key);
                    assert(pre.nodes@[p_out].children@.no_duplicates()) by {
                        assert(pre.node_ok(p_out));
                    }
                }
            }
        }
        proof {
            assert(pre.node_ok(key));
            assert(pre.nodes@.contains_key(p_out));
            assert forall|x: u64| #[trigger] self.nodes@.contains_key(x) <==> (
            pre.nodes@.contains_key(x) && !pre.in_subtree(key, x)) by {
                if self.nodes@.contains_key(x) {
                    assert(base.nodes@.contains_key(x));
                    assert(pre.nodes@.contains_key(x));
                    assert(!sub_nodes@.contains_key(x));
                    if pre.in_subtree(key, x) {
                        Self::lemma_subtree_collected(pre, sub_nodes@, key, x);
                    }
                }
                if pre.nodes@.contains_key(x) && !pre.in_subtree(key, x) {
                    assert(base.nodes@.contains_key(x));
                    assert(!sub_nodes@.contains_key(x));
                    assert(self.nodes@.contains_key(x));
                }
            }
        }
        Some(sub)
    }

    /// The position of `child` in `parent`'s child list.
    fn find_child_index(&self, parent: u64, child: u64) -> (idx: usize)
        requires
            self.wf(),
            self@.contains_key(parent),
            self@[parent].children@.contains(child),
        ensures
            idx < self@[parent].children@.len(),
            self@[parent].children@[idx as int] == child,
    {
        let node = match self.nodes.get(parent) {
            Some(n) => n,
            None => unreached(),
        };
        let n = node.children.len();
        let mut i: usize = 0;
        while i < n
            invariant
                *node == self@[parent],
                n == node.children@.len(),
                0 <= i <= n,
                node.children@.contains(child),
                forall|j: int| 0 <= j < i ==> node.children@[j] != child,
            decreases n - i,
        {
            if node.children[i] == child {
                return i;
            }
            i += 1;
        }
        proof {
            let j = choose|j: int| 0 <= j < node.children@.len() && node.children@[j] == child;
        }
        unreached()
    }

    /// Replace the value of node `key`, touching nothing structural.
    pub fn value_mut(&mut self, key: u64) -> (r: Option<&mut V>)
        requires
            old(self).wf(),
        ensures
            match r {
                Some(v) => old(self)@.contains_key(key) && *v == old(self)@[key].value
                    && final(self).wf() && final(self)@ == old(self)@.insert(
                    key,
                    TreeNode {
                        value: *final(v),
                        children: old(self)@[key].children,
                        parent: old(self)@[key].parent,
                    },
                ) && final(self).root_spec() == old(self).root_spec() && final(self).key_order()
                    == old(self).key_order(),
                None => !old(self)@.contains_key(key) && *final(self) == *old(self),
            },
    {
        proof {
            if old(self)@.contains_key(key) {
                assert forall|nv: V, post: Self|
                    #![trigger post.view(), old(self).view().insert(key, TreeNode { value: nv, children: old(self)@[key].children, parent: old(self)@[key].parent })]
                    post.nodes@ == old(self).nodes@.insert(
                        key,
                        TreeNode {
                            value: nv,
                            children: old(self)@[key].children,
                            parent: old(self)@[key].parent,
                        },
                    ) && post.root == old(self).root && post.depth == old(self).depth
                        && post.nodes.wf() implies post.wf() by {
                    let pre = *old(self);
                    assert forall|k: u64| #[trigger] post.nodes@.contains_key(k) implies
                        post.node_ok(k) by {
                        assert(pre.nodes@.contains_key(k));
                        assert(pre.node_ok(k));
                        assert(post.nodes@[k].children == pre.nodes@[k].children);
                        assert(post.nodes@[k].parent == pre.nodes@[k].parent);
                        assert forall|i: int| 0 <= i < post.nodes@[k].children@.len() implies
                            post.nodes@.contains_key(#[trigger] post.nodes@[k].children@[i])
                                && post.nodes@[post.nodes@[k].children@[i]].parent == Some(k) by {
                            assert(pre.nodes@.contains_key(pre.nodes@[k].children@[i]));
                        }
                        match post.nodes@[k].parent {
                            Some(p) => {
                                assert(pre.nodes@[p].children@.contains(k));
                                assert(post.nodes@[p].children@.contains(k));
                            },
                            None => {},
                        }
                    }
                }
            }
        }
        match self.nodes.get_mut(key) {
            Some(node) => Some(&mut node.value),
            None => None,
        }
    }
}

} // verus!
