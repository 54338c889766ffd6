use vstd::prelude::*;

verus! {

/// Association map from `u64` keys to values, backed by a vector of pairs
/// with pairwise-distinct keys.
///
/// The abstract view is a `Map<u64, V>`; `key_seq` additionally exposes the
/// stored order, which ordered listings rely on: `insert` appends fresh keys
/// (insertion order), while `insert_sorted` keeps the keys ascending.
#[derive(Debug)]
pub struct KeyMap<V> {
    entries: Vec<(u64, V)>,
}

impl<V> View for KeyMap<V> {
    type V = Map<u64, V>;

    closed spec fn view(&self) -> Map<u64, V> {
        Map::new(
            |k: u64| self.key_seq().contains(k),
            |k: u64| self.entries@[self.idx_of(k)].1,
        )
    }
}

impl<V> KeyMap<V> {
    /// The keys, in insertion order.
    pub closed spec fn key_seq(&self) -> Seq<u64> {
        self.entries@.map_values(|p: (u64, V)| p.0)
    }

    /// Well-formed: no key occurs twice.
    pub closed spec fn wf(&self) -> bool {
        forall|i: int, j: int|
            0 <= i < j < self.entries@.len() ==> (#[trigger] self.entries@[i]).0 != (
            #[trigger] self.entries@[j]).0
    }

    /// The value stored at position `i` of the insertion order.
    pub closed spec fn val_at(&self, i: int) -> V {
        self.entries@[i].1
    }

    spec fn idx_of(&self, k: u64) -> int {
        choose|i: int| 0 <= i < self.entries@.len() && (#[trigger] self.entries@[i]).0 == k
    }

    /// Each stored pair is visible through the map view.
    pub proof fn lemma_entry(&self, i: int)
        requires
            self.wf(),
            0 <= i < self.key_seq().len(),
        ensures
            self@.contains_key(self.key_seq()[i]),
            self@[self.key_seq()[i]] == self.val_at(i),
    {
        let k = self.key_seq()[i];
        assert(self.entries@[i].0 == k);
        assert(self.key_seq().contains(k));
        let j = self.idx_of(k);
        assert(0 <= j < self.entries@.len() && self.entries@[j].0 == k);
        assert(j == i);
    }

    /// Every key of the view is stored at some position.
    pub proof fn lemma_contains_position(&self, k: u64)
        requires
            self@.contains_key(k),
        ensures
            exists|i: int| 0 <= i < self.key_seq().len() && self.key_seq()[i] == k,
    {
    }

    /// Replacing the value of the pair at `i` updates the view pointwise.
    proof fn lemma_update(pre: Self, post: Self, i: int, k: u64, v: V)
        requires
            pre.wf(),
            0 <= i < pre.entries@.len(),
            pre.entries@[i].0 == k,
            post.entries@ == pre.entries@.update(i, (k, v)),
        ensures
            post.wf(),
            post.key_seq() == pre.key_seq(),
            post@ == pre@.insert(k, v),
    {
        assert(post.key_seq() =~= pre.key_seq());
        pre.lemma_entry(i);
        assert forall|x: u64| post@.contains_key(x) implies post@[x] == pre@.insert(k, v)[x] by {
            let j = choose|j: int| 0 <= j < post.key_seq().len() && post.key_seq()[j] == x;
            post.lemma_entry(j);
            if x == k {
                assert(j == i);
            } else {
                assert(pre.entries@[j].0 == x);
                pre.lemma_entry(j);
            }
        }
        assert(post@ =~= pre@.insert(k, v));
    }

    pub fn new() -> (r: Self)
        ensures
            r.wf(),
            r@ == Map::<u64, V>::empty(),
            r.key_seq() == Seq::<u64>::empty(),
    {
        let r = KeyMap { entries: Vec::new() };
        proof {
            assert(r@ =~= Map::<u64, V>::empty());
            assert(r.key_seq() =~= Seq::<u64>::empty());
        }
        r
    }

    pub fn len(&self) -> (n: usize)
        ensures
            n == self.key_seq().len(),
    {
        self.entries.len()
    }

    pub fn is_empty(&self) -> (b: bool)
        ensures
            b == (self.key_seq().len() == 0),
    {
        self.entries.len() == 0
    }

    /// The key stored at position `i` of the insertion order.
    pub fn key_at(&self, i: usize) -> (k: u64)
        requires
            i < self.key_seq().len(),
        ensures
            k == self.key_seq()[i as int],
    {
        self.entries[i].0
    }

    /// The value stored at position `i` of the insertion order.
    pub fn value_at(&self, i: usize) -> (v: &V)
        requires
            self.wf(),
            i < self.key_seq().len(),
        ensures
            self@.contains_key(self.key_seq()[i as int]),
            *v == self@[self.key_seq()[i as int]],
            *v == self.val_at(i as int),
    {
        proof {
            self.lemma_entry(i as int);
        }
        &self.entries[i].1
    }

    pub fn contains_key(&self, k: u64) -> (b: bool)
        ensures
            b == self@.contains_key(k),
    {
        let n = self.entries.len();
        let mut i: usize = 0;
        while i < n
            invariant
                n == self.entries@.len(),
                0 <= i <= n,
                forall|j: int| 0 <= j < i ==> (#[trigger] self.entries@[j]).0 != k,
            decreases n - i,
        {
            if self.entries[i].0 == k {
                assert(self.key_seq()[i as int] == k);
                assert(self.key_seq().contains(k));
                return true;
            }
            i += 1;
        }
        proof {
            if self.key_seq().contains(k) {
                let j = choose|j: int| 0 <= j < self.key_seq().len() && self.key_seq()[j] == k;
                assert(self.entries@[j].0 == k);
            }
        }
        false
    }

    pub fn get(&self, k: u64) -> (r: Option<&V>)
        requires
            self.wf(),
        ensures
            match r {
                Some(v) => self@.contains_key(k) && *v == self@[k],
                None => !self@.contains_key(k),
            },
    {
        let n = self.entries.len();
        let mut i: usize = 0;
        while i < n
            invariant
                self.wf(),
                n == self.entries@.len(),
                0 <= i <= n,
                forall|j: int| 0 <= j < i ==> (#[trigger] self.entries@[j]).0 != k,
            decreases n - i,
        {
            if self.entries[i].0 == k {
                proof {
                    self.lemma_entry(i as int);
                }
                return Some(&self.entries[i].1);
            }
            i += 1;
        }
        proof {
            if self@.contains_key(k) {
                let j = choose|j: int| 0 <= j < self.key_seq().len() && self.key_seq()[j] == k;
                assert(self.entries@[j].0 == k);
            }
        }
        None
    }

    pub fn get_mut(&mut self, k: u64) -> (r: Option<&mut V>)
        requires
            old(self).wf(),
        ensures
            match r {
                Some(v) => old(self)@.contains_key(k) && *v == old(self)@[k] && final(self).wf()
                    && final(self)@ == old(self)@.insert(k, *final(v)) && final(self).key_seq()
                    == old(self).key_seq(),
                None => !old(self)@.contains_key(k) && *final(self) == *old(self),
            },
    {
        let n = self.entries.len();
        let mut i: usize = 0;
        while i < n
            invariant
                self.wf(),
                n == self.entries@.len(),
                0 <= i <= n,
                forall|j: int| 0 <= j < i ==> (#[trigger] self.entries@[j]).0 != k,
                *self == *old(self),
            decreases n - i,
        {
            if self.entries[i].0 == k {
                proof {
                    self.lemma_entry(i as int);
                    assert forall|nv: V, post: Self|
                        #![trigger post.view(), old(self).view().insert(k, nv)]
                        post.entries@ == old(self).entries@.update(i as int, (k, nv)) implies
                        post.wf() && post.key_seq() == old(self).key_seq() && post.view() == old(
                        self,
                    ).view().insert(k, nv) by {
                        Self::lemma_update(*old(self), post, i as int, k, nv);
                    }
                }
                let e = &mut self.entries[i];
                return Some(&mut e.1);
            }
            i += 1;
        }
        proof {
            if self@.contains_key(k) {
                let j = choose|j: int| 0 <= j < self.key_seq().len() && self.key_seq()[j] == k;
                assert(self.entries@[j].0 == k);
            }
        }
        None
    }

    /// Insert or overwrite; a fresh key is appended at the end of the order.
    pub fn insert(&mut self, k: u64, v: V)
        requires
            old(self).wf(),
        ensures
            final(self).wf(),
            final(self)@ == old(self)@.insert(k, v),
            old(self)@.contains_key(k) ==> final(self).key_seq() == old(self).key_seq(),
            !old(self)@.contains_key(k) ==> final(self).key_seq() == old(self).key_seq().push(k),
    {
        let ghost old_map = self@;
        let ghost oks = self.key_seq();
        let n = self.entries.len();
        let mut i: usize = 0;
        while i < n
            invariant
                self.wf(),
                n == self.entries@.len(),
                0 <= i <= n,
                forall|j: int| 0 <= j < i ==> (#[trigger] self.entries@[j]).0 != k,
                *self == *old(self),
                old_map == self@,
                oks == self.key_seq(),
            decreases n - i,
        {
            if self.entries[i].0 == k {
                proof {
                    self.lemma_entry(i as int);
                }
                self.entries[i] = (k, v);
                proof {
                    Self::lemma_update(*old(self), *self, i as int, k, v);
                }
                return ;
            }
            i += 1;
        }
        proof {
            if old_map.contains_key(k) {
                let j = choose|j: int| 0 <= j < oks.len() && oks[j] == k;
                assert(self.entries@[j].0 == k);
            }
        }
        self.entries.push((k, v));
        proof {
            assert(self.key_seq() =~= oks.push(k));
            assert forall|x: u64| old_map.insert(k, v).contains_key(x) implies self@.contains_key(
                x,
            ) by {
                if x == k {
                    assert(self.key_seq()[n as int] == k);
                    assert(self.key_seq().contains(x));
                } else {
                    let j = choose|j: int| 0 <= j < oks.len() && oks[j] == x;
                    assert(self.key_seq()[j] == x);
                    assert(self.key_seq().contains(x));
                }
            }
            assert forall|x: u64| self@.contains_key(x) implies self@[x] == old_map.insert(k, v)[x]
                by {
                let j = choose|j: int| 0 <= j < self.key_seq().len() && self.key_seq()[j] == x;
                self.lemma_entry(j);
                if x == k {
                    assert(j == n);
                } else {
                    assert(j < n);
                    assert(old(self).entries@[j].0 == x);
                    old(self).lemma_entry(j);
                }
            }
            assert(self@ =~= old_map.insert(k, v));
        }
    }

    /// Remove a key and return its value, keeping the order of the rest.
    pub fn remove(&mut self, k: u64) -> (r: Option<V>)
        requires
            old(self).wf(),
        ensures
            final(self).wf(),
            final(self)@ == old(self)@.remove(k),
            !final(self)@.contains_key(k),
            match r {
                Some(v) => old(self)@.contains_key(k) && v == old(self)@[k] && final(self).key_seq().len()
                    == old(self).key_seq().len() - 1 && exists|i: int|
                    0 <= i < old(self).key_seq().len() && old(self).key_seq()[i] == k && final(self).key_seq() == #[trigger] old(self).key_seq().remove(i),
                None => !old(self)@.contains_key(k) && *final(self) == *old(self),
            },
            forall|x: u64|
                final(self).key_seq().contains(x) <==> (old(self).key_seq().contains(x) && x != k),
    {
        let ghost old_map = self@;
        let ghost oks = self.key_seq();
        let n = self.entries.len();
        let mut i: usize = 0;
        while i < n
            invariant
                self.wf(),
                n == self.entries@.len(),
                0 <= i <= n,
                forall|j: int| 0 <= j < i ==> (#[trigger] self.entries@[j]).0 != k,
                *self == *old(self),
                old_map == self@,
                oks == self.key_seq(),
            decreases n - i,
        {
            if self.entries[i].0 == k {
                proof {
                    self.lemma_entry(i as int);
                }
                let pair = self.entries.remove(i);
                proof {
                    assert(self.key_seq() =~= oks.remove(i as int));
                    assert forall|x: u64| self.key_seq().contains(x) implies (oks.contains(x) && x
                        != k) by {
                        let j = choose|j: int|
                            0 <= j < self.key_seq().len() && self.key_seq()[j] == x;
                        if j < i {
                            assert(oks[j] == x);
                        } else {
                            assert(oks[j + 1] == x);
                        }
                    }
                    assert forall|x: u64| oks.contains(x) && x != k implies self.key_seq().contains(
                        x,
                    ) by {
                        let j = choose|j: int| 0 <= j < oks.len() && oks[j] == x;
                        if j < i {
                            assert(self.key_seq()[j] == x);
                        } else {
                            assert(j != i);
                            assert(self.key_seq()[j - 1] == x);
                        }
                    }
                    assert forall|x: u64| self@.contains_key(x) implies self@[x] == old_map.remove(
                        k,
                    )[x] by {
                        let j = choose|j: int|
                            0 <= j < self.key_seq().len() && self.key_seq()[j] == x;
                        self.lemma_entry(j);
                        if j < i {
                            old(self).lemma_entry(j);
                        } else {
                            old(self).lemma_entry(j + 1);
                        }
                    }
                    assert(self@ =~= old_map.remove(k));
                }
                return Some(pair.1);
            }
            i += 1;
        }
        proof {
            if old_map.contains_key(k) {
                let j = choose|j: int| 0 <= j < oks.len() && oks[j] == k;
                assert(self.entries@[j].0 == k);
            }
            assert(self@ =~= old_map.remove(k));
        }
        None
    }

    /// The position of the first key at or above `k`; all keys before it
    /// are below `k`.
    fn lower_bound(&self, k: u64) -> (i: usize)
        requires
            self.wf(),
            sorted_keys(self.key_seq()),
        ensures
            i <= self.key_seq().len(),
            forall|j: int| 0 <= j < i ==> self.key_seq()[j] < k,
            i < self.key_seq().len() ==> self.key_seq()[i as int] >= k,
    {
        let n = self.entries.len();
        let mut i: usize = 0;
        while i < n
            invariant
                self.wf(),
                n == self.entries@.len(),
                0 <= i <= n,
                forall|j: int| 0 <= j < i ==> (#[trigger] self.entries@[j]).0 < k,
            decreases n - i,
        {
            if self.entries[i].0 >= k {
                return i;
            }
            i += 1;
        }
        i
    }

    /// Insert or overwrite, keeping the keys in ascending order.
    pub fn insert_sorted(&mut self, k: u64, v: V)
        requires
            old(self).wf(),
            sorted_keys(old(self).key_seq()),
        ensures
            final(self).wf(),
            sorted_keys(final(self).key_seq()),
            final(self)@ == old(self)@.insert(k, v),
            old(self)@.contains_key(k) ==> final(self).key_seq() == old(self).key_seq(),
            !old(self)@.contains_key(k) ==> final(self).key_seq().len() == old(self).key_seq().len()
                + 1 && (forall|x: u64|
                final(self).key_seq().contains(x) <==> (old(self).key_seq().contains(x) || x
                    == k)),
    {
        let ghost oks = self.key_seq();
        let ghost old_map = self@;
        let n = self.entries.len();
        let i = self.lower_bound(k);
        if i < n && self.entries[i].0 == k {
            proof {
                self.lemma_entry(i as int);
            }
            self.entries[i] = (k, v);
            proof {
                Self::lemma_update(*old(self), *self, i as int, k, v);
            }
            return ;
        }
        proof {
            assert forall|j: int| i <= j < oks.len() implies oks[j] > k by {
                if j > i {
                    assert(oks[i as int] < oks[j]);
                }
            }
            if old_map.contains_key(k) {
                let j = choose|j: int| 0 <= j < oks.len() && oks[j] == k;
            }
            assert(!old_map.contains_key(k));
        }
        self.entries.insert(i, (k, v));
        proof {
            assert(self.key_seq() =~= oks.insert(i as int, k));
            assert forall|a: int, b: int|
                0 <= a < b < self.key_seq().len() implies self.key_seq()[a] < self.key_seq()[b] by {
                let ia = i as int;
                if a < ia && b < ia {
                } else if a < ia && b == ia {
                    assert(self.key_seq()[a] == oks[a]);
                } else if a < ia {
                    assert(self.key_seq()[a] == oks[a]);
                    assert(self.key_seq()[b] == oks[b - 1]);
                } else if a == ia {
                    assert(self.key_seq()[b] == oks[b - 1]);
                } else {
                    assert(self.key_seq()[a] == oks[a - 1]);
                    assert(self.key_seq()[b] == oks[b - 1]);
                }
            }
            assert(self.wf()) by {
                assert forall|a: int, b: int|
                    0 <= a < b < self.entries@.len() implies (#[trigger] self.entries@[a]).0 != (
                    #[trigger] self.entries@[b]).0 by {
                    assert(self.key_seq()[a] < self.key_seq()[b]);
                }
            }
            assert forall|x: u64| self@.contains_key(x) implies self@[x] == old_map.insert(k, v)[x]
                by {
                let j = choose|j: int| 0 <= j < self.key_seq().len() && self.key_seq()[j] == x;
                self.lemma_entry(j);
                if x == k {
                    if j != i as int {
                        let cj = if j < i as int {
                            j
                        } else {
                            j - 1
                        };
                        assert(oks[cj] == k);
                    }
                    assert(j == i as int);
                } else {
                    assert(j != i as int);
                    let cj = if j < i as int {
                        j
                    } else {
                        j - 1
                    };
                    assert(old(self).entries@[cj].0 == x);
                    old(self).lemma_entry(cj);
                }
            }
            assert forall|x: u64| old_map.insert(k, v).contains_key(x) implies self@.contains_key(
                x,
            ) by {
                if x == k {
                    assert(self.key_seq()[i as int] == k);
                    assert(self.key_seq().contains(x));
                } else {
                    let j = choose|j: int| 0 <= j < oks.len() && oks[j] == x;
                    let nj = if j < i as int {
                        j
                    } else {
                        j + 1
                    };
                    assert(self.key_seq()[nj] == x);
                    assert(self.key_seq().contains(x));
                }
            }
            assert(self@ =~= old_map.insert(k, v));
            assert forall|x: u64| self.key_seq().contains(x) implies (oks.contains(x) || x == k)
                by {
                let j = choose|j: int| 0 <= j < self.key_seq().len() && self.key_seq()[j] == x;
                if j != i as int {
                    let cj = if j < i as int {
                        j
                    } else {
                        j - 1
                    };
                    assert(oks[cj] == x);
                }
            }
            assert forall|x: u64| oks.contains(x) implies self.key_seq().contains(x) by {
                let j = choose|j: int| 0 <= j < oks.len() && oks[j] == x;
                let nj = if j < i as int {
                    j
                } else {
                    j + 1
                };
                assert(self.key_seq()[nj] == x);
            }
            assert(oks.insert(i as int, k).len() == oks.len() + 1);
            assert(self.key_seq().len() == oks.len() + 1);
            assert(self.key_seq()[i as int] == k);
            assert(self.key_seq().contains(k));
        }
    }

    /// A key the map does not hold: drawn at `base` or just above it when
    /// there is room, else from the low end.  Among any `len + 1` distinct
    /// candidates one must be free.
    pub fn fresh_key(&self, base: u64) -> (k: u64)
        requires
            self.wf(),
        ensures
            !self@.contains_key(k),
    {
        let n = self.entries.len();
        let start: u64 = if base <= u64::MAX - (n as u64) {
            base
        } else {
            0
        };
        let mut i: usize = 0;
        while i < n
            invariant
                self.wf(),
                n == self.key_seq().len(),
                0 <= i <= n,
                start <= u64::MAX - (n as u64),
                forall|j: int| 0 <= j < i ==> #[trigger] self@.contains_key((start + j) as u64),
            decreases n - i,
        {
            let cand = start + (i as u64);
            if !self.contains_key(cand) {
                return cand;
            }
            i += 1;
        }
        let last = start + (n as u64);
        if !self.contains_key(last) {
            return last;
        }
        proof {
            let cands = Seq::<u64>::new(n as nat + 1, |j: int| (start + j) as u64);
            assert(cands.no_duplicates()) by {
                assert forall|a: int, b: int|
                    0 <= a < cands.len() && 0 <= b < cands.len() && a != b implies cands[a]
                    != cands[b] by {
                    assert(cands[a] == (start + a) as u64);
                    assert(cands[b] == (start + b) as u64);
                }
            }
            assert forall|j: int| 0 <= j < cands.len() implies self.key_seq().contains(
                #[trigger] cands[j],
            ) by {
                assert(self@.contains_key((start + j) as u64));
            }
            cands.unique_seq_to_set();
            self.key_seq().lemma_cardinality_of_set();
            assert forall|x: u64| cands.to_set().contains(x) implies
                self.key_seq().to_set().contains(x) by {
                let j = choose|j: int| 0 <= j < cands.len() && cands[j] == x;
                assert(self.key_seq().contains(x));
            }
            vstd::set_lib::lemma_len_subset(cands.to_set(), self.key_seq().to_set());
        }
        unreached()
    }

    /// All keys, in insertion order.
    pub fn keys(&self) -> (r: Vec<u64>)
        ensures
            r@ == self.key_seq(),
    {
        let n = self.entries.len();
        let mut r: Vec<u64> = Vec::new();
        let mut i: usize = 0;
        while i < n
            invariant
                n == self.entries@.len(),
                0 <= i <= n,
                r@ == self.key_seq().take(i as int),
            decreases n - i,
        {
            r.push(self.entries[i].0);
            proof {
                assert(r@ =~= self.key_seq().take(i + 1));
            }
            i += 1;
        }
        proof {
            assert(r@ =~= self.key_seq());
        }
        r
    }
}

/// Strict ascending order of a key sequence.
pub open spec fn sorted_keys(s: Seq<u64>) -> bool {
    forall|i: int, j: int| 0 <= i < j < s.len() ==> s[i] < s[j]
}

/// Removing one element keeps a key sequence in ascending order.
pub proof fn lemma_sorted_remove(s: Seq<u64>, i: int)
    requires
        sorted_keys(s),
        0 <= i < s.len(),
    ensures
        sorted_keys(s.remove(i)),
{
    let t = s.remove(i);
    assert forall|a: int, b: int| 0 <= a < b < t.len() implies t[a] < t[b] by {
        let ca = if a < i {
            a
        } else {
            a + 1
        };
        let cb = if b < i {
            b
        } else {
            b + 1
        };
        assert(t[a] == s[ca]);
        assert(t[b] == s[cb]);
    }
}

/// Association map from `String` keys (paths or names) to values, backed by a vector of pairs
/// whose keys are pairwise distinct and kept in insertion order.
///
/// The abstract view is a `Map<Seq<char>, V>`; `key_seq` additionally exposes the
/// insertion order, which ordered listings rely on.
#[derive(Debug)]
pub struct PathMap<V> {
    entries: Vec<(String, V)>,
}

impl<V> View for PathMap<V> {
    type V = Map<Seq<char>, V>;

    closed spec fn view(&self) -> Map<Seq<char>, V> {
        Map::new(
            |k: Seq<char>| self.key_seq().contains(k),
            |k: Seq<char>| self.entries@[self.idx_of(k)].1,
        )
    }
}

impl<V> PathMap<V> {
    /// The keys, in insertion order.
    pub closed spec fn key_seq(&self) -> Seq<Seq<char>> {
        self.entries@.map_values(|p: (String, V)| p.0@)
    }

    /// Well-formed: no key occurs twice.
    pub closed spec fn wf(&self) -> bool {
        forall|i: int, j: int|
            0 <= i < j < self.entries@.len() ==> (#[trigger] self.entries@[i]).0@ != (
            #[trigger] self.entries@[j]).0@
    }

    /// The value stored at position `i` of the insertion order.
    pub closed spec fn val_at(&self, i: int) -> V {
        self.entries@[i].1
    }

    spec fn idx_of(&self, k: Seq<char>) -> int {
        choose|i: int| 0 <= i < self.entries@.len() && (#[trigger] self.entries@[i]).0@ == k
    }

    /// Each stored pair is visible through the map view.
    pub proof fn lemma_entry(&self, i: int)
        requires
            self.wf(),
            0 <= i < self.key_seq().len(),
        ensures
            self@.contains_key(self.key_seq()[i]),
            self@[self.key_seq()[i]] == self.val_at(i),
    {
        let k = self.key_seq()[i];
        assert(self.entries@[i].0@ == k);
        assert(self.key_seq().contains(k));
        let j = self.idx_of(k);
        assert(0 <= j < self.entries@.len() && self.entries@[j].0@ == k);
        assert(j == i);
    }

    /// Every key of the view is stored at some position.
    pub proof fn lemma_contains_position(&self, k: Seq<char>)
        requires
            self@.contains_key(k),
        ensures
            exists|i: int| 0 <= i < self.key_seq().len() && self.key_seq()[i] == k,
    {
    }

    /// The view's domain is exactly the set of stored keys.
    pub proof fn lemma_dom_is_key_seq(&self)
        ensures
            forall|x: Seq<char>| self@.contains_key(x) <==> self.key_seq().contains(x),
    {
    }

    /// Replacing the value of the pair at `i` updates the view pointwise.
    proof fn lemma_update(pre: Self, post: Self, i: int, k: String, v: V)
        requires
            pre.wf(),
            0 <= i < pre.entries@.len(),
            pre.entries@[i].0@ == k@,
            post.entries@ == pre.entries@.update(i, (k, v)),
        ensures
            post.wf(),
            post.key_seq() == pre.key_seq(),
            post@ == pre@.insert(k@, v),
    {
        assert(post.key_seq() =~= pre.key_seq());
        pre.lemma_entry(i);
        assert forall|x: Seq<char>| post@.contains_key(x) implies post@[x] == pre@.insert(k@, v)[x]
            by {
            let j = choose|j: int| 0 <= j < post.key_seq().len() && post.key_seq()[j] == x;
            post.lemma_entry(j);
            if x == k@ {
                assert(j == i);
            } else {
                assert(pre.entries@[j].0@ == x);
                pre.lemma_entry(j);
            }
        }
        assert(post@ =~= pre@.insert(k@, v));
    }

    pub fn new() -> (r: Self)
        ensures
            r.wf(),
            r@ == Map::<Seq<char>, V>::empty(),
            r.key_seq() == Seq::<Seq<char>>::empty(),
    {
        let r = PathMap { entries: Vec::new() };
        proof {
            assert(r@ =~= Map::<Seq<char>, V>::empty());
            assert(r.key_seq() =~= Seq::<Seq<char>>::empty());
        }
        r
    }

    pub fn len(&self) -> (n: usize)
        ensures
            n == self.key_seq().len(),
    {
        self.entries.len()
    }

    pub fn is_empty(&self) -> (b: bool)
        ensures
            b == (self.key_seq().len() == 0),
    {
        self.entries.len() == 0
    }

    /// The key stored at position `i` of the insertion order.
    pub fn key_at(&self, i: usize) -> (k: &String)
        requires
            i < self.key_seq().len(),
        ensures
            k@ == self.key_seq()[i as int],
    {
        &self.entries[i].0
    }

    /// The value stored at position `i` of the insertion order.
    pub fn value_at(&self, i: usize) -> (v: &V)
        requires
            self.wf(),
            i < self.key_seq().len(),
        ensures
            self@.contains_key(self.key_seq()[i as int]),
            *v == self@[self.key_seq()[i as int]],
            *v == self.val_at(i as int),
    {
        proof {
            self.lemma_entry(i as int);
        }
        &self.entries[i].1
    }

    pub fn contains_key(&self, k: &String) -> (b: bool)
        ensures
            b == self@.contains_key(k@),
    {
        let n = self.entries.len();
        let mut i: usize = 0;
        while i < n
            invariant
                n == self.entries@.len(),
                0 <= i <= n,
                forall|j: int| 0 <= j < i ==> (#[trigger] self.entries@[j]).0@ != k@,
            decreases n - i,
        {
            if self.entries[i].0 == *k {
                assert(self.key_seq()[i as int] == k@);
                assert(self.key_seq().contains(k@));
                return true;
            }
            i += 1;
        }
        proof {
            if self.key_seq().contains(k@) {
                let j = choose|j: int| 0 <= j < self.key_seq().len() && self.key_seq()[j] == k@;
                assert(self.entries@[j].0@ == k@);
            }
        }
        false
    }

    pub fn get(&self, k: &String) -> (r: Option<&V>)
        requires
            self.wf(),
        ensures
            match r {
                Some(v) => self@.contains_key(k@) && *v == self@[k@],
                None => !self@.contains_key(k@),
            },
    {
        let n = self.entries.len();
        let mut i: usize = 0;
        while i < n
            invariant
                self.wf(),
                n == self.entries@.len(),
                0 <= i <= n,
                forall|j: int| 0 <= j < i ==> (#[trigger] self.entries@[j]).0@ != k@,
            decreases n - i,
        {
            if self.entries[i].0 == *k {
                proof {
                    self.lemma_entry(i as int);
                }
                return Some(&self.entries[i].1);
            }
            i += 1;
        }
        proof {
            if self@.contains_key(k@) {
                let j = choose|j: int| 0 <= j < self.key_seq().len() && self.key_seq()[j] == k@;
                assert(self.entries@[j].0@ == k@);
            }
        }
        None
    }

    pub fn get_mut(&mut self, k: &String) -> (r: Option<&mut V>)
        requires
            old(self).wf(),
        ensures
            match r {
                Some(v) => old(self)@.contains_key(k@) && *v == old(self)@[k@] && final(self).wf()
                    && final(self)@ == old(self)@.insert(k@, *final(v)) && final(self).key_seq()
                    == old(self).key_seq(),
                None => !old(self)@.contains_key(k@) && *final(self) == *old(self),
            },
    {
        let n = self.entries.len();
        let mut i: usize = 0;
        while i < n
            invariant
                self.wf(),
                n == self.entries@.len(),
                0 <= i <= n,
                forall|j: int| 0 <= j < i ==> (#[trigger] self.entries@[j]).0@ != k@,
                *self == *old(self),
            decreases n - i,
        {
            if self.entries[i].0 == *k {
                proof {
                    self.lemma_entry(i as int);
                    assert forall|nv: V, post: Self|
                        #![trigger post.view(), old(self).view().insert(k@, nv)]
                        post.entries@ == old(self).entries@.update(
                            i as int,
                            (old(self).entries@[i as int].0, nv),
                        ) implies post.wf() && post.key_seq() == old(self).key_seq() && post.view()
                        == old(self).view().insert(k@, nv) by {
                        Self::lemma_update(
                            *old(self),
                            post,
                            i as int,
                            old(self).entries@[i as int].0,
                            nv,
                        );
                    }
                }
                let e = &mut self.entries[i];
                return Some(&mut e.1);
            }
            i += 1;
        }
        proof {
            if self@.contains_key(k@) {
                let j = choose|j: int| 0 <= j < self.key_seq().len() && self.key_seq()[j] == k@;
                assert(self.entries@[j].0@ == k@);
            }
        }
        None
    }

    /// Insert or overwrite; a fresh key is appended at the end of the order.
    pub fn insert(&mut self, k: String, v: V)
        requires
            old(self).wf(),
        ensures
            final(self).wf(),
            final(self)@ == old(self)@.insert(k@, v),
            old(self)@.contains_key(k@) ==> final(self).key_seq() == old(self).key_seq(),
            !old(self)@.contains_key(k@) ==> final(self).key_seq() == old(self).key_seq().push(k@),
    {
        let ghost old_map = self@;
        let ghost oks = self.key_seq();
        let n = self.entries.len();
        let mut i: usize = 0;
        while i < n
            invariant
                self.wf(),
                n == self.entries@.len(),
                0 <= i <= n,
                forall|j: int| 0 <= j < i ==> (#[trigger] self.entries@[j]).0@ != k@,
                *self == *old(self),
                old_map == self@,
                oks == self.key_seq(),
            decreases n - i,
        {
            if self.entries[i].0 == k {
                proof {
                    self.lemma_entry(i as int);
                }
                let ghost kk = k;
                self.entries[i] = (k, v);
                proof {
                    Self::lemma_update(*old(self), *self, i as int, kk, v);
                }
                return ;
            }
            i += 1;
        }
        proof {
            if old_map.contains_key(k@) {
                let j = choose|j: int| 0 <= j < oks.len() && oks[j] == k@;
                assert(self.entries@[j].0@ == k@);
            }
        }
        self.entries.push((k, v));
        proof {
            assert(self.key_seq() =~= oks.push(k@));
            assert forall|x: Seq<char>| old_map.insert(k@, v).contains_key(x) implies self@.contains_key(
                x,
            ) by {
                if x == k@ {
                    assert(self.key_seq()[n as int] == k@);
                    assert(self.key_seq().contains(x));
                } else {
                    let j = choose|j: int| 0 <= j < oks.len() && oks[j] == x;
                    assert(self.key_seq()[j] == x);
                    assert(self.key_seq().contains(x));
                }
            }
            assert forall|x: Seq<char>| self@.contains_key(x) implies self@[x] == old_map.insert(k@, v)[x]
                by {
                let j = choose|j: int| 0 <= j < self.key_seq().len() && self.key_seq()[j] == x;
                self.lemma_entry(j);
                if x == k@ {
                    assert(j == n);
                } else {
                    assert(j < n);
                    assert(old(self).entries@[j].0@ == x);
                    old(self).lemma_entry(j);
                }
            }
            assert(self@ =~= old_map.insert(k@, v));
        }
    }

    /// Remove a key and return its value, keeping the order of the rest.
    pub fn remove(&mut self, k: &String) -> (r: Option<V>)
        requires
            old(self).wf(),
        ensures
            final(self).wf(),
            final(self)@ == old(self)@.remove(k@),
            !final(self)@.contains_key(k@),
            match r {
                Some(v) => old(self)@.contains_key(k@) && v == old(self)@[k@] && final(self).key_seq().len()
                    == old(self).key_seq().len() - 1,
                None => !old(self)@.contains_key(k@) && *final(self) == *old(self),
            },
            forall|x: Seq<char>|
                final(self).key_seq().contains(x) <==> (old(self).key_seq().contains(x) && x != k@),
    {
        let ghost old_map = self@;
        let ghost oks = self.key_seq();
        let n = self.entries.len();
        let mut i: usize = 0;
        while i < n
            invariant
                self.wf(),
                n == self.entries@.len(),
                0 <= i <= n,
                forall|j: int| 0 <= j < i ==> (#[trigger] self.entries@[j]).0@ != k@,
                *self == *old(self),
                old_map == self@,
                oks == self.key_seq(),
            decreases n - i,
        {
            if self.entries[i].0 == *k {
                proof {
                    self.lemma_entry(i as int);
                }
                let pair = self.entries.remove(i);
                proof {
                    assert(self.key_seq() =~= oks.remove(i as int));
                    assert forall|x: Seq<char>| self.key_seq().contains(x) implies (oks.contains(x) && x
                        != k@) by {
                        let j = choose|j: int|
                            0 <= j < self.key_seq().len() && self.key_seq()[j] == x;
                        if j < i {
                            assert(oks[j] == x);
                        } else {
                            assert(oks[j + 1] == x);
                        }
                    }
                    assert forall|x: Seq<char>| oks.contains(x) && x != k@ implies self.key_seq().contains(
                        x,
                    ) by {
                        let j = choose|j: int| 0 <= j < oks.len() && oks[j] == x;
                        if j < i {
                            assert(self.key_seq()[j] == x);
                        } else {
                            assert(j != i);
                            assert(self.key_seq()[j - 1] == x);
                        }
                    }
                    assert forall|x: Seq<char>| self@.contains_key(x) implies self@[x] == old_map.remove(
                        k@,
                    )[x] by {
                        let j = choose|j: int|
                            0 <= j < self.key_seq().len() && self.key_seq()[j] == x;
                        self.lemma_entry(j);
                        if j < i {
                            old(self).lemma_entry(j);
                        } else {
                            old(self).lemma_entry(j + 1);
                        }
                    }
                    assert(self@ =~= old_map.remove(k@));
                }
                return Some(pair.1);
            }
            i += 1;
        }
        proof {
            if old_map.contains_key(k@) {
                let j = choose|j: int| 0 <= j < oks.len() && oks[j] == k@;
                assert(self.entries@[j].0@ == k@);
            }
            assert(self@ =~= old_map.remove(k@));
        }
        None
    }

    /// All keys, in insertion order (clones of the stored keys).
    pub fn keys(&self) -> (r: Vec<String>)
        ensures
            r@.map_values(|p: String| p@) == self.key_seq(),
    {
        let n = self.entries.len();
        let mut r: Vec<String> = Vec::new();
        let mut i: usize = 0;
        while i < n
            invariant
                n == self.entries@.len(),
                0 <= i <= n,
                r@.map_values(|p: String| p@) == self.key_seq().take(i as int),
            decreases n - i,
        {
            let ghost prev = r@;
            r.push(self.entries[i].0.clone());
            proof {
                assert(prev.map_values(|p: String| p@).len() == i as int);
                assert(prev.len() == i as int);
                assert(r@ == prev.push(r@[i as int]));
                assert(r@[i as int]@ == self.key_seq()[i as int]);
                assert forall|j: int| #![trigger r@.index(j)] 0 <= j < i + 1 implies r@.map_values(
                    |p: String| p@,
                )[j] == self.key_seq().take(i + 1)[j] by {
                    if j < i {
                        assert(prev.map_values(|p: String| p@)[j] == self.key_seq().take(
                            i as int,
                        )[j]);
                    }
                }
                assert(r@.map_values(|p: String| p@) =~= self.key_seq().take(i + 1));
            }
            i += 1;
        }
        proof {
            assert(r@.map_values(|p: String| p@) =~= self.key_seq());
        }
        r
    }
}

} // verus!
