use vstd::prelude::*;
use crate::id_gen::TimestampRandIdGen;
use crate::kvmap::KeyMap;
use crate::kvmap::lemma_sorted_remove;
use crate::kvmap::sorted_keys;
use crate::naming::generate_unique_name;
use crate::naming::name_views;
use crate::naming::suffixed;
use crate::note::Note;
use crate::util::now_millis;

verus! {

/// The note map described by an id/note list, later pairs winning.
pub open spec fn note_map_of(s: Seq<(u64, Note)>) -> Map<u64, Note>
    decreases s.len(),
{
    if s.len() == 0 {
        Map::empty()
    } else {
        note_map_of(s.drop_last()).insert(s.last().0, s.last().1)
    }
}

/// A flat folder of notes keyed by id, kept in ascending id order, with a
/// display name.
pub struct NoteFolder {
    pub id: u64,
    pub items: KeyMap<Note>,
    pub name: String,
}

impl NoteFolder {
    pub open spec fn wf(&self) -> bool {
        self.items.wf() && sorted_keys(self.items.key_seq())
    }

    /// Whether some stored note carries exactly this text.
    pub open spec fn has_text(&self, t: Seq<char>) -> bool {
        exists|k: u64| #[trigger] self.items@.contains_key(k) && self.items@[k].text@ == t
    }

    /// A folder with no notes, under a freshly drawn id.
    pub fn empty(name: String) -> (r: Self)
        ensures
            r.wf(),
            r.name == name,
            r.items@ == Map::<u64, Note>::empty(),
    {
        let mut gen = TimestampRandIdGen::new();
        NoteFolder { id: gen.next_id(), items: KeyMap::new(), name }
    }

    /// A folder holding the given notes, keyed by the given ids.
    pub fn with_items(name: String, items: Vec<(u64, Note)>) -> (r: Self)
        ensures
            r.wf(),
            r.name == name,
            r.items@ == note_map_of(items@),
    {
        let ghost nm = name;
        let mut folder = NoteFolder::empty(name);
        let n = items.len();
        proof {
            assert(items@.take(0) =~= Seq::<(u64, Note)>::empty());
            assert(folder.items@ =~= note_map_of(items@.take(0)));
        }
        let mut i: usize = 0;
        while i < n
            invariant
                n == items@.len(),
                0 <= i <= n,
                folder.wf(),
                folder.name == nm,
                folder.items@ == note_map_of(items@.take(i as int)),
            decreases n - i,
        {
            proof {
                assert(items@.take(i + 1).drop_last() =~= items@.take(i as int));
                assert(items@.take(i + 1).last() == items@[i as int]);
            }
            let pair = &items[i];
            folder.put(pair.0, pair.1.clone());
            i += 1;
        }
        proof {
            assert(items@.take(n as int) =~= items@);
        }
        folder
    }

    pub fn get(&self, id: u64) -> (r: Option<&Note>)
        requires
            self.wf(),
        ensures
            match r {
                Some(v) => self.items@.contains_key(id) && *v == self.items@[id],
                None => !self.items@.contains_key(id),
            },
    {
        self.items.get(id)
    }

    pub fn remove(&mut self, id: u64) -> (r: Option<Note>)
        requires
            old(self).wf(),
        ensures
            final(self).wf(),
            final(self).items@ == old(self).items@.remove(id),
            final(self).name == old(self).name,
            final(self).id == old(self).id,
            match r {
                Some(v) => old(self).items@.contains_key(id) && v == old(self).items@[id],
                None => !old(self).items@.contains_key(id),
            },
    {
        let ghost oks = self.items.key_seq();
        let r = self.items.remove(id);
        proof {
            if old(self).items@.contains_key(id) {
                let i = choose|i: int|
                    0 <= i < oks.len() && oks[i] == id && self.items.key_seq() == #[trigger] oks.remove(
                        i,
                    );
                lemma_sorted_remove(oks, i);
            }
        }
        r
    }

    /// Store `item` under `id`, overwriting any previous note there.
    pub fn put(&mut self, id: u64, item: Note)
        requires
            old(self).wf(),
        ensures
            final(self).wf(),
            final(self).items@ == old(self).items@.insert(id, item),
            final(self).name == old(self).name,
            final(self).id == old(self).id,
    {
        self.items.insert_sorted(id, item);
    }

    /// References to all notes, in ascending id order.
    pub fn iter(&self) -> (r: Vec<&Note>)
        requires
            self.wf(),
        ensures
            r@.len() == self.items.key_seq().len(),
            forall|i: int|
                0 <= i < r@.len() ==> *(#[trigger] r@[i]) == self.items@[self.items.key_seq()[i]]
                    && self.items@.contains_key(self.items.key_seq()[i]),
            forall|i: int, j: int|
                0 <= i < j < r@.len() ==> self.items.key_seq()[i] < self.items.key_seq()[j],
    {
        let n = self.items.len();
        let mut r: Vec<&Note> = Vec::new();
        let mut i: usize = 0;
        while i < n
            invariant
                self.wf(),
                n == self.items.key_seq().len(),
                0 <= i <= n,
                r@.len() == i,
                forall|j: int|
                    0 <= j < i ==> *(#[trigger] r@[j]) == self.items@[self.items.key_seq()[j]]
                        && self.items@.contains_key(self.items.key_seq()[j]),
            decreases n - i,
        {
            r.push(self.items.value_at(i));
            i += 1;
        }
        r
    }

    /// Record an edit time on the note with this id, if present.
    pub fn touch_note(&mut self, id: u64) -> (r: Option<()>)
        requires
            old(self).wf(),
        ensures
            final(self).wf(),
            final(self).name == old(self).name,
            final(self).id == old(self).id,
            r is Some <==> old(self).items@.contains_key(id),
            old(self).items@.contains_key(id) ==> final(self).items@.contains_key(id) && final(self).items@[id].text == old(self).items@[id].text && forall|x: u64|
                x != id ==> (#[trigger] final(self).items@.contains_key(x) <==> old(self).items@.contains_key(x)) && (old(self).items@.contains_key(x) ==> final(self).items@[x]
                    == old(self).items@[x]),
            !old(self).items@.contains_key(id) ==> final(self).items@ == old(self).items@,
    {
        let now = now_millis();
        match self.items.get_mut(id) {
            Some(note) => {
                note.touch(now);
                Some(())
            },
            None => None,
        }
    }

    /// Mutable access to the text of the note with this id.
    pub fn get_mut_note_content(&mut self, id: u64) -> (r: Option<&mut String>)
        requires
            old(self).wf(),
        ensures
            final(self).wf(),
            match r {
                Some(t) => old(self).items@.contains_key(id) && *t == old(self).items@[id].text
                    && final(self).items@ == old(self).items@.insert(
                    id,
                    Note { text: *final(t), metadata: old(self).items@[id].metadata },
                ) && final(self).name == old(self).name && final(self).id == old(self).id,
                None => !old(self).items@.contains_key(id) && final(self).items@ == old(self).items@ && final(self).name == old(self).name && final(self).id == old(self).id,
            },
    {
        match self.items.get_mut(id) {
            Some(note) => Some(&mut note.text),
            None => None,
        }
    }

    /// Insert a new note under a fresh id, named collision-free against the
    /// texts already stored: the candidate itself when no note carries it,
    /// else the candidate with the smallest free `" #<k>"` suffix.  The
    /// folder always grows by one.
    pub fn insert_new_with_auto_name(&mut self, name: String) -> (id: u64)
        requires
            old(self).wf(),
        ensures
            final(self).wf(),
            final(self).name == old(self).name,
            final(self).id == old(self).id,
            !old(self).items@.contains_key(id),
            final(self).items@.contains_key(id),
            final(self).items@ == old(self).items@.insert(id, final(self).items@[id]),
            final(self).items.key_seq().len() == old(self).items.key_seq().len() + 1,
            !old(self).has_text(final(self).items@[id].text@),
            !old(self).has_text(name@) ==> final(self).items@[id].text@ == name@,
            final(self).items@[id].text@ == name@ || exists|k: nat|
                1 <= k && final(self).items@[id].text@ == suffixed(name@, k) && forall|j: nat|
                    1 <= j < k ==> old(self).has_text(#[trigger] suffixed(name@, j)),
    {
        let note = self.create_note_with_auto_name(name);
        let mut gen = TimestampRandIdGen::new();
        let id = self.items.fresh_key(gen.next_id());
        self.items.insert_sorted(id, note);
        proof {
            assert(self.items@ =~= old(self).items@.insert(id, self.items@[id]));
        }
        id
    }

    fn create_note_with_auto_name(&self, note_name: String) -> (r: Note)
        requires
            self.wf(),
        ensures
            !self.has_text(r.text@),
            !self.has_text(note_name@) ==> r.text@ == note_name@,
            r.text@ == note_name@ || exists|k: nat|
                1 <= k && r.text@ == suffixed(note_name@, k) && forall|j: nat|
                    1 <= j < k ==> self.has_text(#[trigger] suffixed(note_name@, j)),
    {
        let auto = self.get_indexed_auto_note_name(&note_name);
        Note::from_text(auto)
    }

    /// The texts of all stored notes, in id order.
    fn texts(&self) -> (r: Vec<String>)
        requires
            self.wf(),
        ensures
            r@.len() == self.items.key_seq().len(),
            forall|i: int|
                0 <= i < r@.len() ==> (#[trigger] r@[i])@ == self.items@[self.items.key_seq()[
                    i]].text@,
    {
        let n = self.items.len();
        let mut r: Vec<String> = Vec::new();
        let mut i: usize = 0;
        while i < n
            invariant
                self.wf(),
                n == self.items.key_seq().len(),
                0 <= i <= n,
                r@.len() == i,
                forall|j: int|
                    0 <= j < i ==> (#[trigger] r@[j])@ == self.items@[self.items.key_seq()[
                        j]].text@,
            decreases n - i,
        {
            let note = self.items.value_at(i);
            r.push(note.text.clone());
            i += 1;
        }
        r
    }

    /// A note name free among the stored texts: the candidate itself when
    /// free, else the candidate with the smallest free `" #<k>"` suffix.
    fn get_indexed_auto_note_name(&self, note_name: &String) -> (r: String)
        requires
            self.wf(),
        ensures
            !self.has_text(r@),
            !self.has_text(note_name@) ==> r@ == note_name@,
            r@ == note_name@ || exists|k: nat|
                1 <= k && r@ == suffixed(note_name@, k) && forall|j: nat|
                    1 <= j < k ==> self.has_text(#[trigger] suffixed(note_name@, j)),
    {
        let existing = self.texts();
        proof {
            assert forall|t: Seq<char>| #[trigger] name_views(existing@).contains(t) implies
                self.has_text(t) by {
                let i = choose|i: int|
                    0 <= i < name_views(existing@).len() && name_views(existing@)[i] == t;
                self.items.lemma_entry(i);
            }
            assert forall|t: Seq<char>| #[trigger] self.has_text(t) implies name_views(
                existing@,
            ).contains(t) by {
                let k = choose|k: u64|
                    #[trigger] self.items@.contains_key(k) && self.items@[k].text@ == t;
                self.items.lemma_contains_position(k);
                let i = choose|i: int|
                    0 <= i < self.items.key_seq().len() && self.items.key_seq()[i] == k;
                self.items.lemma_entry(i);
                assert(name_views(existing@)[i] == t);
            }
        }
        let r = generate_unique_name(&existing, note_name.clone());
        proof {
            if r@ != note_name@ {
                let k = choose|k: nat|
                    1 <= k && r@ == suffixed(note_name@, k) && forall|j: nat|
                        1 <= j < k ==> name_views(existing@).contains(
                            #[trigger] suffixed(note_name@, j),
                        );
                assert(1 <= k && r@ == suffixed(note_name@, k) && forall|j: nat|
                    1 <= j < k ==> self.has_text(#[trigger] suffixed(note_name@, j)));
            }
        }
        r
    }
}

} // verus!
