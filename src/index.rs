use vstd::prelude::*;
use crate::registry::{
    RegistryError,
    lemma_push_fresh,
    lemma_table_at,
    table_ids_unique,
    table_map,
};

verus! {

/// The index document of the voice directory: each voice id with the text
/// spoken in its reference audio.
pub struct SpeakerIndex {
    pub speakers: Vec<(String, String)>,
}

impl View for SpeakerIndex {
    type V = Map<Seq<char>, Seq<char>>;

    open spec fn view(&self) -> Map<Seq<char>, Seq<char>> {
        table_map(self.speakers@)
    }
}

impl SpeakerIndex {
    /// Ids are distinct.
    pub open spec fn wf(&self) -> bool {
        table_ids_unique(self.speakers@)
    }

    /// The empty index, used as well where the document is absent or unreadable.
    pub fn new() -> (r: SpeakerIndex)
        ensures
            r.wf(),
            r@ == Map::<Seq<char>, Seq<char>>::empty(),
    {
        let r = SpeakerIndex { speakers: Vec::new() };
        assert(r@ =~= Map::<Seq<char>, Seq<char>>::empty());
        r
    }

    pub fn contains(&self, id: &String) -> (r: bool)
        requires
            self.wf(),
        ensures
            r == self@.contains_key(id@),
    {
        let mut i: usize = 0;
        while i < self.speakers.len()
            invariant
                i <= self.speakers@.len(),
                self.wf(),
                forall|k: int| 0 <= k < i ==> (#[trigger] self.speakers@[k]).0@ != id@,
            decreases self.speakers.len() - i,
        {
            if self.speakers[i].0 == *id {
                proof {
                    lemma_table_at(self.speakers@, i as int);
                }
                return true;
            }
            i += 1;
        }
        false
    }

    /// Adds an entry; an id that is already there is refused and the index left as it was.
    pub fn insert(&mut self, id: String, text: String) -> (r: Result<(), RegistryError>)
        requires
            old(self).wf(),
        ensures
            final(self).wf(),
            old(self)@.contains_key(id@) ==> r == Err::<(), RegistryError>(
                RegistryError::DuplicateVoice,
            ) && final(self)@ == old(self)@,
            !old(self)@.contains_key(id@) ==> r is Ok && final(self)@ == old(self)@.insert(
                id@,
                text@,
            ),
    {
        if self.contains(&id) {
            return Err(RegistryError::DuplicateVoice);
        }
        proof {
            lemma_push_fresh(self.speakers@, id, text);
        }
        self.speakers.push((id, text));
        Ok(())
    }

    /// Lists every voice found in the directory, with an empty text where the
    /// index did not know it; tells whether any entry was added.
    pub fn add_discovered(&mut self, found: &Vec<String>) -> (added: bool)
        requires
            old(self).wf(),
        ensures
            final(self).wf(),
            forall|id: Seq<char>|
                #[trigger] final(self)@.contains_key(id) <==> old(self)@.contains_key(id) || exists|
                    j: int,
                | 0 <= j < found@.len() && (#[trigger] found@[j])@ == id,
            forall|id: Seq<char>|
                #[trigger] old(self)@.contains_key(id) ==> final(self)@[id] == old(self)@[id],
            forall|j: int|
                0 <= j < found@.len() && !old(self)@.contains_key((#[trigger] found@[j])@)
                    ==> final(self)@[found@[j]@] == Seq::<char>::empty(),
            added <==> exists|j: int|
                0 <= j < found@.len() && !old(self)@.contains_key((#[trigger] found@[j])@),
    {
        let ghost start = self@;
        let mut added = false;
        let mut i: usize = 0;
        while i < found.len()
            invariant
                i <= found@.len(),
                self.wf(),
                forall|id: Seq<char>|
                    #[trigger] self@.contains_key(id) <==> start.contains_key(id) || exists|j: int|
                        0 <= j < i && (#[trigger] found@[j])@ == id,
                forall|id: Seq<char>| #[trigger] start.contains_key(id) ==> self@[id] == start[id],
                forall|j: int|
                    0 <= j < i && !start.contains_key((#[trigger] found@[j])@) ==> self@[found@[j]@]
                        == Seq::<char>::empty(),
                added <==> exists|j: int|
                    0 <= j < i && !start.contains_key((#[trigger] found@[j])@),
            decreases found.len() - i,
        {
            let name = &found[i];
            if !self.contains(name) {
                let ghost before = self@;
                let _ = self.insert(name.clone(), String::new());
                assert(self@ == before.insert(name@, Seq::<char>::empty()));
                added = true;
            }
            i += 1;
        }
        added
    }
}

} // verus!
