use vstd::prelude::*;
use crate::prompt::{
    PromptEncoder,
    PromptError,
    TokenGrid,
    codes_unusable,
    conditioning_prompt,
    tokenize,
    unusable_error,
};
use crate::index::SpeakerIndex;
use crate::order::{id_less, lemma_lt_total, lemma_lt_transitive, seq_lt};
use crate::text::chars_of;

verus! {

/// Why the voice registry refused an operation.
#[derive(Debug, Clone, Copy, PartialEq, Eq, Structural)]
pub enum RegistryError {
    /// No voice could be loaded.
    NoVoices,
    /// The voice id is taken, on disk or in memory.
    DuplicateVoice,
    /// Reading or writing a voice file failed.
    Io,
    /// A voice's tokens could not be encoded as a prompt.
    Prompt(PromptError),
}

/// The id of the voice chosen as default when one exists.
pub open spec fn default_name() -> Seq<char> {
    seq!['d', 'e', 'f', 'a', 'u', 'l', 't']
}

pub fn is_default_name(id: &String) -> (r: bool)
    ensures
        r == (id@ == default_name()),
{
    let c = chars_of(id.as_str());
    let r = c.len() == 7 && c[0] == 'd' && c[1] == 'e' && c[2] == 'f' && c[3] == 'a' && c[4]
        == 'u' && c[5] == 'l' && c[6] == 't';
    if r {
        assert(c@ =~= default_name());
    }
    r
}

/// The voices in memory: each id with its conditioning prompt.
pub struct VoiceTable {
    pub voices: Vec<(String, TokenGrid)>,
}

pub open spec fn table_has<V>(v: Seq<(String, V)>, id: Seq<char>) -> bool {
    exists|i: int| 0 <= i < v.len() && (#[trigger] v[i]).0@ == id
}

pub open spec fn table_ids_unique<V>(v: Seq<(String, V)>) -> bool {
    forall|i: int, j: int|
        0 <= i < v.len() && 0 <= j < v.len() && i != j ==> (#[trigger] v[i]).0@ != (
        #[trigger] v[j]).0@
}

/// Each id of the list with the value paired with it.
pub open spec fn table_map<V: View>(v: Seq<(String, V)>) -> Map<Seq<char>, V::V> {
    Map::new(
        |id: Seq<char>| table_has(v, id),
        |id: Seq<char>| v[choose|i: int| 0 <= i < v.len() && (#[trigger] v[i]).0@ == id].1@,
    )
}

impl View for VoiceTable {
    type V = Map<Seq<char>, Seq<Seq<u32>>>;

    open spec fn view(&self) -> Map<Seq<char>, Seq<Seq<u32>>> {
        table_map(self.voices@)
    }
}

/// In a table of distinct ids, the entry at `i` gives the prompt of its id.
pub(crate) proof fn lemma_table_at<V: View>(v: Seq<(String, V)>, i: int)
    requires
        table_ids_unique(v),
        0 <= i < v.len(),
    ensures
        table_map(v).contains_key(v[i].0@),
        table_map(v)[v[i].0@] == v[i].1@,
{
    assert(table_has(v, v[i].0@));
    let k = choose|k: int| 0 <= k < v.len() && (#[trigger] v[k]).0@ == v[i].0@;
    assert(k == i);
}

/// Pushing a voice of a new id extends the map by that id alone.
pub(crate) proof fn lemma_push_fresh<V: View>(v: Seq<(String, V)>, id: String, p: V)
    requires
        table_ids_unique(v),
        !table_has(v, id@),
    ensures
        table_ids_unique(v.push((id, p))),
        table_map(v.push((id, p))) == table_map(v).insert(id@, p@),
{
    let w = v.push((id, p));
    assert(table_ids_unique(w)) by {
        assert forall|i: int, j: int|
            0 <= i < w.len() && 0 <= j < w.len() && i != j implies (#[trigger] w[i]).0@ != (
            #[trigger] w[j]).0@ by {
            if i == v.len() {
                assert(w[j] == v[j]);
            } else if j == v.len() {
                assert(w[i] == v[i]);
            } else {
                assert(w[i] == v[i] && w[j] == v[j]);
            }
        }
    }
    assert forall|x: Seq<char>| table_has(w, x) <==> table_has(v, x) || x == id@ by {
        if table_has(v, x) {
            let i = choose|i: int| 0 <= i < v.len() && (#[trigger] v[i]).0@ == x;
            assert(w[i] == v[i]);
        }
        if table_has(w, x) && x != id@ {
            let i = choose|i: int| 0 <= i < w.len() && (#[trigger] w[i]).0@ == x;
            assert(i < v.len());
            assert(w[i] == v[i]);
        }
        if x == id@ {
            assert(w[v.len() as int].0@ == x);
        }
    }
    assert forall|x: Seq<char>| #[trigger] table_map(w).contains_key(x) implies table_map(w)[x]
        == table_map(v).insert(id@, p@)[x] by {
        let i = choose|i: int| 0 <= i < w.len() && (#[trigger] w[i]).0@ == x;
        lemma_table_at(w, i);
        if x != id@ {
            assert(i < v.len());
            assert(w[i] == v[i]);
            lemma_table_at(v, i);
        } else {
            lemma_table_at(w, v.len() as int);
        }
    }
    assert(table_map(w) =~= table_map(v).insert(id@, p@));
}

impl VoiceTable {
    /// Ids are distinct.
    pub open spec fn wf(&self) -> bool {
        table_ids_unique(self.voices@)
    }

    pub fn new() -> (r: VoiceTable)
        ensures
            r.wf(),
            r.voices@.len() == 0,
            r@ == Map::<Seq<char>, Seq<Seq<u32>>>::empty(),
    {
        let r = VoiceTable { voices: Vec::new() };
        assert(r@ =~= Map::<Seq<char>, Seq<Seq<u32>>>::empty());
        r
    }

    /// Position of the voice with this id.
    fn find(&self, id: &String) -> (r: Option<usize>)
        requires
            self.wf(),
        ensures
            r is None <==> !self@.contains_key(id@),
            r matches Some(i) ==> i < self.voices@.len() && self.voices@[i as int].0@ == id@,
    {
        let mut i: usize = 0;
        while i < self.voices.len()
            invariant
                i <= self.voices@.len(),
                forall|k: int| 0 <= k < i ==> (#[trigger] self.voices@[k]).0@ != id@,
            decreases self.voices.len() - i,
        {
            if self.voices[i].0 == *id {
                return Some(i);
            }
            i += 1;
        }
        None
    }

    pub fn contains(&self, id: &String) -> (r: bool)
        requires
            self.wf(),
        ensures
            r == self@.contains_key(id@),
    {
        self.find(id).is_some()
    }

    /// The prompt of a voice, when it is in the table.
    pub fn get(&self, id: &String) -> (r: Option<TokenGrid>)
        requires
            self.wf(),
        ensures
            r is Some <==> self@.contains_key(id@),
            r matches Some(g) ==> g@ == self@[id@],
    {
        match self.find(id) {
            Some(i) => {
                proof {
                    lemma_table_at(self.voices@, i as int);
                }
                Some(self.voices[i].1.duplicate())
            },
            None => None,
        }
    }

    /// The ids of all voices, in the order they were added.
    pub fn ids(&self) -> (r: Vec<String>)
        ensures
            r@.len() == self.voices@.len(),
            forall|i: int| 0 <= i < r@.len() ==> (#[trigger] r@[i])@ == self.voices@[i].0@,
    {
        let mut r: Vec<String> = Vec::new();
        let mut i: usize = 0;
        while i < self.voices.len()
            invariant
                i <= self.voices@.len(),
                r@.len() == i,
                forall|k: int| 0 <= k < i ==> (#[trigger] r@[k])@ == self.voices@[k].0@,
            decreases self.voices.len() - i,
        {
            r.push(self.voices[i].0.clone());
            i += 1;
        }
        r
    }

    /// Adds a voice; an id that is already there is refused and the table left as it was.
    pub fn insert(&mut self, id: String, prompt: TokenGrid) -> (r: Result<(), RegistryError>)
        requires
            old(self).wf(),
        ensures
            final(self).wf(),
            old(self)@.contains_key(id@) ==> r == Err::<(), RegistryError>(
                RegistryError::DuplicateVoice,
            ) && final(self)@ == old(self)@,
            !old(self)@.contains_key(id@) ==> r is Ok && final(self)@ == old(self)@.insert(
                id@,
                prompt@,
            ),
    {
        if self.contains(&id) {
            return Err(RegistryError::DuplicateVoice);
        }
        proof {
            lemma_push_fresh(self.voices@, id, prompt);
        }
        self.voices.push((id, prompt));
        Ok(())
    }
}

/// What is known on disk of one voice: its id, the tokens of its text, and the
/// codec's codes of its reference audio, absent when its token file is missing.
pub struct VoiceSource {
    pub id: String,
    pub text_tokens: Vec<u32>,
    pub codes: Option<TokenGrid>,
}

pub open spec fn sources_ids_unique(s: Seq<VoiceSource>) -> bool {
    forall|i: int, j: int|
        0 <= i < s.len() && 0 <= j < s.len() && i != j ==> (#[trigger] s[i]).id@ != (
        #[trigger] s[j]).id@
}

/// A source whose token file is present but whose codes cannot be encoded.
pub open spec fn has_unusable(n: usize, s: Seq<VoiceSource>) -> bool {
    exists|j: int|
        0 <= j < s.len() && (#[trigger] s[j]).codes is Some && codes_unusable(
            n,
            s[j].codes->0@,
        )
}

pub open spec fn has_present(s: Seq<VoiceSource>) -> bool {
    exists|j: int| 0 <= j < s.len() && (#[trigger] s[j]).codes is Some
}

/// The table loaded from these sources: the voices whose token file is present,
/// each with the prompt of its text and codes.
pub open spec fn loaded_table(
    enc: PromptEncoder,
    s: Seq<VoiceSource>,
    t: Map<Seq<char>, Seq<Seq<u32>>>,
) -> bool {
    &&& forall|id: Seq<char>|
        t.contains_key(id) <==> exists|j: int|
            0 <= j < s.len() && (#[trigger] s[j]).id@ == id && s[j].codes is Some
    &&& forall|j: int|
        0 <= j < s.len() && (#[trigger] s[j]).codes is Some ==> t[s[j].id@]
            == conditioning_prompt(enc.semantic_id, s[j].text_tokens@, s[j].codes->0@)
}

/// `m` is an id of the table and comes before every other id of it.
pub open spec fn is_smallest_key(t: Map<Seq<char>, Seq<Seq<u32>>>, m: Seq<char>) -> bool {
    &&& t.contains_key(m)
    &&& forall|x: Seq<char>| #[trigger] t.contains_key(x) && x != m ==> seq_lt(m, x)
}

/// The default prompt: the voice named "default" when there is one, else the
/// voice whose id comes first in lexicographic order. It depends on the table
/// alone, not on the order in which the voices were found.
pub open spec fn default_prompt_of(t: Map<Seq<char>, Seq<Seq<u32>>>, d: Seq<Seq<u32>>) -> bool {
    if t.contains_key(default_name()) {
        d == t[default_name()]
    } else {
        exists|m: Seq<char>| is_smallest_key(t, m) && d == t[m]
    }
}

/// A table has one default prompt at most.
pub proof fn lemma_default_unique(
    t: Map<Seq<char>, Seq<Seq<u32>>>,
    d1: Seq<Seq<u32>>,
    d2: Seq<Seq<u32>>,
)
    requires
        default_prompt_of(t, d1),
        default_prompt_of(t, d2),
    ensures
        d1 == d2,
{
    if !t.contains_key(default_name()) {
        let m1 = choose|m: Seq<char>| is_smallest_key(t, m) && d1 == t[m];
        let m2 = choose|m: Seq<char>| is_smallest_key(t, m) && d2 == t[m];
        if m1 != m2 {
            assert(seq_lt(m1, m2) && seq_lt(m2, m1));
            lemma_lt_total(m1, m2);
        }
    }
}

/// Loading is blind to the order of the sources: two lists that hold the same
/// sources give the same table and the same default prompt.
pub proof fn lemma_load_order_free(
    enc: PromptEncoder,
    s1: Seq<VoiceSource>,
    s2: Seq<VoiceSource>,
    t1: Map<Seq<char>, Seq<Seq<u32>>>,
    t2: Map<Seq<char>, Seq<Seq<u32>>>,
    d1: Seq<Seq<u32>>,
    d2: Seq<Seq<u32>>,
)
    requires
        forall|j: int| 0 <= j < s1.len() ==> exists|k: int| 0 <= k < s2.len() && s2[k] == #[trigger] s1[j],
        forall|k: int| 0 <= k < s2.len() ==> exists|j: int| 0 <= j < s1.len() && s1[j] == #[trigger] s2[k],
        loaded_table(enc, s1, t1),
        loaded_table(enc, s2, t2),
        default_prompt_of(t1, d1),
        default_prompt_of(t2, d2),
    ensures
        t1 == t2,
        d1 == d2,
{
    assert forall|id: Seq<char>| t1.contains_key(id) <==> t2.contains_key(id) by {
        if t1.contains_key(id) {
            let j = choose|j: int| 0 <= j < s1.len() && (#[trigger] s1[j]).id@ == id && s1[j].codes is Some;
            let k = choose|k: int| 0 <= k < s2.len() && s2[k] == s1[j];
            assert(s2[k].id@ == id);
        }
        if t2.contains_key(id) {
            let k = choose|k: int| 0 <= k < s2.len() && (#[trigger] s2[k]).id@ == id && s2[k].codes is Some;
            let j = choose|j: int| 0 <= j < s1.len() && s1[j] == s2[k];
            assert(s1[j].id@ == id);
        }
    }
    assert forall|id: Seq<char>| #[trigger] t1.contains_key(id) implies t1[id] == t2[id] by {
        let j = choose|j: int| 0 <= j < s1.len() && (#[trigger] s1[j]).id@ == id && s1[j].codes is Some;
        let k = choose|k: int| 0 <= k < s2.len() && s2[k] == s1[j];
        assert(s2[k].codes is Some);
    }
    assert(t1 =~= t2);
    lemma_default_unique(t1, d1, d2);
}

/// Builds the voice table from what is on disk, and picks the default prompt.
pub fn load_speaker_prompts(enc: &PromptEncoder, sources: &Vec<VoiceSource>) -> (r: Result<
    (VoiceTable, TokenGrid),
    RegistryError,
>)
    requires
        sources_ids_unique(sources@),
    ensures
        has_unusable(enc.num_codebooks, sources@) <==> r matches Err(RegistryError::Prompt(_)),
        r matches Err(RegistryError::Prompt(e)) ==> exists|j: int|
            0 <= j < sources@.len() && (#[trigger] sources@[j]).codes is Some && codes_unusable(
                enc.num_codebooks,
                sources@[j].codes->0@,
            ) && e == unusable_error(enc.num_codebooks, sources@[j].codes->0@) && forall|k: int|
                0 <= k < j ==> (#[trigger] sources@[k]).codes is None || !codes_unusable(
                    enc.num_codebooks,
                    sources@[k].codes->0@,
                ),
        !has_unusable(enc.num_codebooks, sources@) && !has_present(sources@) ==> r == Err::<
            (VoiceTable, TokenGrid),
            RegistryError,
        >(RegistryError::NoVoices),
        !has_unusable(enc.num_codebooks, sources@) && has_present(sources@) ==> r is Ok,
        r matches Ok((t, d)) ==> {
            &&& t.wf()
            &&& loaded_table(*enc, sources@, t@)
            &&& default_prompt_of(t@, d@)
        },
{
    let mut table = VoiceTable::new();
    let mut default_at: Option<usize> = None;
    let mut first: Option<usize> = None;
    let mut i: usize = 0;
    while i < sources.len()
        invariant
            i <= sources@.len(),
            sources_ids_unique(sources@),
            table.wf(),
            forall|id: Seq<char>|
                table@.contains_key(id) <==> exists|j: int|
                    0 <= j < i && (#[trigger] sources@[j]).id@ == id && sources@[j].codes is Some,
            forall|j: int|
                0 <= j < i && (#[trigger] sources@[j]).codes is Some ==> table@[sources@[j].id@]
                    == conditioning_prompt(
                    enc.semantic_id,
                    sources@[j].text_tokens@,
                    sources@[j].codes->0@,
                ) && !codes_unusable(enc.num_codebooks, sources@[j].codes->0@),
            table.voices@.len() == 0 <==> forall|j: int|
                0 <= j < i ==> (#[trigger] sources@[j]).codes is None,
            first is None <==> table.voices@.len() == 0,
            first matches Some(k) ==> k < table.voices@.len() && forall|q: int|
                0 <= q < table.voices@.len() && q != k ==> seq_lt(
                    table.voices@[k as int].0@,
                    (#[trigger] table.voices@[q]).0@,
                ),
            default_at matches Some(k) ==> k < table.voices@.len() && table.voices@[k as int].0@
                == default_name(),
            default_at is None ==> !table@.contains_key(default_name()),
        decreases sources.len() - i,
    {
        let src = &sources[i];
        match &src.codes {
            None => {},
            Some(_) => {
                match enc.encode_conditioning_prompt(&src.text_tokens, &src.codes) {
                    Err(e) => {
                        assert(sources@[i as int].codes is Some);
                        return Err(RegistryError::Prompt(e));
                    },
                    Ok(p) => {
                        let ghost v0 = table.voices@;
                        assert(!table@.contains_key(src.id@)) by {
                            if table@.contains_key(src.id@) {
                                let j = choose|j: int|
                                    0 <= j < i && (#[trigger] sources@[j]).id@ == src.id@
                                        && sources@[j].codes is Some;
                                assert(sources@[j] != sources@[i as int]);
                            }
                        }
                        if is_default_name(&src.id) {
                            default_at = Some(table.voices.len());
                        }
                        let n = table.voices.len();
                        match first {
                            None => {
                                first = Some(n);
                            },
                            Some(k) => {
                                let ghost m = v0[k as int].0@;
                                assert(src.id@ != m) by {
                                    assert(table_has(v0, m));
                                }
                                if id_less(&src.id, &table.voices[k].0) {
                                    assert forall|q: int| 0 <= q < n implies seq_lt(
                                        src.id@,
                                        v0[q].0@,
                                    ) by {
                                        if q != k {
                                            lemma_lt_transitive(src.id@, m, v0[q].0@);
                                        }
                                    }
                                    first = Some(n);
                                } else {
                                    proof {
                                        lemma_lt_total(src.id@, m);
                                    }
                                }
                            },
                        }
                        proof {
                            lemma_push_fresh(table.voices@, src.id, p);
                        }
                        table.voices.push((src.id.clone(), p));
                        assert(table.voices@ == v0.push((src.id, p)));
                        assert forall|q: int| 0 <= q < n implies table.voices@[q] == v0[q] by {}
                    },
                }
            },
        }
        i += 1;
    }
    if table.voices.len() == 0 {
        return Err(RegistryError::NoVoices);
    }
    let d = match default_at {
        Some(k) => k,
        None => match first {
            Some(k) => k,
            None => 0,
        },
    };
    proof {
        lemma_table_at(table.voices@, d as int);
        let v = table.voices@;
        let m = v[d as int].0@;
        if default_at is None {
            assert forall|x: Seq<char>| #[trigger] table@.contains_key(x) && x != m implies seq_lt(
                m,
                x,
            ) by {
                let q = choose|q: int| 0 <= q < v.len() && (#[trigger] v[q]).0@ == x;
            }
            assert(is_smallest_key(table@, m));
        }
    }
    let dp = table.voices[d].1.duplicate();
    Ok((table, dp))
}

/// A voice registered from its text tokens and codes gets back, when the table
/// is loaded again from disk, the very prompt it was given at registration.
pub proof fn lemma_reload_keeps_prompt(
    enc: PromptEncoder,
    sources: Seq<VoiceSource>,
    t: Map<Seq<char>, Seq<Seq<u32>>>,
    j: int,
    registered: Seq<Seq<u32>>,
)
    requires
        loaded_table(enc, sources, t),
        0 <= j < sources.len(),
        sources[j].codes is Some,
        registered == conditioning_prompt(
            enc.semantic_id,
            sources[j].text_tokens@,
            sources[j].codes->0@,
        ),
    ensures
        t.contains_key(sources[j].id@),
        t[sources[j].id@] == registered,
{
    assert(sources[j].id@ == sources[j].id@ && sources[j].codes is Some);
}

/// One source per entry of the index, in its order: the entry's id, the
/// tokens of its text, and `codes[i]`, the codes read from its token file
/// (None where the file is missing). Fails when a text cannot be tokenized.
pub fn voice_sources(
    tokenizer: &tokenizers::Tokenizer,
    index: &SpeakerIndex,
    codes: Vec<Option<TokenGrid>>,
) -> (r: Result<Vec<VoiceSource>, PromptError>)
    requires
        index.wf(),
        codes@.len() == index.speakers@.len(),
    ensures
        index.speakers@.len() == 0 ==> (r matches Ok(v) && v@.len() == 0),
        r matches Err(e) ==> e == PromptError::Tokenization,
        r matches Ok(v) ==> {
            &&& v@.len() == index.speakers@.len()
            &&& sources_ids_unique(v@)
            &&& forall|i: int|
                0 <= i < v@.len() ==> (#[trigger] v@[i]).id@ == index.speakers@[i].0@
                    && v@[i].codes == codes@[i]
        },
{
    let ghost all = codes@;
    let mut codes = codes;
    let n = index.speakers.len();
    let mut out: Vec<VoiceSource> = Vec::new();
    let mut i: usize = 0;
    while i < n
        invariant
            n == index.speakers@.len(),
            i <= n,
            all.len() == n,
            codes@ == all.subrange(i as int, n as int),
            out@.len() == i,
            forall|k: int|
                0 <= k < i ==> (#[trigger] out@[k]).id@ == index.speakers@[k].0@ && out@[k].codes
                    == all[k],
        decreases n - i,
    {
        let c = codes.remove(0);
        assert(c == all[i as int]);
        assert(codes@ =~= all.subrange(i + 1, n as int));
        let entry = &index.speakers[i];
        match tokenize(tokenizer, entry.1.as_str()) {
            None => return Err(PromptError::Tokenization),
            Some(ids) => {
                out.push(VoiceSource { id: entry.0.clone(), text_tokens: ids, codes: c });
            },
        }
        i += 1;
    }
    assert(sources_ids_unique(out@)) by {
        assert forall|a: int, b: int|
            0 <= a < out@.len() && 0 <= b < out@.len() && a != b implies (#[trigger] out@[a]).id@
            != (#[trigger] out@[b]).id@ by {
            assert(index.speakers@[a].0@ != index.speakers@[b].0@);
        }
    }
    Ok(out)
}

} // verus!
