use vstd::prelude::*;

verus! {

/// A grid of tokens: the text row first, then one row per codebook.
/// Row `k` position `j` is the token of stream `k` at step `j`.
pub struct TokenGrid {
    pub rows: Vec<Vec<u32>>,
}

impl View for TokenGrid {
    type V = Seq<Seq<u32>>;

    open spec fn view(&self) -> Seq<Seq<u32>> {
        Seq::new(self.rows@.len(), |i: int| self.rows@[i]@)
    }
}

/// Every row of the grid has the length of the first.
pub open spec fn rectangular(g: Seq<Seq<u32>>) -> bool {
    forall|k: int| 0 <= k < g.len() ==> #[trigger] g[k].len() == g[0].len()
}

/// Number of steps that a grid spans.
pub open spec fn grid_len(g: Seq<Seq<u32>>) -> nat {
    if g.len() == 0 {
        0
    } else {
        g[0].len()
    }
}

pub open spec fn zeros(n: nat) -> Seq<u32> {
    Seq::new(n, |j: int| 0u32)
}

/// Text tokens for a model with `n` codebooks: the text on the first row, the
/// codebook rows hold the placeholder 0 at each text position.
pub open spec fn text_grid(n: nat, text: Seq<u32>) -> Seq<Seq<u32>> {
    Seq::new(n + 1, |k: int| if k == 0 { text } else { zeros(text.len()) })
}

/// Reference speaker codes (one row per codebook) laid out for the model: the
/// first row holds the semantic marker token at each position of the audio.
pub open spec fn reference_grid(semantic_id: u32, reference: Seq<Seq<u32>>) -> Seq<Seq<u32>> {
    Seq::new(
        reference.len() + 1,
        |k: int|
            if k == 0 {
                Seq::new(grid_len(reference), |j: int| semantic_id)
            } else {
                reference[k - 1]
            },
    )
}

/// Grid `a` followed in time by grid `b`, row by row.
pub open spec fn concat_grid(a: Seq<Seq<u32>>, b: Seq<Seq<u32>>) -> Seq<Seq<u32>> {
    Seq::new(a.len(), |k: int| a[k] + b[k])
}

/// The conditioning prompt of a voice: its reference audio, then its text.
pub open spec fn conditioning_prompt(
    semantic_id: u32,
    text: Seq<u32>,
    reference: Seq<Seq<u32>>,
) -> Seq<Seq<u32>> {
    concat_grid(reference_grid(semantic_id, reference), text_grid(reference.len(), text))
}

/// The grids of a sequence of prompts.
pub open spec fn grid_views(v: Seq<TokenGrid>) -> Seq<Seq<Seq<u32>>> {
    Seq::new(v.len(), |i: int| v[i]@)
}

pub open spec fn system_view(system: Option<Vec<u32>>) -> Option<Seq<u32>> {
    match system {
        Some(t) => Some(t@),
        None => None,
    }
}

pub open spec fn base_view(base: Option<TokenGrid>) -> Option<Seq<Seq<u32>>> {
    match base {
        Some(g) => Some(g@),
        None => None,
    }
}

/// What comes before the first chunk of a request: the system text when it is
/// included and given, then the base conditioning prompt when given.
pub open spec fn sequence_prefix(
    n: nat,
    system: Option<Seq<u32>>,
    base: Option<Seq<Seq<u32>>>,
    include_system: bool,
) -> Seq<Seq<u32>> {
    let sys = if include_system && system is Some {
        text_grid(n, system->0)
    } else {
        text_grid(n, Seq::empty())
    };
    match base {
        Some(b) => concat_grid(sys, b),
        None => sys,
    }
}

/// One prompt per chunk: the first carries the prefix, the later ones only
/// their own text, since the model's cache carries over between chunks.
pub open spec fn sequence_prompts(
    n: nat,
    chunks: Seq<Seq<u32>>,
    prefix: Seq<Seq<u32>>,
) -> Seq<Seq<Seq<u32>>> {
    Seq::new(
        chunks.len(),
        |i: int|
            if i == 0 {
                concat_grid(prefix, text_grid(n, chunks[0]))
            } else {
                text_grid(n, chunks[i])
            },
    )
}

/// Codes that do not fit a model of `n` codebooks.
pub open spec fn codes_unusable(n: usize, c: Seq<Seq<u32>>) -> bool {
    c.len() != n || !rectangular(c)
}

/// The error that encoding codes unusable for `n` codebooks gives.
pub open spec fn unusable_error(n: usize, c: Seq<Seq<u32>>) -> PromptError {
    if c.len() != n {
        PromptError::CodebookMismatch { expected: n, found: c.len() as usize }
    } else {
        PromptError::RaggedTokens
    }
}

/// Why a prompt could not be encoded.
#[derive(Debug, Clone, Copy, PartialEq, Eq, Structural)]
pub enum PromptError {
    /// There was no text chunk to encode.
    NoChunks,
    /// A token grid has another number of codebooks than the model.
    CodebookMismatch { expected: usize, found: usize },
    /// The rows of a token grid differ in length.
    RaggedTokens,
    /// The tokenizer could not encode the text.
    Tokenization,
}

#[verifier::external_type_specification]
#[verifier::external_body]
pub struct ExTokenizer(tokenizers::Tokenizer);

/// Relies on tokenizers::Tokenizer::encode, without special tokens, and
/// Encoding::get_ids: the ids of the text's tokens, None where encoding fails.
/// What the ids are depends on the tokenizer's vocabulary, so nothing is stated
/// of them.
#[verifier::external_body]
pub(crate) fn tokenize(tokenizer: &tokenizers::Tokenizer, text: &str) -> (r: Option<Vec<u32>>) {
    tokenizer.encode(text, false).ok().map(|e| e.get_ids().to_vec())
}

/// Builds the token grids that condition the model.
pub struct PromptEncoder {
    pub num_codebooks: usize,
    /// Token that marks a position of speech on the text row.
    pub semantic_id: u32,
}

pub(crate) fn zero_row(n: usize) -> (r: Vec<u32>)
    ensures
        r@ == zeros(n as nat),
{
    let mut r: Vec<u32> = Vec::new();
    let mut i: usize = 0;
    while i < n
        invariant
            i <= n,
            r@ == zeros(i as nat),
        decreases n - i,
    {
        r.push(0);
        i += 1;
    }
    r
}

fn join_rows(a: &Vec<u32>, b: &Vec<u32>) -> (r: Vec<u32>)
    ensures
        r@ == a@ + b@,
{
    let mut r: Vec<u32> = Vec::new();
    let mut i: usize = 0;
    while i < a.len()
        invariant
            i <= a@.len(),
            r@ == a@.subrange(0, i as int),
        decreases a.len() - i,
    {
        r.push(a[i]);
        i += 1;
    }
    let mut j: usize = 0;
    while j < b.len()
        invariant
            j <= b@.len(),
            r@ == a@ + b@.subrange(0, j as int),
        decreases b.len() - j,
    {
        r.push(b[j]);
        j += 1;
    }
    r
}

fn copy_row(a: &Vec<u32>) -> (r: Vec<u32>)
    ensures
        r@ == a@,
{
    let e: Vec<u32> = Vec::new();
    let r = join_rows(a, &e);
    assert(a@ + e@ =~= a@);
    r
}

impl TokenGrid {
    /// A copy of the grid; grids are never changed in place.
    pub fn duplicate(&self) -> (r: TokenGrid)
        ensures
            r@ == self@,
    {
        let mut rows: Vec<Vec<u32>> = Vec::new();
        let mut k: usize = 0;
        while k < self.rows.len()
            invariant
                k <= self.rows@.len(),
                rows@.len() == k,
                forall|i: int| 0 <= i < k ==> (#[trigger] rows@[i])@ == self.rows@[i]@,
            decreases self.rows.len() - k,
        {
            rows.push(copy_row(&self.rows[k]));
            k += 1;
        }
        let r = TokenGrid { rows };
        assert(r@ =~= self@);
        r
    }

    /// Number of steps, the length of the first row.
    pub fn len(&self) -> (r: usize)
        ensures
            r == grid_len(self@),
    {
        if self.rows.len() == 0 {
            0
        } else {
            self.rows[0].len()
        }
    }

    /// Whether all rows have one length.
    pub fn is_rectangular(&self) -> (r: bool)
        ensures
            r == rectangular(self@),
    {
        if self.rows.len() == 0 {
            return true;
        }
        let n = self.rows[0].len();
        let mut k: usize = 1;
        while k < self.rows.len()
            invariant
                1 <= k <= self.rows@.len(),
                n == self@[0].len(),
                forall|i: int| 0 <= i < k ==> #[trigger] self@[i].len() == n,
            decreases self.rows.len() - k,
        {
            if self.rows[k].len() != n {
                assert(self@[k as int].len() != self@[0].len());
                return false;
            }
            k += 1;
        }
        true
    }
}

/// Grid `a` followed by grid `b`.
pub(crate) fn concat_grids(a: &TokenGrid, b: &TokenGrid) -> (r: TokenGrid)
    requires
        a@.len() == b@.len(),
    ensures
        r@ == concat_grid(a@, b@),
{
    let mut rows: Vec<Vec<u32>> = Vec::new();
    let mut k: usize = 0;
    while k < a.rows.len()
        invariant
            k <= a.rows@.len(),
            a@.len() == b@.len(),
            rows@.len() == k,
            forall|i: int| 0 <= i < k ==> (#[trigger] rows@[i])@ == a@[i] + b@[i],
        decreases a.rows.len() - k,
    {
        rows.push(join_rows(&a.rows[k], &b.rows[k]));
        k += 1;
    }
    let r = TokenGrid { rows };
    assert(r@ =~= concat_grid(a@, b@));
    r
}

impl PromptEncoder {
    pub fn new(num_codebooks: usize, semantic_id: u32) -> (r: PromptEncoder)
        ensures
            r.num_codebooks == num_codebooks,
            r.semantic_id == semantic_id,
    {
        PromptEncoder { num_codebooks, semantic_id }
    }

    /// The text tokens as a grid of this model.
    pub fn encode_text(&self, text: &Vec<u32>) -> (r: TokenGrid)
        ensures
            r@ == text_grid(self.num_codebooks as nat, text@),
    {
        let mut rows: Vec<Vec<u32>> = Vec::new();
        rows.push(copy_row(text));
        let mut k: usize = 0;
        while k < self.num_codebooks
            invariant
                k <= self.num_codebooks,
                rows@.len() == k + 1,
                forall|i: int|
                    0 <= i <= k ==> (#[trigger] rows@[i])@ == text_grid(
                        self.num_codebooks as nat,
                        text@,
                    )[i],
            decreases self.num_codebooks - k,
        {
            rows.push(zero_row(text.len()));
            k += 1;
        }
        let r = TokenGrid { rows };
        assert(r@ =~= text_grid(self.num_codebooks as nat, text@));
        r
    }

    /// Checks that a grid has `rows` rows, all of one length.
    fn check_grid(g: &TokenGrid, rows: usize) -> (r: Result<(), PromptError>)
        ensures
            g@.len() != rows ==> r == Err::<(), PromptError>(
                PromptError::CodebookMismatch { expected: rows, found: g@.len() as usize },
            ),
            g@.len() == rows && !rectangular(g@) ==> r == Err::<(), PromptError>(
                PromptError::RaggedTokens,
            ),
            g@.len() == rows && rectangular(g@) ==> r is Ok,
    {
        if g.rows.len() != rows {
            return Err(PromptError::CodebookMismatch { expected: rows, found: g.rows.len() });
        }
        if !g.is_rectangular() {
            return Err(PromptError::RaggedTokens);
        }
        Ok(())
    }

    /// The conditioning prompt of a voice from the tokens of its text and,
    /// when given, the codec's codes of its reference audio (one row per codebook).
    pub fn encode_conditioning_prompt(
        &self,
        text: &Vec<u32>,
        reference: &Option<TokenGrid>,
    ) -> (r: Result<TokenGrid, PromptError>)
        ensures
            reference is None ==> (r matches Ok(g) && g@ == text_grid(
                self.num_codebooks as nat,
                text@,
            )),
            reference matches Some(c) ==> {
                &&& c@.len() != self.num_codebooks ==> r == Err::<TokenGrid, PromptError>(
                    PromptError::CodebookMismatch {
                        expected: self.num_codebooks,
                        found: c@.len() as usize,
                    },
                )
                &&& c@.len() == self.num_codebooks && !rectangular(c@) ==> r == Err::<
                    TokenGrid,
                    PromptError,
                >(PromptError::RaggedTokens)
                &&& c@.len() == self.num_codebooks && rectangular(c@) ==> (r matches Ok(g)
                    && g@ == conditioning_prompt(self.semantic_id, text@, c@))
            },
    {
        match reference {
            None => Ok(self.encode_text(text)),
            Some(c) => self.encode_with_reference(text, c),
        }
    }

    fn encode_with_reference(&self, text: &Vec<u32>, reference: &TokenGrid) -> (r: Result<
        TokenGrid,
        PromptError,
    >)
        ensures
            reference@.len() != self.num_codebooks ==> r == Err::<TokenGrid, PromptError>(
                PromptError::CodebookMismatch {
                    expected: self.num_codebooks,
                    found: reference@.len() as usize,
                },
            ),
            reference@.len() == self.num_codebooks && !rectangular(reference@) ==> r == Err::<
                TokenGrid,
                PromptError,
            >(PromptError::RaggedTokens),
            reference@.len() == self.num_codebooks && rectangular(reference@) ==> (r matches Ok(
                g,
            ) && g@ == conditioning_prompt(self.semantic_id, text@, reference@)),
    {
        match Self::check_grid(reference, self.num_codebooks) {
            Err(e) => return Err(e),
            Ok(()) => {},
        }
        let l = reference.len();
        let mut marks: Vec<u32> = Vec::new();
        let mut j: usize = 0;
        while j < l
            invariant
                j <= l,
                marks@ == Seq::new(j as nat, |i: int| self.semantic_id),
            decreases l - j,
        {
            marks.push(self.semantic_id);
            j += 1;
        }
        let mut rows: Vec<Vec<u32>> = Vec::new();
        rows.push(marks);
        let mut k: usize = 0;
        while k < reference.rows.len()
            invariant
                k <= reference.rows@.len(),
                l == grid_len(reference@),
                rows@.len() == k + 1,
                forall|i: int|
                    0 <= i <= k ==> (#[trigger] rows@[i])@ == reference_grid(
                        self.semantic_id,
                        reference@,
                    )[i],
            decreases reference.rows.len() - k,
        {
            rows.push(copy_row(&reference.rows[k]));
            k += 1;
        }
        let head = TokenGrid { rows };
        assert(head@ =~= reference_grid(self.semantic_id, reference@));
        let tail = self.encode_text(text);
        Ok(concat_grids(&head, &tail))
    }
    /// The conditioning prompt of a voice from its text, tokenized here, and
    /// its optional reference codes. Codes that do not fit the model are
    /// refused before the text is tokenized.
    pub fn encode_voice_prompt(
        &self,
        tokenizer: &tokenizers::Tokenizer,
        text: &str,
        reference: &Option<TokenGrid>,
    ) -> (r: Result<TokenGrid, PromptError>)
        ensures
            reference matches Some(c) ==> (codes_unusable(self.num_codebooks, c@) ==> r == Err::<
                TokenGrid,
                PromptError,
            >(unusable_error(self.num_codebooks, c@))),
            r matches Err(e) ==> e == PromptError::Tokenization || (reference matches Some(c)
                && codes_unusable(self.num_codebooks, c@)),
            r matches Ok(g) ==> exists|ids: Seq<u32>|
                g@ == match reference {
                    Some(c) => conditioning_prompt(self.semantic_id, ids, c@),
                    None => text_grid(self.num_codebooks as nat, ids),
                },
    {
        match reference {
            Some(c) => match Self::check_grid(c, self.num_codebooks) {
                Err(e) => return Err(e),
                Ok(()) => {},
            },
            None => {},
        }
        match tokenize(tokenizer, text) {
            None => Err(PromptError::Tokenization),
            Some(ids) => {
                let r = self.encode_conditioning_prompt(&ids, reference);
                match reference {
                    Some(c) => assert(r matches Ok(g) && g@ == conditioning_prompt(
                        self.semantic_id,
                        ids@,
                        c@,
                    )),
                    None => {},
                }
                r
            },
        }
    }

    /// The prompts of a request of several text chunks, and the number of
    /// conditioning steps that precede the first chunk's text.
    pub fn encode_sequence(
        &self,
        chunks: &Vec<Vec<u32>>,
        system: &Option<Vec<u32>>,
        base: &Option<TokenGrid>,
        include_system: bool,
    ) -> (r: Result<(usize, Vec<TokenGrid>), PromptError>)
        requires
            self.num_codebooks < usize::MAX,
        ensures
            chunks@.len() == 0 ==> r == Err::<(usize, Vec<TokenGrid>), PromptError>(
                PromptError::NoChunks,
            ),
            chunks@.len() > 0 ==> match base {
                Some(b) => if b@.len() != self.num_codebooks + 1 {
                    r == Err::<(usize, Vec<TokenGrid>), PromptError>(
                        PromptError::CodebookMismatch {
                            expected: (self.num_codebooks + 1) as usize,
                            found: b@.len() as usize,
                        },
                    )
                } else if !rectangular(b@) {
                    r == Err::<(usize, Vec<TokenGrid>), PromptError>(PromptError::RaggedTokens)
                } else {
                    r is Ok
                },
                None => r is Ok,
            },
            r matches Ok((nc, ps)) ==> {
                let prefix = sequence_prefix(
                    self.num_codebooks as nat,
                    system_view(*system),
                    base_view(*base),
                    include_system,
                );
                &&& nc == grid_len(prefix)
                &&& grid_views(ps@) == sequence_prompts(
                    self.num_codebooks as nat,
                    Seq::new(chunks@.len(), |i: int| chunks@[i]@),
                    prefix,
                )
            },
    {
        if chunks.len() == 0 {
            return Err(PromptError::NoChunks);
        }
        let ghost n = self.num_codebooks as nat;
        let ghost cv = Seq::new(chunks@.len(), |i: int| chunks@[i]@);
        let empty: Vec<u32> = Vec::new();
        let sys = match system {
            Some(t) => if include_system {
                self.encode_text(t)
            } else {
                self.encode_text(&empty)
            },
            None => self.encode_text(&empty),
        };
        assert(empty@ =~= Seq::<u32>::empty());
        let prefix = match base {
            Some(b) => {
                match Self::check_grid(b, self.num_codebooks + 1) {
                    Err(e) => return Err(e),
                    Ok(()) => {},
                }
                concat_grids(&sys, b)
            },
            None => sys,
        };
        assert(prefix@ == sequence_prefix(n, system_view(*system), base_view(*base), include_system));
        let mut prompts: Vec<TokenGrid> = Vec::new();
        let first = self.encode_text(&chunks[0]);
        prompts.push(concat_grids(&prefix, &first));
        let mut i: usize = 1;
        while i < chunks.len()
            invariant
                1 <= i <= chunks@.len(),
                cv == Seq::new(chunks@.len(), |i: int| chunks@[i]@),
                prompts@.len() == i,
                forall|k: int|
                    0 <= k < i ==> (#[trigger] prompts@[k])@ == sequence_prompts(n, cv, prefix@)[k],
                n == self.num_codebooks as nat,
            decreases chunks.len() - i,
        {
            prompts.push(self.encode_text(&chunks[i]));
            i += 1;
        }
        assert(grid_views(prompts@) =~= sequence_prompts(n, cv, prefix@));
        Ok((prefix.len(), prompts))
    }
}

} // verus!
