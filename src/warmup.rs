use vstd::prelude::*;
use crate::model::{ModelVariant, WARMUP_TEXT, system_prompt, system_prompt_of, warmup_chunks};
use crate::prompt::{
    PromptEncoder,
    PromptError,
    TokenGrid,
    concat_grid,
    grid_len,
    grid_views,
    rectangular,
    sequence_prefix,
    system_view,
    text_grid,
    tokenize,
};
use crate::text::{chunk_views, lemma_chunks_cover_text};

verus! {

/// Where the warmup request stands. It runs under the admission gate, which
/// the caller holds from the start.
#[derive(Debug, Clone, Copy, PartialEq, Eq, Structural)]
pub enum WarmupStage {
    /// Waiting for admission.
    Admitting,
    Generating,
    Vocoding,
    /// The model's caches are being cleared; `ok` tells how the run went.
    Clearing { ok: bool },
    /// Admission was given back.
    Done { ok: bool },
}

#[derive(Debug, Clone, Copy, PartialEq, Eq, Structural)]
pub enum WarmupEvent {
    Admitted,
    Generated { ok: bool },
    Vocoded { ok: bool },
    Cleared,
}

#[derive(Debug, Clone, Copy, PartialEq, Eq, Structural)]
pub enum WarmupAction {
    Generate,
    Vocode,
    ClearCaches,
    /// Give admission back; the warmup succeeded when `ok`.
    Release { ok: bool },
    /// The event does not belong to this stage: nothing to do.
    Wait,
}

/// One step of the warmup: generate, vocode, and whatever came of them clear
/// the caches before admission is given back.
pub open spec fn warmup_next(s: WarmupStage, e: WarmupEvent) -> (WarmupStage, WarmupAction) {
    match (s, e) {
        (WarmupStage::Admitting, WarmupEvent::Admitted) => (
            WarmupStage::Generating,
            WarmupAction::Generate,
        ),
        (WarmupStage::Generating, WarmupEvent::Generated { ok }) => if ok {
            (WarmupStage::Vocoding, WarmupAction::Vocode)
        } else {
            (WarmupStage::Clearing { ok: false }, WarmupAction::ClearCaches)
        },
        (WarmupStage::Vocoding, WarmupEvent::Vocoded { ok }) => (
            WarmupStage::Clearing { ok },
            WarmupAction::ClearCaches,
        ),
        (WarmupStage::Clearing { ok }, WarmupEvent::Cleared) => (
            WarmupStage::Done { ok },
            WarmupAction::Release { ok },
        ),
        _ => (s, WarmupAction::Wait),
    }
}

/// Decides the next action of the warmup from its stage and the last event.
pub fn warmup_step(s: WarmupStage, e: WarmupEvent) -> (r: (WarmupStage, WarmupAction))
    ensures
        r == warmup_next(s, e),
{
    match (s, e) {
        (WarmupStage::Admitting, WarmupEvent::Admitted) => (
            WarmupStage::Generating,
            WarmupAction::Generate,
        ),
        (WarmupStage::Generating, WarmupEvent::Generated { ok }) => if ok {
            (WarmupStage::Vocoding, WarmupAction::Vocode)
        } else {
            (WarmupStage::Clearing { ok: false }, WarmupAction::ClearCaches)
        },
        (WarmupStage::Vocoding, WarmupEvent::Vocoded { ok }) => (
            WarmupStage::Clearing { ok },
            WarmupAction::ClearCaches,
        ),
        (WarmupStage::Clearing { ok }, WarmupEvent::Cleared) => (
            WarmupStage::Done { ok },
            WarmupAction::Release { ok },
        ),
        _ => (s, WarmupAction::Wait),
    }
}

pub open spec fn warmup_actions(s: WarmupStage, events: Seq<WarmupEvent>) -> Seq<WarmupAction>
    decreases events.len(),
{
    if events.len() == 0 {
        Seq::empty()
    } else {
        let (t, a) = warmup_next(s, events[0]);
        seq![a] + warmup_actions(t, events.drop_first())
    }
}

proof fn lemma_release_after_clear_from(s: WarmupStage, events: Seq<WarmupEvent>)
    ensures
        forall|i: int|
            0 <= i < warmup_actions(s, events).len() && (#[trigger] warmup_actions(s, events)[i]) is Release
                ==> s is Clearing || exists|j: int|
                0 <= j < i && warmup_actions(s, events)[j] == WarmupAction::ClearCaches,
        warmup_actions(s, events).len() == events.len(),
    decreases events.len(),
{
    if events.len() > 0 {
        let (t, a) = warmup_next(s, events[0]);
        let rest = events.drop_first();
        lemma_release_after_clear_from(t, rest);
        let all = warmup_actions(s, events);
        assert(all == seq![a] + warmup_actions(t, rest));
        assert forall|i: int| 0 <= i < all.len() && (#[trigger] all[i]) is Release implies s is Clearing
            || exists|j: int| 0 <= j < i && all[j] == WarmupAction::ClearCaches by {
            if i > 0 {
                assert(all[i] == warmup_actions(t, rest)[i - 1]);
                if t is Clearing {
                    if a == WarmupAction::ClearCaches {
                        assert(all[0] == a);
                    }
                } else {
                    let j = choose|j: int|
                        0 <= j < i - 1 && warmup_actions(t, rest)[j] == WarmupAction::ClearCaches;
                    assert(all[j + 1] == warmup_actions(t, rest)[j]);
                }
            }
        }
    }
}

/// Admission is given back only after the caches were cleared, so the first
/// request after warmup starts from a clean cache, however the warmup went.
pub proof fn lemma_release_after_clear(events: Seq<WarmupEvent>)
    ensures
        forall|i: int|
            0 <= i < warmup_actions(WarmupStage::Admitting, events).len() && (#[trigger] warmup_actions(
                WarmupStage::Admitting,
                events,
            )[i]) is Release ==> exists|j: int|
                0 <= j < i && warmup_actions(WarmupStage::Admitting, events)[j]
                    == WarmupAction::ClearCaches,
{
    lemma_release_after_clear_from(WarmupStage::Admitting, events);
}

/// The first prompt of the warmup request and the number of conditioning
/// steps in it: the system text, the default voice, then the first chunk.
pub fn warmup_prompt(
    enc: &PromptEncoder,
    chunks: &Vec<Vec<u32>>,
    system: &Option<Vec<u32>>,
    default_voice: &TokenGrid,
) -> (r: Result<(usize, TokenGrid), PromptError>)
    requires
        enc.num_codebooks < usize::MAX,
    ensures
        chunks@.len() == 0 ==> r == Err::<(usize, TokenGrid), PromptError>(PromptError::NoChunks),
        chunks@.len() > 0 && default_voice@.len() != enc.num_codebooks + 1 ==> r == Err::<
            (usize, TokenGrid),
            PromptError,
        >(
            PromptError::CodebookMismatch {
                expected: (enc.num_codebooks + 1) as usize,
                found: default_voice@.len() as usize,
            },
        ),
        chunks@.len() > 0 && default_voice@.len() == enc.num_codebooks + 1 && !rectangular(
            default_voice@,
        ) ==> r == Err::<(usize, TokenGrid), PromptError>(PromptError::RaggedTokens),
        chunks@.len() > 0 && default_voice@.len() == enc.num_codebooks + 1 && rectangular(
            default_voice@,
        ) ==> r is Ok,
        r matches Ok((nc, p)) ==> {
            let prefix = sequence_prefix(
                enc.num_codebooks as nat,
                system_view(*system),
                Some(default_voice@),
                true,
            );
            &&& nc == grid_len(prefix)
            &&& p@ == concat_grid(prefix, text_grid(enc.num_codebooks as nat, chunks@[0]@))
        },
{
    let base = Some(default_voice.duplicate());
    match enc.encode_sequence(chunks, system, &base, true) {
        Err(e) => Err(e),
        Ok((nc, prompts)) => {
            assert(chunks@.len() > 0);
            assert(grid_views(prompts@).len() == prompts@.len());
            assert(prompts@.len() > 0);
            assert(grid_views(prompts@)[0] == prompts@[0]@);
            let mut prompts = prompts;
            let first = prompts.remove(0);
            Ok((nc, first))
        },
    }
}

/// The first prompt of the warmup request for this model, with the warmup
/// text and system prompt tokenized here. Fails only where the tokenizer does
/// or the default voice does not fit the model.
pub fn warmup_request(
    tokenizer: &tokenizers::Tokenizer,
    enc: &PromptEncoder,
    variant: ModelVariant,
    default_voice: &TokenGrid,
) -> (r: Result<(usize, TokenGrid), PromptError>)
    requires
        enc.num_codebooks < usize::MAX,
    ensures
        default_voice@.len() == enc.num_codebooks + 1 && rectangular(default_voice@) ==> (
        r is Ok || r == Err::<(usize, TokenGrid), PromptError>(PromptError::Tokenization)),
        r matches Err(e) ==> e == PromptError::Tokenization || !(default_voice@.len()
            == enc.num_codebooks + 1 && rectangular(default_voice@)),
        r matches Ok((nc, p)) ==> exists|first: Seq<u32>, sys: Option<Seq<u32>>|
            (sys is Some <==> system_prompt_of(variant) is Some) && nc == grid_len(
                sequence_prefix(enc.num_codebooks as nat, sys, Some(default_voice@), true),
            ) && p@ == concat_grid(
                sequence_prefix(enc.num_codebooks as nat, sys, Some(default_voice@), true),
                text_grid(enc.num_codebooks as nat, first),
            ),
{
    let texts = warmup_chunks();
    proof {
        reveal_strlit("Warmup inference to initialize model caches.");
        lemma_chunks_cover_text(WARMUP_TEXT@, chunk_views(texts@));
    }
    let mut chunks: Vec<Vec<u32>> = Vec::new();
    let mut i: usize = 0;
    while i < texts.len()
        invariant
            i <= texts@.len(),
            chunks@.len() == i,
        decreases texts.len() - i,
    {
        match tokenize(tokenizer, texts[i].as_str()) {
            None => return Err(PromptError::Tokenization),
            Some(ids) => chunks.push(ids),
        }
        i += 1;
    }
    let system = match system_prompt(variant) {
        None => None,
        Some(text) => match tokenize(tokenizer, text.as_str()) {
            None => return Err(PromptError::Tokenization),
            Some(ids) => Some(ids),
        },
    };
    let r = warmup_prompt(enc, &chunks, &system, default_voice);
    match &r {
        Ok((nc, p)) => {
            assert(system_view(system) is Some <==> system_prompt_of(variant) is Some);
            assert(p@ == concat_grid(
                sequence_prefix(enc.num_codebooks as nat, system_view(system), Some(default_voice@), true),
                text_grid(enc.num_codebooks as nat, chunks@[0]@),
            ));
        },
        Err(_) => {},
    }
    r
}

} // verus!
