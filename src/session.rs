use vstd::prelude::*;
use crate::slot::{DecodeSlot, slot_next, slot_wf};

verus! {

/// The decode state of one request, over all its text chunks. The model's
/// cache is shared by the chunks of the request and cleared only by `reset`.
pub struct GenerationSession {
    /// Positions held by the model's recurrent cache.
    pub cache_len: usize,
    /// Token sets produced by the chunks already finished.
    pub output: Vec<Vec<u32>>,
    /// The chunk being decoded.
    pub slot: DecodeSlot,
    /// Bound on the token sets of each chunk.
    pub max_tokens: usize,
    /// Token that ends a chunk.
    pub eos: u32,
}

pub open spec fn rows_view(v: Seq<Vec<u32>>) -> Seq<Seq<u32>> {
    Seq::new(v.len(), |i: int| v[i]@)
}

impl GenerationSession {
    pub open spec fn wf(&self) -> bool {
        slot_wf(self.slot@)
    }

    /// Everything produced so far: the finished chunks, then the current one.
    pub open spec fn produced(&self) -> Seq<Seq<u32>> {
        rows_view(self.output@) + self.slot@.tokens
    }

    /// A session with an empty cache and no chunk started.
    pub fn new(max_tokens: usize, eos: u32) -> (r: GenerationSession)
        ensures
            r.wf(),
            r.cache_len == 0,
            r.produced() == Seq::<Seq<u32>>::empty(),
            r.slot@.finished,
            r.max_tokens == max_tokens,
            r.eos == eos,
    {
        let r = GenerationSession {
            cache_len: 0,
            output: Vec::new(),
            slot: DecodeSlot::new(0),
            max_tokens,
            eos,
        };
        assert(r.produced() =~= Seq::<Seq<u32>>::empty());
        r
    }

    /// Starts the next chunk once the model has read its prompt of
    /// `prompt_len` positions into the cache, which keeps what earlier chunks
    /// left in it.
    pub fn start_chunk(&mut self, prompt_len: usize)
        requires
            old(self).wf(),
            old(self).slot@.finished,
            old(self).cache_len + prompt_len <= usize::MAX,
        ensures
            final(self).wf(),
            final(self).cache_len == old(self).cache_len + prompt_len,
            rows_view(final(self).output@) == old(self).produced(),
            final(self).slot@.tokens == Seq::<Seq<u32>>::empty(),
            final(self).slot@.max_tokens == old(self).max_tokens,
            final(self).slot@.finished == (old(self).max_tokens == 0),
            final(self).max_tokens == old(self).max_tokens,
            final(self).eos == old(self).eos,
    {
        let ghost before = self.produced();
        let ghost out0 = self.output@;
        let ghost cur = self.slot.tokens@;
        let fresh = DecodeSlot::new(self.max_tokens);
        self.output.append(&mut self.slot.tokens);
        assert(self.output@ == out0 + cur);
        assert(rows_view(self.output@) =~= before);
        self.slot = fresh;
        self.cache_len = self.cache_len + prompt_len;
    }

    /// Takes the token set sampled for the current chunk. A set that is kept is
    /// fed back to the model and takes one more cache position. Tells whether
    /// the chunk has ended.
    pub fn accept(&mut self, sample: Vec<u32>) -> (done: bool)
        requires
            old(self).wf(),
            old(self).cache_len < usize::MAX,
        ensures
            final(self).wf(),
            final(self).slot@ == slot_next(old(self).slot@, sample@, old(self).eos),
            final(self).output@ == old(self).output@,
            final(self).cache_len == old(self).cache_len + (final(self).slot@.tokens.len()
                - old(self).slot@.tokens.len()),
            done == final(self).slot@.finished,
            final(self).max_tokens == old(self).max_tokens,
            final(self).eos == old(self).eos,
    {
        let n = self.slot.tokens.len();
        let done = self.slot.accept(sample, self.eos);
        if self.slot.tokens.len() > n {
            self.cache_len = self.cache_len + 1;
        }
        done
    }

    /// Clears the cache and the output between unrelated requests.
    pub fn reset(&mut self)
        ensures
            final(self).wf(),
            final(self).cache_len == 0,
            final(self).produced() == Seq::<Seq<u32>>::empty(),
            final(self).slot@.finished,
            final(self).max_tokens == old(self).max_tokens,
            final(self).eos == old(self).eos,
    {
        *self = GenerationSession::new(self.max_tokens, self.eos);
    }

    /// Ends the request and hands out all it produced.
    pub fn finish(self) -> (r: Vec<Vec<u32>>)
        ensures
            rows_view(r@) == self.produced(),
    {
        let ghost p = self.produced();
        let mut out = self.output;
        let mut last = self.slot.tokens;
        let ghost o0 = out@;
        let ghost l0 = last@;
        out.append(&mut last);
        assert(out@ == o0 + l0);
        assert(rows_view(out@) =~= p);
        out
    }
}

} // verus!
