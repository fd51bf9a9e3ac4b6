use vstd::prelude::*;

verus! {

/// The decode state of one sequence: the token sets generated so far (one
/// token per stream each), its bound, and whether it has ended.
pub struct DecodeSlot {
    pub tokens: Vec<Vec<u32>>,
    pub max_tokens: usize,
    pub finished: bool,
}

/// The plain value of a slot.
pub struct SlotView {
    pub tokens: Seq<Seq<u32>>,
    pub max_tokens: nat,
    pub finished: bool,
}

impl View for DecodeSlot {
    type V = SlotView;

    open spec fn view(&self) -> SlotView {
        SlotView {
            tokens: Seq::new(self.tokens@.len(), |i: int| self.tokens@[i]@),
            max_tokens: self.max_tokens as nat,
            finished: self.finished,
        }
    }
}

/// A sampled token set ends the sequence when its first token is the end token.
pub open spec fn is_end(sample: Seq<u32>, eos: u32) -> bool {
    sample.len() > 0 && sample[0] == eos
}

/// A slot after one sampled token set: a finished slot stays as it is; the end
/// token finishes it without being kept; any other set is kept, and the slot
/// finishes when it reaches its bound.
pub open spec fn slot_next(s: SlotView, sample: Seq<u32>, eos: u32) -> SlotView {
    if s.finished {
        s
    } else if is_end(sample, eos) {
        SlotView { finished: true, ..s }
    } else {
        SlotView {
            tokens: s.tokens.push(sample),
            finished: s.tokens.len() + 1 >= s.max_tokens,
            ..s
        }
    }
}

/// A slot never holds more than its bound, and one below its bound is still open.
pub open spec fn slot_wf(s: SlotView) -> bool {
    &&& s.tokens.len() <= s.max_tokens
    &&& !s.finished ==> s.tokens.len() < s.max_tokens
}

/// What a slot produces from a run of samples: the sets before the first end
/// token, at most `max` of them.
pub open spec fn decoded(samples: Seq<Seq<u32>>, eos: u32, max: nat) -> Seq<Seq<u32>>
    decreases samples.len(),
{
    if samples.len() == 0 || max == 0 || is_end(samples[0], eos) {
        Seq::empty()
    } else {
        seq![samples[0]] + decoded(samples.drop_first(), eos, (max - 1) as nat)
    }
}

/// A slot fed a run of samples, one after the other.
pub open spec fn slot_run(s: SlotView, samples: Seq<Seq<u32>>, eos: u32) -> SlotView
    decreases samples.len(),
{
    if samples.len() == 0 {
        s
    } else {
        slot_run(slot_next(s, samples[0], eos), samples.drop_first(), eos)
    }
}

impl DecodeSlot {
    /// A slot with nothing generated; one with a bound of zero is finished at once.
    pub fn new(max_tokens: usize) -> (r: DecodeSlot)
        ensures
            r@.tokens == Seq::<Seq<u32>>::empty(),
            r@.max_tokens == max_tokens,
            r@.finished == (max_tokens == 0),
            slot_wf(r@),
    {
        let r = DecodeSlot { tokens: Vec::new(), max_tokens, finished: max_tokens == 0 };
        assert(r@.tokens =~= Seq::<Seq<u32>>::empty());
        r
    }

    /// Takes one sampled token set; tells whether the slot is finished after it.
    pub fn accept(&mut self, sample: Vec<u32>, eos: u32) -> (done: bool)
        requires
            slot_wf(old(self)@),
        ensures
            final(self)@ == slot_next(old(self)@, sample@, eos),
            slot_wf(final(self)@),
            done == final(self)@.finished,
    {
        if self.finished {
            return true;
        }
        if sample.len() > 0 && sample[0] == eos {
            self.finished = true;
            return true;
        }
        let ghost before = self@;
        self.tokens.push(sample);
        assert(self@.tokens =~= before.tokens.push(sample@));
        self.finished = self.tokens.len() >= self.max_tokens;
        self.finished
    }
}

/// Fed a run of samples, a fresh slot holds what `decoded` takes from them:
/// never more than its bound, nothing after the end token, and at least one set
/// when the first sample is no end token and the bound is positive.
pub proof fn lemma_slot_decodes(samples: Seq<Seq<u32>>, eos: u32, max: nat)
    ensures
        slot_run(SlotView { tokens: Seq::empty(), max_tokens: max, finished: max == 0 }, samples, eos).tokens
            == decoded(samples, eos, max),
        decoded(samples, eos, max).len() <= max,
        samples.len() > 0 && max > 0 && !is_end(samples[0], eos) ==> decoded(
            samples,
            eos,
            max,
        ).len() > 0,
{
    lemma_run_from(Seq::empty(), max, samples, eos);
    lemma_decoded_bound(samples, eos, max);
}

proof fn lemma_decoded_bound(samples: Seq<Seq<u32>>, eos: u32, max: nat)
    ensures
        decoded(samples, eos, max).len() <= max,
    decreases samples.len(),
{
    if !(samples.len() == 0 || max == 0 || is_end(samples[0], eos)) {
        lemma_decoded_bound(samples.drop_first(), eos, (max - 1) as nat);
    }
}

/// A finished slot ignores every later sample.
pub proof fn lemma_finished_run(s: SlotView, samples: Seq<Seq<u32>>, eos: u32)
    requires
        s.finished,
    ensures
        slot_run(s, samples, eos) == s,
    decreases samples.len(),
{
    if samples.len() > 0 {
        lemma_finished_run(s, samples.drop_first(), eos);
    }
}

/// Feeding two runs of samples one after the other is feeding the first, then
/// the second.
pub proof fn lemma_run_append(s: SlotView, a: Seq<Seq<u32>>, b: Seq<Seq<u32>>, eos: u32)
    ensures
        slot_run(s, a + b, eos) == slot_run(slot_run(s, a, eos), b, eos),
    decreases a.len(),
{
    if a.len() > 0 {
        assert((a + b).drop_first() =~= a.drop_first() + b);
        assert((a + b)[0] == a[0]);
        lemma_run_append(slot_next(s, a[0], eos), a.drop_first(), b, eos);
    } else {
        assert(a + b =~= b);
    }
}

/// A slot that has finished on a run of samples ends the same whatever
/// samples follow.
pub proof fn lemma_finished_prefix(s: SlotView, a: Seq<Seq<u32>>, more: Seq<Seq<u32>>, eos: u32)
    requires
        slot_run(s, a, eos).finished,
    ensures
        slot_run(s, a + more, eos) == slot_run(s, a, eos),
{
    lemma_run_append(s, a, more, eos);
    lemma_finished_run(slot_run(s, a, eos), more, eos);
}

/// An open slot holding `done`, with `left` sets still allowed, ends holding
/// `done` followed by what `decoded` takes from the samples.
proof fn lemma_run_from(done: Seq<Seq<u32>>, left: nat, samples: Seq<Seq<u32>>, eos: u32)
    ensures
        slot_run(
            SlotView { tokens: done, max_tokens: done.len() + left, finished: left == 0 },
            samples,
            eos,
        ).tokens == done + decoded(samples, eos, left),
    decreases samples.len(),
{
    let s = SlotView { tokens: done, max_tokens: done.len() + left, finished: left == 0 };
    if samples.len() == 0 {
        assert(done + Seq::<Seq<u32>>::empty() =~= done);
    } else if left == 0 {
        lemma_finished_run(s, samples, eos);
        assert(done + Seq::<Seq<u32>>::empty() =~= done);
    } else if is_end(samples[0], eos) {
        let t = slot_next(s, samples[0], eos);
        lemma_finished_run(t, samples.drop_first(), eos);
        assert(done + Seq::<Seq<u32>>::empty() =~= done);
    } else {
        let d2 = done.push(samples[0]);
        lemma_run_from(d2, (left - 1) as nat, samples.drop_first(), eos);
        let t = slot_next(s, samples[0], eos);
        assert(t == SlotView {
            tokens: d2,
            max_tokens: d2.len() + (left - 1) as nat,
            finished: (left - 1) as nat == 0,
        });
        assert(d2 + decoded(samples.drop_first(), eos, (left - 1) as nat) =~= done + decoded(
            samples,
            eos,
            left,
        ));
    }
}

} // verus!
