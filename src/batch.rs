use vstd::prelude::*;
use crate::prompt::{TokenGrid, concat_grid, concat_grids, grid_len, zero_row, zeros};
use crate::slot::{DecodeSlot, SlotView, lemma_finished_prefix, slot_next, slot_run, slot_wf};

verus! {

/// A fixed set of requests decoded together, one slot each. No slot joins or
/// leaves once decoding starts; a finished slot stays, unchanged, until all
/// have finished.
pub struct StaticBatch {
    pub slots: Vec<DecodeSlot>,
    pub eos: u32,
}

pub open spec fn slot_views(v: Seq<DecodeSlot>) -> Seq<SlotView> {
    Seq::new(v.len(), |i: int| v[i]@)
}

/// Every slot after one batched step, each taking its own sample.
pub open spec fn batch_next(s: Seq<SlotView>, samples: Seq<Seq<u32>>, eos: u32) -> Seq<SlotView> {
    Seq::new(s.len(), |i: int| slot_next(s[i], samples[i], eos))
}

/// The slots after a run of batched steps.
pub open spec fn batch_run(s: Seq<SlotView>, steps: Seq<Seq<Seq<u32>>>, eos: u32) -> Seq<SlotView>
    decreases steps.len(),
{
    if steps.len() == 0 {
        s
    } else {
        batch_run(batch_next(s, steps[0], eos), steps.drop_first(), eos)
    }
}

/// The samples that slot `i` took over a run of steps.
pub open spec fn column(steps: Seq<Seq<Seq<u32>>>, i: int) -> Seq<Seq<u32>> {
    Seq::new(steps.len(), |t: int| steps[t][i])
}

pub open spec fn all_finished(s: Seq<SlotView>) -> bool {
    forall|i: int| 0 <= i < s.len() ==> (#[trigger] s[i]).finished
}

/// Each slot of a batch ends as it would have ended decoding alone on its own
/// samples: what it produces, and when it stops, owe nothing to the other slots.
pub proof fn lemma_slots_independent(s: Seq<SlotView>, steps: Seq<Seq<Seq<u32>>>, eos: u32, i: int)
    requires
        0 <= i < s.len(),
        forall|t: int| 0 <= t < steps.len() ==> (#[trigger] steps[t]).len() == s.len(),
    ensures
        batch_run(s, steps, eos).len() == s.len(),
        batch_run(s, steps, eos)[i] == slot_run(s[i], column(steps, i), eos),
    decreases steps.len(),
{
    if steps.len() > 0 {
        let rest = steps.drop_first();
        assert forall|t: int| 0 <= t < rest.len() implies (#[trigger] rest[t]).len() == s.len() by {
            assert(rest[t] == steps[t + 1]);
        }
        lemma_slots_independent(batch_next(s, steps[0], eos), rest, eos, i);
        assert(column(rest, i) =~= column(steps, i).drop_first());
    }
}

impl StaticBatch {
    pub open spec fn wf(&self) -> bool {
        forall|i: int| 0 <= i < self.slots@.len() ==> slot_wf(#[trigger] self.slots@[i]@)
    }

    /// One empty slot for each request, with that request's bound.
    pub fn new(max_tokens: &Vec<usize>, eos: u32) -> (r: StaticBatch)
        ensures
            r.wf(),
            r.eos == eos,
            r.slots@.len() == max_tokens@.len(),
            forall|i: int|
                0 <= i < max_tokens@.len() ==> (#[trigger] r.slots@[i])@.tokens == Seq::<
                    Seq<u32>,
                >::empty() && r.slots@[i]@.max_tokens == max_tokens@[i] && r.slots@[i]@.finished
                    == (max_tokens@[i] == 0),
    {
        let mut slots: Vec<DecodeSlot> = Vec::new();
        let mut i: usize = 0;
        while i < max_tokens.len()
            invariant
                i <= max_tokens@.len(),
                slots@.len() == i,
                forall|k: int|
                    0 <= k < i ==> (#[trigger] slots@[k])@.tokens == Seq::<Seq<u32>>::empty()
                        && slots@[k]@.max_tokens == max_tokens@[k] && slots@[k]@.finished == (
                    max_tokens@[k] == 0) && slot_wf(slots@[k]@),
            decreases max_tokens.len() - i,
        {
            slots.push(DecodeSlot::new(max_tokens[i]));
            i += 1;
        }
        StaticBatch { slots, eos }
    }

    /// One batched step: slot `i` takes `samples[i]`. Tells whether every slot
    /// has finished.
    pub fn step(&mut self, samples: Vec<Vec<u32>>) -> (done: bool)
        requires
            old(self).wf(),
            samples@.len() == old(self).slots@.len(),
        ensures
            final(self).wf(),
            final(self).eos == old(self).eos,
            slot_views(final(self).slots@) == batch_next(
                slot_views(old(self).slots@),
                Seq::new(samples@.len(), |i: int| samples@[i]@),
                old(self).eos,
            ),
            done == all_finished(slot_views(final(self).slots@)),
    {
        let ghost orig = self.slots@;
        let ghost sv = Seq::new(samples@.len(), |i: int| samples@[i]@);
        let k = self.slots.len();
        let mut samples = samples;
        let mut next: Vec<DecodeSlot> = Vec::new();
        let mut done = true;
        let mut i: usize = 0;
        while i < k
            invariant
                k == orig.len(),
                i <= k,
                sv.len() == k,
                self.eos == old(self).eos,
                self.slots@ == orig.subrange(i as int, k as int),
                samples@.len() == k - i,
                forall|j: int| 0 <= j < k - i ==> (#[trigger] samples@[j])@ == sv[j + i],
                next@.len() == i,
                forall|j: int| 0 <= j < k ==> slot_wf(#[trigger] orig[j]@),
                forall|j: int|
                    0 <= j < i ==> (#[trigger] next@[j])@ == slot_next(orig[j]@, sv[j], self.eos)
                        && slot_wf(next@[j]@),
                done == forall|j: int| 0 <= j < i ==> (#[trigger] next@[j])@.finished,
            decreases k - i,
        {
            let mut slot = self.slots.remove(0);
            let sample = samples.remove(0);
            assert(slot == orig[i as int]);
            let fin = slot.accept(sample, self.eos);
            let ghost prev = next@;
            done = done && fin;
            next.push(slot);
            assert(next@[i as int]@.finished == fin);
            assert forall|j: int| 0 <= j < i implies next@[j] == prev[j] by {}
            assert(self.slots@ =~= orig.subrange(i + 1, k as int));
            i += 1;
        }
        self.slots = next;
        assert(slot_views(self.slots@) =~= batch_next(slot_views(orig), sv, self.eos));
        assert(done == all_finished(slot_views(self.slots@))) by {
            let sw = slot_views(self.slots@);
            if done {
                assert forall|j: int| 0 <= j < sw.len() implies (#[trigger] sw[j]).finished by {
                    assert(sw[j] == self.slots@[j]@);
                    assert(self.slots@[j]@.finished);
                }
            } else {
                let j = choose|j: int| 0 <= j < k && !(#[trigger] self.slots@[j])@.finished;
                assert(sw[j] == self.slots@[j]@);
            }
        }
        done
    }

    /// The token sets of every slot, in the order of the requests.
    pub fn outputs(self) -> (r: Vec<Vec<Vec<u32>>>)
        ensures
            r@.len() == self.slots@.len(),
            forall|i: int|
                0 <= i < r@.len() ==> Seq::new((#[trigger] r@[i])@.len(), |t: int| r@[i]@[t]@)
                    == self.slots@[i]@.tokens,
    {
        let ghost orig = self.slots@;
        let mut slots = self.slots;
        let k = slots.len();
        let mut r: Vec<Vec<Vec<u32>>> = Vec::new();
        let mut i: usize = 0;
        while i < k
            invariant
                k == orig.len(),
                i <= k,
                slots@ == orig.subrange(i as int, k as int),
                r@.len() == i,
                forall|j: int|
                    0 <= j < i ==> Seq::new((#[trigger] r@[j])@.len(), |t: int| r@[j]@[t]@)
                        == orig[j]@.tokens,
            decreases k - i,
        {
            let slot = slots.remove(0);
            assert(slot == orig[i as int]);
            let toks = slot.tokens;
            r.push(toks);
            assert(slots@ =~= orig.subrange(i + 1, k as int));
            assert(Seq::new(r@[i as int]@.len(), |t: int| r@[i as int]@[t]@) =~= orig[i as int]@.tokens);
            i += 1;
        }
        r
    }
}

/// The longest prompt of the batch, in steps.
pub open spec fn is_batch_len(ps: Seq<Seq<Seq<u32>>>, m: nat) -> bool {
    &&& forall|i: int| 0 <= i < ps.len() ==> grid_len(#[trigger] ps[i]) <= m
    &&& (ps.len() == 0 ==> m == 0)
    &&& (ps.len() > 0 ==> exists|i: int| 0 <= i < ps.len() && grid_len(#[trigger] ps[i]) == m)
}

/// A prompt of `len` steps padded in front to `m` steps.
pub open spec fn padded(p: Seq<Seq<u32>>, m: nat) -> Seq<Seq<u32>> {
    concat_grid(Seq::new(p.len(), |k: int| zeros((m - grid_len(p)) as nat)), p)
}

/// Which of the `m` positions of a padded prompt are real.
pub open spec fn pad_mask(p: Seq<Seq<u32>>, m: nat) -> Seq<bool> {
    Seq::new(m, |j: int| j >= m - grid_len(p))
}

/// Pads every prompt in front to the longest one, with a mask that tells the
/// real positions from the padding.
pub fn pad_prompts(prompts: &Vec<TokenGrid>) -> (r: (usize, Vec<TokenGrid>, Vec<Vec<bool>>))
    ensures
        is_batch_len(Seq::new(prompts@.len(), |i: int| prompts@[i]@), r.0 as nat),
        r.1@.len() == prompts@.len(),
        r.2@.len() == prompts@.len(),
        forall|i: int|
            0 <= i < prompts@.len() ==> (#[trigger] r.1@[i])@ == padded(prompts@[i]@, r.0 as nat),
        forall|i: int|
            0 <= i < prompts@.len() ==> (#[trigger] r.2@[i])@ == pad_mask(prompts@[i]@, r.0 as nat),
{
    let ghost pv = Seq::new(prompts@.len(), |i: int| prompts@[i]@);
    let mut m: usize = 0;
    let mut i: usize = 0;
    while i < prompts.len()
        invariant
            i <= prompts@.len(),
            pv == Seq::new(prompts@.len(), |i: int| prompts@[i]@),
            forall|k: int| 0 <= k < i ==> grid_len(#[trigger] pv[k]) <= m,
            i == 0 ==> m == 0,
            i > 0 ==> exists|k: int| 0 <= k < i && grid_len(#[trigger] pv[k]) == m,
        decreases prompts.len() - i,
    {
        let l = prompts[i].len();
        if l > m {
            m = l;
        }
        assert(grid_len(pv[i as int]) == l);
        i += 1;
    }
    let mut grids: Vec<TokenGrid> = Vec::new();
    let mut masks: Vec<Vec<bool>> = Vec::new();
    let mut j: usize = 0;
    while j < prompts.len()
        invariant
            j <= prompts@.len(),
            pv == Seq::new(prompts@.len(), |i: int| prompts@[i]@),
            forall|k: int| 0 <= k < prompts@.len() ==> grid_len(#[trigger] pv[k]) <= m,
            grids@.len() == j,
            masks@.len() == j,
            forall|k: int| 0 <= k < j ==> (#[trigger] grids@[k])@ == padded(prompts@[k]@, m as nat),
            forall|k: int| 0 <= k < j ==> (#[trigger] masks@[k])@ == pad_mask(prompts@[k]@, m as nat),
        decreases prompts.len() - j,
    {
        let p = &prompts[j];
        let l = p.len();
        assert(grid_len(pv[j as int]) == l);
        let (g, mask) = pad_one(p, m);
        assert(p@ == prompts@[j as int]@);
        let ghost g0 = grids@;
        let ghost m0 = masks@;
        grids.push(g);
        masks.push(mask);
        assert forall|q: int| 0 <= q < j implies grids@[q] == g0[q] && masks@[q] == m0[q] by {}
        j += 1;
    }
    (m, grids, masks)
}

/// One prompt padded in front to `m` steps, and its mask.
fn pad_one(p: &TokenGrid, m: usize) -> (r: (TokenGrid, Vec<bool>))
    requires
        grid_len(p@) <= m,
    ensures
        r.0@ == padded(p@, m as nat),
        r.1@ == pad_mask(p@, m as nat),
{
    let l = p.len();
    let gap = m - l;
    let mut pad_rows: Vec<Vec<u32>> = Vec::new();
    let mut k: usize = 0;
    while k < p.rows.len()
        invariant
            k <= p.rows@.len(),
            pad_rows@.len() == k,
            forall|q: int| 0 <= q < k ==> (#[trigger] pad_rows@[q])@ == zeros(gap as nat),
        decreases p.rows.len() - k,
    {
        pad_rows.push(zero_row(gap));
        k += 1;
    }
    let pad = TokenGrid { rows: pad_rows };
    assert(pad@ =~= Seq::new(p@.len(), |q: int| zeros(gap as nat)));
    let g = concat_grids(&pad, p);
    let mut mask: Vec<bool> = Vec::new();
    let mut t: usize = 0;
    while t < m
        invariant
            t <= m,
            gap == m - l,
            mask@ == Seq::new(t as nat, |q: int| q >= m - l),
        decreases m - t,
    {
        mask.push(t >= gap);
        t += 1;
        assert(mask@ =~= Seq::new(t as nat, |q: int| q >= m - l));
    }
    (g, mask)
}

/// A slot's outcome owes nothing to its siblings, also when they keep the
/// batch running longer: a slot that starts alike and takes the same samples
/// until it finishes ends alike in two batches, whatever the other slots hold
/// and however many steps each batch runs.
pub proof fn lemma_outcome_ignores_siblings(
    s1: Seq<SlotView>,
    steps1: Seq<Seq<Seq<u32>>>,
    i: int,
    s2: Seq<SlotView>,
    steps2: Seq<Seq<Seq<u32>>>,
    j: int,
    eos: u32,
)
    requires
        0 <= i < s1.len(),
        0 <= j < s2.len(),
        forall|t: int| 0 <= t < steps1.len() ==> (#[trigger] steps1[t]).len() == s1.len(),
        forall|t: int| 0 <= t < steps2.len() ==> (#[trigger] steps2[t]).len() == s2.len(),
        s1[i] == s2[j],
        steps1.len() <= steps2.len(),
        column(steps1, i) == column(steps2, j).subrange(0, steps1.len() as int),
        batch_run(s1, steps1, eos)[i].finished,
    ensures
        batch_run(s1, steps1, eos)[i] == batch_run(s2, steps2, eos)[j],
{
    lemma_slots_independent(s1, steps1, eos, i);
    lemma_slots_independent(s2, steps2, eos, j);
    let c1 = column(steps1, i);
    let c2 = column(steps2, j);
    let more = c2.subrange(steps1.len() as int, c2.len() as int);
    assert(c1 + more =~= c2);
    lemma_finished_prefix(s1[i], c1, more, eos);
}

} // verus!
