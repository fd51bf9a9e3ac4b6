use vstd::prelude::*;

verus! {

/// Bounds the callers that may use the shared model at once. Callers are
/// named by distinct ids; those over the capacity wait, first come first served.
pub struct AdmissionGate {
    pub capacity: usize,
    pub holders: Vec<u64>,
    pub waiting: Vec<u64>,
}

/// No id appears twice in the sequence.
pub open spec fn distinct(s: Seq<u64>) -> bool {
    forall|i: int, j: int| 0 <= i < s.len() && 0 <= j < s.len() && i != j ==> s[i] != s[j]
}

impl AdmissionGate {
    pub open spec fn wf(&self) -> bool {
        &&& self.capacity >= 1
        &&& self.holders@.len() <= self.capacity
        &&& self.waiting@.len() > 0 ==> self.holders@.len() == self.capacity
        &&& distinct(self.holders@)
        &&& distinct(self.waiting@)
        &&& forall|x: u64| #[trigger] self.holders@.contains(x) ==> !self.waiting@.contains(x)
    }

    pub open spec fn holds(&self, id: u64) -> bool {
        self.holders@.contains(id)
    }

    pub open spec fn waits(&self, id: u64) -> bool {
        self.waiting@.contains(id)
    }

    /// A gate of this capacity with nobody in it.
    pub fn new(capacity: usize) -> (r: AdmissionGate)
        requires
            capacity >= 1,
        ensures
            r.wf(),
            r.capacity == capacity,
            r.holders@ == Seq::<u64>::empty(),
            r.waiting@ == Seq::<u64>::empty(),
    {
        AdmissionGate { capacity, holders: Vec::new(), waiting: Vec::new() }
    }

    /// Asks for access: granted at once while a place is free, else the
    /// caller joins the end of the queue. Tells whether access was granted.
    pub fn acquire(&mut self, id: u64) -> (granted: bool)
        requires
            old(self).wf(),
            !old(self).holds(id),
            !old(self).waits(id),
        ensures
            final(self).wf(),
            final(self).capacity == old(self).capacity,
            granted == (old(self).holders@.len() < old(self).capacity),
            granted ==> final(self).holders@ == old(self).holders@.push(id) && final(self).waiting@
                == old(self).waiting@,
            !granted ==> final(self).holders@ == old(self).holders@ && final(self).waiting@
                == old(self).waiting@.push(id),
    {
        let ghost h = self.holders@;
        let ghost w = self.waiting@;
        if self.holders.len() < self.capacity {
            self.holders.push(id);
            assert forall|x: u64| #[trigger] self.holders@.contains(x) implies !self.waiting@.contains(
                x,
            ) by {
                let k = choose|k: int| 0 <= k < self.holders@.len() && self.holders@[k] == x;
                if k < h.len() {
                    assert(h[k] == x);
                    assert(h.contains(x));
                }
            }
            assert forall|i: int, j: int|
                0 <= i < self.holders@.len() && 0 <= j < self.holders@.len() && i != j implies self.holders@[i]
                != self.holders@[j] by {
                if i == h.len() {
                    assert(h[j] == self.holders@[j]);
                    assert(h.contains(h[j]));
                } else if j == h.len() {
                    assert(h[i] == self.holders@[i]);
                    assert(h.contains(h[i]));
                }
            }
            true
        } else {
            self.waiting.push(id);
            assert forall|x: u64| #[trigger] self.holders@.contains(x) implies !self.waiting@.contains(
                x,
            ) by {
                if self.waiting@.contains(x) {
                    let k = choose|k: int| 0 <= k < self.waiting@.len() && self.waiting@[k] == x;
                    if k < w.len() {
                        assert(w[k] == x);
                        assert(w.contains(x));
                    }
                }
            }
            assert forall|i: int, j: int|
                0 <= i < self.waiting@.len() && 0 <= j < self.waiting@.len() && i != j implies self.waiting@[i]
                != self.waiting@[j] by {
                if i == w.len() {
                    assert(w[j] == self.waiting@[j]);
                    assert(w.contains(w[j]));
                } else if j == w.len() {
                    assert(w[i] == self.waiting@[i]);
                    assert(w.contains(w[i]));
                }
            }
            false
        }
    }

    /// Gives access back. The first caller in the queue, if any, takes the
    /// place and is returned.
    pub fn release(&mut self, id: u64) -> (next: Option<u64>)
        requires
            old(self).wf(),
            old(self).holds(id),
        ensures
            final(self).wf(),
            final(self).capacity == old(self).capacity,
            old(self).waiting@.len() == 0 ==> next is None && final(self).waiting@
                == old(self).waiting@ && final(self).holders@.len() == old(self).holders@.len() - 1,
            old(self).waiting@.len() > 0 ==> next == Some(old(self).waiting@[0])
                && final(self).waiting@ == old(self).waiting@.drop_first()
                && final(self).holders@.len() == old(self).holders@.len(),
            forall|x: u64|
                #[trigger] final(self).holds(x) <==> (old(self).holds(x) && x != id) || next
                    == Some(x),
    {
        let ghost h = self.holders@;
        let ghost w = self.waiting@;
        let mut i: usize = 0;
        while self.holders[i] != id
            invariant
                self.holders@ == h,
                h.len() <= usize::MAX,
                h.contains(id),
                i < h.len(),
                forall|k: int| 0 <= k < i ==> h[k] != id,
            decreases h.len() - i,
        {
            i += 1;
            proof {
                let k = choose|k: int| 0 <= k < h.len() && h[k] == id;
                assert(k >= i);
            }
        }
        self.holders.remove(i);
        let ghost h1 = self.holders@;
        assert(h1 == h.remove(i as int));
        assert forall|x: u64| h1.contains(x) <==> h.contains(x) && x != id by {
            if h1.contains(x) {
                let k = choose|k: int| 0 <= k < h1.len() && h1[k] == x;
                if k < i {
                    assert(h[k] == x);
                } else {
                    assert(h[k + 1] == x);
                }
                assert(h.contains(x));
            }
            if h.contains(x) && x != id {
                let k = choose|k: int| 0 <= k < h.len() && h[k] == x;
                if k < i {
                    assert(h1[k] == x);
                } else {
                    assert(k != i);
                    assert(h1[k - 1] == x);
                }
            }
        }
        assert(distinct(h1)) by {
            assert forall|a: int, b: int|
                0 <= a < h1.len() && 0 <= b < h1.len() && a != b implies h1[a] != h1[b] by {
                let a0 = if a < i { a } else { a + 1 };
                let b0 = if b < i { b } else { b + 1 };
                assert(h1[a] == h[a0] && h1[b] == h[b0]);
            }
        }
        if self.waiting.len() > 0 {
            let n = self.waiting.remove(0);
            assert(self.waiting@ == w.drop_first());
            self.holders.push(n);
            assert(!h.contains(n)) by {
                assert(w.contains(n));
            }
            assert forall|x: u64| self.holders@.contains(x) <==> h1.contains(x) || x == n by {
                if self.holders@.contains(x) {
                    let k = choose|k: int| 0 <= k < self.holders@.len() && self.holders@[k] == x;
                    if k < h1.len() {
                        assert(h1[k] == x);
                    }
                }
                if h1.contains(x) {
                    let k = choose|k: int| 0 <= k < h1.len() && h1[k] == x;
                    assert(self.holders@[k] == x);
                }
                if x == n {
                    assert(self.holders@[h1.len() as int] == x);
                }
            }
            assert forall|a: int, b: int|
                0 <= a < self.holders@.len() && 0 <= b < self.holders@.len() && a != b implies self.holders@[a]
                != self.holders@[b] by {
                if a == h1.len() {
                    assert(h1.contains(self.holders@[b]));
                } else if b == h1.len() {
                    assert(h1.contains(self.holders@[a]));
                }
            }
            assert forall|x: u64| #[trigger] self.holders@.contains(x) implies !self.waiting@.contains(
                x,
            ) by {
                if self.waiting@.contains(x) {
                    let k = choose|k: int| 0 <= k < self.waiting@.len() && self.waiting@[k] == x;
                    assert(w[k + 1] == x);
                    assert(w.contains(x));
                    if x == n {
                        assert(w[0] == x);
                    } else {
                        assert(h1.contains(x));
                        assert(h.contains(x));
                    }
                }
            }
            Some(n)
        } else {
            None
        }
    }
}

/// A gate of capacity 1 has a single holder at most: any two holders are one caller.
pub proof fn lemma_single_holder(g: AdmissionGate, a: u64, b: u64)
    requires
        g.wf(),
        g.capacity == 1,
        g.holds(a),
        g.holds(b),
    ensures
        a == b,
{
    let i = choose|i: int| 0 <= i < g.holders@.len() && g.holders@[i] == a;
    let j = choose|j: int| 0 <= j < g.holders@.len() && g.holders@[j] == b;
    assert(i == 0 && j == 0);
}

} // verus!
