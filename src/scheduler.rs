//! The bank of ready queues: one FIFO of thread ids per (core, domain, priority), and an
//! occupancy bitmap with one bit per queue so that the highest occupied priority is found
//! without walking the queues.
use vstd::prelude::*;
use crate::lock::CONFIG_MAX_NUM_NODES;

verus! {

pub const CONFIG_NUM_DOMAINS: usize = 2;

pub const CONFIG_NUM_PRIORITIES: usize = 256;

/// Number of ready queues over all cores, domains and priorities.
pub const NUM_READY_QUEUES: usize = 2048;

/// Bits in one bitmap word.
pub const WORD_BITS: usize = 64;

/// Number of bitmap words.
pub const NUM_BITMAP_WORDS: usize = 32;

/// Whether bit `b` of word `w` is set.
pub open spec fn word_bit(w: u64, b: int) -> bool {
    (w >> (b as u64)) & 1u64 == 1u64
}

/// Where the queue of a (core, domain, priority) stands in the bank.
pub open spec fn queue_slot(core: int, dom: int, prio: int) -> int {
    (core * CONFIG_NUM_DOMAINS + dom) * CONFIG_NUM_PRIORITIES + prio
}

pub open spec fn valid_sched_params(core: int, dom: int, prio: int) -> bool {
    0 <= core < CONFIG_MAX_NUM_NODES && 0 <= dom < CONFIG_NUM_DOMAINS && 0 <= prio
        < CONFIG_NUM_PRIORITIES
}

pub proof fn lemma_queue_slot_bounds(core: int, dom: int, prio: int)
    requires
        valid_sched_params(core, dom, prio),
    ensures
        0 <= queue_slot(core, dom, prio) < NUM_READY_QUEUES,
        queue_slot(core, dom, prio) / (CONFIG_NUM_PRIORITIES as int) == core * CONFIG_NUM_DOMAINS
            + dom,
        queue_slot(core, dom, prio) % (CONFIG_NUM_PRIORITIES as int) == prio,
{
    assert(0 <= core * CONFIG_NUM_DOMAINS + dom < 8) by (nonlinear_arith)
        requires
            0 <= core < 4,
            0 <= dom < 2,
    ;
    let g = core * CONFIG_NUM_DOMAINS + dom;
    assert(0 <= g * 256 + prio < 2048) by (nonlinear_arith)
        requires
            0 <= g < 8,
            0 <= prio < 256,
    ;
}

/// Different (core, domain, priority) triples name different queues.
pub proof fn lemma_queue_slot_injective(ca: int, da: int, pa: int, cb: int, db: int, pb: int)
    requires
        valid_sched_params(ca, da, pa),
        valid_sched_params(cb, db, pb),
        queue_slot(ca, da, pa) == queue_slot(cb, db, pb),
    ensures
        ca == cb && da == db && pa == pb,
{
    lemma_queue_slot_bounds(ca, da, pa);
    lemma_queue_slot_bounds(cb, db, pb);
}

proof fn lemma_set_bit(w: u64, b: u64, j: u64)
    requires
        b < 64,
        j < 64,
    ensures
        ((w | (1u64 << b)) >> j) & 1u64 == 1u64 <==> (j == b || (w >> j) & 1u64 == 1u64),
{
    assert(((w | (1u64 << b)) >> j) & 1u64 == 1u64 <==> (j == b || (w >> j) & 1u64 == 1u64))
        by (bit_vector)
        requires
            b < 64,
            j < 64,
    ;
}

proof fn lemma_clear_bit(w: u64, b: u64, j: u64)
    requires
        b < 64,
        j < 64,
    ensures
        ((w & !(1u64 << b)) >> j) & 1u64 == 1u64 <==> (j != b && (w >> j) & 1u64 == 1u64),
{
    assert(((w & !(1u64 << b)) >> j) & 1u64 == 1u64 <==> (j != b && (w >> j) & 1u64 == 1u64))
        by (bit_vector)
        requires
            b < 64,
            j < 64,
    ;
}

/// `ready_queues_index(dom, prio)`: the queue of a (domain, priority) within one core's bank.
pub fn ready_queues_index(dom: usize, prio: usize) -> (r: usize)
    requires
        dom < CONFIG_NUM_DOMAINS,
        prio < CONFIG_NUM_PRIORITIES,
    ensures
        r == dom * CONFIG_NUM_PRIORITIES + prio,
{
    dom * CONFIG_NUM_PRIORITIES + prio
}

/// The queue of a (core, domain, priority) in the whole bank.
pub fn queue_index(core: usize, dom: usize, prio: usize) -> (r: usize)
    requires
        valid_sched_params(core as int, dom as int, prio as int),
    ensures
        r == queue_slot(core as int, dom as int, prio as int),
        r < NUM_READY_QUEUES,
{
    proof {
        lemma_queue_slot_bounds(core as int, dom as int, prio as int);
        assert(core * 512 <= 1536 && core * 512 + dom * 256 + prio == queue_slot(
            core as int,
            dom as int,
            prio as int,
        )) by (nonlinear_arith)
            requires
                core < 4,
                dom < 2,
        ;
    }
    core * (CONFIG_NUM_DOMAINS * CONFIG_NUM_PRIORITIES) + ready_queues_index(dom, prio)
}

pub struct ReadyQueues {
    queues: Vec<Vec<usize>>,
    bitmap: Vec<u64>,
}

impl ReadyQueues {
    /// The contents of every ready queue, head first.
    pub closed spec fn view(&self) -> Seq<Seq<usize>> {
        Seq::new(self.queues@.len(), |i: int| self.queues@[i]@)
    }

    /// Whether the bitmap marks queue `i` as occupied.
    pub closed spec fn occupied(&self, i: int) -> bool {
        word_bit(self.bitmap@[i / (WORD_BITS as int)], i % (WORD_BITS as int))
    }

    pub closed spec fn wf(&self) -> bool {
        &&& self.queues@.len() == NUM_READY_QUEUES
        &&& self.bitmap@.len() == NUM_BITMAP_WORDS
        &&& forall|i: int|
            0 <= i < NUM_READY_QUEUES ==> (#[trigger] self.occupied(i) <==> self.queues@[i]@.len()
                > 0)
    }

    /// The bitmap agrees with the queues: bit `i` is set exactly when queue `i` holds a
    /// thread, in every well-formed bank.
    pub proof fn lemma_bitmap_consistent(&self, i: int)
        requires
            self.wf(),
            0 <= i < NUM_READY_QUEUES,
        ensures
            self.occupied(i) <==> self@[i].len() > 0,
    {
    }

    pub proof fn lemma_len(&self)
        requires
            self.wf(),
        ensures
            self@.len() == NUM_READY_QUEUES,
    {
    }

    pub fn new() -> (r: Self)
        ensures
            r.wf(),
            forall|i: int| 0 <= i < NUM_READY_QUEUES ==> (#[trigger] r@[i]).len() == 0,
            r@.len() == NUM_READY_QUEUES,
    {
        let mut queues: Vec<Vec<usize>> = Vec::new();
        let mut i: usize = 0;
        while i < NUM_READY_QUEUES
            invariant
                i <= NUM_READY_QUEUES,
                queues@.len() == i,
                forall|k: int| 0 <= k < i ==> (#[trigger] queues@[k])@.len() == 0,
            decreases NUM_READY_QUEUES - i,
        {
            queues.push(Vec::new());
            i = i + 1;
        }
        let mut bitmap: Vec<u64> = Vec::new();
        let mut j: usize = 0;
        while j < NUM_BITMAP_WORDS
            invariant
                j <= NUM_BITMAP_WORDS,
                bitmap@.len() == j,
                forall|k: int| 0 <= k < j ==> #[trigger] bitmap@[k] == 0u64,
            decreases NUM_BITMAP_WORDS - j,
        {
            bitmap.push(0u64);
            j = j + 1;
        }
        let r = ReadyQueues { queues, bitmap };
        proof {
            assert forall|i: int| 0 <= i < NUM_READY_QUEUES implies (#[trigger] r.occupied(i)
                <==> r.queues@[i]@.len() > 0) by {
                let b = (i % 64) as u64;
                assert((0u64 >> b) & 1u64 == 0u64) by (bit_vector);
            }
        }
        r
    }

    proof fn lemma_view_update(&self, other: &Self, i: int, s: Seq<usize>)
        requires
            other.queues@.len() == self.queues@.len(),
            0 <= i < self.queues@.len(),
            other.queues@[i]@ == s,
            forall|k: int| 0 <= k < self.queues@.len() && k != i ==> other.queues@[k] == self.queues@[k],
        ensures
            other@ == self@.update(i, s),
    {
        assert(other@ =~= self@.update(i, s));
    }

    /// Sets or clears the occupancy bit of queue `i` so that it matches the queue.
    fn sync_bit(&mut self, i: usize)
        requires
            old(self).queues@.len() == NUM_READY_QUEUES,
            old(self).bitmap@.len() == NUM_BITMAP_WORDS,
            i < NUM_READY_QUEUES,
            forall|k: int|
                0 <= k < NUM_READY_QUEUES && k != i ==> (#[trigger] old(self).occupied(k)
                    <==> old(self).queues@[k]@.len() > 0),
        ensures
            final(self).wf(),
            final(self).queues == old(self).queues,
    {
        let w = i / WORD_BITS;
        let b = (i % WORD_BITS) as u64;
        let old_word = self.bitmap[w];
        let nonempty = self.queues[i].len() > 0;
        let new_word = if nonempty {
            old_word | (1u64 << b)
        } else {
            old_word & !(1u64 << b)
        };
        self.bitmap.set(w, new_word);
        proof {
            assert forall|k: int| 0 <= k < NUM_READY_QUEUES implies (#[trigger] self.occupied(k)
                <==> self.queues@[k]@.len() > 0) by {
                let kw = k / 64;
                let kb = (k % 64) as u64;
                if kw == w as int {
                    if nonempty {
                        lemma_set_bit(old_word, b, kb);
                    } else {
                        lemma_clear_bit(old_word, b, kb);
                    }
                    if k != i as int {
                        assert(kb != b);
                        assert(old(self).occupied(k) <==> old(self).queues@[k]@.len() > 0);
                    }
                } else {
                    assert(old(self).occupied(k) <==> old(self).queues@[k]@.len() > 0);
                }
            }
        }
    }

    /// Puts thread `t` at the head of queue `i`.
    pub fn prepend(&mut self, i: usize, t: usize)
        requires
            old(self).wf(),
            i < NUM_READY_QUEUES,
        ensures
            final(self).wf(),
            final(self)@ == old(self)@.update(i as int, seq![t] + old(self)@[i as int]),
    {
        let mut q: Vec<usize> = Vec::new();
        std::mem::swap(&mut q, &mut self.queues[i]);
        let ghost q0 = q@;
        q.insert(0, t);
        std::mem::swap(&mut q, &mut self.queues[i]);
        proof {
            assert(self.queues@[i as int]@ =~= seq![t] + q0);
            old(self).lemma_view_update(self, i as int, seq![t] + q0);
        }
        let ghost mid = *self;
        proof {
            assert forall|k: int| 0 <= k < NUM_READY_QUEUES && k != i implies (#[trigger] mid.occupied(k)
                <==> mid.queues@[k]@.len() > 0) by {
                assert(mid.queues@[k] == old(self).queues@[k]);
                assert(old(self).occupied(k) <==> old(self).queues@[k]@.len() > 0);
            }
        }
        self.sync_bit(i);
        proof {
            mid.lemma_view_update(self, i as int, seq![t] + q0);
            assert(mid@ =~= self@);
        }
    }

    /// Puts thread `t` at the tail of queue `i`.
    pub fn append(&mut self, i: usize, t: usize)
        requires
            old(self).wf(),
            i < NUM_READY_QUEUES,
        ensures
            final(self).wf(),
            final(self)@ == old(self)@.update(i as int, old(self)@[i as int].push(t)),
    {
        let mut q: Vec<usize> = Vec::new();
        std::mem::swap(&mut q, &mut self.queues[i]);
        let ghost q0 = q@;
        q.push(t);
        std::mem::swap(&mut q, &mut self.queues[i]);
        proof {
            old(self).lemma_view_update(self, i as int, q0.push(t));
        }
        let ghost mid = *self;
        proof {
            assert forall|k: int| 0 <= k < NUM_READY_QUEUES && k != i implies (#[trigger] mid.occupied(k)
                <==> mid.queues@[k]@.len() > 0) by {
                assert(mid.queues@[k] == old(self).queues@[k]);
                assert(old(self).occupied(k) <==> old(self).queues@[k]@.len() > 0);
            }
        }
        self.sync_bit(i);
        proof {
            mid.lemma_view_update(self, i as int, q0.push(t));
            assert(mid@ =~= self@);
        }
    }

    /// Unlinks thread `t` from queue `i`; returns the position it stood at.
    pub fn remove(&mut self, i: usize, t: usize) -> (k: usize)
        requires
            old(self).wf(),
            i < NUM_READY_QUEUES,
            old(self)@[i as int].contains(t),
        ensures
            final(self).wf(),
            k < old(self)@[i as int].len(),
            old(self)@[i as int][k as int] == t,
            final(self)@ == old(self)@.update(i as int, old(self)@[i as int].remove(k as int)),
    {
        let mut q: Vec<usize> = Vec::new();
        std::mem::swap(&mut q, &mut self.queues[i]);
        let ghost q0 = q@;
        let k = position_of(&q, t);
        q.remove(k);
        std::mem::swap(&mut q, &mut self.queues[i]);
        proof {
            old(self).lemma_view_update(self, i as int, q0.remove(k as int));
        }
        let ghost mid = *self;
        proof {
            assert forall|k: int| 0 <= k < NUM_READY_QUEUES && k != i implies (#[trigger] mid.occupied(k)
                <==> mid.queues@[k]@.len() > 0) by {
                assert(mid.queues@[k] == old(self).queues@[k]);
                assert(old(self).occupied(k) <==> old(self).queues@[k]@.len() > 0);
            }
        }
        self.sync_bit(i);
        proof {
            mid.lemma_view_update(self, i as int, q0.remove(k as int));
            assert(mid@ =~= self@);
        }
        k
    }

    /// A copy of queue `i`, head first.
    pub fn copy_queue(&self, i: usize) -> (r: Vec<usize>)
        requires
            self.wf(),
            i < NUM_READY_QUEUES,
        ensures
            r@ == self@[i as int],
    {
        let v = &self.queues[i];
        let mut r: Vec<usize> = Vec::new();
        let mut k: usize = 0;
        while k < v.len()
            invariant
                k <= v@.len(),
                r@ == v@.subrange(0, k as int),
            decreases v@.len() - k,
        {
            r.push(v[k]);
            k = k + 1;
            proof {
                assert(r@ =~= v@.subrange(0, k as int));
            }
        }
        proof {
            assert(v@.subrange(0, v@.len() as int) =~= v@);
        }
        r
    }

    /// The thread at the head of queue `i`.
    pub fn head(&self, i: usize) -> (r: usize)
        requires
            self.wf(),
            i < NUM_READY_QUEUES,
            self@[i as int].len() > 0,
        ensures
            r == self@[i as int][0],
    {
        self.queues[i][0]
    }

    /// Whether queue `i` is empty, read from the bitmap.
    pub fn is_empty(&self, i: usize) -> (r: bool)
        requires
            self.wf(),
            i < NUM_READY_QUEUES,
        ensures
            r == (self@[i as int].len() == 0),
    {
        let w = self.bitmap[i / WORD_BITS];
        let b = (i % WORD_BITS) as u64;
        proof {
            assert(self.occupied(i as int) <==> self.queues@[i as int]@.len() > 0);
        }
        (w >> b) & 1u64 != 1u64
    }

    /// The highest priority whose queue of (`core`, `dom`) holds a thread, found through
    /// the bitmap.
    pub fn highest_prio(&self, core: usize, dom: usize) -> (r: Option<usize>)
        requires
            self.wf(),
            core < CONFIG_MAX_NUM_NODES,
            dom < CONFIG_NUM_DOMAINS,
        ensures
            match r {
                Some(p) => p < CONFIG_NUM_PRIORITIES && self@[queue_slot(
                    core as int,
                    dom as int,
                    p as int,
                )].len() > 0 && forall|higher: int|
                    p < higher < CONFIG_NUM_PRIORITIES ==> #[trigger] self@[queue_slot(
                        core as int,
                        dom as int,
                        higher,
                    )].len() == 0,
                None => forall|prio: int|
                    0 <= prio < CONFIG_NUM_PRIORITIES ==> #[trigger] self@[queue_slot(
                        core as int,
                        dom as int,
                        prio,
                    )].len() == 0,
            },
    {
        let mut p: usize = CONFIG_NUM_PRIORITIES;
        while p > 0
            invariant
                p <= CONFIG_NUM_PRIORITIES,
                self.wf(),
                core < CONFIG_MAX_NUM_NODES,
                dom < CONFIG_NUM_DOMAINS,
                forall|higher: int|
                    p <= higher < CONFIG_NUM_PRIORITIES ==> #[trigger] self@[queue_slot(
                        core as int,
                        dom as int,
                        higher,
                    )].len() == 0,
            decreases p,
        {
            let i = queue_index(core, dom, p - 1);
            if !self.is_empty(i) {
                return Some(p - 1);
            }
            p = p - 1;
        }
        None
    }
}

/// Removing the one occurrence of `t` from a sequence without repeated entries leaves
/// no occurrence of it.
pub proof fn lemma_remove_unique(s: Seq<usize>, k: int, t: usize)
    requires
        0 <= k < s.len(),
        s[k] == t,
        forall|i: int, j: int| 0 <= i < s.len() && 0 <= j < s.len() && i != j ==> s[i] != s[j],
    ensures
        !s.remove(k).contains(t),
{
    if s.remove(k).contains(t) {
        let j = choose|j: int| 0 <= j < s.remove(k).len() && s.remove(k)[j] == t;
        if j < k {
            assert(s[j] == t);
        } else {
            assert(s[j + 1] == t);
        }
    }
}

/// The first position at which `t` stands in `v`.
pub fn position_of(v: &Vec<usize>, t: usize) -> (k: usize)
    requires
        v@.contains(t),
    ensures
        k < v@.len(),
        v@[k as int] == t,
        forall|j: int| 0 <= j < k ==> v@[j] != t,
{
    let mut k: usize = 0;
    while k < v.len()
        invariant
            k <= v@.len(),
            v@.contains(t),
            forall|j: int| 0 <= j < k ==> v@[j] != t,
        decreases v@.len() - k,
    {
        if v[k] == t {
            return k;
        }
        k = k + 1;
    }
    k
}

} // verus!
