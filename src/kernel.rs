//! The kernel state shared by all cores: the thread table, the ready queues, the
//! endpoints and notifications, and each core's scheduler state. Every operation here
//! runs with the big kernel lock held and keeps `wf`, which ties thread states to queue
//! membership: a thread stands in its ready queue only while it is runnable, and in an
//! IPC queue exactly while it is blocked on that object.
use vstd::prelude::*;
use crate::arch::{ArchReg, CONTEXT_REG_NUM};
use crate::lock::CONFIG_MAX_NUM_NODES;
use crate::scheduler::{
    queue_index, queue_slot, valid_sched_params, ReadyQueues, CONFIG_NUM_DOMAINS,
    CONFIG_NUM_PRIORITIES, NUM_READY_QUEUES,
};
use crate::tcb::{dequeued_from, tcb_t, ThreadState};

verus! {

/// The state of a notification.
#[derive(PartialEq, Eq, Structural, Copy, Clone, Debug)]
pub enum NtfnState {
    Idle,
    Waiting,
    Active,
}

/// An asynchronous signal object. While `Active` it holds the OR of the badges signalled
/// since the last receive; while `Waiting` it holds its receivers in arrival order.
pub struct notification {
    pub state: NtfnState,
    pub queue: Vec<usize>,
    pub msg_identifier: usize,
    pub bound_tcb: Option<usize>,
}

/// The direction of the threads an endpoint holds.
#[derive(PartialEq, Eq, Structural, Copy, Clone, Debug)]
pub enum EPState {
    Idle,
    Send,
    Recv,
}

/// A synchronous rendezvous point. Its queue holds threads of one direction only.
pub struct endpoint {
    pub state: EPState,
    pub queue: Vec<usize>,
}

/// The errors the kernel core reports to its caller.
#[derive(PartialEq, Eq, Structural, Copy, Clone, Debug)]
pub enum KernelError {
    IllegalOperation,
}

pub struct KernelState {
    tcbs: Vec<tcb_t>,
    rq: ReadyQueues,
    eps: Vec<endpoint>,
    ntfns: Vec<notification>,
    /// The thread each core runs.
    cur_thread: Vec<usize>,
    /// Per core: a new thread must be chosen at the next `schedule`.
    reschedule: Vec<bool>,
    /// Per core: the cores it must send a reschedule interrupt to, one bit each.
    ipi_reschedule_pending: Vec<usize>,
    cur_domain: usize,
}

/// A freshly made idle thread with id `t`.
pub open spec fn idle_thread_ok(tcb: tcb_t, t: int) -> bool {
    &&& tcb.tcbPtr == t
    &&& tcb.params_ok()
    &&& !tcb.tcbQueued
    &&& tcb.tcbState == ThreadState::ThreadStateRunning
    &&& tcb.tcbBoundNotification is None
}

/// Whether `t` stands at most once in `s`.
pub open spec fn no_dups(s: Seq<usize>) -> bool {
    forall|i: int, j: int| 0 <= i < s.len() && 0 <= j < s.len() && i != j ==> s[i] != s[j]
}

impl KernelState {
    pub closed spec fn threads(&self) -> Seq<tcb_t> {
        self.tcbs@
    }

    pub closed spec fn ready(&self) -> Seq<Seq<usize>> {
        self.rq@
    }

    pub closed spec fn endpoints(&self) -> Seq<endpoint> {
        self.eps@
    }

    pub closed spec fn notifications(&self) -> Seq<notification> {
        self.ntfns@
    }

    pub closed spec fn current(&self) -> Seq<usize> {
        self.cur_thread@
    }

    pub closed spec fn resched(&self) -> Seq<bool> {
        self.reschedule@
    }

    pub closed spec fn ipi_resched(&self) -> Seq<usize> {
        self.ipi_reschedule_pending@
    }

    pub closed spec fn domain(&self) -> usize {
        self.cur_domain
    }

    pub open spec fn valid_ep(&self, e: int) -> bool {
        0 <= e < self.endpoints().len()
    }

    pub open spec fn valid_ntfn(&self, n: int) -> bool {
        0 <= n < self.notifications().len()
    }

    pub open spec fn state_of(&self, t: int) -> ThreadState {
        self.threads()[t].tcbState
    }

    pub open spec fn ep_queue(&self, e: int) -> Seq<usize> {
        self.endpoints()[e].queue@
    }

    pub open spec fn ntfn_queue(&self, n: int) -> Seq<usize> {
        self.notifications()[n].queue@
    }

    /// Whether `t` stands in some ready queue.
    pub open spec fn in_ready_queue(&self, t: usize) -> bool {
        exists|q: int| 0 <= q < self.ready().len() && #[trigger] self.ready()[q].contains(t)
    }

    /// Whether `t` stands in the queue of some endpoint or notification.
    pub open spec fn in_ipc_queue(&self, t: usize) -> bool {
        (exists|e: int| self.valid_ep(e) && #[trigger] self.ep_queue(e).contains(t)) || (exists|
            n: int,
        | self.valid_ntfn(n) && #[trigger] self.ntfn_queue(n).contains(t))
    }

    pub open spec fn blocked_on_ipc(s: ThreadState) -> bool {
        s == ThreadState::ThreadStateBlockedOnSend || s == ThreadState::ThreadStateBlockedOnReceive
            || s == ThreadState::ThreadStateBlockedOnNotification
    }

    closed spec fn shape_ok(&self) -> bool {
        &&& self.rq.wf()
        &&& self.cur_thread@.len() == CONFIG_MAX_NUM_NODES
        &&& self.reschedule@.len() == CONFIG_MAX_NUM_NODES
        &&& self.ipi_reschedule_pending@.len() == CONFIG_MAX_NUM_NODES
        &&& self.cur_domain < CONFIG_NUM_DOMAINS
        &&& forall|c: int|
            0 <= c < CONFIG_MAX_NUM_NODES ==> #[trigger] self.cur_thread@[c] < self.tcbs@.len()
        &&& CONFIG_MAX_NUM_NODES <= self.tcbs@.len() < usize::MAX
        &&& self.eps@.len() < usize::MAX
        &&& self.ntfns@.len() < usize::MAX
    }

    closed spec fn tcbs_ok(&self) -> bool {
        tcbs_well_named(self.tcbs@)
    }

    closed spec fn ready_ok(&self) -> bool {
        let rq = self.rq@;
        &&& forall|q: int, k: int|
            0 <= q < NUM_READY_QUEUES && 0 <= k < rq[q].len() ==> {
                let t = #[trigger] rq[q][k];
                &&& t < self.tcbs@.len()
                &&& self.tcbs@[t as int].tcbQueued
                &&& self.tcbs@[t as int].sched_slot() == q
            }
        &&& forall|q: int| 0 <= q < NUM_READY_QUEUES ==> no_dups(#[trigger] rq[q])
        &&& forall|t: int|
            0 <= t < self.tcbs@.len() && #[trigger] self.tcbs@[t].tcbQueued ==> rq[self.tcbs@[
                t
            ].sched_slot()].contains(t as usize) && self.tcbs@[t].tcbState.runnable()
    }

    closed spec fn eps_ok(&self) -> bool {
        &&& forall|e: int, k: int|
            0 <= e < self.eps@.len() && 0 <= k < self.eps@[e].queue@.len() ==> {
                let t = #[trigger] self.eps@[e].queue@[k];
                &&& t < self.tcbs@.len()
                &&& self.tcbs@[t as int].tcbBlockingObject == e
                &&& (self.eps@[e].state == EPState::Send ==> self.tcbs@[t as int].tcbState
                    == ThreadState::ThreadStateBlockedOnSend)
                &&& (self.eps@[e].state == EPState::Recv ==> self.tcbs@[t as int].tcbState
                    == ThreadState::ThreadStateBlockedOnReceive)
            }
        &&& forall|e: int|
            0 <= e < self.eps@.len() ==> no_dups(#[trigger] self.eps@[e].queue@) && (
            self.eps@[e].state == EPState::Idle <==> self.eps@[e].queue@.len() == 0)
        &&& forall|t: int|
            0 <= t < self.tcbs@.len() && (#[trigger] self.tcbs@[t].tcbState
                == ThreadState::ThreadStateBlockedOnSend || self.tcbs@[t].tcbState
                == ThreadState::ThreadStateBlockedOnReceive) ==> {
                let e = self.tcbs@[t].tcbBlockingObject as int;
                0 <= e < self.eps@.len() && self.eps@[e].queue@.contains(t as usize)
            }
    }

    closed spec fn ntfns_ok(&self) -> bool {
        &&& forall|n: int, k: int|
            0 <= n < self.ntfns@.len() && 0 <= k < self.ntfns@[n].queue@.len() ==> {
                let t = #[trigger] self.ntfns@[n].queue@[k];
                &&& t < self.tcbs@.len()
                &&& self.tcbs@[t as int].tcbBlockingObject == n
                &&& self.tcbs@[t as int].tcbState == ThreadState::ThreadStateBlockedOnNotification
            }
        &&& forall|n: int|
            0 <= n < self.ntfns@.len() ==> no_dups(#[trigger] self.ntfns@[n].queue@) && (
            self.ntfns@[n].state == NtfnState::Waiting <==> self.ntfns@[n].queue@.len() > 0)
        &&& forall|t: int|
            0 <= t < self.tcbs@.len() && #[trigger] self.tcbs@[t].tcbState
                == ThreadState::ThreadStateBlockedOnNotification ==> {
                let n = self.tcbs@[t].tcbBlockingObject as int;
                0 <= n < self.ntfns@.len() && self.ntfns@[n].queue@.contains(t as usize)
            }
    }

    closed spec fn binding_ok(&self) -> bool {
        &&& forall|t: int|
            0 <= t < self.tcbs@.len() && #[trigger] self.tcbs@[t].tcbBoundNotification is Some
                ==> {
                let n = self.tcbs@[t].tcbBoundNotification->0 as int;
                0 <= n < self.ntfns@.len() && self.ntfns@[n].bound_tcb == Some(t as usize)
            }
        &&& forall|n: int|
            0 <= n < self.ntfns@.len() && #[trigger] self.ntfns@[n].bound_tcb is Some ==> {
                let t = self.ntfns@[n].bound_tcb->0 as int;
                0 <= t < self.tcbs@.len() && self.tcbs@[t].tcbBoundNotification == Some(
                    n as usize,
                )
            }
    }

    /// The kernel's invariant.
    pub closed spec fn wf(&self) -> bool {
        &&& self.shape_ok()
        &&& self.tcbs_ok()
        &&& self.ready_ok()
        &&& self.eps_ok()
        &&& self.ntfns_ok()
        &&& self.binding_ok()
    }

    /// Queue exclusivity: in every well-formed state no thread stands both in a ready
    /// queue and in the queue of an endpoint or notification.
    pub proof fn lemma_queue_exclusivity(&self, t: usize)
        requires
            self.wf(),
        ensures
            !(self.in_ready_queue(t) && self.in_ipc_queue(t)),
    {
        self.rq.lemma_len();
        if self.in_ready_queue(t) && self.in_ipc_queue(t) {
            let q = choose|q: int| 0 <= q < self.ready().len() && #[trigger] self.ready()[q].contains(t);
            let k = choose|k: int| 0 <= k < self.rq@[q].len() && self.rq@[q][k] == t;
            assert(self.rq@[q][k] == t);
            assert(self.tcbs@[t as int].tcbQueued);
            assert(self.tcbs@[t as int].tcbState.runnable());
            if exists|e: int| self.valid_ep(e) && #[trigger] self.ep_queue(e).contains(t) {
                let e = choose|e: int| self.valid_ep(e) && #[trigger] self.ep_queue(e).contains(t);
                let j = choose|j: int| 0 <= j < self.eps@[e].queue@.len() && self.eps@[e].queue@[j] == t;
                assert(self.eps@[e].queue@[j] == t);
                assert(self.eps@[e].queue@.len() > 0);
            } else {
                let n = choose|n: int| self.valid_ntfn(n) && #[trigger] self.ntfn_queue(n).contains(t);
                let j = choose|j: int| 0 <= j < self.ntfns@[n].queue@.len() && self.ntfns@[n].queue@[j] == t;
                assert(self.ntfns@[n].queue@[j] == t);
            }
        }
    }

    /// A thread is marked queued exactly when it stands in the ready queue of its core,
    /// domain and priority.
    pub proof fn lemma_queued_in_own_queue(&self, t: usize)
        requires
            self.wf(),
            t < self.threads().len(),
        ensures
            0 <= self.threads()[t as int].sched_slot() < self.ready().len(),
            self.threads()[t as int].tcbQueued <==> self.ready()[self.threads()[t as int].sched_slot()].contains(t),
    {
        self.lemma_tcb_params(t as int);
        self.rq.lemma_len();
        if !self.tcbs@[t as int].tcbQueued {
            self.lemma_unqueued_absent(t);
        }
    }

    /// A kernel with one idle thread per core, each running on its core at priority 0 in
    /// domain 0, and no other objects.
    pub fn new() -> (r: Self)
        ensures
            r.wf(),
            r.threads().len() == CONFIG_MAX_NUM_NODES,
            r.endpoints().len() == 0,
            r.notifications().len() == 0,
            r.domain() == 0,
            forall|c: int| 0 <= c < CONFIG_MAX_NUM_NODES ==> #[trigger] r.current()[c] == c,
            forall|c: int|
                0 <= c < CONFIG_MAX_NUM_NODES ==> #[trigger] r.state_of(c)
                    == ThreadState::ThreadStateRunning,
            forall|q: int| 0 <= q < NUM_READY_QUEUES ==> (#[trigger] r.ready()[q]).len() == 0,
            r.ready().len() == NUM_READY_QUEUES,
    {
        let mut tcbs: Vec<tcb_t> = Vec::new();
        let mut cur_thread: Vec<usize> = Vec::new();
        let mut reschedule: Vec<bool> = Vec::new();
        let mut ipi_reschedule_pending: Vec<usize> = Vec::new();
        let mut c: usize = 0;
        while c < CONFIG_MAX_NUM_NODES
            invariant
                c <= CONFIG_MAX_NUM_NODES,
                tcbs@.len() == c,
                cur_thread@.len() == c,
                reschedule@.len() == c,
                ipi_reschedule_pending@.len() == c,
                forall|t: int| 0 <= t < c ==> idle_thread_ok(#[trigger] tcbs@[t], t),
                forall|k: int| 0 <= k < c ==> #[trigger] cur_thread@[k] == k,
            decreases CONFIG_MAX_NUM_NODES - c,
        {
            let mut idle = tcb_t::new(c, 0, 0, c);
            idle.set_state(ThreadState::ThreadStateRunning);
            assert(idle.tcbPtr == c);
            assert(idle.params_ok());
            assert(!idle.tcbQueued);
            assert(idle.tcbBoundNotification is None);
            let ghost before = tcbs@;
            tcbs.push(idle);
            assert(tcbs@[c as int].tcbPtr == c);
            assert(tcbs@[c as int].params_ok());
            assert(tcbs@[c as int].tcbState == ThreadState::ThreadStateRunning);
            assert(!tcbs@[c as int].tcbQueued);
            assert(tcbs@[c as int].tcbBoundNotification is None);
            proof {
                assert forall|t: int| 0 <= t < c + 1 implies idle_thread_ok(#[trigger] tcbs@[t], t) by {
                    if t < c {
                        assert(tcbs@[t] == before[t]);
                    }
                }
            }
            cur_thread.push(c);
            reschedule.push(false);
            ipi_reschedule_pending.push(0);
            c = c + 1;
        }
        let rq = ReadyQueues::new();
        let r = KernelState {
            tcbs,
            rq,
            eps: Vec::new(),
            ntfns: Vec::new(),
            cur_thread,
            reschedule,
            ipi_reschedule_pending,
            cur_domain: 0,
        };
        proof {
            r.rq.lemma_len();
            assert(r.shape_ok());
            assert(r.tcbs_ok());
            assert(r.ready_ok());
            assert(r.eps_ok());
            assert(r.ntfns_ok());
            assert(r.binding_ok());
        }
        r
    }
}

/// What stays the same when an operation touches only threads and ready queues.
pub open spec fn same_objects(a: &KernelState, b: &KernelState) -> bool {
    &&& a.endpoints() == b.endpoints()
    &&& a.notifications() == b.notifications()
}

/// What stays the same when an operation touches only threads and IPC objects.
pub open spec fn same_sched(a: &KernelState, b: &KernelState) -> bool {
    &&& a.current() == b.current()
    &&& a.resched() == b.resched()
    &&& a.ipi_resched() == b.ipi_resched()
    &&& a.domain() == b.domain()
}

/// Every thread record names its own id and a valid ready queue.
pub open spec fn tcbs_well_named(tcbs: Seq<tcb_t>) -> bool {
    forall|t: int| 0 <= t < tcbs.len() ==> #[trigger] tcbs[t].tcbPtr == t && tcbs[t].params_ok()
}

proof fn lemma_tcbs_update(tcbs: Seq<tcb_t>, t: int, x: tcb_t)
    requires
        tcbs_well_named(tcbs),
        0 <= t < tcbs.len(),
        x.tcbPtr == t,
        x.params_ok(),
    ensures
        tcbs_well_named(tcbs.update(t, x)),
{
    assert forall|u: int| 0 <= u < tcbs.len() implies #[trigger] tcbs.update(t, x)[u].tcbPtr == u
        && tcbs.update(t, x)[u].params_ok() by {
        if u != t {
            assert(tcbs.update(t, x)[u] == tcbs[u]);
        }
    }
}

impl KernelState {
    proof fn lemma_tcb_params(&self, u: int)
        requires
            self.tcbs_ok(),
            0 <= u < self.tcbs@.len(),
        ensures
            self.tcbs@[u].tcbPtr == u,
            self.tcbs@[u].params_ok(),
            0 <= self.tcbs@[u].sched_slot() < NUM_READY_QUEUES,
    {
        assert(self.tcbs@[u].tcbPtr == u);
        crate::scheduler::lemma_queue_slot_bounds(
            self.tcbs@[u].tcbAffinity as int,
            self.tcbs@[u].domain as int,
            self.tcbs@[u].tcbPriority as int,
        );
    }

    proof fn lemma_member_queued(&self, q: int, k: int)
        requires
            self.wf(),
            0 <= q < NUM_READY_QUEUES,
            0 <= k < self.rq@[q].len(),
        ensures
            self.rq@[q][k] < self.tcbs@.len(),
            self.tcbs@[self.rq@[q][k] as int].tcbQueued,
            self.tcbs@[self.rq@[q][k] as int].sched_slot() == q,
    {
        let t = self.rq@[q][k];
    }

    /// A thread in no ready queue is not queued in the queue of any slot.
    proof fn lemma_unqueued_absent(&self, t: usize)
        requires
            self.wf(),
            t < self.tcbs@.len(),
            !self.tcbs@[t as int].tcbQueued,
        ensures
            forall|q: int| 0 <= q < NUM_READY_QUEUES ==> !(#[trigger] self.rq@[q]).contains(t),
    {
        assert forall|q: int| 0 <= q < NUM_READY_QUEUES implies !(#[trigger] self.rq@[q]).contains(
            t,
        ) by {
            if self.rq@[q].contains(t) {
                let k = choose|k: int| 0 <= k < self.rq@[q].len() && self.rq@[q][k] == t;
                self.lemma_member_queued(q, k);
            }
        }
    }

    /// A thread that is not blocked on an endpoint or notification stands in no IPC queue.
    proof fn lemma_not_ipc_blocked_absent(&self, t: usize)
        requires
            self.wf(),
            t < self.tcbs@.len(),
            !Self::blocked_on_ipc(self.tcbs@[t as int].tcbState),
        ensures
            forall|e: int| 0 <= e < self.eps@.len() ==> !(#[trigger] self.eps@[e].queue@).contains(t),
            forall|n: int|
                0 <= n < self.ntfns@.len() ==> !(#[trigger] self.ntfns@[n].queue@).contains(t),
            !self.in_ipc_queue(t),
    {
        assert forall|e: int| 0 <= e < self.eps@.len() implies !(
        #[trigger] self.eps@[e].queue@).contains(t) by {
            if self.eps@[e].queue@.contains(t) {
                let k = choose|k: int|
                    0 <= k < self.eps@[e].queue@.len() && self.eps@[e].queue@[k] == t;
                assert(self.eps@[e].queue@[k] == t);
            }
        }
        assert forall|n: int| 0 <= n < self.ntfns@.len() implies !(
        #[trigger] self.ntfns@[n].queue@).contains(t) by {
            if self.ntfns@[n].queue@.contains(t) {
                let k = choose|k: int|
                    0 <= k < self.ntfns@[n].queue@.len() && self.ntfns@[n].queue@[k] == t;
                assert(self.ntfns@[n].queue@[k] == t);
            }
        }
        if exists|e: int| self.valid_ep(e) && #[trigger] self.ep_queue(e).contains(t) {
            let e = choose|e: int| self.valid_ep(e) && #[trigger] self.ep_queue(e).contains(t);
            assert(!self.eps@[e].queue@.contains(t));
        }
        if exists|n: int| self.valid_ntfn(n) && #[trigger] self.ntfn_queue(n).contains(t) {
            let n = choose|n: int| self.valid_ntfn(n) && #[trigger] self.ntfn_queue(n).contains(t);
            assert(!self.ntfns@[n].queue@.contains(t));
        }
    }

    /// Links runnable thread `t` into its ready queue, at the head or at the tail.
    #[verifier::rlimit(60)]
    fn ready_link(&mut self, t: usize, at_head: bool)
        requires
            old(self).wf(),
            t < old(self).threads().len(),
            old(self).state_of(t as int).runnable(),
        ensures
            final(self).wf(),
            final(self).threads() == old(self).threads().update(
                t as int,
                tcb_t { tcbQueued: true, ..old(self).threads()[t as int] },
            ),
            final(self).ready() == if old(self).threads()[t as int].tcbQueued {
                old(self).ready()
            } else if at_head {
                old(self).ready().update(
                    old(self).threads()[t as int].sched_slot(),
                    seq![t] + old(self).ready()[old(self).threads()[t as int].sched_slot()],
                )
            } else {
                old(self).ready().update(
                    old(self).threads()[t as int].sched_slot(),
                    old(self).ready()[old(self).threads()[t as int].sched_slot()].push(t),
                )
            },
            same_objects(final(self), old(self)),
            same_sched(final(self), old(self)),
    {
        let ghost old_tcb = self.tcbs@[t as int];
        let ghost s = old_tcb.sched_slot();
        proof {
            if !old_tcb.tcbQueued {
                self.lemma_unqueued_absent(t);
            }
            crate::scheduler::lemma_queue_slot_injective(
                old_tcb.tcbAffinity as int,
                old_tcb.domain as int,
                old_tcb.tcbPriority as int,
                old_tcb.tcbAffinity as int,
                old_tcb.domain as int,
                old_tcb.tcbPriority as int,
            );
            self.rq.lemma_len();
        }
        if at_head {
            self.tcbs[t].sched_enqueue(&mut self.rq);
        } else {
            self.tcbs[t].sched_append(&mut self.rq);
        }
        proof {
            self.rq.lemma_len();
            let rq0 = old(self).rq@;
            let rq = self.rq@;
            assert(self.tcbs@ == old(self).tcbs@.update(t as int, tcb_t { tcbQueued: true, ..old_tcb }));
            if !old_tcb.tcbQueued {
                assert forall|q: int, k: int|
                    0 <= q < NUM_READY_QUEUES && 0 <= k < rq[q].len() implies {
                    let u = #[trigger] rq[q][k];
                    &&& u < self.tcbs@.len()
                    &&& self.tcbs@[u as int].tcbQueued
                    &&& self.tcbs@[u as int].sched_slot() == q
                } by {
                    if q == s {
                        if at_head {
                            if k > 0 {
                                assert(rq[q][k] == rq0[q][k - 1]);
                                old(self).lemma_member_queued(q, k - 1);
                            }
                        } else {
                            if k < rq0[q].len() {
                                assert(rq[q][k] == rq0[q][k]);
                                old(self).lemma_member_queued(q, k);
                            }
                        }
                    } else {
                        old(self).lemma_member_queued(q, k);
                    }
                }
                assert forall|q: int| 0 <= q < NUM_READY_QUEUES implies no_dups(#[trigger] rq[q]) by {
                    if q == s {
                        assert(!rq0[q].contains(t));
                        assert(no_dups(rq0[q]));
                        assert forall|i: int, j: int|
                            0 <= i < rq[q].len() && 0 <= j < rq[q].len() && i != j implies rq[q][i]
                            != rq[q][j] by {
                            if at_head {
                                if i > 0 && j > 0 {
                                    assert(rq[q][i] == rq0[q][i - 1]);
                                    assert(rq[q][j] == rq0[q][j - 1]);
                                } else if i == 0 {
                                    assert(rq[q][j] == rq0[q][j - 1]);
                                } else {
                                    assert(rq[q][i] == rq0[q][i - 1]);
                                }
                            } else {
                                if i < rq0[q].len() && j < rq0[q].len() {
                                } else if i < rq0[q].len() {
                                    assert(rq[q][i] == rq0[q][i]);
                                } else {
                                    assert(rq[q][j] == rq0[q][j]);
                                }
                            }
                        }
                    } else {
                        assert(no_dups(rq0[q]));
                    }
                }
                assert forall|u: int|
                    0 <= u < self.tcbs@.len() && #[trigger] self.tcbs@[u].tcbQueued implies rq[self.tcbs@[
                    u
                ].sched_slot()].contains(u as usize) && self.tcbs@[u].tcbState.runnable() by {
                    if u == t as int {
                        if at_head {
                            assert(rq[s][0] == t);
                        } else {
                            assert(rq[s][rq[s].len() - 1] == t);
                        }
                    } else {
                        assert(self.tcbs@[u] == old(self).tcbs@[u]);
                        assert(old(self).tcbs@[u].tcbQueued);
                        let su = old(self).tcbs@[u].sched_slot();
                        assert(rq0[su].contains(u as usize));
                        if su == s {
                            let k = choose|k: int| 0 <= k < rq0[su].len() && rq0[su][k] == u as usize;
                            if at_head {
                                assert(rq[su][k + 1] == u as usize);
                            } else {
                                assert(rq[su][k] == u as usize);
                            }
                        } else {
                            old(self).lemma_tcb_params(u);
                            assert(rq[su] == rq0[su]);
                        }
                        assert(rq[su].contains(u as usize));
                        assert(self.tcbs@[u].tcbState.runnable());
                    }
                }
            }
            lemma_tcbs_update(old(self).tcbs@, t as int, self.tcbs@[t as int]);
            assert(self.ready_ok());
            assert(self.tcbs_ok());
            assert(self.eps_ok());
            assert(self.ntfns_ok());
            assert(self.binding_ok());
        }
    }

    /// Takes thread `t` out of its ready queue, if it stands there.
    #[verifier::rlimit(60)]
    fn ready_dequeue(&mut self, t: usize)
        requires
            old(self).wf(),
            t < old(self).threads().len(),
        ensures
            final(self).wf(),
            final(self).threads() == old(self).threads().update(
                t as int,
                tcb_t { tcbQueued: false, ..old(self).threads()[t as int] },
            ),
            !old(self).threads()[t as int].tcbQueued ==> final(self).ready() == old(self).ready(),
            forall|q: int|
                0 <= q < NUM_READY_QUEUES ==> !(#[trigger] final(self).ready()[q]).contains(t),
            forall|q: int, u: usize|
                0 <= q < NUM_READY_QUEUES && u != t ==> (#[trigger] final(self).ready()[q].contains(
                    u,
                ) <==> old(self).ready()[q].contains(u)),
            dequeued_from(old(self).ready(), old(self).threads()[t as int], final(self).ready()),
            same_objects(final(self), old(self)),
            same_sched(final(self), old(self)),
    {
        let ghost old_tcb = self.tcbs@[t as int];
        let ghost s = old_tcb.sched_slot();
        proof {
            self.rq.lemma_len();
            crate::scheduler::lemma_queue_slot_injective(
                old_tcb.tcbAffinity as int,
                old_tcb.domain as int,
                old_tcb.tcbPriority as int,
                old_tcb.tcbAffinity as int,
                old_tcb.domain as int,
                old_tcb.tcbPriority as int,
            );
        }
        self.tcbs[t].sched_dequeue(&mut self.rq);
        proof {
            self.rq.lemma_len();
            let rq0 = old(self).rq@;
            let rq = self.rq@;
            if old_tcb.tcbQueued {
                let k = choose|k: int|
                    0 <= k < rq0[s].len() && rq0[s][k] == t && rq == rq0.update(s, rq0[s].remove(k));
                assert(no_dups(rq0[s]));
                assert forall|q: int, j: int|
                    0 <= q < NUM_READY_QUEUES && 0 <= j < rq[q].len() implies {
                    let u = #[trigger] rq[q][j];
                    &&& u < self.tcbs@.len()
                    &&& self.tcbs@[u as int].tcbQueued
                    &&& self.tcbs@[u as int].sched_slot() == q
                } by {
                    if q == s {
                        if j < k {
                            assert(rq[q][j] == rq0[q][j]);
                            old(self).lemma_member_queued(q, j);
                            assert(rq0[q][j] != t);
                        } else {
                            assert(rq[q][j] == rq0[q][j + 1]);
                            old(self).lemma_member_queued(q, j + 1);
                            assert(rq0[q][j + 1] != t);
                        }
                    } else {
                        old(self).lemma_member_queued(q, j);
                    }
                }
                assert forall|q: int| 0 <= q < NUM_READY_QUEUES implies no_dups(#[trigger] rq[q]) by {
                    assert(no_dups(rq0[q]));
                    if q == s {
                        assert forall|i: int, j: int|
                            0 <= i < rq[q].len() && 0 <= j < rq[q].len() && i != j implies rq[q][i]
                            != rq[q][j] by {
                            let i0 = if i < k { i } else { i + 1 };
                            let j0 = if j < k { j } else { j + 1 };
                            assert(rq[q][i] == rq0[q][i0]);
                            assert(rq[q][j] == rq0[q][j0]);
                        }
                    }
                }
                assert forall|u: int|
                    0 <= u < self.tcbs@.len() && #[trigger] self.tcbs@[u].tcbQueued implies rq[self.tcbs@[
                    u
                ].sched_slot()].contains(u as usize) && self.tcbs@[u].tcbState.runnable() by {
                    assert(u != t as int);
                    assert(self.tcbs@[u] == old(self).tcbs@[u]);
                    assert(old(self).tcbs@[u].tcbQueued);
                    let su = old(self).tcbs@[u].sched_slot();
                    assert(rq0[su].contains(u as usize));
                    if su == s {
                        let j = choose|j: int| 0 <= j < rq0[su].len() && rq0[su][j] == u as usize;
                        assert(j != k);
                        if j < k {
                            assert(rq[su][j] == u as usize);
                        } else {
                            assert(rq[su][j - 1] == u as usize);
                        }
                    } else {
                        old(self).lemma_tcb_params(u);
                        assert(rq[su] == rq0[su]);
                    }
                    assert(rq[su].contains(u as usize));
                    assert(self.tcbs@[u].tcbState.runnable());
                }
                assert forall|q: int| 0 <= q < NUM_READY_QUEUES implies !(
                #[trigger] rq[q]).contains(t) by {
                    if rq[q].contains(t) {
                        let j = choose|j: int| 0 <= j < rq[q].len() && rq[q][j] == t;
                        if q == s {
                            let j0 = if j < k { j } else { j + 1 };
                            assert(rq[q][j] == rq0[q][j0]);
                        }
                    }
                }
                assert forall|q: int, u: usize|
                    0 <= q < NUM_READY_QUEUES && u != t implies (#[trigger] rq[q].contains(u)
                    <==> rq0[q].contains(u)) by {
                    if q == s {
                        if rq[q].contains(u) {
                            let j = choose|j: int| 0 <= j < rq[q].len() && rq[q][j] == u;
                            let j0 = if j < k { j } else { j + 1 };
                            assert(rq[q][j] == rq0[q][j0]);
                        }
                        if rq0[q].contains(u) {
                            let j = choose|j: int| 0 <= j < rq0[q].len() && rq0[q][j] == u;
                            assert(j != k);
                            let j1 = if j < k { j } else { j - 1 };
                            assert(rq[q][j1] == u);
                        }
                    }
                }
            } else {
                old(self).lemma_unqueued_absent(t);
            }
            lemma_tcbs_update(old(self).tcbs@, t as int, self.tcbs@[t as int]);
            assert(self.ready_ok());
            assert(self.tcbs_ok());
            assert(self.eps_ok());
            assert(self.ntfns_ok());
            assert(self.binding_ok());
        }
    }
}

impl KernelState {
    /// Whether `a` and `b` agree on everything but the thread table.
    closed spec fn same_but_threads(a: &Self, b: &Self) -> bool {
        &&& a.rq == b.rq
        &&& a.eps@ == b.eps@
        &&& a.ntfns@ == b.ntfns@
        &&& a.cur_thread@ == b.cur_thread@
        &&& a.reschedule@ == b.reschedule@
        &&& a.ipi_reschedule_pending@ == b.ipi_reschedule_pending@
        &&& a.cur_domain == b.cur_domain
    }

    /// Changing one thread keeps the invariant when the change leaves its queue
    /// memberships as they were.
    proof fn lemma_frame_thread(old: &Self, new: &Self, t: usize)
        requires
            old.wf(),
            Self::same_but_threads(old, new),
            t < old.tcbs@.len(),
            new.tcbs@ == old.tcbs@.update(t as int, new.tcbs@[t as int]),
            new.tcbs@[t as int].tcbPtr == t,
            new.tcbs@[t as int].params_ok(),
            new.tcbs@[t as int].sched_slot() == old.tcbs@[t as int].sched_slot() || !old.tcbs@[t as int].tcbQueued,
            new.tcbs@[t as int].tcbQueued == old.tcbs@[t as int].tcbQueued,
            new.tcbs@[t as int].tcbQueued ==> new.tcbs@[t as int].tcbState.runnable(),
            new.tcbs@[t as int].tcbBoundNotification == old.tcbs@[t as int].tcbBoundNotification,
            (!Self::blocked_on_ipc(old.tcbs@[t as int].tcbState) && !Self::blocked_on_ipc(
                new.tcbs@[t as int].tcbState,
            )) || (new.tcbs@[t as int].tcbState == old.tcbs@[t as int].tcbState
                && new.tcbs@[t as int].tcbBlockingObject == old.tcbs@[t as int].tcbBlockingObject),
        ensures
            new.wf(),
    {
        let x = new.tcbs@[t as int];
        lemma_tcbs_update(old.tcbs@, t as int, x);
        let moved = !(x.tcbState == old.tcbs@[t as int].tcbState && x.tcbBlockingObject
            == old.tcbs@[t as int].tcbBlockingObject);
        if moved {
            old.lemma_not_ipc_blocked_absent(t);
        }
        assert(new.shape_ok());
        assert forall|q: int, k: int|
            0 <= q < NUM_READY_QUEUES && 0 <= k < new.rq@[q].len() implies {
            let u = #[trigger] new.rq@[q][k];
            &&& u < new.tcbs@.len()
            &&& new.tcbs@[u as int].tcbQueued
            &&& new.tcbs@[u as int].sched_slot() == q
        } by {
            old.lemma_member_queued(q, k);
        }
        assert forall|u: int|
            0 <= u < new.tcbs@.len() && #[trigger] new.tcbs@[u].tcbQueued implies new.rq@[new.tcbs@[
            u
        ].sched_slot()].contains(u as usize) && new.tcbs@[u].tcbState.runnable() by {
            assert(old.tcbs@[u].tcbQueued);
        }
        assert(new.ready_ok());
        assert forall|e: int, k: int|
            0 <= e < new.eps@.len() && 0 <= k < new.eps@[e].queue@.len() implies {
            let u = #[trigger] new.eps@[e].queue@[k];
            &&& u < new.tcbs@.len()
            &&& new.tcbs@[u as int].tcbBlockingObject == e
            &&& (new.eps@[e].state == EPState::Send ==> new.tcbs@[u as int].tcbState
                == ThreadState::ThreadStateBlockedOnSend)
            &&& (new.eps@[e].state == EPState::Recv ==> new.tcbs@[u as int].tcbState
                == ThreadState::ThreadStateBlockedOnReceive)
        } by {
            let u = new.eps@[e].queue@[k];
            assert(old.eps@[e].queue@[k] == u);
            if moved && u == t {
                assert(old.eps@[e].queue@.contains(t));
            }
        }
        assert forall|u: int|
            0 <= u < new.tcbs@.len() && (#[trigger] new.tcbs@[u].tcbState
                == ThreadState::ThreadStateBlockedOnSend || new.tcbs@[u].tcbState
                == ThreadState::ThreadStateBlockedOnReceive) implies {
            let e = new.tcbs@[u].tcbBlockingObject as int;
            0 <= e < new.eps@.len() && new.eps@[e].queue@.contains(u as usize)
        } by {
            assert(old.tcbs@[u].tcbState == ThreadState::ThreadStateBlockedOnSend
                || old.tcbs@[u].tcbState == ThreadState::ThreadStateBlockedOnReceive);
        }
        assert(new.eps_ok());
        assert forall|n: int, k: int|
            0 <= n < new.ntfns@.len() && 0 <= k < new.ntfns@[n].queue@.len() implies {
            let u = #[trigger] new.ntfns@[n].queue@[k];
            &&& u < new.tcbs@.len()
            &&& new.tcbs@[u as int].tcbBlockingObject == n
            &&& new.tcbs@[u as int].tcbState == ThreadState::ThreadStateBlockedOnNotification
        } by {
            let u = new.ntfns@[n].queue@[k];
            assert(old.ntfns@[n].queue@[k] == u);
            if moved && u == t {
                assert(old.ntfns@[n].queue@.contains(t));
            }
        }
        assert forall|u: int|
            0 <= u < new.tcbs@.len() && #[trigger] new.tcbs@[u].tcbState
                == ThreadState::ThreadStateBlockedOnNotification implies {
            let n = new.tcbs@[u].tcbBlockingObject as int;
            0 <= n < new.ntfns@.len() && new.ntfns@[n].queue@.contains(u as usize)
        } by {
            assert(old.tcbs@[u].tcbState == ThreadState::ThreadStateBlockedOnNotification);
        }
        assert(new.ntfns_ok());
        assert forall|u: int|
            0 <= u < new.tcbs@.len() && #[trigger] new.tcbs@[u].tcbBoundNotification is Some
                implies {
            let n = new.tcbs@[u].tcbBoundNotification->0 as int;
            0 <= n < new.ntfns@.len() && new.ntfns@[n].bound_tcb == Some(u as usize)
        } by {
            assert(old.tcbs@[u].tcbBoundNotification is Some);
        }
        assert forall|n: int|
            0 <= n < new.ntfns@.len() && #[trigger] new.ntfns@[n].bound_tcb is Some implies {
            let u = new.ntfns@[n].bound_tcb->0 as int;
            0 <= u < new.tcbs@.len() && new.tcbs@[u].tcbBoundNotification == Some(n as usize)
        } by {
            assert(old.ntfns@[n].bound_tcb is Some);
        }
        assert(new.binding_ok());
    }

    /// Sets the state of a thread that stands in no IPC queue to a state that needs none.
    fn set_state_free(&mut self, t: usize, st: ThreadState)
        requires
            old(self).wf(),
            t < old(self).threads().len(),
            !Self::blocked_on_ipc(old(self).state_of(t as int)),
            !Self::blocked_on_ipc(st),
            old(self).threads()[t as int].tcbQueued ==> st.runnable(),
        ensures
            final(self).wf(),
            final(self).threads() == old(self).threads().update(
                t as int,
                tcb_t { tcbState: st, ..old(self).threads()[t as int] },
            ),
            final(self).ready() == old(self).ready(),
            same_objects(final(self), old(self)),
            same_sched(final(self), old(self)),
    {
        proof {
            old(self).lemma_tcb_params(t as int);
        }
        self.tcbs[t].set_state(st);
        proof {
            Self::lemma_frame_thread(old(self), self, t);
        }
    }

    /// Writes register `reg` of thread `t`.
    fn set_tcb_register(&mut self, t: usize, reg: ArchReg, v: usize)
        requires
            old(self).wf(),
            t < old(self).threads().len(),
            reg.valid(),
        ensures
            final(self).wf(),
            final(self).threads() == old(self).threads().update(t as int, final(self).threads()[t as int]),
            final(self).threads()[t as int].tcbArch.regs() == old(self).threads()[t as int].tcbArch.regs().update(reg.index(), v),
            final(self).threads()[t as int] == (tcb_t {
                tcbArch: final(self).threads()[t as int].tcbArch,
                ..old(self).threads()[t as int]
            }),
            final(self).ready() == old(self).ready(),
            same_objects(final(self), old(self)),
            same_sched(final(self), old(self)),
    {
        proof {
            old(self).lemma_tcb_params(t as int);
        }
        self.tcbs[t].tcbArch.set_register(reg, v);
        proof {
            assert(self.tcbs@ == old(self).tcbs@.update(t as int, self.tcbs@[t as int]));
            Self::lemma_frame_thread(old(self), self, t);
        }
    }
}

/// `b` differs from `a` at most in entry `i`, whose state is `st` and whose queue is `q`.
pub open spec fn ep_changed(a: Seq<endpoint>, b: Seq<endpoint>, i: int, st: EPState, q: Seq<usize>) -> bool {
    &&& b.len() == a.len()
    &&& forall|j: int| 0 <= j < a.len() && j != i ==> #[trigger] b[j] == a[j]
    &&& b[i].state == st
    &&& b[i].queue@ == q
}

/// `b` differs from `a` at most in entry `i`, whose state is `st` and whose queue is `q`.
pub open spec fn ntfn_changed(a: Seq<notification>, b: Seq<notification>, i: int, st: NtfnState, q: Seq<usize>) -> bool {
    &&& b.len() == a.len()
    &&& forall|j: int| 0 <= j < a.len() && j != i ==> #[trigger] b[j] == a[j]
    &&& b[i].state == st
    &&& b[i].queue@ == q
    &&& b[i].msg_identifier == a[i].msg_identifier
    &&& b[i].bound_tcb == a[i].bound_tcb
}

impl KernelState {
    /// Blocks thread `t` on endpoint `e` at the tail of its queue, as a sender or as a
    /// receiver.
    #[verifier::rlimit(60)]
    fn ep_block(&mut self, t: usize, e: usize, dir: EPState, badge: usize, is_call: bool)
        requires
            old(self).wf(),
            t < old(self).threads().len(),
            e < old(self).endpoints().len(),
            !old(self).threads()[t as int].tcbQueued,
            !Self::blocked_on_ipc(old(self).state_of(t as int)),
            dir != EPState::Idle,
            old(self).endpoints()[e as int].state == EPState::Idle || old(self).endpoints()[e as int].state == dir,
        ensures
            final(self).wf(),
            final(self).threads() == old(self).threads().update(
                t as int,
                tcb_t {
                    tcbState: if dir == EPState::Send {
                        ThreadState::ThreadStateBlockedOnSend
                    } else {
                        ThreadState::ThreadStateBlockedOnReceive
                    },
                    tcbBlockingObject: e,
                    tcbBlockingIPCBadge: badge,
                    tcbBlockingIPCIsCall: is_call,
                    ..old(self).threads()[t as int]
                },
            ),
            ep_changed(old(self).endpoints(), final(self).endpoints(), e as int, dir, old(self).ep_queue(e as int).push(t)),
            final(self).notifications() == old(self).notifications(),
            final(self).ready() == old(self).ready(),
            same_sched(final(self), old(self)),
    {
        proof {
            old(self).lemma_tcb_params(t as int);
            old(self).lemma_not_ipc_blocked_absent(t);
        }
        let st = if dir == EPState::Send {
            ThreadState::ThreadStateBlockedOnSend
        } else {
            ThreadState::ThreadStateBlockedOnReceive
        };
        self.tcbs[t].tcbState = st;
        self.tcbs[t].tcbBlockingObject = e;
        self.tcbs[t].tcbBlockingIPCBadge = badge;
        self.tcbs[t].tcbBlockingIPCIsCall = is_call;
        self.eps[e].queue.push(t);
        self.eps[e].state = dir;
        proof {
            let o = old(self);
            let x = self.tcbs@[t as int];
            assert(self.tcbs@ == o.tcbs@.update(t as int, x));
            lemma_tcbs_update(o.tcbs@, t as int, x);
            assert forall|q: int, k: int|
                0 <= q < NUM_READY_QUEUES && 0 <= k < self.rq@[q].len() implies {
                let u = #[trigger] self.rq@[q][k];
                &&& u < self.tcbs@.len()
                &&& self.tcbs@[u as int].tcbQueued
                &&& self.tcbs@[u as int].sched_slot() == q
            } by {
                o.lemma_member_queued(q, k);
            }
            assert forall|u: int|
                0 <= u < self.tcbs@.len() && #[trigger] self.tcbs@[u].tcbQueued implies self.rq@[self.tcbs@[
                u
            ].sched_slot()].contains(u as usize) && self.tcbs@[u].tcbState.runnable() by {
                assert(o.tcbs@[u].tcbQueued);
            }
            assert(self.ready_ok());
            assert forall|e2: int, k: int|
                0 <= e2 < self.eps@.len() && 0 <= k < self.eps@[e2].queue@.len() implies {
                let u = #[trigger] self.eps@[e2].queue@[k];
                &&& u < self.tcbs@.len()
                &&& self.tcbs@[u as int].tcbBlockingObject == e2
                &&& (self.eps@[e2].state == EPState::Send ==> self.tcbs@[u as int].tcbState
                    == ThreadState::ThreadStateBlockedOnSend)
                &&& (self.eps@[e2].state == EPState::Recv ==> self.tcbs@[u as int].tcbState
                    == ThreadState::ThreadStateBlockedOnReceive)
            } by {
                if e2 == e as int && k == o.eps@[e2].queue@.len() {
                } else {
                    let u = o.eps@[e2].queue@[k];
                    assert(self.eps@[e2].queue@[k] == u);
                    assert(o.eps@[e2].queue@.contains(u));
                    assert(u != t);
                    if e2 == e as int {
                        assert(o.eps@[e2].state == dir);
                    }
                }
            }
            assert forall|e2: int|
                0 <= e2 < self.eps@.len() implies no_dups(#[trigger] self.eps@[e2].queue@) && (
                self.eps@[e2].state == EPState::Idle <==> self.eps@[e2].queue@.len() == 0) by {
                assert(no_dups(o.eps@[e2].queue@));
                if e2 == e as int {
                    let q0 = o.eps@[e2].queue@;
                    let q = self.eps@[e2].queue@;
                    assert(!q0.contains(t));
                    assert forall|i: int, j: int|
                        0 <= i < q.len() && 0 <= j < q.len() && i != j implies q[i] != q[j] by {
                        if i < q0.len() && j < q0.len() {
                            assert(q[i] == q0[i] && q[j] == q0[j]);
                        } else if i < q0.len() {
                            assert(q[i] == q0[i]);
                        } else {
                            assert(q[j] == q0[j]);
                        }
                    }
                }
            }
            assert forall|u: int|
                0 <= u < self.tcbs@.len() && (#[trigger] self.tcbs@[u].tcbState
                    == ThreadState::ThreadStateBlockedOnSend || self.tcbs@[u].tcbState
                    == ThreadState::ThreadStateBlockedOnReceive) implies {
                let e2 = self.tcbs@[u].tcbBlockingObject as int;
                0 <= e2 < self.eps@.len() && self.eps@[e2].queue@.contains(u as usize)
            } by {
                if u == t as int {
                    assert(self.eps@[e as int].queue@[self.eps@[e as int].queue@.len() - 1] == t);
                } else {
                    assert(self.tcbs@[u] == o.tcbs@[u]);
                    let e2 = o.tcbs@[u].tcbBlockingObject as int;
                    assert(o.eps@[e2].queue@.contains(u as usize));
                    if e2 == e as int {
                        let k = choose|k: int| 0 <= k < o.eps@[e2].queue@.len() && o.eps@[e2].queue@[k] == u as usize;
                        assert(self.eps@[e2].queue@[k] == u as usize);
                    }
                }
            }
            assert(self.eps_ok());
            assert forall|n: int, k: int|
                0 <= n < self.ntfns@.len() && 0 <= k < self.ntfns@[n].queue@.len() implies {
                let u = #[trigger] self.ntfns@[n].queue@[k];
                &&& u < self.tcbs@.len()
                &&& self.tcbs@[u as int].tcbBlockingObject == n
                &&& self.tcbs@[u as int].tcbState == ThreadState::ThreadStateBlockedOnNotification
            } by {
                let u = self.ntfns@[n].queue@[k];
                assert(o.ntfns@[n].queue@.contains(u));
            }
            assert forall|u: int|
                0 <= u < self.tcbs@.len() && #[trigger] self.tcbs@[u].tcbState
                    == ThreadState::ThreadStateBlockedOnNotification implies {
                let n = self.tcbs@[u].tcbBlockingObject as int;
                0 <= n < self.ntfns@.len() && self.ntfns@[n].queue@.contains(u as usize)
            } by {
                assert(o.tcbs@[u].tcbState == ThreadState::ThreadStateBlockedOnNotification);
            }
            assert(self.ntfns_ok());
            assert forall|u: int|
                0 <= u < self.tcbs@.len() && #[trigger] self.tcbs@[u].tcbBoundNotification is Some
                    implies {
                let n = self.tcbs@[u].tcbBoundNotification->0 as int;
                0 <= n < self.ntfns@.len() && self.ntfns@[n].bound_tcb == Some(u as usize)
            } by {
                assert(o.tcbs@[u].tcbBoundNotification is Some);
            }
            assert forall|n: int|
                0 <= n < self.ntfns@.len() && #[trigger] self.ntfns@[n].bound_tcb is Some implies {
                let u = self.ntfns@[n].bound_tcb->0 as int;
                0 <= u < self.tcbs@.len() && self.tcbs@[u].tcbBoundNotification == Some(n as usize)
            } by {
                assert(o.ntfns@[n].bound_tcb is Some);
            }
            assert(self.binding_ok());
            assert(self.shape_ok());
        }
    }
}

impl KernelState {
    /// The invariant's parts that speak of ready queues and bindings hold after a change
    /// that leaves the ready queues, bindings and every thread's queue slot alone.
    proof fn lemma_frame_ready_binding(old: &Self, new: &Self, t: usize)
        requires
            old.wf(),
            new.rq == old.rq,
            new.ntfns@.len() == old.ntfns@.len(),
            forall|n: int| 0 <= n < old.ntfns@.len() ==> #[trigger] new.ntfns@[n].bound_tcb == old.ntfns@[n].bound_tcb,
            t < old.tcbs@.len(),
            new.tcbs@ == old.tcbs@.update(t as int, new.tcbs@[t as int]),
            new.tcbs@[t as int].tcbPtr == t,
            new.tcbs@[t as int].params_ok(),
            new.tcbs@[t as int].sched_slot() == old.tcbs@[t as int].sched_slot(),
            new.tcbs@[t as int].tcbQueued == old.tcbs@[t as int].tcbQueued,
            !new.tcbs@[t as int].tcbQueued,
            new.tcbs@[t as int].tcbBoundNotification == old.tcbs@[t as int].tcbBoundNotification,
        ensures
            new.tcbs_ok(),
            new.ready_ok(),
            new.binding_ok(),
    {
        lemma_tcbs_update(old.tcbs@, t as int, new.tcbs@[t as int]);
        assert forall|q: int, k: int|
            0 <= q < NUM_READY_QUEUES && 0 <= k < new.rq@[q].len() implies {
            let u = #[trigger] new.rq@[q][k];
            &&& u < new.tcbs@.len()
            &&& new.tcbs@[u as int].tcbQueued
            &&& new.tcbs@[u as int].sched_slot() == q
        } by {
            old.lemma_member_queued(q, k);
        }
        assert forall|u: int|
            0 <= u < new.tcbs@.len() && #[trigger] new.tcbs@[u].tcbQueued implies new.rq@[new.tcbs@[
            u
        ].sched_slot()].contains(u as usize) && new.tcbs@[u].tcbState.runnable() by {
            assert(old.tcbs@[u].tcbQueued);
        }
        assert forall|u: int|
            0 <= u < new.tcbs@.len() && #[trigger] new.tcbs@[u].tcbBoundNotification is Some
                implies {
            let n = new.tcbs@[u].tcbBoundNotification->0 as int;
            0 <= n < new.ntfns@.len() && new.ntfns@[n].bound_tcb == Some(u as usize)
        } by {
            assert(old.tcbs@[u].tcbBoundNotification is Some);
        }
        assert forall|n: int|
            0 <= n < new.ntfns@.len() && #[trigger] new.ntfns@[n].bound_tcb is Some implies {
            let u = new.ntfns@[n].bound_tcb->0 as int;
            0 <= u < new.tcbs@.len() && new.tcbs@[u].tcbBoundNotification == Some(n as usize)
        } by {
            assert(old.ntfns@[n].bound_tcb is Some);
        }
    }

    /// Takes the thread at position `k` out of endpoint `e`'s queue and gives it state
    /// `st`; the endpoint goes idle when its queue empties. Returns the thread.
    #[verifier::rlimit(60)]
    fn ep_remove(&mut self, e: usize, k: usize, st: ThreadState) -> (t: usize)
        requires
            old(self).wf(),
            e < old(self).endpoints().len(),
            k < old(self).ep_queue(e as int).len(),
            !Self::blocked_on_ipc(st),
        ensures
            final(self).wf(),
            t == old(self).ep_queue(e as int)[k as int],
            t < old(self).threads().len(),
            old(self).state_of(t as int) == ThreadState::ThreadStateBlockedOnSend || old(self).state_of(t as int) == ThreadState::ThreadStateBlockedOnReceive,
            !old(self).threads()[t as int].tcbQueued,
            final(self).threads() == old(self).threads().update(
                t as int,
                tcb_t { tcbState: st, ..old(self).threads()[t as int] },
            ),
            ep_changed(
                old(self).endpoints(),
                final(self).endpoints(),
                e as int,
                if old(self).ep_queue(e as int).len() == 1 { EPState::Idle } else { old(self).endpoints()[e as int].state },
                old(self).ep_queue(e as int).remove(k as int),
            ),
            final(self).notifications() == old(self).notifications(),
            final(self).ready() == old(self).ready(),
            same_sched(final(self), old(self)),
    {
        let ghost o = *self;
        let t = self.eps[e].queue[k];
        proof {
            assert(o.eps@[e as int].queue@[k as int] == t);
            o.lemma_tcb_params(t as int);
            assert(o.eps@[e as int].state != EPState::Idle);
            if o.tcbs@[t as int].tcbQueued {
                assert(o.tcbs@[t as int].tcbState.runnable());
            }
            assert(no_dups(o.eps@[e as int].queue@));
        }
        self.eps[e].queue.remove(k);
        if self.eps[e].queue.len() == 0 {
            self.eps[e].state = EPState::Idle;
        }
        self.tcbs[t].tcbState = st;
        proof {
            let x = self.tcbs@[t as int];
            assert(self.tcbs@ == o.tcbs@.update(t as int, x));
            Self::lemma_frame_ready_binding(&o, self, t);
            let q0 = o.eps@[e as int].queue@;
            assert forall|e2: int, j: int|
                0 <= e2 < self.eps@.len() && 0 <= j < self.eps@[e2].queue@.len() implies {
                let u = #[trigger] self.eps@[e2].queue@[j];
                &&& u < self.tcbs@.len()
                &&& self.tcbs@[u as int].tcbBlockingObject == e2
                &&& (self.eps@[e2].state == EPState::Send ==> self.tcbs@[u as int].tcbState
                    == ThreadState::ThreadStateBlockedOnSend)
                &&& (self.eps@[e2].state == EPState::Recv ==> self.tcbs@[u as int].tcbState
                    == ThreadState::ThreadStateBlockedOnReceive)
            } by {
                if e2 == e as int {
                    let j0 = if j < k { j } else { j + 1 };
                    assert(self.eps@[e2].queue@[j] == q0[j0]);
                    assert(q0[j0] != t);
                } else {
                    let u = o.eps@[e2].queue@[j];
                    assert(self.eps@[e2].queue@[j] == u);
                    if u == t {
                        assert(o.tcbs@[t as int].tcbBlockingObject == e2);
                    }
                }
            }
            assert forall|e2: int|
                0 <= e2 < self.eps@.len() implies no_dups(#[trigger] self.eps@[e2].queue@) && (
                self.eps@[e2].state == EPState::Idle <==> self.eps@[e2].queue@.len() == 0) by {
                assert(no_dups(o.eps@[e2].queue@));
                if e2 == e as int {
                    let q = self.eps@[e2].queue@;
                    assert forall|i: int, j: int|
                        0 <= i < q.len() && 0 <= j < q.len() && i != j implies q[i] != q[j] by {
                        let i0 = if i < k { i } else { i + 1 };
                        let j0 = if j < k { j } else { j + 1 };
                        assert(q[i] == q0[i0] && q[j] == q0[j0]);
                    }
                }
            }
            assert forall|u: int|
                0 <= u < self.tcbs@.len() && (#[trigger] self.tcbs@[u].tcbState
                    == ThreadState::ThreadStateBlockedOnSend || self.tcbs@[u].tcbState
                    == ThreadState::ThreadStateBlockedOnReceive) implies {
                let e2 = self.tcbs@[u].tcbBlockingObject as int;
                0 <= e2 < self.eps@.len() && self.eps@[e2].queue@.contains(u as usize)
            } by {
                assert(u != t as int);
                assert(self.tcbs@[u] == o.tcbs@[u]);
                let e2 = o.tcbs@[u].tcbBlockingObject as int;
                assert(o.eps@[e2].queue@.contains(u as usize));
                if e2 == e as int {
                    let j = choose|j: int| 0 <= j < q0.len() && q0[j] == u as usize;
                    assert(j != k);
                    let j1 = if j < k { j } else { j - 1 };
                    assert(self.eps@[e2].queue@[j1] == u as usize);
                }
            }
            assert(self.eps_ok());
            assert forall|n: int, j: int|
                0 <= n < self.ntfns@.len() && 0 <= j < self.ntfns@[n].queue@.len() implies {
                let u = #[trigger] self.ntfns@[n].queue@[j];
                &&& u < self.tcbs@.len()
                &&& self.tcbs@[u as int].tcbBlockingObject == n
                &&& self.tcbs@[u as int].tcbState == ThreadState::ThreadStateBlockedOnNotification
            } by {
                let u = self.ntfns@[n].queue@[j];
                assert(o.ntfns@[n].queue@[j] == u);
            }
            assert forall|u: int|
                0 <= u < self.tcbs@.len() && #[trigger] self.tcbs@[u].tcbState
                    == ThreadState::ThreadStateBlockedOnNotification implies {
                let n = self.tcbs@[u].tcbBlockingObject as int;
                0 <= n < self.ntfns@.len() && self.ntfns@[n].queue@.contains(u as usize)
            } by {
                assert(o.tcbs@[u].tcbState == ThreadState::ThreadStateBlockedOnNotification);
            }
            assert(self.ntfns_ok());
            assert(self.shape_ok());
        }
        t
    }

    /// Blocks thread `t` on notification `n` at the tail of its queue; the notification
    /// is then waiting.
    #[verifier::rlimit(60)]
    fn ntfn_block(&mut self, t: usize, n: usize)
        requires
            old(self).wf(),
            t < old(self).threads().len(),
            n < old(self).notifications().len(),
            !old(self).threads()[t as int].tcbQueued,
            !Self::blocked_on_ipc(old(self).state_of(t as int)),
            old(self).notifications()[n as int].state != NtfnState::Active,
        ensures
            final(self).wf(),
            final(self).threads() == old(self).threads().update(
                t as int,
                tcb_t {
                    tcbState: ThreadState::ThreadStateBlockedOnNotification,
                    tcbBlockingObject: n,
                    ..old(self).threads()[t as int]
                },
            ),
            ntfn_changed(old(self).notifications(), final(self).notifications(), n as int, NtfnState::Waiting, old(self).ntfn_queue(n as int).push(t)),
            final(self).endpoints() == old(self).endpoints(),
            final(self).ready() == old(self).ready(),
            same_sched(final(self), old(self)),
    {
        let ghost o = *self;
        proof {
            o.lemma_tcb_params(t as int);
            o.lemma_not_ipc_blocked_absent(t);
        }
        self.tcbs[t].tcbState = ThreadState::ThreadStateBlockedOnNotification;
        self.tcbs[t].tcbBlockingObject = n;
        self.ntfns[n].queue.push(t);
        self.ntfns[n].state = NtfnState::Waiting;
        proof {
            let x = self.tcbs@[t as int];
            assert(self.tcbs@ == o.tcbs@.update(t as int, x));
            assert forall|m: int| 0 <= m < o.ntfns@.len() implies #[trigger] self.ntfns@[m].bound_tcb == o.ntfns@[m].bound_tcb by {
            }
            Self::lemma_frame_ready_binding(&o, self, t);
            assert forall|e2: int, k: int|
                0 <= e2 < self.eps@.len() && 0 <= k < self.eps@[e2].queue@.len() implies {
                let u = #[trigger] self.eps@[e2].queue@[k];
                &&& u < self.tcbs@.len()
                &&& self.tcbs@[u as int].tcbBlockingObject == e2
                &&& (self.eps@[e2].state == EPState::Send ==> self.tcbs@[u as int].tcbState
                    == ThreadState::ThreadStateBlockedOnSend)
                &&& (self.eps@[e2].state == EPState::Recv ==> self.tcbs@[u as int].tcbState
                    == ThreadState::ThreadStateBlockedOnReceive)
            } by {
                let u = o.eps@[e2].queue@[k];
                assert(o.eps@[e2].queue@.contains(u));
            }
            assert forall|u: int|
                0 <= u < self.tcbs@.len() && (#[trigger] self.tcbs@[u].tcbState
                    == ThreadState::ThreadStateBlockedOnSend || self.tcbs@[u].tcbState
                    == ThreadState::ThreadStateBlockedOnReceive) implies {
                let e2 = self.tcbs@[u].tcbBlockingObject as int;
                0 <= e2 < self.eps@.len() && self.eps@[e2].queue@.contains(u as usize)
            } by {
                assert(self.tcbs@[u] == o.tcbs@[u]);
            }
            assert(self.eps_ok());
            let q0 = o.ntfns@[n as int].queue@;
            assert forall|m: int, k: int|
                0 <= m < self.ntfns@.len() && 0 <= k < self.ntfns@[m].queue@.len() implies {
                let u = #[trigger] self.ntfns@[m].queue@[k];
                &&& u < self.tcbs@.len()
                &&& self.tcbs@[u as int].tcbBlockingObject == m
                &&& self.tcbs@[u as int].tcbState == ThreadState::ThreadStateBlockedOnNotification
            } by {
                if m == n as int && k == q0.len() {
                } else {
                    let u = o.ntfns@[m].queue@[k];
                    assert(self.ntfns@[m].queue@[k] == u);
                    assert(o.ntfns@[m].queue@.contains(u));
                }
            }
            assert forall|m: int|
                0 <= m < self.ntfns@.len() implies no_dups(#[trigger] self.ntfns@[m].queue@) && (
                self.ntfns@[m].state == NtfnState::Waiting <==> self.ntfns@[m].queue@.len() > 0) by {
                assert(no_dups(o.ntfns@[m].queue@));
                if m == n as int {
                    let q = self.ntfns@[m].queue@;
                    assert(!q0.contains(t));
                    assert forall|i: int, j: int|
                        0 <= i < q.len() && 0 <= j < q.len() && i != j implies q[i] != q[j] by {
                        if i < q0.len() && j < q0.len() {
                            assert(q[i] == q0[i] && q[j] == q0[j]);
                        } else if i < q0.len() {
                            assert(q[i] == q0[i]);
                        } else {
                            assert(q[j] == q0[j]);
                        }
                    }
                }
            }
            assert forall|u: int|
                0 <= u < self.tcbs@.len() && #[trigger] self.tcbs@[u].tcbState
                    == ThreadState::ThreadStateBlockedOnNotification implies {
                let m = self.tcbs@[u].tcbBlockingObject as int;
                0 <= m < self.ntfns@.len() && self.ntfns@[m].queue@.contains(u as usize)
            } by {
                if u == t as int {
                    assert(self.ntfns@[n as int].queue@[q0.len() as int] == t);
                } else {
                    assert(self.tcbs@[u] == o.tcbs@[u]);
                    let m = o.tcbs@[u].tcbBlockingObject as int;
                    assert(o.ntfns@[m].queue@.contains(u as usize));
                    if m == n as int {
                        let k = choose|k: int| 0 <= k < q0.len() && q0[k] == u as usize;
                        assert(self.ntfns@[m].queue@[k] == u as usize);
                    }
                }
            }
            assert(self.ntfns_ok());
            assert(self.shape_ok());
        }
    }

    /// Takes the thread at position `k` out of notification `n`'s queue and gives it
    /// state `st`; the notification goes idle when its queue empties. Returns the thread.
    #[verifier::rlimit(60)]
    fn ntfn_remove(&mut self, n: usize, k: usize, st: ThreadState) -> (t: usize)
        requires
            old(self).wf(),
            n < old(self).notifications().len(),
            k < old(self).ntfn_queue(n as int).len(),
            !Self::blocked_on_ipc(st),
        ensures
            final(self).wf(),
            t == old(self).ntfn_queue(n as int)[k as int],
            t < old(self).threads().len(),
            old(self).state_of(t as int) == ThreadState::ThreadStateBlockedOnNotification,
            !old(self).threads()[t as int].tcbQueued,
            final(self).threads() == old(self).threads().update(
                t as int,
                tcb_t { tcbState: st, ..old(self).threads()[t as int] },
            ),
            ntfn_changed(
                old(self).notifications(),
                final(self).notifications(),
                n as int,
                if old(self).ntfn_queue(n as int).len() == 1 { NtfnState::Idle } else { NtfnState::Waiting },
                old(self).ntfn_queue(n as int).remove(k as int),
            ),
            final(self).endpoints() == old(self).endpoints(),
            final(self).ready() == old(self).ready(),
            same_sched(final(self), old(self)),
    {
        let ghost o = *self;
        let t = self.ntfns[n].queue[k];
        proof {
            assert(o.ntfns@[n as int].queue@[k as int] == t);
            o.lemma_tcb_params(t as int);
            if o.tcbs@[t as int].tcbQueued {
                assert(o.tcbs@[t as int].tcbState.runnable());
            }
            assert(no_dups(o.ntfns@[n as int].queue@));
        }
        self.ntfns[n].queue.remove(k);
        if self.ntfns[n].queue.len() == 0 {
            self.ntfns[n].state = NtfnState::Idle;
        }
        self.tcbs[t].tcbState = st;
        proof {
            let x = self.tcbs@[t as int];
            assert(self.tcbs@ == o.tcbs@.update(t as int, x));
            assert forall|m: int| 0 <= m < o.ntfns@.len() implies #[trigger] self.ntfns@[m].bound_tcb == o.ntfns@[m].bound_tcb by {
            }
            Self::lemma_frame_ready_binding(&o, self, t);
            let q0 = o.ntfns@[n as int].queue@;
            assert forall|e2: int, j: int|
                0 <= e2 < self.eps@.len() && 0 <= j < self.eps@[e2].queue@.len() implies {
                let u = #[trigger] self.eps@[e2].queue@[j];
                &&& u < self.tcbs@.len()
                &&& self.tcbs@[u as int].tcbBlockingObject == e2
                &&& (self.eps@[e2].state == EPState::Send ==> self.tcbs@[u as int].tcbState
                    == ThreadState::ThreadStateBlockedOnSend)
                &&& (self.eps@[e2].state == EPState::Recv ==> self.tcbs@[u as int].tcbState
                    == ThreadState::ThreadStateBlockedOnReceive)
            } by {
                let u = o.eps@[e2].queue@[j];
                assert(self.eps@[e2].queue@[j] == u);
                assert(o.eps@[e2].state != EPState::Idle);
            }
            assert forall|u: int|
                0 <= u < self.tcbs@.len() && (#[trigger] self.tcbs@[u].tcbState
                    == ThreadState::ThreadStateBlockedOnSend || self.tcbs@[u].tcbState
                    == ThreadState::ThreadStateBlockedOnReceive) implies {
                let e2 = self.tcbs@[u].tcbBlockingObject as int;
                0 <= e2 < self.eps@.len() && self.eps@[e2].queue@.contains(u as usize)
            } by {
                assert(u != t as int);
                assert(self.tcbs@[u] == o.tcbs@[u]);
            }
            assert(self.eps_ok());
            assert forall|m: int, j: int|
                0 <= m < self.ntfns@.len() && 0 <= j < self.ntfns@[m].queue@.len() implies {
                let u = #[trigger] self.ntfns@[m].queue@[j];
                &&& u < self.tcbs@.len()
                &&& self.tcbs@[u as int].tcbBlockingObject == m
                &&& self.tcbs@[u as int].tcbState == ThreadState::ThreadStateBlockedOnNotification
            } by {
                if m == n as int {
                    let j0 = if j < k { j } else { j + 1 };
                    assert(self.ntfns@[m].queue@[j] == q0[j0]);
                    assert(q0[j0] != t);
                } else {
                    let u = o.ntfns@[m].queue@[j];
                    assert(self.ntfns@[m].queue@[j] == u);
                    if u == t {
                        assert(o.tcbs@[t as int].tcbBlockingObject == m);
                    }
                }
            }
            assert forall|m: int|
                0 <= m < self.ntfns@.len() implies no_dups(#[trigger] self.ntfns@[m].queue@) && (
                self.ntfns@[m].state == NtfnState::Waiting <==> self.ntfns@[m].queue@.len() > 0) by {
                assert(no_dups(o.ntfns@[m].queue@));
                if m == n as int {
                    let q = self.ntfns@[m].queue@;
                    assert forall|i: int, j: int|
                        0 <= i < q.len() && 0 <= j < q.len() && i != j implies q[i] != q[j] by {
                        let i0 = if i < k { i } else { i + 1 };
                        let j0 = if j < k { j } else { j + 1 };
                        assert(q[i] == q0[i0] && q[j] == q0[j0]);
                    }
                }
            }
            assert forall|u: int|
                0 <= u < self.tcbs@.len() && #[trigger] self.tcbs@[u].tcbState
                    == ThreadState::ThreadStateBlockedOnNotification implies {
                let m = self.tcbs@[u].tcbBlockingObject as int;
                0 <= m < self.ntfns@.len() && self.ntfns@[m].queue@.contains(u as usize)
            } by {
                assert(u != t as int);
                assert(self.tcbs@[u] == o.tcbs@[u]);
                let m = o.tcbs@[u].tcbBlockingObject as int;
                assert(o.ntfns@[m].queue@.contains(u as usize));
                if m == n as int {
                    let j = choose|j: int| 0 <= j < q0.len() && q0[j] == u as usize;
                    assert(j != k);
                    let j1 = if j < k { j } else { j - 1 };
                    assert(self.ntfns@[m].queue@[j1] == u as usize);
                }
            }
            assert(self.ntfns_ok());
            assert(self.shape_ok());
        }
        t
    }
}

/// The ready queues after `t`, whose record is `tcb`, joins its queue at the head or tail.
pub open spec fn enqueued(rq: Seq<Seq<usize>>, tcb: tcb_t, t: usize, at_head: bool) -> Seq<Seq<usize>> {
    if tcb.tcbQueued {
        rq
    } else if at_head {
        rq.update(tcb.sched_slot(), seq![t] + rq[tcb.sched_slot()])
    } else {
        rq.update(tcb.sched_slot(), rq[tcb.sched_slot()].push(t))
    }
}

impl KernelState {
    /// Whether `t`, made runnable by core `cpu`, should run on `cpu` before the thread
    /// that runs there now.
    pub open spec fn preempts(&self, cpu: usize, t: usize) -> bool {
        let tcb = self.threads()[t as int];
        &&& tcb.tcbAffinity == cpu
        &&& tcb.domain == self.domain()
        &&& tcb.tcbPriority > self.threads()[self.current()[cpu as int] as int].tcbPriority
    }

    /// Whether `t` joins the head of its queue rather than the tail.
    pub open spec fn joins_at_head(&self, cpu: usize, t: usize) -> bool {
        let tcb = self.threads()[t as int];
        tcb.tcbAffinity != cpu || tcb.domain != self.domain() || self.preempts(cpu, t)
    }

    pub proof fn lemma_wf_shape(&self)
        requires
            self.wf(),
        ensures
            self.ready().len() == NUM_READY_QUEUES,
            self.current().len() == CONFIG_MAX_NUM_NODES,
            self.resched().len() == CONFIG_MAX_NUM_NODES,
            self.ipi_resched().len() == CONFIG_MAX_NUM_NODES,
            self.domain() < CONFIG_NUM_DOMAINS,
            forall|c: int| 0 <= c < CONFIG_MAX_NUM_NODES ==> #[trigger] self.current()[c] < self.threads().len(),
            CONFIG_MAX_NUM_NODES <= self.threads().len(),
            forall|t: int| 0 <= t < self.threads().len() ==> #[trigger] self.threads()[t].params_ok() && self.threads()[t].tcbPtr == t,
            forall|t: int| 0 <= t < self.threads().len() && #[trigger] self.threads()[t].tcbQueued ==> self.threads()[t].tcbState.runnable(),
    {
        self.rq.lemma_len();
        assert forall|t: int| 0 <= t < self.threads().len() implies #[trigger] self.threads()[t].params_ok() && self.threads()[t].tcbPtr == t by {
            self.lemma_tcb_params(t);
        }
    }

    /// Makes runnable thread `t` a candidate to run. When it belongs to another core,
    /// it joins the head of its queue, and that core is flagged for a reschedule
    /// interrupt when `t` would run there before its running thread (see
    /// `ipi_after_enqueue`); when it outranks the thread running on `cpu`, it joins the
    /// head and `cpu` must reschedule; otherwise it joins the tail of its queue.
    pub fn possible_switch_to(&mut self, cpu: usize, t: usize)
        requires
            old(self).wf(),
            cpu < CONFIG_MAX_NUM_NODES,
            t < old(self).threads().len(),
            old(self).state_of(t as int).runnable(),
        ensures
            final(self).wf(),
            final(self).threads().len() == old(self).threads().len(),
            final(self).threads() == old(self).threads().update(
                t as int,
                tcb_t { tcbQueued: true, ..old(self).threads()[t as int] },
            ),
            final(self).ready() == enqueued(old(self).ready(), old(self).threads()[t as int], t, old(self).joins_at_head(cpu, t)),
            final(self).resched() == if old(self).preempts(cpu, t) {
                old(self).resched().update(cpu as int, true)
            } else {
                old(self).resched()
            },
            final(self).ipi_resched() == old(self).ipi_after_enqueue(cpu, t),
            final(self).current() == old(self).current(),
            final(self).domain() == old(self).domain(),
            same_objects(final(self), old(self)),
    {
        proof {
            old(self).lemma_wf_shape();
        }
        let aff = self.tcbs[t].tcbAffinity;
        if aff != cpu {
            self.ready_enqueue(cpu, t, true);
        } else if self.tcbs[t].domain != self.cur_domain {
            self.ready_enqueue(cpu, t, true);
        } else {
            let cur = self.cur_thread[cpu];
            if self.tcbs[t].tcbPriority > self.tcbs[cur].tcbPriority {
                self.ready_enqueue(cpu, t, true);
                self.reschedule.set(cpu, true);
            } else {
                self.ready_enqueue(cpu, t, false);
            }
        }
    }

    /// Flags core `cpu` to choose a new thread at its next `schedule`.
    pub fn reschedule_required(&mut self, cpu: usize)
        requires
            old(self).wf(),
            cpu < CONFIG_MAX_NUM_NODES,
        ensures
            final(self).wf(),
            final(self).threads().len() == old(self).threads().len(),
            final(self).resched() == old(self).resched().update(cpu as int, true),
            final(self).threads() == old(self).threads(),
            final(self).ready() == old(self).ready(),
            final(self).current() == old(self).current(),
            final(self).ipi_resched() == old(self).ipi_resched(),
            final(self).domain() == old(self).domain(),
            same_objects(final(self), old(self)),
    {
        self.reschedule.set(cpu, true);
    }

    /// The thread at the head of the highest-priority non-empty ready queue of `cpu` in
    /// the current domain, if any.
    pub fn choose_thread(&self, cpu: usize) -> (r: Option<usize>)
        requires
            self.wf(),
            cpu < CONFIG_MAX_NUM_NODES,
        ensures
            match r {
                Some(t) => exists|p: int|
                    0 <= p < CONFIG_NUM_PRIORITIES && #[trigger] self.ready()[queue_slot(cpu as int, self.domain() as int, p)].len() > 0
                        && t == self.ready()[queue_slot(cpu as int, self.domain() as int, p)][0]
                        && forall|higher: int| p < higher < CONFIG_NUM_PRIORITIES ==> #[trigger] self.ready()[queue_slot(cpu as int, self.domain() as int, higher)].len() == 0,
                None => forall|prio: int| 0 <= prio < CONFIG_NUM_PRIORITIES ==> #[trigger] self.ready()[queue_slot(cpu as int, self.domain() as int, prio)].len() == 0,
            },
    {
        match self.rq.highest_prio(cpu, self.cur_domain) {
            Some(p) => {
                let i = queue_index(cpu, self.cur_domain, p);
                let t = self.rq.head(i);
                assert(self.ready()[queue_slot(cpu as int, self.domain() as int, p as int)].len() > 0);
                Some(t)
            },
            None => None,
        }
    }

    /// Makes core `cpu` run the head of the highest-priority non-empty queue of the
    /// current domain, taking it out of its queue; with none, its idle thread.
    fn switch_to_chosen(&mut self, cpu: usize)
        requires
            old(self).wf(),
            cpu < CONFIG_MAX_NUM_NODES,
        ensures
            final(self).wf(),
            final(self).resched() == old(self).resched(),
            final(self).current() == old(self).current().update(cpu as int, final(self).current()[cpu as int]),
            forall|higher: int|
                final(self).threads()[final(self).current()[cpu as int] as int].tcbPriority < higher < CONFIG_NUM_PRIORITIES
                    ==> #[trigger] final(self).ready()[queue_slot(cpu as int, final(self).domain() as int, higher)].len() == 0,
            final(self).domain() == old(self).domain(),
            same_objects(final(self), old(self)),
            only_queued_changed(old(self).threads(), final(self).threads()),
            picked_from(old(self).ready(), cpu, old(self).domain(), final(self).current()[cpu as int], final(self).ready()),
    {
        proof {
            old(self).lemma_wf_shape();
            old(self).lemma_wf_facts();
        }
        let next = self.choose_thread(cpu);
        match next {
            Some(t) => {
                let ghost mid = *self;
                let ghost p = choose|p: int|
                    0 <= p < CONFIG_NUM_PRIORITIES && #[trigger] mid.ready()[queue_slot(cpu as int, mid.domain() as int, p)].len() > 0
                        && t == mid.ready()[queue_slot(cpu as int, mid.domain() as int, p)][0]
                        && forall|higher: int| p < higher < CONFIG_NUM_PRIORITIES ==> #[trigger] mid.ready()[queue_slot(cpu as int, mid.domain() as int, higher)].len() == 0;
                proof {
                    crate::scheduler::lemma_queue_slot_bounds(cpu as int, mid.domain() as int, p);
                    mid.lemma_member_queued(queue_slot(cpu as int, mid.domain() as int, p), 0);
                    mid.lemma_tcb_params(t as int);
                    let tt = mid.threads()[t as int];
                    crate::scheduler::lemma_queue_slot_injective(
                        tt.tcbAffinity as int, tt.domain as int, tt.tcbPriority as int,
                        cpu as int, mid.domain() as int, p,
                    );
                }
                self.ready_dequeue(t);
                proof {
                    lemma_only_queued_update(mid.threads(), t as int, false);
                    let sl = queue_slot(cpu as int, mid.domain() as int, p);
                    let k = choose|k: int|
                        0 <= k < mid.ready()[sl].len() && mid.ready()[sl][k] == t
                            && self.ready() == mid.ready().update(sl, mid.ready()[sl].remove(k));
                    assert(no_dups(mid.ready()[sl]));
                    assert(k == 0);
                    assert(mid.ready()[sl].remove(0) =~= mid.ready()[sl].drop_first());
                    assert(mid.ready()[queue_slot(cpu as int, mid.domain() as int, p)].len() > 0);
                }
                self.cur_thread.set(cpu, t);
                proof {
                    assert forall|higher: int|
                        p < higher < CONFIG_NUM_PRIORITIES implies #[trigger] self.ready()[queue_slot(cpu as int, self.domain() as int, higher)].len() == 0 by {
                        crate::scheduler::lemma_queue_slot_bounds(cpu as int, mid.domain() as int, higher);
                        let q = queue_slot(cpu as int, mid.domain() as int, higher);
                        assert(mid.ready()[q].len() == 0);
                        if self.ready()[q].len() > 0 {
                            let u = self.ready()[q][0];
                            assert(self.ready()[q].contains(u));
                            assert(mid.ready()[q].contains(u));
                        }
                    }
                    assert(self.shape_ok());
                }
            },
            None => {
                self.cur_thread.set(cpu, cpu);
                proof {
                    assert(self.shape_ok());
                    lemma_only_queued_refl(old(self).threads());
                }
            },
        }
    }

    /// The ready queues a core chooses from: the queues with its running thread, when
    /// runnable and not the idle thread, back at the head of its queue.
    pub open spec fn ready_before_choice(&self, cpu: usize) -> Seq<Seq<usize>> {
        let cur = self.current()[cpu as int];
        if cur != cpu && self.state_of(cur as int).runnable() {
            enqueued(self.ready(), self.threads()[cur as int], cur, true)
        } else {
            self.ready()
        }
    }

    /// Whether core `cpu` must choose a new thread: a reschedule was asked for, or the
    /// thread it runs can no longer run.
    pub open spec fn needs_schedule(&self, cpu: usize) -> bool {
        self.resched()[cpu as int] || !self.state_of(self.current()[cpu as int] as int).runnable()
    }

    /// Picks the thread that core `cpu` runs next, when it must choose: the running
    /// thread, when runnable and not the idle thread, goes back to the head of its queue,
    /// and the head of the highest-priority non-empty queue of the current domain leaves
    /// its queue and runs; with none, the core runs its idle thread.
    #[verifier::rlimit(80)]
    pub fn schedule(&mut self, cpu: usize)
        requires
            old(self).wf(),
            cpu < CONFIG_MAX_NUM_NODES,
        ensures
            final(self).wf(),
            final(self).threads().len() == old(self).threads().len(),
            !final(self).resched()[cpu as int],
            !old(self).needs_schedule(cpu) ==> final(self).threads() == old(self).threads()
                && final(self).ready() == old(self).ready() && final(self).current() == old(self).current(),
            final(self).current().len() == old(self).current().len(),
            forall|c: int| 0 <= c < CONFIG_MAX_NUM_NODES && c != cpu ==> #[trigger] final(self).current()[c] == old(self).current()[c],
            old(self).needs_schedule(cpu) ==> forall|higher: int|
                final(self).threads()[final(self).current()[cpu as int] as int].tcbPriority < higher < CONFIG_NUM_PRIORITIES
                    ==> #[trigger] final(self).ready()[queue_slot(cpu as int, final(self).domain() as int, higher)].len() == 0,
            final(self).domain() == old(self).domain(),
            old(self).needs_schedule(cpu) ==> picked_from(
                old(self).ready_before_choice(cpu),
                cpu,
                old(self).domain(),
                final(self).current()[cpu as int],
                final(self).ready(),
            ),
            sched_preserves(old(self), final(self)),
            same_objects(final(self), old(self)),
    {
        proof {
            old(self).lemma_wf_shape();
        }
        let cur = self.cur_thread[cpu];
        if self.reschedule[cpu] || !self.tcbs[cur].is_runnable() {
            if cur != cpu && self.tcbs[cur].is_runnable() {
                self.ready_enqueue(cpu, cur, true);
                proof {
                    lemma_only_queued_update(old(self).threads(), cur as int, true);
                }
            } else {
                proof {
                    lemma_only_queued_refl(old(self).threads());
                }
            }
            let ghost s1 = *self;
            self.switch_to_chosen(cpu);
            proof {
                lemma_only_queued_trans(old(self).threads(), s1.threads(), self.threads());
            }
            let ghost mid = *self;
            self.reschedule.set(cpu, false);
            proof {
                assert(self.shape_ok());
                assert(self.ready() == mid.ready());
                assert(self.threads() == mid.threads());
                assert(self.current() == mid.current());
                assert(self.domain() == mid.domain());
                lemma_only_queued_preserves(old(self), self);
            }
        } else {
            proof {
                lemma_only_queued_refl(old(self).threads());
                lemma_only_queued_preserves(old(self), self);
            }
        }
    }
}

impl KernelState {
    /// Adds an inactive thread with the given priority, domain and core; returns its id.
    #[verifier::rlimit(60)]
    pub fn create_thread(&mut self, prio: usize, dom: usize, core: usize) -> (t: usize)
        requires
            old(self).wf(),
            valid_sched_params(core as int, dom as int, prio as int),
            old(self).threads().len() + 1 < usize::MAX,
        ensures
            final(self).wf(),
            t == old(self).threads().len(),
            final(self).threads().len() == old(self).threads().len() + 1,
            forall|u: int| 0 <= u < t ==> #[trigger] final(self).threads()[u] == old(self).threads()[u],
            final(self).state_of(t as int) == ThreadState::ThreadStateInactive,
            !final(self).threads()[t as int].tcbQueued,
            final(self).threads()[t as int].tcbPriority == prio,
            final(self).threads()[t as int].domain == dom,
            final(self).threads()[t as int].tcbAffinity == core,
            final(self).threads()[t as int].tcbBoundNotification is None,
            final(self).threads()[t as int].tcbCaller is None,
            final(self).ready() == old(self).ready(),
            same_objects(final(self), old(self)),
            same_sched(final(self), old(self)),
    {
        let ghost o = *self;
        let t = self.tcbs.len();
        let tcb = tcb_t::new(t, prio, dom, core);
        self.tcbs.push(tcb);
        proof {
            assert forall|u: int| 0 <= u < self.tcbs@.len() implies #[trigger] self.tcbs@[u].tcbPtr == u
                && self.tcbs@[u].params_ok() by {
                if u < t {
                    o.lemma_tcb_params(u);
                    assert(self.tcbs@[u] == o.tcbs@[u]);
                }
            }
            assert(self.tcbs_ok());
            assert forall|q: int, k: int|
                0 <= q < NUM_READY_QUEUES && 0 <= k < self.rq@[q].len() implies {
                let u = #[trigger] self.rq@[q][k];
                &&& u < self.tcbs@.len()
                &&& self.tcbs@[u as int].tcbQueued
                &&& self.tcbs@[u as int].sched_slot() == q
            } by {
                o.lemma_member_queued(q, k);
                assert(self.tcbs@[self.rq@[q][k] as int] == o.tcbs@[self.rq@[q][k] as int]);
            }
            assert forall|u: int|
                0 <= u < self.tcbs@.len() && #[trigger] self.tcbs@[u].tcbQueued implies self.rq@[self.tcbs@[
                u
            ].sched_slot()].contains(u as usize) && self.tcbs@[u].tcbState.runnable() by {
                assert(self.tcbs@[u] == o.tcbs@[u]);
            }
            assert(self.ready_ok());
            assert forall|e: int, k: int|
                0 <= e < self.eps@.len() && 0 <= k < self.eps@[e].queue@.len() implies {
                let u = #[trigger] self.eps@[e].queue@[k];
                &&& u < self.tcbs@.len()
                &&& self.tcbs@[u as int].tcbBlockingObject == e
                &&& (self.eps@[e].state == EPState::Send ==> self.tcbs@[u as int].tcbState
                    == ThreadState::ThreadStateBlockedOnSend)
                &&& (self.eps@[e].state == EPState::Recv ==> self.tcbs@[u as int].tcbState
                    == ThreadState::ThreadStateBlockedOnReceive)
            } by {
                let u = self.eps@[e].queue@[k];
                assert(o.eps@[e].queue@[k] == u);
                assert(u < o.tcbs@.len());
                assert(self.tcbs@[u as int] == o.tcbs@[u as int]);
            }
            assert forall|u: int|
                0 <= u < self.tcbs@.len() && (#[trigger] self.tcbs@[u].tcbState
                    == ThreadState::ThreadStateBlockedOnSend || self.tcbs@[u].tcbState
                    == ThreadState::ThreadStateBlockedOnReceive) implies {
                let e = self.tcbs@[u].tcbBlockingObject as int;
                0 <= e < self.eps@.len() && self.eps@[e].queue@.contains(u as usize)
            } by {
                assert(self.tcbs@[u] == o.tcbs@[u]);
            }
            assert(self.eps_ok());
            assert forall|n: int, k: int|
                0 <= n < self.ntfns@.len() && 0 <= k < self.ntfns@[n].queue@.len() implies {
                let u = #[trigger] self.ntfns@[n].queue@[k];
                &&& u < self.tcbs@.len()
                &&& self.tcbs@[u as int].tcbBlockingObject == n
                &&& self.tcbs@[u as int].tcbState == ThreadState::ThreadStateBlockedOnNotification
            } by {
                let u = self.ntfns@[n].queue@[k];
                assert(o.ntfns@[n].queue@[k] == u);
                assert(u < o.tcbs@.len());
                assert(self.tcbs@[u as int] == o.tcbs@[u as int]);
            }
            assert forall|u: int|
                0 <= u < self.tcbs@.len() && #[trigger] self.tcbs@[u].tcbState
                    == ThreadState::ThreadStateBlockedOnNotification implies {
                let n = self.tcbs@[u].tcbBlockingObject as int;
                0 <= n < self.ntfns@.len() && self.ntfns@[n].queue@.contains(u as usize)
            } by {
                assert(self.tcbs@[u] == o.tcbs@[u]);
            }
            assert(self.ntfns_ok());
            assert forall|u: int|
                0 <= u < self.tcbs@.len() && #[trigger] self.tcbs@[u].tcbBoundNotification is Some
                    implies {
                let n = self.tcbs@[u].tcbBoundNotification->0 as int;
                0 <= n < self.ntfns@.len() && self.ntfns@[n].bound_tcb == Some(u as usize)
            } by {
                assert(self.tcbs@[u] == o.tcbs@[u]);
            }
            assert forall|n: int|
                0 <= n < self.ntfns@.len() && #[trigger] self.ntfns@[n].bound_tcb is Some implies {
                let u = self.ntfns@[n].bound_tcb->0 as int;
                0 <= u < self.tcbs@.len() && self.tcbs@[u].tcbBoundNotification == Some(n as usize)
            } by {
                let u = self.ntfns@[n].bound_tcb->0 as int;
                assert(self.tcbs@[u] == o.tcbs@[u]);
            }
            assert(self.binding_ok());
            assert(self.shape_ok());
        }
        t
    }

    /// Adds an idle endpoint; returns its id.
    pub fn create_endpoint(&mut self) -> (e: usize)
        requires
            old(self).wf(),
            old(self).endpoints().len() + 1 < usize::MAX,
        ensures
            final(self).wf(),
            e == old(self).endpoints().len(),
            final(self).endpoints().len() == old(self).endpoints().len() + 1,
            forall|i: int| 0 <= i < e ==> #[trigger] final(self).endpoints()[i] == old(self).endpoints()[i],
            final(self).endpoints()[e as int].state == EPState::Idle,
            final(self).ep_queue(e as int).len() == 0,
            final(self).threads() == old(self).threads(),
            final(self).notifications() == old(self).notifications(),
            final(self).ready() == old(self).ready(),
            same_sched(final(self), old(self)),
    {
        let ghost o = *self;
        let e = self.eps.len();
        self.eps.push(endpoint { state: EPState::Idle, queue: Vec::new() });
        proof {
            assert forall|e2: int, k: int|
                0 <= e2 < self.eps@.len() && 0 <= k < self.eps@[e2].queue@.len() implies {
                let u = #[trigger] self.eps@[e2].queue@[k];
                &&& u < self.tcbs@.len()
                &&& self.tcbs@[u as int].tcbBlockingObject == e2
                &&& (self.eps@[e2].state == EPState::Send ==> self.tcbs@[u as int].tcbState
                    == ThreadState::ThreadStateBlockedOnSend)
                &&& (self.eps@[e2].state == EPState::Recv ==> self.tcbs@[u as int].tcbState
                    == ThreadState::ThreadStateBlockedOnReceive)
            } by {
                assert(self.eps@[e2] == o.eps@[e2]);
            }
            assert forall|e2: int|
                0 <= e2 < self.eps@.len() implies no_dups(#[trigger] self.eps@[e2].queue@) && (
                self.eps@[e2].state == EPState::Idle <==> self.eps@[e2].queue@.len() == 0) by {
                if e2 < e {
                    assert(self.eps@[e2] == o.eps@[e2]);
                }
            }
            assert forall|u: int|
                0 <= u < self.tcbs@.len() && (#[trigger] self.tcbs@[u].tcbState
                    == ThreadState::ThreadStateBlockedOnSend || self.tcbs@[u].tcbState
                    == ThreadState::ThreadStateBlockedOnReceive) implies {
                let e2 = self.tcbs@[u].tcbBlockingObject as int;
                0 <= e2 < self.eps@.len() && self.eps@[e2].queue@.contains(u as usize)
            } by {
                let e2 = self.tcbs@[u].tcbBlockingObject as int;
                assert(self.eps@[e2] == o.eps@[e2]);
            }
            assert(self.eps_ok());
            assert(self.shape_ok());
        }
        e
    }

    /// Adds an idle notification with no bound thread; returns its id.
    pub fn create_notification(&mut self) -> (n: usize)
        requires
            old(self).wf(),
            old(self).notifications().len() + 1 < usize::MAX,
        ensures
            final(self).wf(),
            n == old(self).notifications().len(),
            final(self).notifications().len() == old(self).notifications().len() + 1,
            forall|i: int| 0 <= i < n ==> #[trigger] final(self).notifications()[i] == old(self).notifications()[i],
            final(self).notifications()[n as int].state == NtfnState::Idle,
            final(self).ntfn_queue(n as int).len() == 0,
            final(self).notifications()[n as int].msg_identifier == 0,
            final(self).notifications()[n as int].bound_tcb is None,
            final(self).threads() == old(self).threads(),
            final(self).endpoints() == old(self).endpoints(),
            final(self).ready() == old(self).ready(),
            same_sched(final(self), old(self)),
    {
        let ghost o = *self;
        let n = self.ntfns.len();
        self.ntfns.push(notification { state: NtfnState::Idle, queue: Vec::new(), msg_identifier: 0, bound_tcb: None });
        proof {
            assert forall|m: int, k: int|
                0 <= m < self.ntfns@.len() && 0 <= k < self.ntfns@[m].queue@.len() implies {
                let u = #[trigger] self.ntfns@[m].queue@[k];
                &&& u < self.tcbs@.len()
                &&& self.tcbs@[u as int].tcbBlockingObject == m
                &&& self.tcbs@[u as int].tcbState == ThreadState::ThreadStateBlockedOnNotification
            } by {
                assert(self.ntfns@[m] == o.ntfns@[m]);
            }
            assert forall|m: int|
                0 <= m < self.ntfns@.len() implies no_dups(#[trigger] self.ntfns@[m].queue@) && (
                self.ntfns@[m].state == NtfnState::Waiting <==> self.ntfns@[m].queue@.len() > 0) by {
                if m < n {
                    assert(self.ntfns@[m] == o.ntfns@[m]);
                }
            }
            assert forall|u: int|
                0 <= u < self.tcbs@.len() && #[trigger] self.tcbs@[u].tcbState
                    == ThreadState::ThreadStateBlockedOnNotification implies {
                let m = self.tcbs@[u].tcbBlockingObject as int;
                0 <= m < self.ntfns@.len() && self.ntfns@[m].queue@.contains(u as usize)
            } by {
                let m = self.tcbs@[u].tcbBlockingObject as int;
                assert(self.ntfns@[m] == o.ntfns@[m]);
            }
            assert(self.ntfns_ok());
            assert forall|u: int|
                0 <= u < self.tcbs@.len() && #[trigger] self.tcbs@[u].tcbBoundNotification is Some
                    implies {
                let m = self.tcbs@[u].tcbBoundNotification->0 as int;
                0 <= m < self.ntfns@.len() && self.ntfns@[m].bound_tcb == Some(u as usize)
            } by {
                let m = self.tcbs@[u].tcbBoundNotification->0 as int;
                assert(self.ntfns@[m] == o.ntfns@[m]);
            }
            assert forall|m: int|
                0 <= m < self.ntfns@.len() && #[trigger] self.ntfns@[m].bound_tcb is Some implies {
                let u = self.ntfns@[m].bound_tcb->0 as int;
                0 <= u < self.tcbs@.len() && self.tcbs@[u].tcbBoundNotification == Some(m as usize)
            } by {
                assert(self.ntfns@[m] == o.ntfns@[m]);
            }
            assert(self.binding_ok());
            assert(self.shape_ok());
        }
        n
    }
}

impl KernelState {
    /// Takes thread `t` out of the endpoint or notification queue it is blocked in, and
    /// makes it inactive; a thread blocked on nothing is left as it is.
    pub fn cancel_ipc(&mut self, t: usize)
        requires
            old(self).wf(),
            t < old(self).threads().len(),
        ensures
            final(self).wf(),
            final(self).threads().len() == old(self).threads().len(),
            !Self::blocked_on_ipc(final(self).state_of(t as int)),
            !final(self).in_ipc_queue(t),
            Self::blocked_on_ipc(old(self).state_of(t as int)) ==> final(self).threads() == old(self).threads().update(
                t as int,
                tcb_t { tcbState: ThreadState::ThreadStateInactive, ..old(self).threads()[t as int] },
            ),
            !Self::blocked_on_ipc(old(self).state_of(t as int)) ==> *final(self) == *old(self),
            Self::blocked_on_ipc(old(self).state_of(t as int)) ==> !old(self).threads()[t as int].tcbQueued,
            final(self).ready() == old(self).ready(),
            same_sched(final(self), old(self)),
    {
        let ghost o = *self;
        proof {
            o.lemma_tcb_params(t as int);
        }
        let st = self.tcbs[t].tcbState;
        match st {
            ThreadState::ThreadStateBlockedOnSend | ThreadState::ThreadStateBlockedOnReceive => {
                let e = self.tcbs[t].tcbBlockingObject;
                let k = crate::scheduler::position_of(&self.eps[e].queue, t);
                let r = self.ep_remove(e, k, ThreadState::ThreadStateInactive);
                assert(r == t);
            },
            ThreadState::ThreadStateBlockedOnNotification => {
                let n = self.tcbs[t].tcbBlockingObject;
                let k = crate::scheduler::position_of(&self.ntfns[n].queue, t);
                let r = self.ntfn_remove(n, k, ThreadState::ThreadStateInactive);
                assert(r == t);
            },
            _ => {},
        }
        proof {
            self.lemma_not_ipc_blocked_absent(t);
        }
    }

    /// Suspends thread `t`: whatever it was doing, it ends inactive, in no ready queue and
    /// no IPC queue. A thread that is already inactive is left exactly as it is, so a
    /// second suspend changes nothing. When `t` runs on its core, that core must
    /// reschedule.
    #[verifier::rlimit(60)]
    pub fn suspend(&mut self, t: usize)
        requires
            old(self).wf(),
            t < old(self).threads().len(),
        ensures
            final(self).wf(),
            final(self).threads().len() == old(self).threads().len(),
            final(self).state_of(t as int) == ThreadState::ThreadStateInactive,
            !final(self).threads()[t as int].tcbQueued,
            !final(self).in_ready_queue(t),
            !final(self).in_ipc_queue(t),
            old(self).state_of(t as int) == ThreadState::ThreadStateInactive ==> *final(self) == *old(self),
            final(self).threads() == old(self).threads().update(
                t as int,
                tcb_t {
                    tcbState: ThreadState::ThreadStateInactive,
                    tcbQueued: false,
                    ..old(self).threads()[t as int]
                },
            ),
            same_objects(final(self), old(self)) || Self::blocked_on_ipc(old(self).state_of(t as int)),
            final(self).current() == old(self).current(),
            final(self).domain() == old(self).domain(),
    {
        let ghost o = *self;
        proof {
            o.lemma_tcb_params(t as int);
        }
        if self.tcbs[t].tcbState == ThreadState::ThreadStateInactive {
            proof {
                if o.tcbs@[t as int].tcbQueued {
                    assert(o.tcbs@[t as int].tcbState.runnable());
                }
                o.lemma_unqueued_absent(t);
                o.lemma_not_ipc_blocked_absent(t);
                assert(!self.in_ready_queue(t)) by {
                    self.rq.lemma_len();
                    if self.in_ready_queue(t) {
                        let q = choose|q: int| 0 <= q < self.ready().len() && #[trigger] self.ready()[q].contains(t);
                        assert(!self.rq@[q].contains(t));
                    }
                }
                assert(self.tcbs@ =~= o.tcbs@.update(t as int, tcb_t {
                    tcbState: ThreadState::ThreadStateInactive,
                    tcbQueued: false,
                    ..o.tcbs@[t as int]
                }));
            }
            return;
        }
        self.cancel_ipc(t);
        self.ready_dequeue(t);
        self.set_state_free(t, ThreadState::ThreadStateInactive);
        let aff = self.tcbs[t].tcbAffinity;
        if self.cur_thread[aff] == t {
            self.reschedule.set(aff, true);
        }
        proof {
            assert(self.shape_ok());
            self.rq.lemma_len();
            self.lemma_unqueued_absent(t);
            self.lemma_not_ipc_blocked_absent(t);
            assert(!self.in_ready_queue(t)) by {
                if self.in_ready_queue(t) {
                    let q = choose|q: int| 0 <= q < self.ready().len() && #[trigger] self.ready()[q].contains(t);
                    assert(!self.rq@[q].contains(t));
                }
            }
            assert(self.tcbs@ =~= o.tcbs@.update(t as int, tcb_t {
                tcbState: ThreadState::ThreadStateInactive,
                tcbQueued: false,
                ..o.tcbs@[t as int]
            }));
        }
    }

    /// Restarts a stopped thread `t` on behalf of core `cpu`: any IPC it was blocked in is
    /// cancelled, it becomes `Restart`, joins the head of its ready queue, and is offered
    /// to `possible_switch_to`. A runnable thread is left as it is.
    #[verifier::rlimit(60)]
    pub fn restart(&mut self, cpu: usize, t: usize)
        requires
            old(self).wf(),
            cpu < CONFIG_MAX_NUM_NODES,
            t < old(self).threads().len(),
        ensures
            final(self).wf(),
            final(self).threads().len() == old(self).threads().len(),
            old(self).state_of(t as int).runnable() ==> *final(self) == *old(self),
            old(self).state_of(t as int).stopped() ==> final(self).state_of(t as int) == ThreadState::ThreadStateRestart
                && final(self).threads()[t as int].tcbQueued
                && !final(self).in_ipc_queue(t)
                && final(self).ready()[old(self).threads()[t as int].sched_slot()][0] == t,
            final(self).current() == old(self).current(),
            final(self).domain() == old(self).domain(),
    {
        proof {
            old(self).lemma_tcb_params(t as int);
        }
        if self.tcbs[t].is_stopped() {
            proof {
                if old(self).tcbs@[t as int].tcbQueued {
                    assert(old(self).tcbs@[t as int].tcbState.runnable());
                }
            }
            self.cancel_ipc(t);
            self.set_state_free(t, ThreadState::ThreadStateRestart);
            let ghost before = *self;
            self.ready_enqueue(cpu, t, true);
            let ghost mid = *self;
            proof {
                before.lemma_wf_shape();
                old(self).lemma_tcb_params(t as int);
                assert(!before.threads()[t as int].tcbQueued);
                assert(before.threads()[t as int].sched_slot() == old(self).threads()[t as int].sched_slot());
                assert(mid.ready()[old(self).threads()[t as int].sched_slot()][0] == t);
            }
            self.possible_switch_to(cpu, t);
            proof {
                self.lemma_not_ipc_blocked_absent(t);
                assert(self.ready() == mid.ready());
            }
        }
    }

    /// Gives unqueued thread `t` new scheduling parameters.
    fn set_sched_params(&mut self, t: usize, prio: usize, dom: usize, core: usize)
        requires
            old(self).wf(),
            t < old(self).threads().len(),
            !old(self).threads()[t as int].tcbQueued,
            valid_sched_params(core as int, dom as int, prio as int),
        ensures
            final(self).wf(),
            final(self).threads() == old(self).threads().update(
                t as int,
                tcb_t { tcbPriority: prio, domain: dom, tcbAffinity: core, ..old(self).threads()[t as int] },
            ),
            final(self).ready() == old(self).ready(),
            same_objects(final(self), old(self)),
            same_sched(final(self), old(self)),
    {
        self.tcbs[t].tcbPriority = prio;
        self.tcbs[t].domain = dom;
        migrate_tcb(&mut self.tcbs[t], core);
        proof {
            assert(self.tcbs@ == old(self).tcbs@.update(t as int, self.tcbs@[t as int]));
            old(self).lemma_tcb_params(t as int);
            Self::lemma_frame_thread(old(self), self, t);
        }
    }

    /// Sets the priority of thread `t` on behalf of core `cpu`. The thread leaves its
    /// ready queue; if runnable, it either makes `cpu` reschedule (when it runs on its
    /// core) or is offered to `possible_switch_to`.
    pub fn set_priority(&mut self, cpu: usize, t: usize, prio: usize)
        requires
            old(self).wf(),
            cpu < CONFIG_MAX_NUM_NODES,
            t < old(self).threads().len(),
            prio < CONFIG_NUM_PRIORITIES,
        ensures
            final(self).wf(),
            final(self).threads()[t as int].tcbPriority == prio,
            final(self).state_of(t as int) == old(self).state_of(t as int),
            final(self).threads()[t as int].tcbQueued == (old(self).state_of(t as int).runnable()
                && old(self).current()[old(self).threads()[t as int].tcbAffinity as int] != t),
            final(self).threads().len() == old(self).threads().len(),
            forall|u: int| 0 <= u < old(self).threads().len() && u != t ==> #[trigger] final(self).threads()[u] == old(self).threads()[u],
            final(self).threads()[t as int] == (tcb_t {
                tcbPriority: prio,
                tcbQueued: old(self).state_of(t as int).runnable()
                    && old(self).current()[old(self).threads()[t as int].tcbAffinity as int] != t,
                ..old(self).threads()[t as int]
            }),
            final(self).current() == old(self).current(),
            same_objects(final(self), old(self)),
            exists|mid: Seq<Seq<usize>>|
                #[trigger] dequeued_from(old(self).ready(), old(self).threads()[t as int], mid)
                    && final(self).ready() == if old(self).state_of(t as int).runnable()
                    && old(self).current()[old(self).threads()[t as int].tcbAffinity as int] != t {
                    enqueued(
                        mid,
                        tcb_t { tcbPriority: prio, tcbQueued: false, ..old(self).threads()[t as int] },
                        t,
                        old(self).rejoins_at_head(cpu, t, prio),
                    )
                } else {
                    mid
                },
            final(self).resched() == if old(self).state_of(t as int).runnable() && (
            old(self).current()[old(self).threads()[t as int].tcbAffinity as int] == t
                || old(self).outranks_running(cpu, t, prio)) {
                old(self).resched().update(cpu as int, true)
            } else {
                old(self).resched()
            },
    {
        proof {
            old(self).lemma_tcb_params(t as int);
            old(self).lemma_wf_shape();
        }
        self.ready_dequeue(t);
        let ghost mid = self.ready();
        let dom = self.tcbs[t].domain;
        let core = self.tcbs[t].tcbAffinity;
        self.set_sched_params(t, prio, dom, core);
        if self.tcbs[t].is_runnable() {
            if self.cur_thread[core] == t {
                self.reschedule_required(cpu);
            } else {
                let ghost before = *self;
                proof {
                    assert(before.threads()[t as int] == (tcb_t { tcbPriority: prio, tcbQueued: false, ..old(self).threads()[t as int] }));
                    assert(before.joins_at_head(cpu, t) == old(self).rejoins_at_head(cpu, t, prio));
                    assert(before.preempts(cpu, t) == old(self).outranks_running(cpu, t, prio));
                }
                self.possible_switch_to(cpu, t);
            }
        }
        proof {
            assert(dequeued_from(old(self).ready(), old(self).threads()[t as int], mid));
        }
    }

    /// Whether `t`, given priority `prio`, would outrank the thread running on `cpu`.
    pub open spec fn outranks_running(&self, cpu: usize, t: usize, prio: usize) -> bool {
        let tcb = self.threads()[t as int];
        let cur = self.current()[cpu as int];
        let cur_prio = if cur == t { prio } else { self.threads()[cur as int].tcbPriority };
        &&& tcb.tcbAffinity == cpu
        &&& tcb.domain == self.domain()
        &&& prio > cur_prio
    }

    /// Whether `t`, given priority `prio`, rejoins the head of its queue.
    pub open spec fn rejoins_at_head(&self, cpu: usize, t: usize, prio: usize) -> bool {
        let tcb = self.threads()[t as int];
        tcb.tcbAffinity != cpu || tcb.domain != self.domain() || self.outranks_running(cpu, t, prio)
    }

    /// Sets the maximum controlled priority of thread `t`.
    pub fn set_mcp(&mut self, t: usize, mcp: usize)
        requires
            old(self).wf(),
            t < old(self).threads().len(),
        ensures
            final(self).wf(),
            final(self).threads().len() == old(self).threads().len(),
            final(self).threads() == old(self).threads().update(
                t as int,
                tcb_t { tcbMCP: mcp, ..old(self).threads()[t as int] },
            ),
            final(self).ready() == old(self).ready(),
            same_objects(final(self), old(self)),
            same_sched(final(self), old(self)),
    {
        self.tcbs[t].set_mc_priority(mcp);
        proof {
            assert(self.tcbs@ == old(self).tcbs@.update(t as int, self.tcbs@[t as int]));
            old(self).lemma_tcb_params(t as int);
            Self::lemma_frame_thread(old(self), self, t);
        }
    }

    /// Moves thread `t` to domain `dom`: it leaves its ready queue, joins the head of the
    /// new domain's queue when runnable, and core `cpu` reschedules when `t` is running on
    /// its core.
    pub fn set_domain(&mut self, cpu: usize, t: usize, dom: usize)
        requires
            old(self).wf(),
            cpu < CONFIG_MAX_NUM_NODES,
            t < old(self).threads().len(),
            dom < CONFIG_NUM_DOMAINS,
        ensures
            final(self).wf(),
            final(self).threads().len() == old(self).threads().len(),
            final(self).threads() == old(self).threads().update(
                t as int,
                tcb_t { domain: dom, tcbQueued: old(self).state_of(t as int).runnable(), ..old(self).threads()[t as int] },
            ),
            exists|mid: Seq<Seq<usize>>|
                #[trigger] dequeued_from(old(self).ready(), old(self).threads()[t as int], mid)
                    && final(self).ready() == if old(self).state_of(t as int).runnable() {
                    enqueued(mid, tcb_t { domain: dom, tcbQueued: false, ..old(self).threads()[t as int] }, t, true)
                } else {
                    mid
                },
            final(self).resched() == if old(self).current()[old(self).threads()[t as int].tcbAffinity as int] == t {
                old(self).resched().update(cpu as int, true)
            } else {
                old(self).resched()
            },
            final(self).current() == old(self).current(),
            same_objects(final(self), old(self)),
    {
        proof {
            old(self).lemma_tcb_params(t as int);
            old(self).lemma_wf_shape();
        }
        self.ready_dequeue(t);
        let ghost mid = self.ready();
        let prio = self.tcbs[t].tcbPriority;
        let core = self.tcbs[t].tcbAffinity;
        self.set_sched_params(t, prio, dom, core);
        if self.tcbs[t].is_schedulable() {
            self.ready_enqueue(cpu, t, true);
        }
        if self.cur_thread[core] == t {
            self.reschedule_required(cpu);
        }
        proof {
            assert(dequeued_from(old(self).ready(), old(self).threads()[t as int], mid));
            assert(self.threads() =~= old(self).threads().update(
                t as int,
                tcb_t { domain: dom, tcbQueued: old(self).state_of(t as int).runnable(), ..old(self).threads()[t as int] },
            ));
        }
    }

    /// Moves thread `t` to core `core`: it leaves its ready queue and joins the tail of
    /// its queue on the new core when runnable; core `cpu` reschedules when `t` is running.
    pub fn set_affinity(&mut self, cpu: usize, t: usize, core: usize)
        requires
            old(self).wf(),
            cpu < CONFIG_MAX_NUM_NODES,
            t < old(self).threads().len(),
            core < CONFIG_MAX_NUM_NODES,
        ensures
            final(self).wf(),
            final(self).threads().len() == old(self).threads().len(),
            final(self).threads() == old(self).threads().update(
                t as int,
                tcb_t { tcbAffinity: core, tcbQueued: old(self).state_of(t as int).runnable(), ..old(self).threads()[t as int] },
            ),
            exists|mid: Seq<Seq<usize>>|
                #[trigger] dequeued_from(old(self).ready(), old(self).threads()[t as int], mid)
                    && final(self).ready() == if old(self).state_of(t as int).runnable() {
                    enqueued(mid, tcb_t { tcbAffinity: core, tcbQueued: false, ..old(self).threads()[t as int] }, t, false)
                } else {
                    mid
                },
            final(self).resched() == if old(self).current()[old(self).threads()[t as int].tcbAffinity as int] == t {
                old(self).resched().update(cpu as int, true)
            } else {
                old(self).resched()
            },
            final(self).current() == old(self).current(),
            same_objects(final(self), old(self)),
    {
        proof {
            old(self).lemma_tcb_params(t as int);
            old(self).lemma_wf_shape();
        }
        let old_core = self.tcbs[t].tcbAffinity;
        let running = self.cur_thread[old_core] == t;
        self.ready_dequeue(t);
        let ghost mid = self.ready();
        let prio = self.tcbs[t].tcbPriority;
        let dom = self.tcbs[t].domain;
        self.set_sched_params(t, prio, dom, core);
        if self.tcbs[t].is_runnable() {
            self.ready_enqueue(cpu, t, false);
        }
        if running {
            self.reschedule_required(cpu);
        }
        proof {
            assert(dequeued_from(old(self).ready(), old(self).threads()[t as int], mid));
            assert(self.threads() =~= old(self).threads().update(
                t as int,
                tcb_t { tcbAffinity: core, tcbQueued: old(self).state_of(t as int).runnable(), ..old(self).threads()[t as int] },
            ));
        }
    }
}

/// Moves a thread record to another core.
pub fn migrate_tcb(tcb: &mut tcb_t, new_core: usize)
    ensures
        *final(tcb) == (tcb_t { tcbAffinity: new_core, ..*old(tcb) }),
{
    tcb.tcbAffinity = new_core;
}

/// The registers of a receiver after a message: the message-info and message registers
/// come from the sender, and the badge register holds `badge`.
pub open spec fn message_delivered(src: Seq<usize>, dst: Seq<usize>, badge: usize) -> Seq<usize> {
    dst.update(1, src[1]).update(2, src[2]).update(3, src[3]).update(4, src[4]).update(5, src[5]).update(0, badge)
}

/// The word a notification holds after a signal with `badge`: merged into the word
/// while active, the badge alone otherwise.
pub open spec fn signal_word(st: NtfnState, word: usize, badge: usize) -> usize {
    if st == NtfnState::Active {
        word | badge
    } else {
        badge
    }
}

impl KernelState {
    /// Sets the state and word of a notification that has no waiters.
    fn ntfn_set(&mut self, n: usize, st: NtfnState, word: usize)
        requires
            old(self).wf(),
            n < old(self).notifications().len(),
            old(self).ntfn_queue(n as int).len() == 0,
            st != NtfnState::Waiting,
        ensures
            final(self).wf(),
            final(self).notifications().len() == old(self).notifications().len(),
            forall|m: int| 0 <= m < old(self).notifications().len() && m != n ==> #[trigger] final(self).notifications()[m] == old(self).notifications()[m],
            final(self).notifications()[n as int].state == st,
            final(self).notifications()[n as int].msg_identifier == word,
            final(self).ntfn_queue(n as int).len() == 0,
            final(self).notifications()[n as int].bound_tcb == old(self).notifications()[n as int].bound_tcb,
            final(self).threads() == old(self).threads(),
            final(self).endpoints() == old(self).endpoints(),
            final(self).ready() == old(self).ready(),
            same_sched(final(self), old(self)),
    {
        let ghost o = *self;
        self.ntfns[n].state = st;
        self.ntfns[n].msg_identifier = word;
        proof {
            assert forall|m: int, k: int|
                0 <= m < self.ntfns@.len() && 0 <= k < self.ntfns@[m].queue@.len() implies {
                let u = #[trigger] self.ntfns@[m].queue@[k];
                &&& u < self.tcbs@.len()
                &&& self.tcbs@[u as int].tcbBlockingObject == m
                &&& self.tcbs@[u as int].tcbState == ThreadState::ThreadStateBlockedOnNotification
            } by {
                assert(self.ntfns@[m].queue@ == o.ntfns@[m].queue@);
                assert(o.ntfns@[m].queue@[k] == self.ntfns@[m].queue@[k]);
            }
            assert forall|m: int|
                0 <= m < self.ntfns@.len() implies no_dups(#[trigger] self.ntfns@[m].queue@) && (
                self.ntfns@[m].state == NtfnState::Waiting <==> self.ntfns@[m].queue@.len() > 0) by {
                assert(no_dups(o.ntfns@[m].queue@));
            }
            assert forall|u: int|
                0 <= u < self.tcbs@.len() && #[trigger] self.tcbs@[u].tcbState
                    == ThreadState::ThreadStateBlockedOnNotification implies {
                let m = self.tcbs@[u].tcbBlockingObject as int;
                0 <= m < self.ntfns@.len() && self.ntfns@[m].queue@.contains(u as usize)
            } by {
                let m = self.tcbs@[u].tcbBlockingObject as int;
                assert(o.ntfns@[m].queue@.contains(u as usize));
                assert(self.ntfns@[m].queue@ == o.ntfns@[m].queue@);
            }
            assert(self.ntfns_ok());
            assert forall|u: int|
                0 <= u < self.tcbs@.len() && #[trigger] self.tcbs@[u].tcbBoundNotification is Some
                    implies {
                let m = self.tcbs@[u].tcbBoundNotification->0 as int;
                0 <= m < self.ntfns@.len() && self.ntfns@[m].bound_tcb == Some(u as usize)
            } by {
            }
            assert forall|m: int|
                0 <= m < self.ntfns@.len() && #[trigger] self.ntfns@[m].bound_tcb is Some implies {
                let u = self.ntfns@[m].bound_tcb->0 as int;
                0 <= u < self.tcbs@.len() && self.tcbs@[u].tcbBoundNotification == Some(m as usize)
            } by {
                assert(o.ntfns@[m].bound_tcb == self.ntfns@[m].bound_tcb);
            }
            assert(self.binding_ok());
            assert(self.shape_ok());
        }
    }

    /// Links thread `t` and notification `n` to each other, or, with `bind` false,
    /// clears the link of `t` and of the notification it names.
    #[verifier::rlimit(60)]
    fn set_binding(&mut self, t: usize, n: usize, bind: bool)
        requires
            old(self).wf(),
            t < old(self).threads().len(),
            n < old(self).notifications().len(),
            bind ==> old(self).threads()[t as int].tcbBoundNotification is None && old(self).notifications()[n as int].bound_tcb is None,
            !bind ==> old(self).threads()[t as int].tcbBoundNotification == Some(n),
        ensures
            final(self).wf(),
            final(self).threads() == old(self).threads().update(
                t as int,
                tcb_t { tcbBoundNotification: if bind { Some(n) } else { None }, ..old(self).threads()[t as int] },
            ),
            final(self).notifications().len() == old(self).notifications().len(),
            forall|m: int| 0 <= m < old(self).notifications().len() && m != n ==> #[trigger] final(self).notifications()[m] == old(self).notifications()[m],
            final(self).notifications()[n as int].bound_tcb == if bind { Some(t) } else { None },
            final(self).notifications()[n as int].state == old(self).notifications()[n as int].state,
            final(self).notifications()[n as int].msg_identifier == old(self).notifications()[n as int].msg_identifier,
            final(self).ntfn_queue(n as int) == old(self).ntfn_queue(n as int),
            final(self).endpoints() == old(self).endpoints(),
            final(self).ready() == old(self).ready(),
            same_sched(final(self), old(self)),
    {
        let ghost o = *self;
        proof {
            o.lemma_tcb_params(t as int);
        }
        if bind {
            self.tcbs[t].bind_notification(n);
            self.ntfns[n].bound_tcb = Some(t);
        } else {
            self.tcbs[t].unbind_notification();
            self.ntfns[n].bound_tcb = None;
        }
        proof {
            let x = self.tcbs@[t as int];
            assert(self.tcbs@ == o.tcbs@.update(t as int, x));
            lemma_tcbs_update(o.tcbs@, t as int, x);
            assert forall|q: int, k: int|
                0 <= q < NUM_READY_QUEUES && 0 <= k < self.rq@[q].len() implies {
                let u = #[trigger] self.rq@[q][k];
                &&& u < self.tcbs@.len()
                &&& self.tcbs@[u as int].tcbQueued
                &&& self.tcbs@[u as int].sched_slot() == q
            } by {
                o.lemma_member_queued(q, k);
            }
            assert forall|u: int|
                0 <= u < self.tcbs@.len() && #[trigger] self.tcbs@[u].tcbQueued implies self.rq@[self.tcbs@[
                u
            ].sched_slot()].contains(u as usize) && self.tcbs@[u].tcbState.runnable() by {
                assert(o.tcbs@[u].tcbQueued);
            }
            assert(self.ready_ok());
            assert forall|e: int, k: int|
                0 <= e < self.eps@.len() && 0 <= k < self.eps@[e].queue@.len() implies {
                let u = #[trigger] self.eps@[e].queue@[k];
                &&& u < self.tcbs@.len()
                &&& self.tcbs@[u as int].tcbBlockingObject == e
                &&& (self.eps@[e].state == EPState::Send ==> self.tcbs@[u as int].tcbState
                    == ThreadState::ThreadStateBlockedOnSend)
                &&& (self.eps@[e].state == EPState::Recv ==> self.tcbs@[u as int].tcbState
                    == ThreadState::ThreadStateBlockedOnReceive)
            } by {
                let u = self.eps@[e].queue@[k];
                assert(o.eps@[e].queue@[k] == u);
            }
            assert forall|u: int|
                0 <= u < self.tcbs@.len() && (#[trigger] self.tcbs@[u].tcbState
                    == ThreadState::ThreadStateBlockedOnSend || self.tcbs@[u].tcbState
                    == ThreadState::ThreadStateBlockedOnReceive) implies {
                let e = self.tcbs@[u].tcbBlockingObject as int;
                0 <= e < self.eps@.len() && self.eps@[e].queue@.contains(u as usize)
            } by {
                assert(o.tcbs@[u].tcbState == self.tcbs@[u].tcbState);
            }
            assert(self.eps_ok());
            assert forall|m: int, k: int|
                0 <= m < self.ntfns@.len() && 0 <= k < self.ntfns@[m].queue@.len() implies {
                let u = #[trigger] self.ntfns@[m].queue@[k];
                &&& u < self.tcbs@.len()
                &&& self.tcbs@[u as int].tcbBlockingObject == m
                &&& self.tcbs@[u as int].tcbState == ThreadState::ThreadStateBlockedOnNotification
            } by {
                assert(self.ntfns@[m].queue@ == o.ntfns@[m].queue@);
                assert(o.ntfns@[m].queue@[k] == self.ntfns@[m].queue@[k]);
            }
            assert forall|m: int|
                0 <= m < self.ntfns@.len() implies no_dups(#[trigger] self.ntfns@[m].queue@) && (
                self.ntfns@[m].state == NtfnState::Waiting <==> self.ntfns@[m].queue@.len() > 0) by {
                assert(no_dups(o.ntfns@[m].queue@));
            }
            assert forall|u: int|
                0 <= u < self.tcbs@.len() && #[trigger] self.tcbs@[u].tcbState
                    == ThreadState::ThreadStateBlockedOnNotification implies {
                let m = self.tcbs@[u].tcbBlockingObject as int;
                0 <= m < self.ntfns@.len() && self.ntfns@[m].queue@.contains(u as usize)
            } by {
                assert(o.tcbs@[u].tcbState == self.tcbs@[u].tcbState);
                let m = self.tcbs@[u].tcbBlockingObject as int;
                assert(o.ntfns@[m].queue@.contains(u as usize));
                assert(self.ntfns@[m].queue@ == o.ntfns@[m].queue@);
            }
            assert(self.ntfns_ok());
            assert forall|u: int|
                0 <= u < self.tcbs@.len() && #[trigger] self.tcbs@[u].tcbBoundNotification is Some
                    implies {
                let m = self.tcbs@[u].tcbBoundNotification->0 as int;
                0 <= m < self.ntfns@.len() && self.ntfns@[m].bound_tcb == Some(u as usize)
            } by {
                if u != t as int {
                    assert(o.tcbs@[u].tcbBoundNotification is Some);
                    let m = o.tcbs@[u].tcbBoundNotification->0 as int;
                    if m == n as int {
                        if !bind {
                            assert(o.ntfns@[m].bound_tcb == Some(u as usize));
                            assert(o.ntfns@[m].bound_tcb is Some);
                            assert(o.tcbs@[t as int].tcbBoundNotification == Some(n));
                            assert(o.ntfns@[m].bound_tcb == Some(t));
                        }
                    }
                }
            }
            assert forall|m: int|
                0 <= m < self.ntfns@.len() && #[trigger] self.ntfns@[m].bound_tcb is Some implies {
                let u = self.ntfns@[m].bound_tcb->0 as int;
                0 <= u < self.tcbs@.len() && self.tcbs@[u].tcbBoundNotification == Some(m as usize)
            } by {
                if m != n as int {
                    assert(o.ntfns@[m].bound_tcb is Some);
                    let u = o.ntfns@[m].bound_tcb->0 as int;
                    if u == t as int {
                        if bind {
                            assert(o.tcbs@[t as int].tcbBoundNotification is Some);
                        } else {
                            assert(o.tcbs@[t as int].tcbBoundNotification == Some(m as usize));
                        }
                    }
                }
            }
            assert(self.binding_ok());
            assert(self.shape_ok());
        }
    }

    /// Binds notification `n` to thread `t`. Fails with `IllegalOperation` when `t` is
    /// already bound, when `n` already has waiting receivers, or when `n` is already
    /// bound to a thread.
    pub fn bind_notification(&mut self, t: usize, n: usize) -> (r: Result<(), KernelError>)
        requires
            old(self).wf(),
            t < old(self).threads().len(),
            n < old(self).notifications().len(),
        ensures
            final(self).wf(),
            final(self).threads().len() == old(self).threads().len(),
            r is Err <==> (old(self).threads()[t as int].tcbBoundNotification is Some
                || old(self).ntfn_queue(n as int).len() > 0
                || old(self).notifications()[n as int].bound_tcb is Some),
            r is Err ==> r == Err::<(), KernelError>(KernelError::IllegalOperation) && *final(self) == *old(self),
            r is Ok ==> final(self).threads()[t as int].tcbBoundNotification == Some(n)
                && final(self).notifications()[n as int].bound_tcb == Some(t),
    {
        if self.tcbs[t].tcbBoundNotification.is_some() {
            return Err(KernelError::IllegalOperation);
        }
        if self.ntfns[n].queue.len() > 0 {
            return Err(KernelError::IllegalOperation);
        }
        if self.ntfns[n].bound_tcb.is_some() {
            return Err(KernelError::IllegalOperation);
        }
        self.set_binding(t, n, true);
        Ok(())
    }

    /// Unbinds the notification of thread `t`. Fails with `IllegalOperation` when `t`
    /// has none.
    pub fn unbind_notification(&mut self, t: usize) -> (r: Result<(), KernelError>)
        requires
            old(self).wf(),
            t < old(self).threads().len(),
        ensures
            final(self).wf(),
            final(self).threads().len() == old(self).threads().len(),
            r is Err <==> old(self).threads()[t as int].tcbBoundNotification is None,
            r is Err ==> r == Err::<(), KernelError>(KernelError::IllegalOperation) && *final(self) == *old(self),
            r is Ok ==> final(self).threads()[t as int].tcbBoundNotification is None
                && final(self).notifications()[old(self).threads()[t as int].tcbBoundNotification->0 as int].bound_tcb is None,
    {
        match self.tcbs[t].tcbBoundNotification {
            None => Err(KernelError::IllegalOperation),
            Some(n) => {
                proof {
                    assert(old(self).tcbs@[t as int].tcbBoundNotification is Some);
                }
                self.set_binding(t, n, false);
                Ok(())
            },
        }
    }

    /// Copies the message of `sender` into `receiver` and gives `receiver` the badge.
    fn do_ipc_transfer(&mut self, sender: usize, receiver: usize, badge: usize)
        requires
            old(self).wf(),
            sender < old(self).threads().len(),
            receiver < old(self).threads().len(),
            sender != receiver,
        ensures
            final(self).wf(),
            final(self).threads() == old(self).threads().update(receiver as int, final(self).threads()[receiver as int]),
            final(self).threads()[receiver as int] == (tcb_t {
                tcbArch: final(self).threads()[receiver as int].tcbArch,
                ..old(self).threads()[receiver as int]
            }),
            final(self).threads()[receiver as int].tcbArch.regs() == message_delivered(
                old(self).threads()[sender as int].tcbArch.regs(),
                old(self).threads()[receiver as int].tcbArch.regs(),
                badge,
            ),
            final(self).ready() == old(self).ready(),
            same_objects(final(self), old(self)),
            same_sched(final(self), old(self)),
    {
        proof {
            old(self).lemma_tcb_params(sender as int);
            old(self).lemma_tcb_params(receiver as int);
        }
        let info = self.tcbs[sender].tcbArch.get_register(ArchReg::MsgInfo);
        let m0 = self.tcbs[sender].tcbArch.get_register(ArchReg::Msg(0));
        let m1 = self.tcbs[sender].tcbArch.get_register(ArchReg::Msg(1));
        let m2 = self.tcbs[sender].tcbArch.get_register(ArchReg::Msg(2));
        let m3 = self.tcbs[sender].tcbArch.get_register(ArchReg::Msg(3));
        self.set_tcb_register(receiver, ArchReg::MsgInfo, info);
        self.set_tcb_register(receiver, ArchReg::Msg(0), m0);
        self.set_tcb_register(receiver, ArchReg::Msg(1), m1);
        self.set_tcb_register(receiver, ArchReg::Msg(2), m2);
        self.set_tcb_register(receiver, ArchReg::Msg(3), m3);
        self.set_tcb_register(receiver, ArchReg::Badge, badge);
        proof {
            assert(self.tcbs@ =~= old(self).tcbs@.update(receiver as int, self.tcbs@[receiver as int]));
        }
    }

    /// Records `caller` as the thread a reply from `t` goes to, and whether the reply
    /// may grant capabilities.
    fn set_caller(&mut self, t: usize, caller: Option<usize>, can_grant: bool)
        requires
            old(self).wf(),
            t < old(self).threads().len(),
        ensures
            final(self).wf(),
            final(self).threads() == old(self).threads().update(
                t as int,
                tcb_t { tcbCaller: caller, tcbCallerCanGrant: can_grant, ..old(self).threads()[t as int] },
            ),
            final(self).ready() == old(self).ready(),
            same_objects(final(self), old(self)),
            same_sched(final(self), old(self)),
    {
        self.tcbs[t].tcbCaller = caller;
        self.tcbs[t].tcbCallerCanGrant = can_grant;
        proof {
            assert(self.tcbs@ == old(self).tcbs@.update(t as int, self.tcbs@[t as int]));
            old(self).lemma_tcb_params(t as int);
            Self::lemma_frame_thread(old(self), self, t);
        }
    }
}

impl KernelState {
    /// Sends on endpoint `e` from the running thread `sender`, on core `cpu`.
    ///
    /// With a receiver waiting, the first one leaves the queue, gets the message and the
    /// badge, becomes `Running` and is offered to `possible_switch_to`; a call then
    /// blocks the sender on the reply (recording it as the receiver's caller) when it may
    /// grant, and makes it inactive otherwise. With no receiver, a blocking send joins
    /// the tail of the endpoint's queue as `BlockedOnSend`; a non-blocking send is dropped.
    #[verifier::rlimit(60)]
    pub fn send_ipc(
        &mut self,
        cpu: usize,
        e: usize,
        sender: usize,
        blocking: bool,
        is_call: bool,
        can_grant: bool,
        badge: usize,
        can_grant_reply: bool,
    )
        requires
            old(self).wf(),
            cpu < CONFIG_MAX_NUM_NODES,
            e < old(self).endpoints().len(),
            sender < old(self).threads().len(),
            old(self).state_of(sender as int).runnable(),
        ensures
            final(self).wf(),
            final(self).threads().len() == old(self).threads().len(),
            final(self).endpoints().len() == old(self).endpoints().len(),
            final(self).notifications() == old(self).notifications(),
            final(self).current() == old(self).current(),
            old(self).endpoints()[e as int].state == EPState::Recv ==> {
                let dest = send_target(old(self).ep_queue(e as int));
                &&& final(self).ep_queue(e as int) == ep_after_send(old(self).ep_queue(e as int))
                &&& final(self).state_of(dest as int) == ThreadState::ThreadStateRunning
                &&& final(self).threads()[dest as int].tcbQueued
                &&& final(self).threads()[dest as int].tcbArch.regs() == message_delivered(
                    old(self).threads()[sender as int].tcbArch.regs(),
                    old(self).threads()[dest as int].tcbArch.regs(),
                    badge,
                )
                &&& final(self).state_of(sender as int) == if !is_call {
                    old(self).state_of(sender as int)
                } else if can_grant || can_grant_reply {
                    ThreadState::ThreadStateBlockedOnReply
                } else {
                    ThreadState::ThreadStateInactive
                }
                &&& (is_call && (can_grant || can_grant_reply) ==> final(self).threads()[dest as int].tcbCaller == Some(sender))
            },
            old(self).endpoints()[e as int].state != EPState::Recv && blocking ==> {
                &&& final(self).ep_queue(e as int) == old(self).ep_queue(e as int).push(sender)
                &&& final(self).endpoints()[e as int].state == EPState::Send
                &&& final(self).state_of(sender as int) == ThreadState::ThreadStateBlockedOnSend
                &&& !final(self).threads()[sender as int].tcbQueued
            },
            old(self).endpoints()[e as int].state != EPState::Recv && !blocking ==> *final(self) == *old(self),
            forall|e2: int| 0 <= e2 < old(self).endpoints().len() && e2 != e ==> #[trigger] final(self).endpoints()[e2] == old(self).endpoints()[e2],
    {
        let ghost o = *self;
        proof {
            o.lemma_wf_shape();
        }
        if self.eps[e].state == EPState::Recv {
            proof {
                assert(o.eps@[e as int].queue@.len() > 0);
            }
            let dest = self.ep_remove(e, 0, ThreadState::ThreadStateRunning);
            proof {
                if dest == sender {
                    assert(o.tcbs@[sender as int].tcbState == ThreadState::ThreadStateBlockedOnReceive);
                }
            }
            let ghost s1 = *self;
            self.do_ipc_transfer(sender, dest, badge);
            let ghost s2 = *self;
            if is_call {
                if can_grant || can_grant_reply {
                    self.ready_dequeue(sender);
                    self.set_state_free(sender, ThreadState::ThreadStateBlockedOnReply);
                    self.set_caller(dest, Some(sender), can_grant);
                } else {
                    self.ready_dequeue(sender);
                    self.set_state_free(sender, ThreadState::ThreadStateInactive);
                }
            }
            let ghost s3 = *self;
            self.possible_switch_to(cpu, dest);
            proof {
                assert(o.eps@[e as int].queue@.remove(0) =~= o.eps@[e as int].queue@.drop_first());
                assert(s1.threads()[sender as int] == o.threads()[sender as int]);
                assert(s3.threads()[dest as int].tcbArch == s2.threads()[dest as int].tcbArch);
            }
        } else {
            if blocking {
                self.ready_dequeue(sender);
                self.ep_block(sender, e, EPState::Send, badge, is_call);
            }
        }
    }

    /// Receives on endpoint `e` into the running thread `receiver`, on core `cpu`.
    ///
    /// With a sender waiting, the first one leaves the queue and its message and badge
    /// go to `receiver`; a sender that called then waits for the reply (recorded as the
    /// receiver's caller), any other becomes `Running` and is offered to
    /// `possible_switch_to`. With no sender, a blocking receive joins the tail of the
    /// endpoint's queue as `BlockedOnReceive`; a non-blocking one gets badge 0.
    #[verifier::rlimit(60)]
    pub fn receive_ipc(&mut self, cpu: usize, e: usize, receiver: usize, blocking: bool, can_grant: bool)
        requires
            old(self).wf(),
            cpu < CONFIG_MAX_NUM_NODES,
            e < old(self).endpoints().len(),
            receiver < old(self).threads().len(),
            old(self).state_of(receiver as int).runnable(),
        ensures
            final(self).wf(),
            final(self).threads().len() == old(self).threads().len(),
            final(self).endpoints().len() == old(self).endpoints().len(),
            final(self).notifications() == old(self).notifications(),
            final(self).current() == old(self).current(),
            old(self).endpoints()[e as int].state == EPState::Send ==> {
                let src = old(self).ep_queue(e as int)[0];
                let src_tcb = old(self).threads()[src as int];
                &&& final(self).ep_queue(e as int) == old(self).ep_queue(e as int).drop_first()
                &&& final(self).threads()[receiver as int].tcbArch.regs() == message_delivered(
                    src_tcb.tcbArch.regs(),
                    old(self).threads()[receiver as int].tcbArch.regs(),
                    src_tcb.tcbBlockingIPCBadge,
                )
                &&& final(self).state_of(src as int) == if src_tcb.tcbBlockingIPCIsCall {
                    ThreadState::ThreadStateBlockedOnReply
                } else {
                    ThreadState::ThreadStateRunning
                }
                &&& (src_tcb.tcbBlockingIPCIsCall ==> final(self).threads()[receiver as int].tcbCaller == Some(src))
                &&& (!src_tcb.tcbBlockingIPCIsCall ==> final(self).threads()[src as int].tcbQueued)
            },
            old(self).endpoints()[e as int].state != EPState::Send && blocking ==> {
                &&& final(self).ep_queue(e as int) == ep_after_receive(old(self).ep_queue(e as int), receiver)
                &&& final(self).endpoints()[e as int].state == EPState::Recv
                &&& final(self).state_of(receiver as int) == ThreadState::ThreadStateBlockedOnReceive
                &&& !final(self).threads()[receiver as int].tcbQueued
            },
            old(self).endpoints()[e as int].state != EPState::Send && !blocking ==> {
                &&& final(self).endpoints() == old(self).endpoints()
                &&& final(self).threads()[receiver as int].tcbArch.regs() == old(self).threads()[receiver as int].tcbArch.regs().update(ArchReg::Badge.index(), 0)
                &&& final(self).state_of(receiver as int) == old(self).state_of(receiver as int)
            },
            forall|e2: int| 0 <= e2 < old(self).endpoints().len() && e2 != e ==> #[trigger] final(self).endpoints()[e2] == old(self).endpoints()[e2],
    {
        let ghost o = *self;
        proof {
            o.lemma_wf_shape();
        }
        if self.eps[e].state == EPState::Send {
            proof {
                assert(o.eps@[e as int].queue@.len() > 0);
            }
            let head = self.eps[e].queue[0];
            proof {
                assert(o.eps@[e as int].queue@[0] == head);
            }
            let badge = self.tcbs[head].tcbBlockingIPCBadge;
            let is_call = self.tcbs[head].tcbBlockingIPCIsCall;
            let st = if is_call {
                ThreadState::ThreadStateBlockedOnReply
            } else {
                ThreadState::ThreadStateRunning
            };
            let src = self.ep_remove(e, 0, st);
            proof {
                if src == receiver {
                    assert(o.tcbs@[receiver as int].tcbState == ThreadState::ThreadStateBlockedOnSend);
                }
            }
            let ghost s1 = *self;
            self.do_ipc_transfer(src, receiver, badge);
            let ghost s2 = *self;
            if is_call {
                self.set_caller(receiver, Some(src), can_grant);
            } else {
                self.possible_switch_to(cpu, src);
            }
            proof {
                assert(o.eps@[e as int].queue@.remove(0) =~= o.eps@[e as int].queue@.drop_first());
                assert(s1.threads()[src as int].tcbArch == o.threads()[src as int].tcbArch);
                assert(s1.threads()[receiver as int] == o.threads()[receiver as int]);
            }
        } else {
            if blocking {
                self.ready_dequeue(receiver);
                self.ep_block(receiver, e, EPState::Recv, 0, false);
            } else {
                self.set_tcb_register(receiver, ArchReg::Badge, 0);
            }
        }
    }
}

impl KernelState {
    /// Whether a signal on idle notification `n` goes straight to its bound thread: one
    /// is bound and it is blocked receiving on an endpoint.
    pub open spec fn bound_receiver_waits(&self, n: int) -> bool {
        match self.notifications()[n].bound_tcb {
            Some(t) => self.state_of(t as int) == ThreadState::ThreadStateBlockedOnReceive,
            None => false,
        }
    }

    /// Signals notification `n` with `badge`, on core `cpu`.
    ///
    /// Idle: a bound thread blocked receiving on an endpoint leaves that endpoint, gets
    /// the badge, becomes `Running` and is offered to `possible_switch_to`, and the
    /// notification stays idle; otherwise the notification becomes active with the badge.
    /// Waiting: the first waiter leaves the queue, gets the badge, becomes `Running` and
    /// is offered to `possible_switch_to`; the notification goes idle when no waiter is
    /// left. Active: the badge is ORed into the stored word.
    #[verifier::rlimit(60)]
    pub fn send_signal(&mut self, cpu: usize, n: usize, badge: usize)
        requires
            old(self).wf(),
            cpu < CONFIG_MAX_NUM_NODES,
            n < old(self).notifications().len(),
        ensures
            final(self).wf(),
            final(self).notifications().len() == old(self).notifications().len(),
            final(self).threads().len() == old(self).threads().len(),
            final(self).endpoints().len() == old(self).endpoints().len(),
            final(self).current() == old(self).current(),
            forall|m: int| 0 <= m < old(self).notifications().len() && m != n ==> #[trigger] final(self).notifications()[m] == old(self).notifications()[m],
            old(self).notifications()[n as int].state == NtfnState::Idle && old(self).bound_receiver_waits(n as int) ==> {
                let t = old(self).notifications()[n as int].bound_tcb->0;
                &&& final(self).notifications() == old(self).notifications()
                &&& final(self).state_of(t as int) == ThreadState::ThreadStateRunning
                &&& final(self).threads()[t as int].tcbQueued
                &&& final(self).threads()[t as int].tcbArch.regs() == old(self).threads()[t as int].tcbArch.regs().update(ArchReg::Badge.index(), badge)
                &&& !final(self).in_ipc_queue(t)
            },
            old(self).notifications()[n as int].state != NtfnState::Waiting && !(old(self).notifications()[n as int].state == NtfnState::Idle && old(self).bound_receiver_waits(n as int)) ==> {
                &&& final(self).notifications()[n as int].state == NtfnState::Active
                &&& final(self).notifications()[n as int].msg_identifier == signal_word(
                    old(self).notifications()[n as int].state,
                    old(self).notifications()[n as int].msg_identifier,
                    badge,
                )
                &&& final(self).ntfn_queue(n as int) == old(self).ntfn_queue(n as int)
                &&& final(self).notifications()[n as int].bound_tcb == old(self).notifications()[n as int].bound_tcb
                &&& final(self).threads() == old(self).threads()
                &&& final(self).ready() == old(self).ready()
                &&& final(self).endpoints() == old(self).endpoints()
            },
            old(self).notifications()[n as int].state == NtfnState::Waiting ==> {
                let t = old(self).ntfn_queue(n as int)[0];
                &&& final(self).ntfn_queue(n as int) == old(self).ntfn_queue(n as int).drop_first()
                &&& final(self).notifications()[n as int].state == if old(self).ntfn_queue(n as int).len() == 1 {
                    NtfnState::Idle
                } else {
                    NtfnState::Waiting
                }
                &&& final(self).state_of(t as int) == ThreadState::ThreadStateRunning
                &&& final(self).threads()[t as int].tcbQueued
                &&& final(self).threads()[t as int].tcbArch.regs() == old(self).threads()[t as int].tcbArch.regs().update(ArchReg::Badge.index(), badge)
            },
    {
        let ghost o = *self;
        proof {
            o.lemma_wf_shape();
        }
        match self.ntfns[n].state {
            NtfnState::Idle => {
                let bound = self.ntfns[n].bound_tcb;
                match bound {
                    Some(t) => {
                        proof {
                            assert(o.ntfns@[n as int].bound_tcb is Some);
                        }
                        if self.tcbs[t].tcbState == ThreadState::ThreadStateBlockedOnReceive {
                            let e = self.tcbs[t].tcbBlockingObject;
                            let k = crate::scheduler::position_of(&self.eps[e].queue, t);
                            let r = self.ep_remove(e, k, ThreadState::ThreadStateRunning);
                            assert(r == t);
                            let ghost s1 = *self;
                            self.set_tcb_register(t, ArchReg::Badge, badge);
                            self.possible_switch_to(cpu, t);
                            proof {
                                self.lemma_not_ipc_blocked_absent(t);
                                assert(s1.threads()[t as int].tcbArch == o.threads()[t as int].tcbArch);
                            }
                        } else {
                            self.ntfn_set(n, NtfnState::Active, badge);
                        }
                    },
                    None => {
                        self.ntfn_set(n, NtfnState::Active, badge);
                    },
                }
            },
            NtfnState::Waiting => {
                let dest = self.ntfn_remove(n, 0, ThreadState::ThreadStateRunning);
                let ghost s1 = *self;
                self.set_tcb_register(dest, ArchReg::Badge, badge);
                self.possible_switch_to(cpu, dest);
                proof {
                    assert(o.ntfns@[n as int].queue@.remove(0) =~= o.ntfns@[n as int].queue@.drop_first());
                    assert(s1.threads()[dest as int].tcbArch == o.threads()[dest as int].tcbArch);
                }
            },
            NtfnState::Active => {
                let word = self.ntfns[n].msg_identifier | badge;
                self.ntfn_set(n, NtfnState::Active, word);
            },
        }
    }

    /// Receives from notification `n` into the running thread `receiver`. Active: the
    /// stored word goes to the receiver's badge register and the notification goes idle.
    /// Otherwise a blocking receive joins the tail of the queue as
    /// `BlockedOnNotification` and the notification is waiting; a non-blocking one gets
    /// badge 0.
    pub fn receive_signal(&mut self, n: usize, receiver: usize, is_blocking: bool)
        requires
            old(self).wf(),
            n < old(self).notifications().len(),
            receiver < old(self).threads().len(),
            old(self).state_of(receiver as int).runnable(),
        ensures
            final(self).wf(),
            final(self).notifications().len() == old(self).notifications().len(),
            final(self).current() == old(self).current(),
            forall|m: int| 0 <= m < old(self).notifications().len() && m != n ==> #[trigger] final(self).notifications()[m] == old(self).notifications()[m],
            final(self).threads().len() == old(self).threads().len(),
            final(self).endpoints() == old(self).endpoints(),
            final(self).notifications()[n as int].bound_tcb == old(self).notifications()[n as int].bound_tcb,
            old(self).notifications()[n as int].state == NtfnState::Active || !is_blocking ==> {
                &&& final(self).threads() == old(self).threads().update(receiver as int, final(self).threads()[receiver as int])
                &&& final(self).threads()[receiver as int] == (tcb_t {
                    tcbArch: final(self).threads()[receiver as int].tcbArch,
                    ..old(self).threads()[receiver as int]
                })
                &&& final(self).ntfn_queue(n as int) == old(self).ntfn_queue(n as int)
                &&& final(self).ready() == old(self).ready()
            },
            old(self).notifications()[n as int].state == NtfnState::Active ==> {
                &&& final(self).threads()[receiver as int].tcbArch.regs() == old(self).threads()[receiver as int].tcbArch.regs().update(
                    ArchReg::Badge.index(),
                    old(self).notifications()[n as int].msg_identifier,
                )
                &&& final(self).notifications()[n as int].state == NtfnState::Idle
            },
            old(self).notifications()[n as int].state != NtfnState::Active && is_blocking ==> {
                &&& final(self).ntfn_queue(n as int) == old(self).ntfn_queue(n as int).push(receiver)
                &&& final(self).notifications()[n as int].state == NtfnState::Waiting
                &&& final(self).notifications()[n as int].msg_identifier == old(self).notifications()[n as int].msg_identifier
                &&& final(self).threads() == old(self).threads().update(
                    receiver as int,
                    tcb_t {
                        tcbState: ThreadState::ThreadStateBlockedOnNotification,
                        tcbBlockingObject: n,
                        tcbQueued: false,
                        ..old(self).threads()[receiver as int]
                    },
                )
            },
            old(self).notifications()[n as int].state != NtfnState::Active && !is_blocking ==> {
                &&& final(self).threads()[receiver as int].tcbArch.regs() == old(self).threads()[receiver as int].tcbArch.regs().update(ArchReg::Badge.index(), 0)
                &&& final(self).notifications() == old(self).notifications()
            },
    {
        let ghost o = *self;
        match self.ntfns[n].state {
            NtfnState::Active => {
                let word = self.ntfns[n].msg_identifier;
                self.set_tcb_register(receiver, ArchReg::Badge, word);
                self.ntfn_set(n, NtfnState::Idle, word);
            },
            _ => {
                if is_blocking {
                    self.ready_dequeue(receiver);
                    self.ntfn_block(receiver, n);
                } else {
                    self.set_tcb_register(receiver, ArchReg::Badge, 0);
                }
            },
        }
    }

    /// Takes thread `t`, waiting on notification `n`, out of its queue and makes it
    /// inactive; the other waiters keep their order, and the notification goes idle when
    /// no waiter is left.
    pub fn cancel_signal(&mut self, n: usize, t: usize)
        requires
            old(self).wf(),
            n < old(self).notifications().len(),
            old(self).ntfn_queue(n as int).contains(t),
        ensures
            final(self).wf(),
            final(self).threads().len() == old(self).threads().len(),
            t < old(self).threads().len(),
            final(self).threads() == old(self).threads().update(
                t as int,
                tcb_t { tcbState: ThreadState::ThreadStateInactive, ..old(self).threads()[t as int] },
            ),
            exists|k: int|
                0 <= k < old(self).ntfn_queue(n as int).len() && old(self).ntfn_queue(n as int)[k] == t
                    && final(self).ntfn_queue(n as int) == old(self).ntfn_queue(n as int).remove(k),
            final(self).notifications().len() == old(self).notifications().len(),
            forall|m: int| 0 <= m < old(self).notifications().len() && m != n ==> #[trigger] final(self).notifications()[m] == old(self).notifications()[m],
            final(self).notifications()[n as int].msg_identifier == old(self).notifications()[n as int].msg_identifier,
            final(self).notifications()[n as int].bound_tcb == old(self).notifications()[n as int].bound_tcb,
            final(self).endpoints() == old(self).endpoints(),
            final(self).state_of(t as int) == ThreadState::ThreadStateInactive,
            !final(self).in_ipc_queue(t),
            final(self).ntfn_queue(n as int).len() + 1 == old(self).ntfn_queue(n as int).len(),
            final(self).notifications()[n as int].state == if final(self).ntfn_queue(n as int).len() == 0 {
                NtfnState::Idle
            } else {
                NtfnState::Waiting
            },
            forall|u: usize| u != t ==> (#[trigger] final(self).ntfn_queue(n as int).contains(u) <==> old(self).ntfn_queue(n as int).contains(u)),
            final(self).ready() == old(self).ready(),
    {
        let k = crate::scheduler::position_of(&self.ntfns[n].queue, t);
        let ghost q0 = self.ntfns@[n as int].queue@;
        proof {
            assert(q0[k as int] == t);
        }
        let r = self.ntfn_remove(n, k, ThreadState::ThreadStateInactive);
        proof {
            assert(r == t);
            assert(no_dups(q0));
            self.lemma_not_ipc_blocked_absent(t);
            assert forall|u: usize| u != t implies (#[trigger] self.ntfn_queue(n as int).contains(u) <==> q0.contains(u)) by {
                let q = self.ntfn_queue(n as int);
                if q.contains(u) {
                    let j = choose|j: int| 0 <= j < q.len() && q[j] == u;
                    let j0 = if j < k { j } else { j + 1 };
                    assert(q0[j0] == u);
                }
                if q0.contains(u) {
                    let j = choose|j: int| 0 <= j < q0.len() && q0[j] == u;
                    assert(j != k);
                    let j1 = if j < k { j } else { j - 1 };
                    assert(q[j1] == u);
                }
            }
        }
    }

    /// Drains notification `n` when it is waiting, on core `cpu`: every waiter becomes
    /// `Restart` and joins the head of its ready queue, the notification goes idle, and
    /// `cpu` must reschedule. Otherwise nothing changes.
    #[verifier::rlimit(60)]
    pub fn cacncel_all_signal(&mut self, cpu: usize, n: usize)
        requires
            old(self).wf(),
            cpu < CONFIG_MAX_NUM_NODES,
            n < old(self).notifications().len(),
        ensures
            final(self).wf(),
            final(self).ntfn_queue(n as int).len() == 0,
            old(self).notifications()[n as int].state == NtfnState::Waiting ==> final(self).notifications()[n as int].state == NtfnState::Idle
                && final(self).resched()[cpu as int],
            old(self).notifications()[n as int].state != NtfnState::Waiting ==> *final(self) == *old(self),
            forall|i: int| 0 <= i < old(self).ntfn_queue(n as int).len() ==> {
                let t = #[trigger] old(self).ntfn_queue(n as int)[i];
                final(self).state_of(t as int) == ThreadState::ThreadStateRestart && final(self).threads()[t as int].tcbQueued
            },
            final(self).threads().len() == old(self).threads().len(),
    {
        let ghost o = *self;
        if self.ntfns[n].state == NtfnState::Waiting {
            let ghost q0 = o.ntfns@[n as int].queue@;
            let ghost mut done: int = 0;
            proof {
                assert(no_dups(q0));
                assert(q0.subrange(0, q0.len() as int) =~= q0);
            }
            while self.ntfns[n].queue.len() > 0
                invariant
                    self.wf(),
                    cpu < CONFIG_MAX_NUM_NODES,
                    n < self.notifications().len(),
                    self.threads().len() == o.threads().len(),
                    no_dups(q0),
                    0 <= done <= q0.len(),
                    self.ntfn_queue(n as int) == q0.subrange(done, q0.len() as int),
                    self.notifications()[n as int].state == NtfnState::Idle || self.ntfn_queue(n as int).len() > 0,
                    forall|i: int| 0 <= i < done ==> {
                        let t = #[trigger] q0[i];
                        self.state_of(t as int) == ThreadState::ThreadStateRestart && self.threads()[t as int].tcbQueued
                    },
                    forall|i: int| 0 <= i < q0.len() ==> #[trigger] q0[i] < self.threads().len(),
                decreases self.ntfns@[n as int].queue@.len(),
            {
                let ghost before = *self;
                let t = self.ntfn_remove(n, 0, ThreadState::ThreadStateRestart);
                self.ready_enqueue(cpu, t, true);
                proof {
                    assert(t == q0[done]);
                    assert forall|i: int| 0 <= i < done + 1 implies {
                        let u = #[trigger] q0[i];
                        self.state_of(u as int) == ThreadState::ThreadStateRestart && self.threads()[u as int].tcbQueued
                    } by {
                        if i < done {
                            assert(q0[i] != q0[done]);
                        }
                    }
                    assert(self.ntfn_queue(n as int) =~= q0.subrange(done + 1, q0.len() as int));
                    done = done + 1;
                }
            }
            self.reschedule_required(cpu);
            proof {
                assert(done == q0.len());
            }
        }
    }
}

/// A copy of a list of thread ids.
fn copy_ids(v: &Vec<usize>) -> (r: Vec<usize>)
    ensures
        r@ == v@,
{
    let mut r: Vec<usize> = Vec::new();
    let mut i: usize = 0;
    while i < v.len()
        invariant
            i <= v@.len(),
            r@ == v@.subrange(0, i as int),
        decreases v@.len() - i,
    {
        r.push(v[i]);
        i = i + 1;
        proof {
            assert(r@ =~= v@.subrange(0, i as int));
        }
    }
    proof {
        assert(v@.subrange(0, v@.len() as int) =~= v@);
    }
    r
}

impl KernelState {
    pub fn num_threads(&self) -> (r: usize)
        ensures
            r == self.threads().len(),
    {
        self.tcbs.len()
    }

    pub fn thread_state(&self, t: usize) -> (r: ThreadState)
        requires
            t < self.threads().len(),
        ensures
            r == self.state_of(t as int),
    {
        self.tcbs[t].get_state()
    }

    /// Whether thread `t` stands in its ready queue.
    pub fn is_queued(&self, t: usize) -> (r: bool)
        requires
            self.wf(),
            t < self.threads().len(),
        ensures
            r == self.threads()[t as int].tcbQueued,
            r == self.in_ready_queue(t),
    {
        proof {
            self.rq.lemma_len();
            self.lemma_tcb_params(t as int);
            if self.tcbs@[t as int].tcbQueued {
                assert(self.ready()[self.tcbs@[t as int].sched_slot()].contains(t));
            } else {
                self.lemma_unqueued_absent(t);
                if self.in_ready_queue(t) {
                    let q = choose|q: int| 0 <= q < self.ready().len() && #[trigger] self.ready()[q].contains(t);
                    assert(!self.rq@[q].contains(t));
                }
            }
        }
        self.tcbs[t].tcbQueued
    }

    pub fn thread_priority(&self, t: usize) -> (r: usize)
        requires
            t < self.threads().len(),
        ensures
            r == self.threads()[t as int].tcbPriority,
    {
        self.tcbs[t].tcbPriority
    }

    pub fn thread_domain(&self, t: usize) -> (r: usize)
        requires
            t < self.threads().len(),
        ensures
            r == self.threads()[t as int].domain,
    {
        self.tcbs[t].domain
    }

    pub fn thread_affinity(&self, t: usize) -> (r: usize)
        requires
            t < self.threads().len(),
        ensures
            r == self.threads()[t as int].tcbAffinity,
    {
        self.tcbs[t].tcbAffinity
    }

    pub fn thread_mcp(&self, t: usize) -> (r: usize)
        requires
            t < self.threads().len(),
        ensures
            r == self.threads()[t as int].tcbMCP,
    {
        self.tcbs[t].tcbMCP
    }

    /// The thread a reply from `t` goes to.
    pub fn caller_of(&self, t: usize) -> (r: Option<usize>)
        requires
            t < self.threads().len(),
        ensures
            r == self.threads()[t as int].tcbCaller,
    {
        self.tcbs[t].tcbCaller
    }

    pub fn bound_notification(&self, t: usize) -> (r: Option<usize>)
        requires
            t < self.threads().len(),
        ensures
            r == self.threads()[t as int].tcbBoundNotification,
    {
        self.tcbs[t].tcbBoundNotification
    }

    /// Reads register `reg` of thread `t`.
    pub fn get_register(&self, t: usize, reg: ArchReg) -> (r: usize)
        requires
            self.wf(),
            t < self.threads().len(),
            reg.valid(),
        ensures
            r == self.threads()[t as int].tcbArch.regs()[reg.index()],
    {
        proof {
            self.lemma_tcb_params(t as int);
        }
        self.tcbs[t].tcbArch.get_register(reg)
    }

    /// Writes register `reg` of thread `t`.
    pub fn set_register(&mut self, t: usize, reg: ArchReg, v: usize)
        requires
            old(self).wf(),
            t < old(self).threads().len(),
            reg.valid(),
        ensures
            final(self).wf(),
            final(self).threads().len() == old(self).threads().len(),
            final(self).threads() == old(self).threads().update(t as int, final(self).threads()[t as int]),
            final(self).threads()[t as int].tcbArch.regs() == old(self).threads()[t as int].tcbArch.regs().update(reg.index(), v),
            final(self).threads()[t as int] == (tcb_t {
                tcbArch: final(self).threads()[t as int].tcbArch,
                ..old(self).threads()[t as int]
            }),
            final(self).ready() == old(self).ready(),
            same_objects(final(self), old(self)),
            same_sched(final(self), old(self)),
    {
        self.set_tcb_register(t, reg, v);
    }

    pub fn num_endpoints(&self) -> (r: usize)
        ensures
            r == self.endpoints().len(),
    {
        self.eps.len()
    }

    pub fn ep_state(&self, e: usize) -> (r: EPState)
        requires
            e < self.endpoints().len(),
        ensures
            r == self.endpoints()[e as int].state,
    {
        self.eps[e].state
    }

    /// The threads blocked on endpoint `e`, first come first.
    pub fn ep_waiters(&self, e: usize) -> (r: Vec<usize>)
        requires
            e < self.endpoints().len(),
        ensures
            r@ == self.ep_queue(e as int),
    {
        copy_ids(&self.eps[e].queue)
    }

    pub fn num_notifications(&self) -> (r: usize)
        ensures
            r == self.notifications().len(),
    {
        self.ntfns.len()
    }

    pub fn ntfn_state(&self, n: usize) -> (r: NtfnState)
        requires
            n < self.notifications().len(),
        ensures
            r == self.notifications()[n as int].state,
    {
        self.ntfns[n].state
    }

    /// The word an active notification holds.
    pub fn ntfn_badge(&self, n: usize) -> (r: usize)
        requires
            n < self.notifications().len(),
        ensures
            r == self.notifications()[n as int].msg_identifier,
    {
        self.ntfns[n].msg_identifier
    }

    pub fn ntfn_bound_tcb(&self, n: usize) -> (r: Option<usize>)
        requires
            n < self.notifications().len(),
        ensures
            r == self.notifications()[n as int].bound_tcb,
    {
        self.ntfns[n].bound_tcb
    }

    /// The threads waiting on notification `n`, first come first.
    pub fn ntfn_waiters(&self, n: usize) -> (r: Vec<usize>)
        requires
            n < self.notifications().len(),
        ensures
            r@ == self.ntfn_queue(n as int),
    {
        copy_ids(&self.ntfns[n].queue)
    }

    /// The ready queue of (`core`, `dom`, `prio`), head first.
    pub fn ready_queue(&self, core: usize, dom: usize, prio: usize) -> (r: Vec<usize>)
        requires
            self.wf(),
            valid_sched_params(core as int, dom as int, prio as int),
        ensures
            r@ == self.ready()[queue_slot(core as int, dom as int, prio as int)],
    {
        let i = queue_index(core, dom, prio);
        self.rq.copy_queue(i)
    }

    pub fn current_thread(&self, cpu: usize) -> (r: usize)
        requires
            self.wf(),
            cpu < CONFIG_MAX_NUM_NODES,
        ensures
            r == self.current()[cpu as int],
    {
        self.cur_thread[cpu]
    }

    /// Whether core `cpu` must choose a new thread at its next `schedule`.
    pub fn reschedule_pending(&self, cpu: usize) -> (r: bool)
        requires
            self.wf(),
            cpu < CONFIG_MAX_NUM_NODES,
        ensures
            r == self.resched()[cpu as int],
    {
        self.reschedule[cpu]
    }

    /// The cores that core `cpu` must send a reschedule interrupt to, one bit each.
    pub fn ipi_reschedule_mask(&self, cpu: usize) -> (r: usize)
        requires
            self.wf(),
            cpu < CONFIG_MAX_NUM_NODES,
        ensures
            r == self.ipi_resched()[cpu as int],
    {
        self.ipi_reschedule_pending[cpu]
    }

    pub fn current_domain(&self) -> (r: usize)
        ensures
            r == self.domain(),
    {
        self.cur_domain
    }
}

/// The queue of an endpoint without senders after receiver `t` blocks on it, as
/// `receive_ipc` leaves it.
pub open spec fn ep_after_receive(q: Seq<usize>, t: usize) -> Seq<usize> {
    q.push(t)
}

/// The receiver a send to an endpoint holding receivers `q` reaches, as `send_ipc`
/// picks it.
pub open spec fn send_target(q: Seq<usize>) -> usize {
    q[0]
}

/// The queue of an endpoint holding receivers `q` after a send, as `send_ipc` leaves it.
pub open spec fn ep_after_send(q: Seq<usize>) -> Seq<usize> {
    q.drop_first()
}

/// The endpoint queue after receivers `ts` block on it, one after another, while no
/// sender waits.
pub open spec fn blocked_in_order(q: Seq<usize>, ts: Seq<usize>) -> Seq<usize>
    decreases ts.len(),
{
    if ts.len() == 0 {
        q
    } else {
        blocked_in_order(ep_after_receive(q, ts[0]), ts.drop_first())
    }
}

/// The receivers that `n` sends to an endpoint holding receivers `q` reach, in order.
pub open spec fn sends_deliver_to(q: Seq<usize>, n: nat) -> Seq<usize>
    decreases n,
{
    if n == 0 || q.len() == 0 {
        Seq::empty()
    } else {
        seq![send_target(q)] + sends_deliver_to(ep_after_send(q), (n - 1) as nat)
    }
}

proof fn lemma_blocked_in_order_appends(q: Seq<usize>, ts: Seq<usize>)
    ensures
        blocked_in_order(q, ts) == q + ts,
    decreases ts.len(),
{
    if ts.len() > 0 {
        lemma_blocked_in_order_appends(q.push(ts[0]), ts.drop_first());
        assert(q.push(ts[0]) + ts.drop_first() =~= q + ts);
    } else {
        assert(q + ts =~= q);
    }
}

proof fn lemma_sends_drain(q: Seq<usize>)
    ensures
        sends_deliver_to(q, q.len()) == q,
    decreases q.len(),
{
    if q.len() > 0 {
        lemma_sends_drain(q.drop_first());
        assert(seq![q[0]] + q.drop_first() =~= q);
    } else {
        assert(sends_deliver_to(q, 0) =~= q);
    }
}

/// FIFO delivery: when receivers `ts` block on an idle endpoint in that order and a
/// sender then sends as many messages, the messages reach the receivers in the order
/// they blocked.
pub proof fn lemma_endpoint_fifo(ts: Seq<usize>)
    ensures
        sends_deliver_to(blocked_in_order(Seq::empty(), ts), ts.len()) == ts,
{
    lemma_blocked_in_order_appends(Seq::empty(), ts);
    assert(Seq::<usize>::empty() + ts =~= ts);
    lemma_sends_drain(ts);
}

/// Badge coalescing: two signals with no receive between them, on a notification that
/// has no waiting receiver, leave the OR of both badges (and of any word it already held
/// while active) for the next receive.
pub proof fn lemma_badges_coalesce(st: NtfnState, word: usize, b1: usize, b2: usize)
    requires
        st != NtfnState::Waiting,
    ensures
        signal_word(NtfnState::Active, signal_word(st, word, b1), b2) == if st == NtfnState::Active {
            word | b1 | b2
        } else {
            b1 | b2
        },
{
}

/// The capability a send or receive names, as the capability layer resolved it.
#[derive(PartialEq, Eq, Structural, Copy, Clone, Debug)]
pub enum IpcCap {
    Endpoint {
        ep: usize,
        badge: usize,
        can_send: bool,
        can_receive: bool,
        can_grant: bool,
        can_grant_reply: bool,
    },
    Notification { ntfn: usize, badge: usize, can_send: bool, can_receive: bool },
    /// Anything that is neither.
    Other,
}

/// The fault handler of a thread, as the capability layer resolved it: the endpoint
/// faults go to and the badge of that capability.
#[derive(PartialEq, Eq, Structural, Copy, Clone, Debug)]
pub struct FaultHandler {
    pub ep: usize,
    pub badge: usize,
    pub can_grant: bool,
    pub can_grant_reply: bool,
}

impl KernelState {
    /// Whether receiving through `cap` as thread `t` is allowed.
    pub open spec fn recv_cap_ok(&self, cap: IpcCap, t: usize) -> bool {
        match cap {
            IpcCap::Endpoint { ep, can_receive, .. } => can_receive && ep < self.endpoints().len(),
            IpcCap::Notification { ntfn, can_receive, .. } => can_receive && ntfn < self.notifications().len()
                && match self.notifications()[ntfn as int].bound_tcb {
                Some(b) => b == t,
                None => true,
            },
            IpcCap::Other => false,
        }
    }

    /// The running thread of `cpu` gives way to threads of its priority: it goes to the
    /// tail of its ready queue (the idle thread excepted) and `cpu` must reschedule.
    pub fn handle_yield(&mut self, cpu: usize)
        requires
            old(self).wf(),
            cpu < CONFIG_MAX_NUM_NODES,
        ensures
            final(self).wf(),
            final(self).threads().len() == old(self).threads().len(),
            final(self).resched()[cpu as int],
            ({
                let cur = old(self).current()[cpu as int];
                let tcb = old(self).threads()[cur as int];
                cur != cpu && tcb.tcbState.runnable() ==> final(self).threads()[cur as int].tcbQueued
                    && final(self).ready()[tcb.sched_slot()].last() == cur
            }),
            final(self).current() == old(self).current(),
            same_objects(final(self), old(self)),
    {
        proof {
            old(self).lemma_wf_shape();
        }
        let cur = self.cur_thread[cpu];
        self.ready_dequeue(cur);
        if cur != cpu && self.tcbs[cur].is_runnable() {
            let ghost mid = *self;
            self.ready_enqueue(cpu, cur, false);
            proof {
                mid.lemma_wf_shape();
                mid.lemma_tcb_params(cur as int);
            }
        }
        self.reschedule_required(cpu);
    }

    /// The running thread of `cpu` replies to the thread that called it, if that thread
    /// still waits for the reply: the message goes to the caller with badge 0, the caller
    /// becomes `Running` and is offered to `possible_switch_to`, and the link is dropped.
    #[verifier::rlimit(60)]
    pub fn handle_reply(&mut self, cpu: usize)
        requires
            old(self).wf(),
            cpu < CONFIG_MAX_NUM_NODES,
        ensures
            final(self).wf(),
            final(self).threads().len() == old(self).threads().len(),
            ({
                let cur = old(self).current()[cpu as int];
                match old(self).threads()[cur as int].tcbCaller {
                    Some(c) => if c < old(self).threads().len() && c != cur
                        && old(self).state_of(c as int) == ThreadState::ThreadStateBlockedOnReply {
                        &&& final(self).state_of(c as int) == ThreadState::ThreadStateRunning
                        &&& final(self).threads()[c as int].tcbQueued
                        &&& final(self).threads()[c as int].tcbArch.regs() == message_delivered(
                            old(self).threads()[cur as int].tcbArch.regs(),
                            old(self).threads()[c as int].tcbArch.regs(),
                            0,
                        )
                        &&& final(self).threads()[cur as int].tcbCaller is None
                    } else {
                        *final(self) == *old(self)
                    },
                    None => *final(self) == *old(self),
                }
            }),
            final(self).state_of(old(self).current()[cpu as int] as int) == old(self).state_of(old(self).current()[cpu as int] as int),
            final(self).current() == old(self).current(),
            same_objects(final(self), old(self)),
    {
        proof {
            old(self).lemma_wf_shape();
        }
        let cur = self.cur_thread[cpu];
        match self.tcbs[cur].tcbCaller {
            Some(caller) => {
                if caller < self.tcbs.len() && caller != cur
                    && self.tcbs[caller].tcbState == ThreadState::ThreadStateBlockedOnReply {
                    proof {
                        if old(self).tcbs@[caller as int].tcbQueued {
                            old(self).lemma_tcb_params(caller as int);
                        }
                    }
                    self.do_ipc_transfer(cur, caller, 0);
                    self.set_caller(cur, None, false);
                    let ghost s2 = *self;
                    self.set_state_free(caller, ThreadState::ThreadStateRunning);
                    self.possible_switch_to(cpu, caller);
                    proof {
                        assert(s2.threads()[caller as int].tcbArch == self.threads()[caller as int].tcbArch);
                    }
                }
            },
            None => {},
        }
    }

    /// Receives through `cap` as the running thread of `cpu`. Returns `false`, changing
    /// nothing, when `cap` does not allow it (no receive right, not an IPC object, or a
    /// notification bound to another thread): the caller then raises a capability fault.
    /// Otherwise an endpoint receive first drops the thread's reply link, then works as
    /// `receive_ipc`; a notification receive works as `receive_signal`.
    #[verifier::rlimit(60)]
    pub fn handle_recv(&mut self, cpu: usize, cap: IpcCap, block: bool) -> (r: bool)
        requires
            old(self).wf(),
            cpu < CONFIG_MAX_NUM_NODES,
            old(self).state_of(old(self).current()[cpu as int] as int).runnable(),
        ensures
            final(self).wf(),
            final(self).threads().len() == old(self).threads().len(),
            r == old(self).recv_cap_ok(cap, old(self).current()[cpu as int]),
            !r ==> *final(self) == *old(self),
            final(self).current() == old(self).current(),
            ({
                let cur = old(self).current()[cpu as int];
                match cap {
                    IpcCap::Endpoint { ep, .. } => r && old(self).endpoints()[ep as int].state != EPState::Send && block ==> {
                        &&& final(self).state_of(cur as int) == ThreadState::ThreadStateBlockedOnReceive
                        &&& final(self).ep_queue(ep as int) == old(self).ep_queue(ep as int).push(cur)
                    },
                    _ => true,
                }
            }),
            ({
                let cur = old(self).current()[cpu as int];
                match cap {
                    IpcCap::Endpoint { ep, .. } => r && old(self).endpoints()[ep as int].state == EPState::Send ==> {
                        &&& final(self).ep_queue(ep as int) == old(self).ep_queue(ep as int).drop_first()
                        &&& final(self).threads()[cur as int].tcbArch.regs()[ArchReg::Badge.index()]
                            == old(self).threads()[old(self).ep_queue(ep as int)[0] as int].tcbBlockingIPCBadge
                    },
                    _ => true,
                }
            }),
            ({
                let cur = old(self).current()[cpu as int];
                match cap {
                    IpcCap::Notification { ntfn, .. } => r && old(self).notifications()[ntfn as int].state == NtfnState::Active ==> {
                        &&& final(self).threads()[cur as int].tcbArch.regs()[ArchReg::Badge.index()] == old(self).notifications()[ntfn as int].msg_identifier
                        &&& final(self).notifications()[ntfn as int].state == NtfnState::Idle
                    },
                    _ => true,
                }
            }),
            ({
                let cur = old(self).current()[cpu as int];
                match cap {
                    IpcCap::Notification { ntfn, .. } => r && old(self).notifications()[ntfn as int].state != NtfnState::Active && block ==> {
                        &&& final(self).state_of(cur as int) == ThreadState::ThreadStateBlockedOnNotification
                        &&& final(self).ntfn_queue(ntfn as int) == old(self).ntfn_queue(ntfn as int).push(cur)
                    },
                    _ => true,
                }
            }),
    {
        proof {
            old(self).lemma_wf_shape();
        }
        let cur = self.cur_thread[cpu];
        match cap {
            IpcCap::Endpoint { ep, can_receive, can_grant, .. } => {
                if !can_receive || ep >= self.eps.len() {
                    return false;
                }
                proof {
                    old(self).lemma_tcb_params(cur as int);
                    old(self).lemma_wf_facts();
                }
                self.set_caller(cur, None, false);
                let ghost mid = *self;
                proof {
                    mid.lemma_wf_shape();
                    if old(self).endpoints()[ep as int].state == EPState::Send {
                        assert(old(self).ep_queue(ep as int).len() > 0);
                        let src = old(self).ep_queue(ep as int)[0];
                        assert(src != cur);
                        assert(mid.threads()[src as int] == old(self).threads()[src as int]);
                    }
                }
                self.receive_ipc(cpu, ep, cur, block, can_grant);
                true
            },
            IpcCap::Notification { ntfn, can_receive, .. } => {
                if !can_receive || ntfn >= self.ntfns.len() {
                    return false;
                }
                match self.ntfns[ntfn].bound_tcb {
                    Some(b) => {
                        if b != cur {
                            return false;
                        }
                    },
                    None => {},
                }
                proof {
                    old(self).lemma_tcb_params(cur as int);
                }
                self.receive_signal(ntfn, cur, block);
                true
            },
            IpcCap::Other => false,
        }
    }

    /// Delivers a fault of running thread `t`, on core `cpu`, to its fault handler: as a
    /// call on the handler's endpoint, so that `t` waits for the handler's reply. A
    /// handler needs a grant or reply-grant right; a thread without a usable handler
    /// becomes inactive.
    pub fn handle_fault(&mut self, cpu: usize, t: usize, handler: Option<FaultHandler>)
        requires
            old(self).wf(),
            cpu < CONFIG_MAX_NUM_NODES,
            t < old(self).threads().len(),
            old(self).state_of(t as int).runnable(),
        ensures
            final(self).wf(),
            final(self).threads().len() == old(self).threads().len(),
            final(self).current() == old(self).current(),
            match handler {
                Some(h) => if h.ep < old(self).endpoints().len() && (h.can_grant || h.can_grant_reply) {
                    if old(self).endpoints()[h.ep as int].state == EPState::Recv {
                        final(self).state_of(t as int) == ThreadState::ThreadStateBlockedOnReply
                    } else {
                        final(self).state_of(t as int) == ThreadState::ThreadStateBlockedOnSend
                            && final(self).ep_queue(h.ep as int) == old(self).ep_queue(h.ep as int).push(t)
                    }
                } else {
                    final(self).state_of(t as int) == ThreadState::ThreadStateInactive
                },
                None => final(self).state_of(t as int) == ThreadState::ThreadStateInactive,
            },
    {
        match handler {
            Some(h) => {
                if h.ep < self.eps.len() && (h.can_grant || h.can_grant_reply) {
                    self.send_ipc(cpu, h.ep, t, true, true, h.can_grant, h.badge, h.can_grant_reply);
                } else {
                    self.suspend(t);
                }
            },
            None => {
                self.suspend(t);
            },
        }
    }

    /// Unbinds notification `n` from its bound thread, if it has one.
    pub fn safe_unbind_tcb(&mut self, n: usize)
        requires
            old(self).wf(),
            n < old(self).notifications().len(),
        ensures
            final(self).wf(),
            final(self).threads().len() == old(self).threads().len(),
            final(self).notifications()[n as int].bound_tcb is None,
            match old(self).notifications()[n as int].bound_tcb {
                Some(t) => final(self).threads()[t as int].tcbBoundNotification is None,
                None => *final(self) == *old(self),
            },
    {
        match self.ntfns[n].bound_tcb {
            Some(t) => {
                proof {
                    assert(old(self).ntfns@[n as int].bound_tcb is Some);
                }
                self.set_binding(t, n, false);
            },
            None => {},
        }
    }
}

impl KernelState {
    /// Prepares the thread core `cpu` runs for return to user mode: a thread to restart
    /// resumes at the instruction that faulted, and is running from then on.
    pub fn activate_thread(&mut self, cpu: usize)
        requires
            old(self).wf(),
            cpu < CONFIG_MAX_NUM_NODES,
        ensures
            final(self).wf(),
            final(self).threads().len() == old(self).threads().len(),
            ({
                let cur = old(self).current()[cpu as int];
                let regs = old(self).threads()[cur as int].tcbArch.regs();
                if old(self).state_of(cur as int) == ThreadState::ThreadStateRestart {
                    &&& final(self).state_of(cur as int) == ThreadState::ThreadStateRunning
                    &&& final(self).threads()[cur as int].tcbArch.regs() == regs.update(
                        ArchReg::NextIP.index(),
                        regs[ArchReg::FaultIP.index()],
                    )
                } else {
                    *final(self) == *old(self)
                }
            }),
            final(self).ready() == old(self).ready(),
            same_objects(final(self), old(self)),
            same_sched(final(self), old(self)),
            sched_preserves(old(self), final(self)),
    {
        proof {
            old(self).lemma_wf_shape();
            old(self).lemma_tcb_params(old(self).current()[cpu as int] as int);
        }
        let cur = self.cur_thread[cpu];
        if self.tcbs[cur].tcbState == ThreadState::ThreadStateRestart {
            let pc = self.tcbs[cur].tcbArch.get_register(ArchReg::FaultIP);
            self.set_tcb_register(cur, ArchReg::NextIP, pc);
            let ghost mid = *self;
            self.set_state_free(cur, ThreadState::ThreadStateRunning);
            proof {
                assert(mid.threads()[cur as int].tcbArch == self.threads()[cur as int].tcbArch);
                let a = old(self);
                assert forall|u: int| 0 <= u < a.threads().len() implies (#[trigger] self.state_of(u) == a.state_of(u) || (a.state_of(u)
                        == ThreadState::ThreadStateRestart && self.state_of(u) == ThreadState::ThreadStateRunning)) by {
                    if u != cur as int {
                        assert(self.threads()[u] == a.threads()[u]);
                    }
                }
                assert forall|u: int, i: int|
                    0 <= u < a.threads().len() && 0 <= i < CONTEXT_REG_NUM && i != ArchReg::NextIP.index() implies #[trigger] self.threads()[u].tcbArch.regs()[i]
                        == a.threads()[u].tcbArch.regs()[i] by {
                    if u != cur as int {
                        assert(self.threads()[u] == a.threads()[u]);
                    }
                }
            }
        }
    }
}

impl KernelState {
    /// Whether thread `t`, queued by core `cpu`, must be announced to its own core by a
    /// reschedule interrupt: it belongs to another core, is in the current domain, and
    /// that core runs its idle thread or a thread of lower priority.
    pub open spec fn needs_remote_resched(&self, cpu: usize, t: usize) -> bool {
        let tcb = self.threads()[t as int];
        let target = self.current()[tcb.tcbAffinity as int];
        &&& tcb.tcbAffinity != cpu
        &&& tcb.domain == self.domain()
        &&& (target == tcb.tcbAffinity || tcb.tcbPriority > self.threads()[target as int].tcbPriority)
    }

    /// The reschedule-interrupt masks after core `cpu` queues thread `t`.
    pub open spec fn ipi_after_enqueue(&self, cpu: usize, t: usize) -> Seq<usize> {
        if self.needs_remote_resched(cpu, t) {
            self.ipi_resched().update(
                cpu as int,
                self.ipi_resched()[cpu as int] | (1usize << self.threads()[t as int].tcbAffinity),
            )
        } else {
            self.ipi_resched()
        }
    }

    /// Flags the core of thread `t` for a reschedule interrupt from `cpu` when
    /// `needs_remote_resched` holds.
    fn update_queue(&mut self, cpu: usize, t: usize)
        requires
            old(self).wf(),
            cpu < CONFIG_MAX_NUM_NODES,
            t < old(self).threads().len(),
        ensures
            final(self).wf(),
            final(self).ipi_resched() == old(self).ipi_after_enqueue(cpu, t),
            final(self).threads() == old(self).threads(),
            final(self).ready() == old(self).ready(),
            final(self).current() == old(self).current(),
            final(self).resched() == old(self).resched(),
            final(self).domain() == old(self).domain(),
            same_objects(final(self), old(self)),
    {
        proof {
            old(self).lemma_wf_shape();
            old(self).lemma_tcb_params(t as int);
        }
        let aff = self.tcbs[t].tcbAffinity;
        if aff != cpu && self.tcbs[t].domain == self.cur_domain {
            let target = self.cur_thread[aff];
            if target == aff || self.tcbs[t].tcbPriority > self.tcbs[target].tcbPriority {
                let mask = self.ipi_reschedule_pending[cpu] | (1usize << aff);
                self.ipi_reschedule_pending.set(cpu, mask);
                proof {
                    assert(self.shape_ok());
                }
            }
        }
    }

    /// Puts runnable thread `t` into its ready queue on behalf of core `cpu`, at the head
    /// or at the tail, and announces it to its own core when it belongs to another.
    fn ready_enqueue(&mut self, cpu: usize, t: usize, at_head: bool)
        requires
            old(self).wf(),
            cpu < CONFIG_MAX_NUM_NODES,
            t < old(self).threads().len(),
            old(self).state_of(t as int).runnable(),
        ensures
            final(self).wf(),
            final(self).threads() == old(self).threads().update(
                t as int,
                tcb_t { tcbQueued: true, ..old(self).threads()[t as int] },
            ),
            final(self).ready() == enqueued(old(self).ready(), old(self).threads()[t as int], t, at_head),
            final(self).ipi_resched() == old(self).ipi_after_enqueue(cpu, t),
            final(self).current() == old(self).current(),
            final(self).resched() == old(self).resched(),
            final(self).domain() == old(self).domain(),
            same_objects(final(self), old(self)),
    {
        self.ready_link(t, at_head);
        let ghost mid = *self;
        self.update_queue(cpu, t);
        proof {
            assert(mid.needs_remote_resched(cpu, t) == old(self).needs_remote_resched(cpu, t));
        }
    }
}

impl KernelState {
    /// What every well-formed kernel state guarantees of its queues: each entry is a
    /// valid thread id and stands at most once in its queue; a ready-queue entry is
    /// runnable and marked queued; an endpoint is idle exactly when its queue is empty,
    /// and its waiters are blocked in its direction; a notification is waiting exactly
    /// when its queue is non-empty, and its waiters are blocked on notifications.
    pub proof fn lemma_wf_facts(&self)
        requires
            self.wf(),
        ensures
            self.ready().len() == NUM_READY_QUEUES,
            forall|q: int| 0 <= q < NUM_READY_QUEUES ==> no_dups(#[trigger] self.ready()[q]),
            forall|q: int, k: int|
                0 <= q < NUM_READY_QUEUES && 0 <= k < self.ready()[q].len() ==> {
                    let t = #[trigger] self.ready()[q][k];
                    &&& t < self.threads().len()
                    &&& self.threads()[t as int].tcbQueued
                    &&& self.threads()[t as int].sched_slot() == q
                    &&& self.state_of(t as int).runnable()
                },
            forall|e: int| self.valid_ep(e) ==> no_dups(#[trigger] self.ep_queue(e))
                && (self.endpoints()[e].state == EPState::Idle <==> self.ep_queue(e).len() == 0),
            forall|e: int, k: int|
                self.valid_ep(e) && 0 <= k < self.ep_queue(e).len() ==> {
                    let t = #[trigger] self.ep_queue(e)[k];
                    &&& t < self.threads().len()
                    &&& (self.endpoints()[e].state == EPState::Send ==> self.state_of(t as int) == ThreadState::ThreadStateBlockedOnSend)
                    &&& (self.endpoints()[e].state == EPState::Recv ==> self.state_of(t as int) == ThreadState::ThreadStateBlockedOnReceive)
                },
            forall|n: int| self.valid_ntfn(n) ==> no_dups(#[trigger] self.ntfn_queue(n))
                && (self.notifications()[n].state == NtfnState::Waiting <==> self.ntfn_queue(n).len() > 0),
            forall|n: int, k: int|
                self.valid_ntfn(n) && 0 <= k < self.ntfn_queue(n).len() ==> {
                    let t = #[trigger] self.ntfn_queue(n)[k];
                    &&& t < self.threads().len()
                    &&& self.state_of(t as int) == ThreadState::ThreadStateBlockedOnNotification
                },
            forall|n: int|
                self.valid_ntfn(n) && (#[trigger] self.notifications()[n]).bound_tcb is Some ==> self.notifications()[n].bound_tcb->0
                    < self.threads().len(),
    {
        self.rq.lemma_len();
        assert forall|n: int|
            self.valid_ntfn(n) && (#[trigger] self.notifications()[n]).bound_tcb is Some implies self.notifications()[n].bound_tcb->0
                < self.threads().len() by {
            assert(self.ntfns@[n].bound_tcb is Some);
        }
        assert forall|q: int, k: int|
            0 <= q < NUM_READY_QUEUES && 0 <= k < self.ready()[q].len() implies {
                let t = #[trigger] self.ready()[q][k];
                &&& t < self.threads().len()
                &&& self.threads()[t as int].tcbQueued
                &&& self.threads()[t as int].sched_slot() == q
                &&& self.state_of(t as int).runnable()
            } by {
            self.lemma_member_queued(q, k);
        }
        assert forall|e: int| self.valid_ep(e) implies no_dups(#[trigger] self.ep_queue(e))
            && (self.endpoints()[e].state == EPState::Idle <==> self.ep_queue(e).len() == 0) by {
            assert(no_dups(self.eps@[e].queue@));
        }
        assert forall|e: int, k: int|
            self.valid_ep(e) && 0 <= k < self.ep_queue(e).len() implies {
                let t = #[trigger] self.ep_queue(e)[k];
                &&& t < self.threads().len()
                &&& (self.endpoints()[e].state == EPState::Send ==> self.state_of(t as int) == ThreadState::ThreadStateBlockedOnSend)
                &&& (self.endpoints()[e].state == EPState::Recv ==> self.state_of(t as int) == ThreadState::ThreadStateBlockedOnReceive)
            } by {
            let t = self.eps@[e].queue@[k];
        }
        assert forall|n: int| self.valid_ntfn(n) implies no_dups(#[trigger] self.ntfn_queue(n))
            && (self.notifications()[n].state == NtfnState::Waiting <==> self.ntfn_queue(n).len() > 0) by {
            assert(no_dups(self.ntfns@[n].queue@));
        }
        assert forall|n: int, k: int|
            self.valid_ntfn(n) && 0 <= k < self.ntfn_queue(n).len() implies {
                let t = #[trigger] self.ntfn_queue(n)[k];
                &&& t < self.threads().len()
                &&& self.state_of(t as int) == ThreadState::ThreadStateBlockedOnNotification
            } by {
            let t = self.ntfns@[n].queue@[k];
        }
    }
}

/// Core `cpu` in domain `dom`, choosing from ready queues `pre`, came to run `c` and
/// left the queues `post`: the head of the highest-priority non-empty queue, which left
/// it; or, with every queue empty, its idle thread.
pub open spec fn picked_from(pre: Seq<Seq<usize>>, cpu: usize, dom: usize, c: usize, post: Seq<Seq<usize>>) -> bool {
    ||| (c == cpu && post == pre && forall|prio: int|
        0 <= prio < CONFIG_NUM_PRIORITIES ==> #[trigger] pre[queue_slot(cpu as int, dom as int, prio)].len() == 0)
    ||| exists|p: int|
        0 <= p < CONFIG_NUM_PRIORITIES && #[trigger] pre[queue_slot(cpu as int, dom as int, p)].len() > 0
            && pre[queue_slot(cpu as int, dom as int, p)][0] == c
            && (forall|higher: int|
            p < higher < CONFIG_NUM_PRIORITIES ==> #[trigger] pre[queue_slot(cpu as int, dom as int, higher)].len() == 0)
            && post == pre.update(
            queue_slot(cpu as int, dom as int, p),
            pre[queue_slot(cpu as int, dom as int, p)].drop_first(),
        )
}

/// `b` differs from `a` at most in the threads' queued flags.
pub open spec fn only_queued_changed(a: Seq<tcb_t>, b: Seq<tcb_t>) -> bool {
    &&& b.len() == a.len()
    &&& forall|u: int| 0 <= u < a.len() ==> #[trigger] b[u] == (tcb_t { tcbQueued: b[u].tcbQueued, ..a[u] })
}

proof fn lemma_only_queued_refl(a: Seq<tcb_t>)
    ensures
        only_queued_changed(a, a),
{
}

proof fn lemma_only_queued_update(a: Seq<tcb_t>, t: int, q: bool)
    requires
        0 <= t < a.len(),
    ensures
        only_queued_changed(a, a.update(t, tcb_t { tcbQueued: q, ..a[t] })),
{
    let b = a.update(t, tcb_t { tcbQueued: q, ..a[t] });
    assert forall|u: int| 0 <= u < a.len() implies #[trigger] b[u] == (tcb_t { tcbQueued: b[u].tcbQueued, ..a[u] }) by {
        if u != t {
            assert(b[u] == a[u]);
        }
    }
}

proof fn lemma_only_queued_trans(a: Seq<tcb_t>, b: Seq<tcb_t>, c: Seq<tcb_t>)
    requires
        only_queued_changed(a, b),
        only_queued_changed(b, c),
    ensures
        only_queued_changed(a, c),
{
    assert forall|u: int| 0 <= u < a.len() implies #[trigger] c[u] == (tcb_t { tcbQueued: c[u].tcbQueued, ..a[u] }) by {
        assert(b[u] == (tcb_t { tcbQueued: b[u].tcbQueued, ..a[u] }));
        assert(c[u] == (tcb_t { tcbQueued: c[u].tcbQueued, ..b[u] }));
    }
}

/// What choosing and activating a thread leave of a state: the IPC objects, every
/// thread's registers but the next-instruction register, and every thread's state but
/// a restart that became running.
pub open spec fn sched_preserves(a: &KernelState, b: &KernelState) -> bool {
    &&& b.endpoints() == a.endpoints()
    &&& b.notifications() == a.notifications()
    &&& b.threads().len() == a.threads().len()
    &&& forall|u: int|
        0 <= u < a.threads().len() ==> (#[trigger] b.state_of(u) == a.state_of(u) || (a.state_of(u)
            == ThreadState::ThreadStateRestart && b.state_of(u) == ThreadState::ThreadStateRunning))
    &&& forall|u: int, i: int|
        0 <= u < a.threads().len() && 0 <= i < CONTEXT_REG_NUM && i != ArchReg::NextIP.index() ==> #[trigger] b.threads()[u].tcbArch.regs()[i]
            == a.threads()[u].tcbArch.regs()[i]
}

proof fn lemma_only_queued_preserves(a: &KernelState, b: &KernelState)
    requires
        only_queued_changed(a.threads(), b.threads()),
        same_objects(a, b),
    ensures
        sched_preserves(a, b),
{
    assert forall|u: int| 0 <= u < a.threads().len() implies (#[trigger] b.state_of(u) == a.state_of(u) || (a.state_of(u)
            == ThreadState::ThreadStateRestart && b.state_of(u) == ThreadState::ThreadStateRunning)) by {
        assert(b.threads()[u] == (tcb_t { tcbQueued: b.threads()[u].tcbQueued, ..a.threads()[u] }));
    }
    assert forall|u: int, i: int|
        0 <= u < a.threads().len() && 0 <= i < CONTEXT_REG_NUM && i != ArchReg::NextIP.index() implies #[trigger] b.threads()[u].tcbArch.regs()[i]
            == a.threads()[u].tcbArch.regs()[i] by {
        assert(b.threads()[u] == (tcb_t { tcbQueued: b.threads()[u].tcbQueued, ..a.threads()[u] }));
    }
}

/// Choosing and then activating keeps what each keeps.
pub proof fn lemma_sched_preserves_trans(a: &KernelState, b: &KernelState, c: &KernelState)
    requires
        sched_preserves(a, b),
        sched_preserves(b, c),
    ensures
        sched_preserves(a, c),
{
    assert forall|u: int| 0 <= u < a.threads().len() implies (#[trigger] c.state_of(u) == a.state_of(u) || (a.state_of(u)
            == ThreadState::ThreadStateRestart && c.state_of(u) == ThreadState::ThreadStateRunning)) by {
        assert(b.state_of(u) == a.state_of(u) || (a.state_of(u) == ThreadState::ThreadStateRestart && b.state_of(u) == ThreadState::ThreadStateRunning));
        assert(c.state_of(u) == b.state_of(u) || (b.state_of(u) == ThreadState::ThreadStateRestart && c.state_of(u) == ThreadState::ThreadStateRunning));
    }
    assert forall|u: int, i: int|
        0 <= u < a.threads().len() && 0 <= i < CONTEXT_REG_NUM && i != ArchReg::NextIP.index() implies #[trigger] c.threads()[u].tcbArch.regs()[i]
            == a.threads()[u].tcbArch.regs()[i] by {
        assert(b.threads()[u].tcbArch.regs()[i] == a.threads()[u].tcbArch.regs()[i]);
    }
}

} // verus!
