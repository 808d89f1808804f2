//! Thread control blocks and the part of each thread operation that touches only the
//! thread itself and the ready queues. Operations that also reach other threads or IPC
//! objects stand on `KernelState`.
use vstd::prelude::*;
use crate::arch::{ArchReg, ArchTCB, CONTEXT_REG_NUM, MAX_MSG_SIZE, MSG_REGISTER_NUM, NUM_FAULT_MESSAGES};
use crate::scheduler::{
    lemma_remove_unique, queue_index, queue_slot, valid_sched_params, ReadyQueues, CONFIG_NUM_DOMAINS,
    CONFIG_NUM_PRIORITIES,
};

verus! {

/// The states of a thread.
#[derive(PartialEq, Eq, Structural, Copy, Clone, Debug)]
pub enum ThreadState {
    ThreadStateInactive,
    ThreadStateRunning,
    ThreadStateRestart,
    ThreadStateBlockedOnReceive,
    ThreadStateBlockedOnSend,
    ThreadStateBlockedOnReply,
    ThreadStateBlockedOnNotification,
}

impl ThreadState {
    /// Running or about to restart: the only states a ready queue may hold.
    pub open spec fn runnable(self) -> bool {
        self == ThreadState::ThreadStateRunning || self == ThreadState::ThreadStateRestart
    }

    /// Inactive or blocked.
    pub open spec fn stopped(self) -> bool {
        !self.runnable()
    }

    pub open spec fn blocked(self) -> bool {
        self == ThreadState::ThreadStateBlockedOnReceive || self
            == ThreadState::ThreadStateBlockedOnSend || self
            == ThreadState::ThreadStateBlockedOnReply || self
            == ThreadState::ThreadStateBlockedOnNotification
    }
}

/// A thread control block. Threads refer to each other, and IPC objects to threads, by
/// their id in the kernel's thread table, which `tcbPtr` records.
pub struct tcb_t {
    pub tcbArch: ArchTCB,
    pub tcbState: ThreadState,
    /// Whether the thread stands in its ready queue.
    pub tcbQueued: bool,
    /// The endpoint or notification the thread is blocked on.
    pub tcbBlockingObject: usize,
    /// For a blocked sender: the badge it sends with.
    pub tcbBlockingIPCBadge: usize,
    /// For a blocked sender: whether it waits for a reply.
    pub tcbBlockingIPCIsCall: bool,
    pub tcbBoundNotification: Option<usize>,
    /// The thread a reply goes to, set when this thread received a call.
    pub tcbCaller: Option<usize>,
    /// Whether the reply to `tcbCaller` may grant capabilities.
    pub tcbCallerCanGrant: bool,
    pub domain: usize,
    pub tcbMCP: usize,
    pub tcbPriority: usize,
    pub tcbTimeSlice: usize,
    pub tcbFaultHandler: usize,
    pub tcbIPCBuffer: usize,
    pub tcbAffinity: usize,
    pub tcbPtr: usize,
}

/// Sets a thread's state.
pub fn set_thread_state(tcb: &mut tcb_t, state: ThreadState)
    ensures
        *final(tcb) == (tcb_t { tcbState: state, ..*old(tcb) }),
{
    tcb.tcbState = state;
}

/// The ready queues `after` are `before` with thread `tcb` taken out of its queue, if it
/// stood there.
pub open spec fn dequeued_from(before: Seq<Seq<usize>>, tcb: tcb_t, after: Seq<Seq<usize>>) -> bool {
    if tcb.tcbQueued {
        exists|k: int|
            0 <= k < before[tcb.sched_slot()].len() && before[tcb.sched_slot()][k] == tcb.tcbPtr
                && after == before.update(tcb.sched_slot(), before[tcb.sched_slot()].remove(k))
    } else {
        after == before
    }
}

impl tcb_t {
    /// The ready queue that the thread belongs in.
    pub open spec fn sched_slot(&self) -> int {
        queue_slot(self.tcbAffinity as int, self.domain as int, self.tcbPriority as int)
    }

    /// Its core, domain and priority name a ready queue, and its register file is whole.
    pub open spec fn params_ok(&self) -> bool {
        &&& valid_sched_params(self.tcbAffinity as int, self.domain as int, self.tcbPriority as int)
        &&& self.tcbArch.wf()
    }

    /// A new thread: inactive, in no queue, bound to nothing.
    pub fn new(ptr: usize, prio: usize, dom: usize, core: usize) -> (r: Self)
        requires
            valid_sched_params(core as int, dom as int, prio as int),
        ensures
            r.params_ok(),
            r.tcbPtr == ptr,
            r.tcbPriority == prio,
            r.tcbMCP == prio,
            r.domain == dom,
            r.tcbAffinity == core,
            r.tcbState == ThreadState::ThreadStateInactive,
            !r.tcbQueued,
            r.tcbBoundNotification is None,
            r.tcbCaller is None,
            forall|i: int| 0 <= i < crate::arch::CONTEXT_REG_NUM ==> #[trigger] r.tcbArch.regs()[i]
                == 0,
    {
        tcb_t {
            tcbArch: ArchTCB::new(),
            tcbState: ThreadState::ThreadStateInactive,
            tcbQueued: false,
            tcbBlockingObject: 0,
            tcbBlockingIPCBadge: 0,
            tcbBlockingIPCIsCall: false,
            tcbBoundNotification: None,
            tcbCaller: None,
            tcbCallerCanGrant: false,
            domain: dom,
            tcbMCP: prio,
            tcbPriority: prio,
            tcbTimeSlice: 0,
            tcbFaultHandler: 0,
            tcbIPCBuffer: 0,
            tcbAffinity: core,
            tcbPtr: ptr,
        }
    }

    /// Resets the register file.
    pub fn init(&mut self)
        ensures
            *final(self) == (tcb_t { tcbArch: final(self).tcbArch, ..*old(self) }),
            final(self).tcbArch.wf(),
            forall|i: int|
                0 <= i < crate::arch::CONTEXT_REG_NUM ==> #[trigger] final(self).tcbArch.regs()[i]
                    == 0,
    {
        self.tcbArch = ArchTCB::new();
    }

    pub fn get_state(&self) -> (r: ThreadState)
        ensures
            r == self.tcbState,
    {
        self.tcbState
    }

    pub fn set_state(&mut self, state: ThreadState)
        ensures
            *final(self) == (tcb_t { tcbState: state, ..*old(self) }),
    {
        self.tcbState = state;
    }

    pub fn is_stopped(&self) -> (r: bool)
        ensures
            r == self.tcbState.stopped(),
    {
        match self.tcbState {
            ThreadState::ThreadStateInactive
            | ThreadState::ThreadStateBlockedOnNotification
            | ThreadState::ThreadStateBlockedOnReceive
            | ThreadState::ThreadStateBlockedOnReply
            | ThreadState::ThreadStateBlockedOnSend => true,
            _ => false,
        }
    }

    pub fn is_runnable(&self) -> (r: bool)
        ensures
            r == self.tcbState.runnable(),
    {
        match self.tcbState {
            ThreadState::ThreadStateRunning | ThreadState::ThreadStateRestart => true,
            _ => false,
        }
    }

    pub fn is_blocked(&self) -> (r: bool)
        ensures
            r == self.tcbState.blocked(),
    {
        match self.tcbState {
            ThreadState::ThreadStateBlockedOnReceive
            | ThreadState::ThreadStateBlockedOnSend
            | ThreadState::ThreadStateBlockedOnNotification
            | ThreadState::ThreadStateBlockedOnReply => true,
            _ => false,
        }
    }

    /// Without scheduling-context budgets, a thread may be scheduled exactly when it is
    /// runnable.
    pub fn is_schedulable(&self) -> (r: bool)
        ensures
            r == self.tcbState.runnable(),
    {
        self.is_runnable()
    }

    pub fn set_mc_priority(&mut self, mcp: usize)
        ensures
            *final(self) == (tcb_t { tcbMCP: mcp, ..*old(self) }),
    {
        self.tcbMCP = mcp;
    }

    /// Records `ntfn` as the thread's bound notification.
    pub fn bind_notification(&mut self, ntfn: usize)
        ensures
            *final(self) == (tcb_t { tcbBoundNotification: Some(ntfn), ..*old(self) }),
    {
        self.tcbBoundNotification = Some(ntfn);
    }

    pub fn unbind_notification(&mut self)
        ensures
            *final(self) == (tcb_t { tcbBoundNotification: None, ..*old(self) }),
    {
        self.tcbBoundNotification = None;
    }

    /// The core the thread runs on.
    pub fn get_cpu(&self) -> (r: usize)
        ensures
            r == self.tcbAffinity,
    {
        self.tcbAffinity
    }

    /// The thread's id in the thread table.
    pub fn get_ptr(&self) -> (r: usize)
        ensures
            r == self.tcbPtr,
    {
        self.tcbPtr
    }

    pub fn get_mut_ptr(&mut self) -> (r: usize)
        ensures
            r == old(self).tcbPtr,
            *final(self) == *old(self),
    {
        self.tcbPtr
    }

    /// Writes message register `offset` and returns the next offset. Registers beyond
    /// those held in machine registers would go to the IPC buffer, which this kernel core
    /// does not map, so the message is cut there.
    pub fn set_mr(&mut self, offset: usize, reg: usize) -> (r: usize)
        requires
            old(self).tcbArch.wf(),
        ensures
            final(self).tcbArch.wf(),
            offset < MSG_REGISTER_NUM ==> r == offset + 1 && *final(self) == (tcb_t {
                tcbArch: final(self).tcbArch,
                ..*old(self)
            }) && final(self).tcbArch.regs() == old(self).tcbArch.regs().update(
                ArchReg::Msg(offset).index(),
                reg,
            ) && final(self).tcbArch.fpu == old(self).tcbArch.fpu,
            offset >= MSG_REGISTER_NUM ==> r == MSG_REGISTER_NUM && *final(self) == *old(self),
    {
        if offset >= MSG_REGISTER_NUM {
            MSG_REGISTER_NUM
        } else {
            self.tcbArch.set_register(ArchReg::Msg(offset), reg);
            offset + 1
        }
    }

    pub fn debug_append(&mut self)
        ensures
            *final(self) == *old(self),
    {
    }

    pub fn debug_remove(&mut self)
        ensures
            *final(self) == *old(self),
    {
    }

    /// Puts the thread at the head of its ready queue, unless it already stands there.
    pub fn sched_enqueue(&mut self, rq: &mut ReadyQueues)
        requires
            old(rq).wf(),
            old(self).params_ok(),
        ensures
            final(rq).wf(),
            *final(self) == (tcb_t { tcbQueued: true, ..*old(self) }),
            final(rq)@ == if old(self).tcbQueued {
                old(rq)@
            } else {
                old(rq)@.update(
                    old(self).sched_slot(),
                    seq![old(self).tcbPtr] + old(rq)@[old(self).sched_slot()],
                )
            },
    {
        if !self.tcbQueued {
            let idx = queue_index(self.tcbAffinity, self.domain, self.tcbPriority);
            rq.prepend(idx, self.tcbPtr);
            self.tcbQueued = true;
        }
    }

    /// Puts the thread at the tail of its ready queue, unless it already stands there.
    pub fn sched_append(&mut self, rq: &mut ReadyQueues)
        requires
            old(rq).wf(),
            old(self).params_ok(),
        ensures
            final(rq).wf(),
            *final(self) == (tcb_t { tcbQueued: true, ..*old(self) }),
            final(rq)@ == if old(self).tcbQueued {
                old(rq)@
            } else {
                old(rq)@.update(
                    old(self).sched_slot(),
                    old(rq)@[old(self).sched_slot()].push(old(self).tcbPtr),
                )
            },
    {
        if !self.tcbQueued {
            let idx = queue_index(self.tcbAffinity, self.domain, self.tcbPriority);
            rq.append(idx, self.tcbPtr);
            self.tcbQueued = true;
        }
    }

    /// Takes the thread out of its ready queue, if it stands there.
    pub fn sched_dequeue(&mut self, rq: &mut ReadyQueues)
        requires
            old(rq).wf(),
            old(self).params_ok(),
            old(self).tcbQueued ==> old(rq)@[old(self).sched_slot()].contains(old(self).tcbPtr),
        ensures
            final(rq).wf(),
            *final(self) == (tcb_t { tcbQueued: false, ..*old(self) }),
            !old(self).tcbQueued ==> final(rq)@ == old(rq)@,
            old(self).tcbQueued ==> exists|k: int|
                0 <= k < old(rq)@[old(self).sched_slot()].len() && old(rq)@[old(self).sched_slot()][k] == old(self).tcbPtr && final(rq)@ == old(rq)@.update(
                    old(self).sched_slot(),
                    old(rq)@[old(self).sched_slot()].remove(k),
                ),
            old(self).tcbQueued && (forall|i: int, j: int|
                0 <= i < old(rq)@[old(self).sched_slot()].len() && 0 <= j < old(rq)@[old(self).sched_slot()].len() && i != j
                    ==> old(rq)@[old(self).sched_slot()][i] != old(rq)@[old(self).sched_slot()][j])
                ==> !final(rq)@[old(self).sched_slot()].contains(old(self).tcbPtr),
    {
        if self.tcbQueued {
            let idx = queue_index(self.tcbAffinity, self.domain, self.tcbPriority);
            let k = rq.remove(idx, self.tcbPtr);
            self.tcbQueued = false;
            assert(old(rq)@[old(self).sched_slot()][k as int] == old(self).tcbPtr);
            proof {
                crate::scheduler::lemma_queue_slot_bounds(
                    old(self).tcbAffinity as int,
                    old(self).domain as int,
                    old(self).tcbPriority as int,
                );
                old(rq).lemma_len();
                let q0 = old(rq)@[old(self).sched_slot()];
                if forall|i: int, j: int| 0 <= i < q0.len() && 0 <= j < q0.len() && i != j ==> q0[i] != q0[j] {
                    lemma_remove_unique(q0, k as int, old(self).tcbPtr);
                }
            }
        }
    }

    /// Makes the thread inactive and takes it out of its ready queue.
    pub fn suspend(&mut self, rq: &mut ReadyQueues)
        requires
            old(rq).wf(),
            old(self).params_ok(),
            old(self).tcbQueued ==> old(rq)@[old(self).sched_slot()].contains(old(self).tcbPtr),
        ensures
            final(rq).wf(),
            *final(self) == (tcb_t {
                tcbState: ThreadState::ThreadStateInactive,
                tcbQueued: false,
                ..*old(self)
            }),
            !old(self).tcbQueued ==> final(rq)@ == old(rq)@,
            old(self).tcbQueued ==> exists|k: int|
                0 <= k < old(rq)@[old(self).sched_slot()].len() && old(rq)@[old(self).sched_slot()][k] == old(self).tcbPtr && final(rq)@ == old(rq)@.update(
                    old(self).sched_slot(),
                    old(rq)@[old(self).sched_slot()].remove(k),
                ),
            old(self).tcbQueued && (forall|i: int, j: int|
                0 <= i < old(rq)@[old(self).sched_slot()].len() && 0 <= j < old(rq)@[old(self).sched_slot()].len() && i != j
                    ==> old(rq)@[old(self).sched_slot()][i] != old(rq)@[old(self).sched_slot()][j])
                ==> !final(rq)@[old(self).sched_slot()].contains(old(self).tcbPtr),
    {
        set_thread_state(self, ThreadState::ThreadStateInactive);
        self.sched_dequeue(rq);
    }

    /// The thread's own part of a restart: a stopped thread in no IPC queue becomes
    /// `Restart` and joins the head of its ready queue; a runnable thread is left as it
    /// is. Cancelling a blocked thread's IPC first is `KernelState::restart`'s part.
    pub fn restart(&mut self, rq: &mut ReadyQueues)
        requires
            old(rq).wf(),
            old(self).params_ok(),
            old(self).tcbState != ThreadState::ThreadStateBlockedOnSend,
            old(self).tcbState != ThreadState::ThreadStateBlockedOnReceive,
            old(self).tcbState != ThreadState::ThreadStateBlockedOnNotification,
            old(self).tcbState.stopped() ==> !old(self).tcbQueued,
        ensures
            final(rq).wf(),
            old(self).tcbState.runnable() ==> *final(self) == *old(self) && final(rq)@ == old(rq)@,
            old(self).tcbState.stopped() ==> *final(self) == (tcb_t {
                tcbState: ThreadState::ThreadStateRestart,
                tcbQueued: true,
                ..*old(self)
            }) && final(rq)@ == if old(self).tcbQueued {
                old(rq)@
            } else {
                old(rq)@.update(
                    old(self).sched_slot(),
                    seq![old(self).tcbPtr] + old(rq)@[old(self).sched_slot()],
                )
            },
    {
        if self.is_stopped() {
            set_thread_state(self, ThreadState::ThreadStateRestart);
            self.sched_enqueue(rq);
        }
    }

    /// Takes the thread out of its ready queue and gives it a new priority; the caller
    /// puts it back where it now belongs.
    pub fn set_priority(&mut self, rq: &mut ReadyQueues, priority: usize)
        requires
            old(rq).wf(),
            old(self).params_ok(),
            priority < CONFIG_NUM_PRIORITIES,
            old(self).tcbQueued ==> old(rq)@[old(self).sched_slot()].contains(old(self).tcbPtr),
        ensures
            final(rq).wf(),
            final(self).params_ok(),
            *final(self) == (tcb_t { tcbQueued: false, tcbPriority: priority, ..*old(self) }),
            !old(self).tcbQueued ==> final(rq)@ == old(rq)@,
            old(self).tcbQueued ==> exists|k: int|
                0 <= k < old(rq)@[old(self).sched_slot()].len() && old(rq)@[old(self).sched_slot()][k] == old(self).tcbPtr && final(rq)@ == old(rq)@.update(
                    old(self).sched_slot(),
                    old(rq)@[old(self).sched_slot()].remove(k),
                ),
            old(self).tcbQueued && (forall|i: int, j: int|
                0 <= i < old(rq)@[old(self).sched_slot()].len() && 0 <= j < old(rq)@[old(self).sched_slot()].len() && i != j
                    ==> old(rq)@[old(self).sched_slot()][i] != old(rq)@[old(self).sched_slot()][j])
                ==> !final(rq)@[old(self).sched_slot()].contains(old(self).tcbPtr),
    {
        self.sched_dequeue(rq);
        self.tcbPriority = priority;
    }

    /// Moves the thread to domain `dom`: out of its ready queue, and back into the head of
    /// the new domain's queue when it is schedulable.
    pub fn set_domain(&mut self, rq: &mut ReadyQueues, dom: usize)
        requires
            old(rq).wf(),
            old(self).params_ok(),
            dom < CONFIG_NUM_DOMAINS,
            old(self).tcbQueued ==> old(rq)@[old(self).sched_slot()].contains(old(self).tcbPtr),
        ensures
            final(rq).wf(),
            final(self).params_ok(),
            *final(self) == (tcb_t {
                tcbQueued: old(self).tcbState.runnable(),
                domain: dom,
                ..*old(self)
            }),
            exists|mid: Seq<Seq<usize>>|
                #[trigger] dequeued_from(old(rq)@, *old(self), mid) && final(rq)@ == if old(self).tcbState.runnable() {
                    mid.update(final(self).sched_slot(), seq![old(self).tcbPtr] + mid[final(self).sched_slot()])
                } else {
                    mid
                },
    {
        self.sched_dequeue(rq);
        let ghost mid = rq@;
        self.domain = dom;
        if self.is_schedulable() {
            self.sched_enqueue(rq);
        }
        proof {
            assert(dequeued_from(old(rq)@, *old(self), mid));
        }
    }
}

/// The fault message layout of a syscall fault.
pub const MESSAGE_ID_SYSCALL: usize = 0;

/// The fault message layout of a user exception.
pub const MESSAGE_ID_EXCEPTION: usize = 1;

/// Length of a syscall fault message.
pub const N_SYSCALL_MESSAGE: usize = 12;

/// Length of a user exception message.
pub const N_EXCEPTON_MESSAGE: usize = 3;

/// How many registers of a message of `length` travel in machine registers.
pub open spec fn in_registers(length: usize) -> int {
    if length < MSG_REGISTER_NUM {
        length as int
    } else {
        MSG_REGISTER_NUM as int
    }
}

/// The register that entry `i` of fault message `id` lives in.
pub open spec fn fault_target(id: usize, i: int) -> int {
    ArchReg::FaultMessage(id, i as usize).index()
}

/// Whether a reply to fault message `id` of `length` writes register `k`.
pub open spec fn written_by_reply(id: usize, length: usize, k: int) -> bool {
    exists|i: int| 0 <= i < in_registers(length) && #[trigger] fault_target(id, i) == k
}

impl tcb_t {
    /// Copies fault message `id` of this thread into the message registers of
    /// `receiver`. A message longer than the machine registers would continue in the
    /// receiver's IPC buffer, which this kernel core does not map, so it is cut there.
    pub fn copy_fault_mrs(&self, receiver: &mut Self, id: usize, length: usize)
        requires
            self.tcbArch.wf(),
            old(receiver).tcbArch.wf(),
            id < NUM_FAULT_MESSAGES,
            length <= MAX_MSG_SIZE,
        ensures
            final(receiver).tcbArch.wf(),
            *final(receiver) == (tcb_t { tcbArch: final(receiver).tcbArch, ..*old(receiver) }),
            final(receiver).tcbArch.fpu == old(receiver).tcbArch.fpu,
            forall|k: int|
                0 <= k < CONTEXT_REG_NUM ==> #[trigger] final(receiver).tcbArch.regs()[k] == if 2 <= k < 2
                    + in_registers(length) {
                    self.tcbArch.regs()[ArchReg::FaultMessage(id, (k - 2) as usize).index()]
                } else {
                    old(receiver).tcbArch.regs()[k]
                },
    {
        let len = if length < MSG_REGISTER_NUM {
            length
        } else {
            MSG_REGISTER_NUM
        };
        let mut i: usize = 0;
        while i < len
            invariant
                len == in_registers(length),
                i <= len,
                self.tcbArch.wf(),
                receiver.tcbArch.wf(),
                id < NUM_FAULT_MESSAGES,
                length <= MAX_MSG_SIZE,
                *receiver == (tcb_t { tcbArch: receiver.tcbArch, ..*old(receiver) }),
                receiver.tcbArch.fpu == old(receiver).tcbArch.fpu,
                forall|k: int|
                    0 <= k < CONTEXT_REG_NUM ==> #[trigger] receiver.tcbArch.regs()[k] == if 2 <= k < 2
                        + i {
                        self.tcbArch.regs()[ArchReg::FaultMessage(id, (k - 2) as usize).index()]
                    } else {
                        old(receiver).tcbArch.regs()[k]
                    },
            decreases len - i,
        {
            let v = self.tcbArch.get_register(ArchReg::FaultMessage(id, i));
            let ghost before = receiver.tcbArch.regs();
            receiver.tcbArch.set_register(ArchReg::Msg(i), v);
            proof {
                assert forall|k: int| 0 <= k < CONTEXT_REG_NUM implies #[trigger] receiver.tcbArch.regs()[k]
                    == if 2 <= k < 2 + i + 1 {
                    self.tcbArch.regs()[ArchReg::FaultMessage(id, (k - 2) as usize).index()]
                } else {
                    old(receiver).tcbArch.regs()[k]
                } by {
                    if k != i + 2 {
                        assert(receiver.tcbArch.regs()[k] == before[k]);
                    }
                }
            }
            i = i + 1;
        }
    }

    /// Copies the message registers of this thread into fault message `id` of
    /// `receiver`, as a reply to a fault does. Only the part of the message held in
    /// machine registers is copied.
    pub fn copy_fault_mrs_for_reply(&mut self, receiver: &mut Self, id: usize, length: usize)
        requires
            old(self).tcbArch.wf(),
            old(receiver).tcbArch.wf(),
            id < NUM_FAULT_MESSAGES,
            length <= MAX_MSG_SIZE,
        ensures
            *final(self) == *old(self),
            final(receiver).tcbArch.wf(),
            *final(receiver) == (tcb_t { tcbArch: final(receiver).tcbArch, ..*old(receiver) }),
            final(receiver).tcbArch.fpu == old(receiver).tcbArch.fpu,
            forall|i: int|
                0 <= i < in_registers(length) ==> #[trigger] final(receiver).tcbArch.regs()[ArchReg::FaultMessage(
                    id,
                    i as usize,
                ).index()] == old(self).tcbArch.regs()[ArchReg::Msg(i as usize).index()],
            forall|k: int|
                0 <= k < CONTEXT_REG_NUM && !written_by_reply(id, length, k)
                    ==> #[trigger] final(receiver).tcbArch.regs()[k] == old(receiver).tcbArch.regs()[k],
    {
        let len = if length < MSG_REGISTER_NUM {
            length
        } else {
            MSG_REGISTER_NUM
        };
        let mut i: usize = 0;
        while i < len
            invariant
                len == in_registers(length),
                i <= len,
                self.tcbArch.wf(),
                *self == *old(self),
                receiver.tcbArch.wf(),
                id < NUM_FAULT_MESSAGES,
                length <= MAX_MSG_SIZE,
                *receiver == (tcb_t { tcbArch: receiver.tcbArch, ..*old(receiver) }),
                receiver.tcbArch.fpu == old(receiver).tcbArch.fpu,
                forall|j: int|
                    0 <= j < i ==> #[trigger] receiver.tcbArch.regs()[ArchReg::FaultMessage(
                        id,
                        j as usize,
                    ).index()] == old(self).tcbArch.regs()[ArchReg::Msg(j as usize).index()],
                forall|k: int|
                    0 <= k < CONTEXT_REG_NUM && !(exists|j: int| 0 <= j < i && #[trigger] fault_target(id, j) == k)
                        ==> #[trigger] receiver.tcbArch.regs()[k] == old(receiver).tcbArch.regs()[k],
            decreases len - i,
        {
            let v = self.tcbArch.get_register(ArchReg::Msg(i));
            let ghost before = receiver.tcbArch.regs();
            let ghost target = ArchReg::FaultMessage(id, i).index();
            receiver.tcbArch.set_register(ArchReg::FaultMessage(id, i), v);
            proof {
                assert forall|j: int| 0 <= j < i + 1 implies #[trigger] receiver.tcbArch.regs()[ArchReg::FaultMessage(
                    id,
                    j as usize,
                ).index()] == old(self).tcbArch.regs()[ArchReg::Msg(j as usize).index()] by {
                    if j < i {
                        assert(ArchReg::FaultMessage(id, j as usize).index() != target);
                    }
                }
                assert forall|k: int|
                    0 <= k < CONTEXT_REG_NUM && !(exists|j: int| 0 <= j < i + 1 && #[trigger] fault_target(id, j) == k)
                        implies #[trigger] receiver.tcbArch.regs()[k] == old(receiver).tcbArch.regs()[k] by {
                    assert(fault_target(id, i as int) != k);
                    assert(receiver.tcbArch.regs()[k] == before[k]);
                    assert(!(exists|j: int| 0 <= j < i && #[trigger] fault_target(id, j) == k)) by {
                        if exists|j: int| 0 <= j < i && #[trigger] fault_target(id, j) == k {
                            let j = choose|j: int| 0 <= j < i && #[trigger] fault_target(id, j) == k;
                            assert(0 <= j < i + 1 && fault_target(id, j) == k);
                        }
                    }
                }
            }
            i = i + 1;
        }
    }

    /// Copies a syscall fault message of this thread into `receiver`.
    pub fn copy_syscall_fault_mrs(&self, receiver: &mut Self)
        requires
            self.tcbArch.wf(),
            old(receiver).tcbArch.wf(),
        ensures
            final(receiver).tcbArch.wf(),
            *final(receiver) == (tcb_t { tcbArch: final(receiver).tcbArch, ..*old(receiver) }),
            forall|k: int|
                0 <= k < CONTEXT_REG_NUM ==> #[trigger] final(receiver).tcbArch.regs()[k] == if 2 <= k < 2
                    + MSG_REGISTER_NUM {
                    self.tcbArch.regs()[ArchReg::FaultMessage(MESSAGE_ID_SYSCALL, (k - 2) as usize).index()]
                } else {
                    old(receiver).tcbArch.regs()[k]
                },
    {
        self.copy_fault_mrs(receiver, MESSAGE_ID_SYSCALL, N_SYSCALL_MESSAGE)
    }

    /// Copies a user exception message of this thread into `receiver`.
    pub fn copy_exeception_fault_mrs(&self, receiver: &mut Self)
        requires
            self.tcbArch.wf(),
            old(receiver).tcbArch.wf(),
        ensures
            final(receiver).tcbArch.wf(),
            *final(receiver) == (tcb_t { tcbArch: final(receiver).tcbArch, ..*old(receiver) }),
            forall|k: int|
                0 <= k < CONTEXT_REG_NUM ==> #[trigger] final(receiver).tcbArch.regs()[k] == if 2 <= k < 2
                    + N_EXCEPTON_MESSAGE {
                    self.tcbArch.regs()[ArchReg::FaultMessage(MESSAGE_ID_EXCEPTION, (k - 2) as usize).index()]
                } else {
                    old(receiver).tcbArch.regs()[k]
                },
    {
        self.copy_fault_mrs(receiver, MESSAGE_ID_EXCEPTION, N_EXCEPTON_MESSAGE)
    }

    /// Records `sender`, which called this thread, as the thread a reply goes to, with
    /// whether that reply may grant capabilities, and blocks `sender` until the reply.
    pub fn setup_caller_cap(&mut self, sender: &mut Self, can_grant: bool)
        ensures
            *final(self) == (tcb_t {
                tcbCaller: Some(old(sender).tcbPtr),
                tcbCallerCanGrant: can_grant,
                ..*old(self)
            }),
            *final(sender) == (tcb_t { tcbState: ThreadState::ThreadStateBlockedOnReply, ..*old(sender) }),
    {
        set_thread_state(sender, ThreadState::ThreadStateBlockedOnReply);
        self.tcbCaller = Some(sender.tcbPtr);
        self.tcbCallerCanGrant = can_grant;
    }

    /// Whether this thread is the one its core runs.
    pub fn is_current(&self, ks: &crate::kernel::KernelState) -> (r: bool)
        requires
            ks.wf(),
            self.tcbAffinity < crate::lock::CONFIG_MAX_NUM_NODES,
        ensures
            r == (ks.current()[self.tcbAffinity as int] == self.tcbPtr),
    {
        ks.current_thread(self.tcbAffinity) == self.tcbPtr
    }

    /// Forgets the thread a reply from this thread would go to.
    pub fn delete_caller_cap(&mut self)
        ensures
            *final(self) == (tcb_t { tcbCaller: None, tcbCallerCanGrant: false, ..*old(self) }),
    {
        self.tcbCaller = None;
        self.tcbCallerCanGrant = false;
    }
}

} // verus!
