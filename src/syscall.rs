//! Entry from user mode: the system call numbers and the dispatcher that turns a call
//! into the kernel core's operations. Capabilities arrive already resolved by the
//! capability layer; invocations of other objects go back to the decode layer.
use vstd::prelude::*;
use crate::arch::ArchReg;
use crate::kernel::{
    lemma_sched_preserves_trans, message_delivered, sched_preserves, signal_word, EPState, IpcCap,
    KernelState, NtfnState,
};
use crate::tcb::ThreadState;
use crate::lock::CONFIG_MAX_NUM_NODES;

verus! {

pub const SysCall: isize = -1;

pub const SysReplyRecv: isize = -2;

pub const SysSend: isize = -3;

pub const SysNBSend: isize = -4;

pub const SysRecv: isize = -5;

pub const SysReply: isize = -6;

pub const SysYield: isize = -7;

pub const SysNBRecv: isize = -8;

pub const SYSCALL_MAX: isize = -1;

pub const SYSCALL_MIN: isize = -8;

/// How a system call ended.
#[derive(PartialEq, Eq, Structural, Copy, Clone, Debug)]
pub enum SyscallOutcome {
    /// The kernel core carried it out.
    Done,
    /// The capability does not allow the call: the caller raises a capability fault.
    CapFault,
    /// A send or call on an object other than an endpoint or notification: the decode
    /// layer carries out the invocation, then the core schedules.
    Invocation { is_call: bool, is_blocking: bool },
    /// The number names no system call.
    UnknownSyscall,
}

/// Whether `cap` allows sending.
pub open spec fn send_cap_ok(ks: &KernelState, cap: IpcCap) -> bool {
    match cap {
        IpcCap::Endpoint { ep, can_send, .. } => can_send && ep < ks.endpoints().len(),
        IpcCap::Notification { ntfn, can_send, .. } => can_send && ntfn < ks.notifications().len(),
        IpcCap::Other => false,
    }
}

/// The outcome `handlesyscall` gives for `syscall` through `cap` in state `ks`.
pub open spec fn syscall_outcome(ks: &KernelState, cpu: usize, syscall: isize, cap: IpcCap) -> SyscallOutcome {
    let cur = ks.current()[cpu as int];
    if syscall == SysSend || syscall == SysNBSend || syscall == SysCall {
        if cap is Other {
            SyscallOutcome::Invocation { is_call: syscall == SysCall, is_blocking: syscall != SysNBSend }
        } else if send_cap_ok(ks, cap) {
            SyscallOutcome::Done
        } else {
            SyscallOutcome::CapFault
        }
    } else if syscall == SysRecv || syscall == SysNBRecv || syscall == SysReplyRecv {
        if ks.recv_cap_ok(cap, cur) {
            SyscallOutcome::Done
        } else {
            SyscallOutcome::CapFault
        }
    } else {
        SyscallOutcome::Done
    }
}

/// What a system call did to the IPC objects and threads, for the sends and receives
/// through an endpoint or notification: who got which message, who blocked where.
pub open spec fn syscall_effect(o: &KernelState, f: &KernelState, cpu: usize, syscall: isize, cap: IpcCap) -> bool {
    let cur = o.current()[cpu as int];
    let is_send = syscall == SysSend || syscall == SysNBSend || syscall == SysCall;
    let is_recv = syscall == SysRecv || syscall == SysNBRecv || syscall == SysReplyRecv;
    let blocking_recv = syscall == SysRecv || syscall == SysReplyRecv;
    match cap {
        IpcCap::Endpoint { ep, badge, can_send, can_receive, .. } => {
            &&& (is_send && can_send && ep < o.endpoints().len() ==> if o.endpoints()[ep as int].state
                == EPState::Recv {
                let d = o.ep_queue(ep as int)[0];
                &&& f.ep_queue(ep as int) == o.ep_queue(ep as int).drop_first()
                &&& f.state_of(d as int) == ThreadState::ThreadStateRunning
                &&& forall|i: int|
                    0 <= i < 6 ==> #[trigger] f.threads()[d as int].tcbArch.regs()[i] == message_delivered(
                        o.threads()[cur as int].tcbArch.regs(),
                        o.threads()[d as int].tcbArch.regs(),
                        badge,
                    )[i]
            } else if syscall != SysNBSend {
                &&& f.ep_queue(ep as int) == o.ep_queue(ep as int).push(cur)
                &&& f.state_of(cur as int) == ThreadState::ThreadStateBlockedOnSend
            } else {
                f.endpoints() == o.endpoints()
            })
            &&& (is_recv && can_receive && ep < o.endpoints().len() ==> if o.endpoints()[ep as int].state
                == EPState::Send {
                &&& f.ep_queue(ep as int) == o.ep_queue(ep as int).drop_first()
                &&& (syscall != SysReplyRecv ==> f.threads()[cur as int].tcbArch.regs()[ArchReg::Badge.index()]
                    == o.threads()[o.ep_queue(ep as int)[0] as int].tcbBlockingIPCBadge)
            } else if blocking_recv {
                &&& f.ep_queue(ep as int) == o.ep_queue(ep as int).push(cur)
                &&& f.state_of(cur as int) == ThreadState::ThreadStateBlockedOnReceive
            } else {
                true
            })
        },
        IpcCap::Notification { ntfn, badge, can_send, .. } => {
            &&& (is_send && can_send && ntfn < o.notifications().len() && (o.notifications()[ntfn as int].state
                == NtfnState::Active || (o.notifications()[ntfn as int].state == NtfnState::Idle
                && !o.bound_receiver_waits(ntfn as int))) ==> {
                &&& f.notifications()[ntfn as int].state == NtfnState::Active
                &&& f.notifications()[ntfn as int].msg_identifier == signal_word(
                    o.notifications()[ntfn as int].state,
                    o.notifications()[ntfn as int].msg_identifier,
                    badge,
                )
            })
            &&& (is_send && can_send && ntfn < o.notifications().len() && o.notifications()[ntfn as int].state
                == NtfnState::Waiting ==> {
                let w = o.ntfn_queue(ntfn as int)[0];
                &&& f.ntfn_queue(ntfn as int) == o.ntfn_queue(ntfn as int).drop_first()
                &&& f.state_of(w as int) == ThreadState::ThreadStateRunning
                &&& f.threads()[w as int].tcbArch.regs()[ArchReg::Badge.index()] == badge
            })
            &&& (is_send && can_send && ntfn < o.notifications().len() && o.notifications()[ntfn as int].state
                == NtfnState::Idle && o.bound_receiver_waits(ntfn as int) ==> {
                let b = o.notifications()[ntfn as int].bound_tcb->0;
                &&& f.notifications() == o.notifications()
                &&& f.state_of(b as int) == ThreadState::ThreadStateRunning
                &&& f.threads()[b as int].tcbArch.regs()[ArchReg::Badge.index()] == badge
            })
            &&& (is_recv && o.recv_cap_ok(cap, cur) ==> if o.notifications()[ntfn as int].state
                == NtfnState::Active {
                &&& (syscall != SysReplyRecv ==> f.threads()[cur as int].tcbArch.regs()[ArchReg::Badge.index()]
                    == o.notifications()[ntfn as int].msg_identifier)
                &&& f.notifications()[ntfn as int].state == NtfnState::Idle
            } else if blocking_recv {
                &&& f.ntfn_queue(ntfn as int) == o.ntfn_queue(ntfn as int).push(cur)
                &&& f.state_of(cur as int) == ThreadState::ThreadStateBlockedOnNotification
            } else {
                true
            })
        },
        IpcCap::Other => true,
    }
}

/// The effect of a system call survives choosing and activating the next thread.
proof fn lemma_effect_survives(
    o: &KernelState,
    a: &KernelState,
    f: &KernelState,
    cpu: usize,
    syscall: isize,
    cap: IpcCap,
)
    requires
        o.wf(),
        cpu < CONFIG_MAX_NUM_NODES,
        a.threads().len() == o.threads().len(),
        syscall_effect(o, a, cpu, syscall, cap),
        sched_preserves(a, f),
    ensures
        syscall_effect(o, f, cpu, syscall, cap),
{
    o.lemma_wf_facts();
    o.lemma_wf_shape();
}

/// Carries out the part of `syscall` that belongs to the kernel core, without choosing
/// the next thread.
#[verifier::rlimit(80)]
fn perform_syscall(ks: &mut KernelState, cpu: usize, syscall: isize, cap: IpcCap) -> (r: SyscallOutcome)
    requires
        old(ks).wf(),
        cpu < CONFIG_MAX_NUM_NODES,
        SYSCALL_MIN <= syscall <= SYSCALL_MAX,
        old(ks).state_of(old(ks).current()[cpu as int] as int).runnable(),
    ensures
        final(ks).wf(),
        r == syscall_outcome(old(ks), cpu, syscall, cap),
        r is Invocation ==> *final(ks) == *old(ks),
        final(ks).threads().len() == old(ks).threads().len(),
        syscall_effect(old(ks), final(ks), cpu, syscall, cap),
{
    proof {
        old(ks).lemma_wf_shape();
        old(ks).lemma_wf_facts();
    }
    let cur = ks.current_thread(cpu);
    if syscall == SysSend || syscall == SysNBSend || syscall == SysCall {
        let is_call = syscall == SysCall;
        let is_blocking = syscall != SysNBSend;
        match cap {
            IpcCap::Other => SyscallOutcome::Invocation { is_call, is_blocking },
            IpcCap::Endpoint { ep, badge, can_send, can_grant, can_grant_reply, .. } => {
                if can_send && ep < ks.num_endpoints() {
                    ks.send_ipc(cpu, ep, cur, is_blocking, is_call, can_grant, badge, can_grant_reply);
                    SyscallOutcome::Done
                } else {
                    SyscallOutcome::CapFault
                }
            },
            IpcCap::Notification { ntfn, badge, can_send, .. } => {
                if can_send && ntfn < ks.num_notifications() {
                    ks.send_signal(cpu, ntfn, badge);
                    proof {
                        let o = old(ks);
                        if o.notifications()[ntfn as int].state == NtfnState::Waiting {
                            let w = o.ntfn_queue(ntfn as int)[0];
                            assert(o.ntfn_queue(ntfn as int).len() > 0);
                            assert(w < o.threads().len());
                            assert(o.threads()[w as int].params_ok());
                            assert(ks.threads()[w as int].tcbArch.regs()[ArchReg::Badge.index()] == badge);
                        }
                        if o.notifications()[ntfn as int].state == NtfnState::Idle && o.bound_receiver_waits(ntfn as int) {
                            let b = o.notifications()[ntfn as int].bound_tcb->0;
                            assert(b < o.threads().len());
                            assert(o.threads()[b as int].params_ok());
                            assert(ks.threads()[b as int].tcbArch.regs()[ArchReg::Badge.index()] == badge);
                        }
                        assert(syscall_effect(old(ks), ks, cpu, syscall, cap));
                    }
                    SyscallOutcome::Done
                } else {
                    SyscallOutcome::CapFault
                }
            },
        }
    } else if syscall == SysRecv || syscall == SysNBRecv {
        if ks.handle_recv(cpu, cap, syscall == SysRecv) {
            SyscallOutcome::Done
        } else {
            SyscallOutcome::CapFault
        }
    } else if syscall == SysReply {
        ks.handle_reply(cpu);
        SyscallOutcome::Done
    } else if syscall == SysReplyRecv {
        ks.handle_reply(cpu);
        let ghost mid = *ks;
        proof {
            mid.lemma_wf_shape();
            assert(mid.recv_cap_ok(cap, mid.current()[cpu as int]) == old(ks).recv_cap_ok(cap, cur));
        }
        if ks.handle_recv(cpu, cap, true) {
            SyscallOutcome::Done
        } else {
            SyscallOutcome::CapFault
        }
    } else {
        ks.handle_yield(cpu);
        SyscallOutcome::Done
    }
}

/// Carries out system call `syscall` of the running thread of `cpu` through `cap`, then
/// lets `cpu` choose and activate the thread to run, unless the call goes back to the
/// decode layer. A send through an endpoint works as `send_ipc` with the capability's
/// badge and rights, through a notification as `send_signal`; a receive works as
/// `handle_recv`; `syscall_effect` states the result.
pub fn handlesyscall(ks: &mut KernelState, cpu: usize, syscall: isize, cap: IpcCap) -> (r: SyscallOutcome)
    requires
        old(ks).wf(),
        cpu < CONFIG_MAX_NUM_NODES,
        SYSCALL_MIN <= syscall <= SYSCALL_MAX,
        old(ks).state_of(old(ks).current()[cpu as int] as int).runnable(),
    ensures
        final(ks).wf(),
        r == syscall_outcome(old(ks), cpu, syscall, cap),
        r is Invocation ==> *final(ks) == *old(ks),
        !(r is Invocation) ==> !final(ks).resched()[cpu as int],
        final(ks).threads().len() == old(ks).threads().len(),
        syscall_effect(old(ks), final(ks), cpu, syscall, cap),
{
    let r = perform_syscall(ks, cpu, syscall, cap);
    if let SyscallOutcome::Invocation { .. } = r {
        return r;
    }
    let ghost a = *ks;
    ks.schedule(cpu);
    let ghost b = *ks;
    ks.activate_thread(cpu);
    proof {
        lemma_sched_preserves_trans(&a, &b, ks);
        lemma_effect_survives(old(ks), &a, ks, cpu, syscall, cap);
    }
    r
}

/// The slow path of kernel entry: a number outside the system call range is reported
/// as unknown and changes nothing; any other goes to `handlesyscall`.
pub fn slow_path(ks: &mut KernelState, cpu: usize, syscall: isize, cap: IpcCap) -> (r: SyscallOutcome)
    requires
        old(ks).wf(),
        cpu < CONFIG_MAX_NUM_NODES,
        old(ks).state_of(old(ks).current()[cpu as int] as int).runnable(),
    ensures
        final(ks).wf(),
        (syscall < SYSCALL_MIN || syscall > SYSCALL_MAX) ==> r == SyscallOutcome::UnknownSyscall
            && *final(ks) == *old(ks),
        SYSCALL_MIN <= syscall <= SYSCALL_MAX ==> r == syscall_outcome(old(ks), cpu, syscall, cap)
            && syscall_effect(old(ks), final(ks), cpu, syscall, cap),
{
    if syscall < SYSCALL_MIN || syscall > SYSCALL_MAX {
        SyscallOutcome::UnknownSyscall
    } else {
        handlesyscall(ks, cpu, syscall, cap)
    }
}

/// FIFO delivery through system calls: when receivers `ts` wait on endpoint `ep` in that
/// order, and each step is a send by the running thread of `cpu` through `ep` while the
/// endpoint holds receivers, the k-th send reaches `ts[k]`, which then runs with the
/// capability's badge, and the receivers after it keep waiting in order.
pub proof fn lemma_syscall_sends_deliver_in_order(
    states: Seq<KernelState>,
    cpu: usize,
    ep: usize,
    badge: usize,
    can_receive: bool,
    can_grant: bool,
    can_grant_reply: bool,
    ts: Seq<usize>,
)
    requires
        cpu < CONFIG_MAX_NUM_NODES,
        states.len() == ts.len() + 1,
        states[0].ep_queue(ep as int) == ts,
        forall|k: int| 0 <= k < states.len() ==> (#[trigger] states[k]).wf() && ep < states[k].endpoints().len(),
        forall|k: int|
            0 <= k < ts.len() ==> #[trigger] syscall_effect(&states[k], &states[k + 1],
                cpu,
                SysSend,
                IpcCap::Endpoint { ep, badge, can_send: true, can_receive, can_grant, can_grant_reply },
            ) && states[k].endpoints()[ep as int].state == EPState::Recv,
    ensures
        forall|k: int| 0 <= k <= ts.len() ==> #[trigger] states[k].ep_queue(ep as int) == ts.subrange(k, ts.len() as int),
        forall|k: int|
            0 <= k < ts.len() ==> #[trigger] states[k + 1].state_of(ts[k] as int) == ThreadState::ThreadStateRunning
                && states[k + 1].threads()[ts[k] as int].tcbArch.regs()[ArchReg::Badge.index()] == badge,
    decreases ts.len(),
{
    let cap = IpcCap::Endpoint { ep, badge, can_send: true, can_receive, can_grant, can_grant_reply };
    let n = ts.len() as int;
    assert(send_steps(states, cpu, ep, cap, n));
    assert forall|k: int| 0 <= k <= n implies #[trigger] states[k].ep_queue(ep as int) == ts.subrange(k, n) by {
        lemma_queue_after_sends(states, cpu, ep, cap, ts, k);
    }
    assert forall|k: int|
        0 <= k < n implies #[trigger] states[k + 1].state_of(ts[k] as int) == ThreadState::ThreadStateRunning
            && states[k + 1].threads()[ts[k] as int].tcbArch.regs()[ArchReg::Badge.index()] == badge by {
        lemma_queue_after_sends(states, cpu, ep, cap, ts, k);
        assert(states[k].ep_queue(ep as int)[0] == ts[k]);
        assert(syscall_effect(&states[k], &states[k + 1], cpu, SysSend, cap));
        assert(states[k].wf());
        states[k].lemma_wf_shape();
        states[k].lemma_wf_facts();
        assert(states[k].ep_queue(ep as int).len() > 0);
        let d = ts[k];
        assert(d < states[k].threads().len());
        assert(states[k].threads()[d as int].params_ok());
        assert(states[k + 1].threads()[d as int].tcbArch.regs()[0] == message_delivered(
            states[k].threads()[states[k].current()[cpu as int] as int].tcbArch.regs(),
            states[k].threads()[d as int].tcbArch.regs(),
            badge,
        )[0]);
    }
}

/// Each of the first `n` steps of `states` is a send through `cap` to endpoint `ep` while
/// it holds receivers.
pub open spec fn send_steps(states: Seq<KernelState>, cpu: usize, ep: usize, cap: IpcCap, n: int) -> bool {
    forall|j: int|
        0 <= j < n ==> #[trigger] syscall_effect(&states[j], &states[j + 1], cpu, SysSend, cap)
            && states[j].endpoints()[ep as int].state == EPState::Recv
}

proof fn lemma_queue_after_sends(
    states: Seq<KernelState>,
    cpu: usize,
    ep: usize,
    cap: IpcCap,
    ts: Seq<usize>,
    k: int,
)
    requires
        0 <= k <= ts.len(),
        states.len() == ts.len() + 1,
        states[0].ep_queue(ep as int) == ts,
        forall|j: int| 0 <= j < states.len() ==> (#[trigger] states[j]).wf() && ep < states[j].endpoints().len(),
        send_steps(states, cpu, ep, cap, ts.len() as int),
        match cap {
            IpcCap::Endpoint { ep: e, can_send, .. } => e == ep && can_send,
            _ => false,
        },
    ensures
        states[k].ep_queue(ep as int) == ts.subrange(k, ts.len() as int),
    decreases k,
{
    if k == 0 {
        assert(ts.subrange(0, ts.len() as int) =~= ts);
    } else {
        lemma_queue_after_sends(states, cpu, ep, cap, ts, k - 1);
        let j = k - 1;
        assert(syscall_effect(&states[j], &states[j + 1], cpu, SysSend, cap));
        assert(states[j].endpoints()[ep as int].state == EPState::Recv);
        assert(states[j + 1] == states[k]);
        assert(ts.subrange(k - 1, ts.len() as int).drop_first() =~= ts.subrange(k, ts.len() as int));
    }
}

} // verus!
