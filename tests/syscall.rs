use rel4_kernel::arch::ArchReg;
use rel4_kernel::kernel::{EPState, FaultHandler, IpcCap, KernelState, NtfnState};
use rel4_kernel::syscall::{
    handlesyscall, slow_path, SyscallOutcome, SysCall, SysNBRecv, SysNBSend, SysRecv, SysReply,
    SysReplyRecv, SysSend, SysYield,
};
use rel4_kernel::tcb::ThreadState;

fn ep_cap(ep: usize, badge: usize) -> IpcCap {
    IpcCap::Endpoint {
        ep,
        badge,
        can_send: true,
        can_receive: true,
        can_grant: true,
        can_grant_reply: true,
    }
}

/// A kernel where thread `a` runs on core 0 and thread `b` is ready behind it.
fn two_threads() -> (KernelState, usize, usize) {
    let mut ks = KernelState::new();
    let a = ks.create_thread(10, 0, 0);
    let b = ks.create_thread(10, 0, 0);
    ks.restart(0, b);
    ks.restart(0, a);
    ks.schedule(0);
    assert_eq!(ks.current_thread(0), a);
    (ks, a, b)
}

#[test]
fn unknown_syscall_is_reported() {
    let (mut ks, a, _) = two_threads();
    assert_eq!(slow_path(&mut ks, 0, -9, IpcCap::Other), SyscallOutcome::UnknownSyscall);
    assert_eq!(slow_path(&mut ks, 0, 0, IpcCap::Other), SyscallOutcome::UnknownSyscall);
    assert_eq!(ks.current_thread(0), a);
}

#[test]
fn send_on_other_object_goes_to_decode_layer() {
    let (mut ks, a, _) = two_threads();
    assert_eq!(
        slow_path(&mut ks, 0, SysCall, IpcCap::Other),
        SyscallOutcome::Invocation { is_call: true, is_blocking: true }
    );
    assert_eq!(
        handlesyscall(&mut ks, 0, SysNBSend, IpcCap::Other),
        SyscallOutcome::Invocation { is_call: false, is_blocking: false }
    );
    assert_eq!(ks.current_thread(0), a);
}

#[test]
fn recv_blocks_and_next_thread_runs() {
    let (mut ks, a, b) = two_threads();
    let e = ks.create_endpoint();
    assert_eq!(handlesyscall(&mut ks, 0, SysRecv, ep_cap(e, 0)), SyscallOutcome::Done);
    assert_eq!(ks.thread_state(a), ThreadState::ThreadStateBlockedOnReceive);
    assert_eq!(ks.current_thread(0), b);
    // b sends; a wakes with the badge of b's capability.
    assert_eq!(handlesyscall(&mut ks, 0, SysSend, ep_cap(e, 0x77)), SyscallOutcome::Done);
    assert_eq!(ks.thread_state(a), ThreadState::ThreadStateRunning);
    assert_eq!(ks.get_register(a, ArchReg::Badge), 0x77);
    assert_eq!(ks.ep_state(e), EPState::Idle);
}

#[test]
fn call_and_reply_round_trip() {
    let (mut ks, a, b) = two_threads();
    let e = ks.create_endpoint();
    // a waits as a server; b calls it.
    handlesyscall(&mut ks, 0, SysRecv, ep_cap(e, 0));
    assert_eq!(ks.current_thread(0), b);
    ks.set_register(b, ArchReg::Msg(0), 5);
    assert_eq!(handlesyscall(&mut ks, 0, SysCall, ep_cap(e, 3)), SyscallOutcome::Done);
    assert_eq!(ks.thread_state(b), ThreadState::ThreadStateBlockedOnReply);
    assert_eq!(ks.caller_of(a), Some(b));
    assert_eq!(ks.current_thread(0), a);
    assert_eq!(ks.get_register(a, ArchReg::Msg(0)), 5);
    // a replies and waits again.
    ks.set_register(a, ArchReg::Msg(0), 6);
    assert_eq!(handlesyscall(&mut ks, 0, SysReplyRecv, ep_cap(e, 0)), SyscallOutcome::Done);
    assert_eq!(ks.thread_state(b), ThreadState::ThreadStateRunning);
    assert_eq!(ks.get_register(b, ArchReg::Msg(0)), 6);
    assert_eq!(ks.get_register(b, ArchReg::Badge), 0);
    assert_eq!(ks.thread_state(a), ThreadState::ThreadStateBlockedOnReceive);
    assert_eq!(ks.caller_of(a), None);
    assert_eq!(ks.current_thread(0), b);
}

#[test]
fn reply_without_caller_does_nothing() {
    let (mut ks, a, _) = two_threads();
    assert_eq!(handlesyscall(&mut ks, 0, SysReply, IpcCap::Other), SyscallOutcome::Done);
    assert_eq!(ks.current_thread(0), a);
    assert_eq!(ks.thread_state(a), ThreadState::ThreadStateRunning);
}

#[test]
fn recv_without_right_is_a_cap_fault() {
    let (mut ks, a, _) = two_threads();
    let e = ks.create_endpoint();
    let cap = IpcCap::Endpoint {
        ep: e,
        badge: 0,
        can_send: true,
        can_receive: false,
        can_grant: false,
        can_grant_reply: false,
    };
    assert_eq!(handlesyscall(&mut ks, 0, SysRecv, cap), SyscallOutcome::CapFault);
    assert_eq!(handlesyscall(&mut ks, 0, SysNBRecv, IpcCap::Other), SyscallOutcome::CapFault);
    assert_eq!(ks.thread_state(a), ThreadState::ThreadStateRunning);
}

#[test]
fn recv_on_notification_bound_elsewhere_is_a_cap_fault() {
    let (mut ks, a, b) = two_threads();
    let n = ks.create_notification();
    assert_eq!(ks.bind_notification(b, n), Ok(()));
    let cap = IpcCap::Notification { ntfn: n, badge: 0, can_send: true, can_receive: true };
    assert_eq!(handlesyscall(&mut ks, 0, SysRecv, cap), SyscallOutcome::CapFault);
    assert_eq!(ks.thread_state(a), ThreadState::ThreadStateRunning);
}

#[test]
fn signal_and_wait_through_notification_caps() {
    let (mut ks, a, b) = two_threads();
    let n = ks.create_notification();
    let cap = IpcCap::Notification { ntfn: n, badge: 0x10, can_send: true, can_receive: true };
    assert_eq!(handlesyscall(&mut ks, 0, SysSend, cap), SyscallOutcome::Done);
    assert_eq!(ks.ntfn_state(n), NtfnState::Active);
    assert_eq!(handlesyscall(&mut ks, 0, SysNBRecv, cap), SyscallOutcome::Done);
    assert_eq!(ks.get_register(a, ArchReg::Badge), 0x10);
    assert_eq!(ks.ntfn_state(n), NtfnState::Idle);
    let no_send = IpcCap::Notification { ntfn: n, badge: 1, can_send: false, can_receive: true };
    assert_eq!(handlesyscall(&mut ks, 0, SysSend, no_send), SyscallOutcome::CapFault);
    let _ = b;
}

#[test]
fn yield_rotates_equal_priority_threads() {
    let (mut ks, a, b) = two_threads();
    assert_eq!(handlesyscall(&mut ks, 0, SysYield, IpcCap::Other), SyscallOutcome::Done);
    assert_eq!(ks.current_thread(0), b);
    assert_eq!(ks.ready_queue(0, 0, 10), vec![a]);
    ks.handle_yield(0);
    assert!(ks.reschedule_pending(0));
    assert_eq!(ks.ready_queue(0, 0, 10), vec![a, b]);
}

#[test]
fn fault_goes_to_handler_as_call() {
    let (mut ks, a, b) = two_threads();
    let e = ks.create_endpoint();
    // b serves faults: it waits on the endpoint.
    ks.handle_yield(0);
    ks.schedule(0);
    assert_eq!(ks.current_thread(0), b);
    handlesyscall(&mut ks, 0, SysRecv, ep_cap(e, 0));
    ks.handle_fault(0, a, Some(FaultHandler { ep: e, badge: 9, can_grant: true, can_grant_reply: false }));
    assert_eq!(ks.thread_state(a), ThreadState::ThreadStateBlockedOnReply);
    assert_eq!(ks.thread_state(b), ThreadState::ThreadStateRunning);
    assert_eq!(ks.get_register(b, ArchReg::Badge), 9);
    assert_eq!(ks.caller_of(b), Some(a));
}

#[test]
fn fault_without_handler_stops_thread() {
    let (mut ks, a, _) = two_threads();
    ks.handle_fault(0, a, None);
    assert_eq!(ks.thread_state(a), ThreadState::ThreadStateInactive);
    assert!(!ks.is_queued(a));
}

#[test]
fn safe_unbind_clears_both_sides() {
    let (mut ks, a, _) = two_threads();
    let n = ks.create_notification();
    ks.safe_unbind_tcb(n);
    assert_eq!(ks.ntfn_bound_tcb(n), None);
    assert_eq!(ks.bind_notification(a, n), Ok(()));
    ks.safe_unbind_tcb(n);
    assert_eq!(ks.ntfn_bound_tcb(n), None);
    assert_eq!(ks.bound_notification(a), None);
}

#[test]
fn fault_with_no_grant_right_stops_thread() {
    let (mut ks, a, _) = two_threads();
    let e = ks.create_endpoint();
    ks.handle_fault(0, a, Some(FaultHandler { ep: e, badge: 1, can_grant: false, can_grant_reply: false }));
    assert_eq!(ks.thread_state(a), ThreadState::ThreadStateInactive);
    assert!(ks.ep_waiters(e).is_empty());
}
