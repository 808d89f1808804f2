use rel4_kernel::arch::ArchReg;
use rel4_kernel::kernel::{EPState, KernelState, NtfnState};
use rel4_kernel::tcb::ThreadState;

/// A kernel with runnable threads of the given priorities on core 0.
fn runnable_threads(prios: &[usize]) -> (KernelState, Vec<usize>) {
    let mut ks = KernelState::new();
    let ids: Vec<usize> = prios.iter().map(|&p| ks.create_thread(p, 0, 0)).collect();
    for &t in ids.iter() {
        ks.restart(0, t);
    }
    (ks, ids)
}

/// No thread stands both in a ready queue and in an endpoint or notification queue.
fn assert_exclusive(ks: &KernelState) {
    let mut waiting = Vec::new();
    for e in 0..ks.num_endpoints() {
        waiting.extend(ks.ep_waiters(e));
    }
    for n in 0..ks.num_notifications() {
        waiting.extend(ks.ntfn_waiters(n));
    }
    for t in 0..ks.num_threads() {
        assert!(!(ks.is_queued(t) && waiting.contains(&t)), "thread {} in two queues", t);
    }
}

#[test]
fn endpoint_fifo_delivery() {
    let (mut ks, ids) = runnable_threads(&[10, 10, 10, 10]);
    let e = ks.create_endpoint();
    let receivers = [ids[1], ids[2], ids[3]];
    for &r in receivers.iter() {
        ks.receive_ipc(0, e, r, true, false);
        assert_eq!(ks.thread_state(r), ThreadState::ThreadStateBlockedOnReceive);
    }
    assert_eq!(ks.ep_state(e), EPState::Recv);
    assert_eq!(ks.ep_waiters(e), receivers.to_vec());
    assert_exclusive(&ks);
    let sender = ids[0];
    for (k, &badge) in [100usize, 200, 300].iter().enumerate() {
        ks.set_register(sender, ArchReg::Msg(0), badge + 1);
        ks.send_ipc(0, e, sender, true, false, false, badge, false);
        let r = receivers[k];
        assert_eq!(ks.thread_state(r), ThreadState::ThreadStateRunning);
        assert_eq!(ks.get_register(r, ArchReg::Badge), badge);
        assert_eq!(ks.get_register(r, ArchReg::Msg(0)), badge + 1);
        assert_eq!(ks.ep_waiters(e), receivers[k + 1..].to_vec());
        assert_exclusive(&ks);
    }
    assert_eq!(ks.ep_state(e), EPState::Idle);
}

#[test]
fn blocking_send_without_receiver_queues_sender() {
    let (mut ks, ids) = runnable_threads(&[10, 10]);
    let e = ks.create_endpoint();
    ks.send_ipc(0, e, ids[0], true, false, false, 5, false);
    assert_eq!(ks.thread_state(ids[0]), ThreadState::ThreadStateBlockedOnSend);
    assert!(!ks.is_queued(ids[0]));
    assert_eq!(ks.ep_state(e), EPState::Send);
    assert_eq!(ks.ep_waiters(e), vec![ids[0]]);
    assert_exclusive(&ks);
}

#[test]
fn nonblocking_send_without_receiver_is_dropped() {
    let (mut ks, ids) = runnable_threads(&[10]);
    let e = ks.create_endpoint();
    ks.send_ipc(0, e, ids[0], false, false, false, 5, false);
    assert_eq!(ks.thread_state(ids[0]), ThreadState::ThreadStateRestart);
    assert_eq!(ks.ep_state(e), EPState::Idle);
    assert!(ks.ep_waiters(e).is_empty());
}

#[test]
fn receive_takes_waiting_sender() {
    let (mut ks, ids) = runnable_threads(&[10, 10]);
    let e = ks.create_endpoint();
    ks.set_register(ids[0], ArchReg::MsgInfo, 3);
    ks.set_register(ids[0], ArchReg::Msg(1), 77);
    ks.send_ipc(0, e, ids[0], true, false, false, 42, false);
    ks.receive_ipc(0, e, ids[1], true, false);
    assert_eq!(ks.get_register(ids[1], ArchReg::Badge), 42);
    assert_eq!(ks.get_register(ids[1], ArchReg::MsgInfo), 3);
    assert_eq!(ks.get_register(ids[1], ArchReg::Msg(1)), 77);
    assert_eq!(ks.thread_state(ids[0]), ThreadState::ThreadStateRunning);
    assert!(ks.is_queued(ids[0]));
    assert_eq!(ks.ep_state(e), EPState::Idle);
}

#[test]
fn call_waits_for_reply() {
    let (mut ks, ids) = runnable_threads(&[10, 10]);
    let e = ks.create_endpoint();
    ks.receive_ipc(0, e, ids[1], true, false);
    ks.send_ipc(0, e, ids[0], true, true, true, 9, true);
    assert_eq!(ks.thread_state(ids[0]), ThreadState::ThreadStateBlockedOnReply);
    assert!(!ks.is_queued(ids[0]));
    assert_eq!(ks.caller_of(ids[1]), Some(ids[0]));
    assert_eq!(ks.thread_state(ids[1]), ThreadState::ThreadStateRunning);
}

#[test]
fn call_without_grant_leaves_sender_inactive() {
    let (mut ks, ids) = runnable_threads(&[10, 10]);
    let e = ks.create_endpoint();
    ks.receive_ipc(0, e, ids[1], true, false);
    ks.send_ipc(0, e, ids[0], true, true, false, 9, false);
    assert_eq!(ks.thread_state(ids[0]), ThreadState::ThreadStateInactive);
    assert_eq!(ks.caller_of(ids[1]), None);
}

#[test]
fn receive_from_calling_sender_records_caller() {
    let (mut ks, ids) = runnable_threads(&[10, 10]);
    let e = ks.create_endpoint();
    ks.send_ipc(0, e, ids[0], true, true, true, 4, true);
    ks.receive_ipc(0, e, ids[1], true, false);
    assert_eq!(ks.thread_state(ids[0]), ThreadState::ThreadStateBlockedOnReply);
    assert_eq!(ks.caller_of(ids[1]), Some(ids[0]));
    assert_eq!(ks.get_register(ids[1], ArchReg::Badge), 4);
}

#[test]
fn nonblocking_receive_gets_empty_message() {
    let (mut ks, ids) = runnable_threads(&[10]);
    let e = ks.create_endpoint();
    ks.set_register(ids[0], ArchReg::Badge, 8);
    ks.receive_ipc(0, e, ids[0], false, false);
    assert_eq!(ks.get_register(ids[0], ArchReg::Badge), 0);
    assert_eq!(ks.thread_state(ids[0]), ThreadState::ThreadStateRestart);
    assert_eq!(ks.ep_state(e), EPState::Idle);
}

#[test]
fn suspend_cancels_blocked_receive() {
    let (mut ks, ids) = runnable_threads(&[10, 10]);
    let e = ks.create_endpoint();
    ks.receive_ipc(0, e, ids[0], true, false);
    ks.receive_ipc(0, e, ids[1], true, false);
    ks.suspend(ids[0]);
    assert_eq!(ks.thread_state(ids[0]), ThreadState::ThreadStateInactive);
    assert_eq!(ks.ep_waiters(e), vec![ids[1]]);
    ks.cancel_ipc(ids[1]);
    assert_eq!(ks.ep_state(e), EPState::Idle);
    assert_eq!(ks.thread_state(ids[1]), ThreadState::ThreadStateInactive);
}

#[test]
fn restart_cancels_blocked_send() {
    let (mut ks, ids) = runnable_threads(&[10]);
    let e = ks.create_endpoint();
    ks.send_ipc(0, e, ids[0], true, false, false, 1, false);
    ks.restart(0, ids[0]);
    assert_eq!(ks.thread_state(ids[0]), ThreadState::ThreadStateRestart);
    assert!(ks.is_queued(ids[0]));
    assert!(ks.ep_waiters(e).is_empty());
    assert_exclusive(&ks);
}

#[test]
fn badge_coalescing() {
    let (mut ks, ids) = runnable_threads(&[10]);
    let n = ks.create_notification();
    ks.send_signal(0, n, 0x1);
    assert_eq!(ks.ntfn_state(n), NtfnState::Active);
    assert_eq!(ks.ntfn_badge(n), 0x1);
    ks.send_signal(0, n, 0x4);
    assert_eq!(ks.ntfn_badge(n), 0x5);
    ks.receive_signal(n, ids[0], true);
    assert_eq!(ks.get_register(ids[0], ArchReg::Badge), 0x5);
    assert_eq!(ks.ntfn_state(n), NtfnState::Idle);
    assert_eq!(ks.thread_state(ids[0]), ThreadState::ThreadStateRestart);
}

#[test]
fn bound_signal_delivered_directly() {
    let (mut ks, ids) = runnable_threads(&[10]);
    let t = ids[0];
    let n = ks.create_notification();
    let e = ks.create_endpoint();
    assert_eq!(ks.bind_notification(t, n), Ok(()));
    ks.receive_ipc(0, e, t, true, false);
    assert_eq!(ks.thread_state(t), ThreadState::ThreadStateBlockedOnReceive);
    ks.send_signal(0, n, 7);
    assert_eq!(ks.get_register(t, ArchReg::Badge), 7);
    assert_eq!(ks.thread_state(t), ThreadState::ThreadStateRunning);
    assert!(ks.is_queued(t));
    assert_eq!(ks.ntfn_state(n), NtfnState::Idle);
    assert!(ks.ep_waiters(e).is_empty());
    assert_eq!(ks.ep_state(e), EPState::Idle);
    assert_exclusive(&ks);
}

#[test]
fn bound_thread_not_receiving_gets_no_direct_delivery() {
    let (mut ks, ids) = runnable_threads(&[10]);
    let n = ks.create_notification();
    assert_eq!(ks.bind_notification(ids[0], n), Ok(()));
    ks.send_signal(0, n, 3);
    assert_eq!(ks.ntfn_state(n), NtfnState::Active);
    assert_eq!(ks.ntfn_badge(n), 3);
}

#[test]
fn signal_wakes_first_waiter() {
    let (mut ks, ids) = runnable_threads(&[10, 10]);
    let n = ks.create_notification();
    ks.receive_signal(n, ids[0], true);
    ks.receive_signal(n, ids[1], true);
    assert_eq!(ks.ntfn_state(n), NtfnState::Waiting);
    assert_eq!(ks.ntfn_waiters(n), vec![ids[0], ids[1]]);
    assert_exclusive(&ks);
    ks.send_signal(0, n, 2);
    assert_eq!(ks.thread_state(ids[0]), ThreadState::ThreadStateRunning);
    assert_eq!(ks.get_register(ids[0], ArchReg::Badge), 2);
    assert_eq!(ks.ntfn_state(n), NtfnState::Waiting);
    ks.send_signal(0, n, 6);
    assert_eq!(ks.get_register(ids[1], ArchReg::Badge), 6);
    assert_eq!(ks.ntfn_state(n), NtfnState::Idle);
    assert_exclusive(&ks);
}

#[test]
fn nonblocking_signal_receive_gets_zero() {
    let (mut ks, ids) = runnable_threads(&[10]);
    let n = ks.create_notification();
    ks.set_register(ids[0], ArchReg::Badge, 9);
    ks.receive_signal(n, ids[0], false);
    assert_eq!(ks.get_register(ids[0], ArchReg::Badge), 0);
    assert_eq!(ks.ntfn_state(n), NtfnState::Idle);
}

#[test]
fn cancel_signal_removes_one_waiter() {
    let (mut ks, ids) = runnable_threads(&[10, 10]);
    let n = ks.create_notification();
    ks.receive_signal(n, ids[0], true);
    ks.receive_signal(n, ids[1], true);
    ks.cancel_signal(n, ids[0]);
    assert_eq!(ks.thread_state(ids[0]), ThreadState::ThreadStateInactive);
    assert_eq!(ks.ntfn_waiters(n), vec![ids[1]]);
    assert_eq!(ks.ntfn_state(n), NtfnState::Waiting);
    ks.cancel_signal(n, ids[1]);
    assert_eq!(ks.ntfn_state(n), NtfnState::Idle);
}

#[test]
fn cancel_all_signal_restarts_every_waiter() {
    let (mut ks, ids) = runnable_threads(&[10, 10, 10]);
    let n = ks.create_notification();
    for &t in ids.iter() {
        ks.receive_signal(n, t, true);
    }
    ks.schedule(0);
    ks.cacncel_all_signal(1, n);
    assert_eq!(ks.ntfn_state(n), NtfnState::Idle);
    assert!(ks.ntfn_waiters(n).is_empty());
    for &t in ids.iter() {
        assert_eq!(ks.thread_state(t), ThreadState::ThreadStateRestart);
        assert!(ks.is_queued(t));
    }
    assert!(ks.reschedule_pending(1));
    assert_exclusive(&ks);
}

#[test]
fn cancel_all_signal_on_idle_notification_does_nothing() {
    let (mut ks, _ids) = runnable_threads(&[10]);
    let n = ks.create_notification();
    ks.cacncel_all_signal(0, n);
    assert_eq!(ks.ntfn_state(n), NtfnState::Idle);
    assert!(!ks.reschedule_pending(1));
}

#[test]
fn cancel_signal_keeps_order_of_other_waiters() {
    let (mut ks, ids) = runnable_threads(&[10, 10, 10]);
    let n = ks.create_notification();
    for &t in ids.iter() {
        ks.receive_signal(n, t, true);
    }
    ks.cancel_signal(n, ids[1]);
    assert_eq!(ks.ntfn_waiters(n), vec![ids[0], ids[2]]);
}
