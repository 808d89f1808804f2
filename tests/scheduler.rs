use rel4_kernel::arch::{ArchReg, ArchTCB};
use rel4_kernel::kernel::{migrate_tcb, KernelError, KernelState};
use rel4_kernel::scheduler::{queue_index, ready_queues_index, ReadyQueues};
use rel4_kernel::tcb::{set_thread_state, tcb_t, ThreadState};

fn kernel_with(threads: &[(usize, usize, usize)]) -> (KernelState, Vec<usize>) {
    let mut ks = KernelState::new();
    let ids = threads
        .iter()
        .map(|&(prio, dom, core)| ks.create_thread(prio, dom, core))
        .collect();
    (ks, ids)
}

#[test]
fn new_kernel_runs_idle_threads() {
    let ks = KernelState::new();
    for c in 0..4 {
        assert_eq!(ks.current_thread(c), c);
        assert_eq!(ks.thread_state(c), ThreadState::ThreadStateRunning);
        assert!(!ks.is_queued(c));
        assert!(!ks.reschedule_pending(c));
    }
    assert_eq!(ks.num_threads(), 4);
    assert_eq!(ks.current_domain(), 0);
}

#[test]
fn created_thread_is_inactive_and_unqueued() {
    let (ks, ids) = kernel_with(&[(10, 0, 0)]);
    let t = ids[0];
    assert_eq!(t, 4);
    assert_eq!(ks.thread_state(t), ThreadState::ThreadStateInactive);
    assert!(!ks.is_queued(t));
    assert_eq!(ks.thread_priority(t), 10);
    assert_eq!(ks.thread_mcp(t), 10);
}

#[test]
fn restart_enqueues_at_head() {
    let (mut ks, ids) = kernel_with(&[(10, 0, 0), (10, 0, 0)]);
    ks.restart(0, ids[0]);
    ks.restart(0, ids[1]);
    assert_eq!(ks.thread_state(ids[0]), ThreadState::ThreadStateRestart);
    assert_eq!(ks.ready_queue(0, 0, 10), vec![ids[1], ids[0]]);
    // Restarting a runnable thread changes nothing.
    ks.restart(0, ids[0]);
    assert_eq!(ks.ready_queue(0, 0, 10), vec![ids[1], ids[0]]);
}

#[test]
fn restart_of_higher_priority_thread_flags_reschedule() {
    let (mut ks, ids) = kernel_with(&[(10, 0, 0)]);
    ks.restart(0, ids[0]);
    assert!(ks.reschedule_pending(0));
    assert_eq!(ks.ipi_reschedule_mask(0), 0);
}

#[test]
fn waking_thread_of_other_core_sets_ipi_bit() {
    let (mut ks, ids) = kernel_with(&[(10, 0, 2)]);
    ks.restart(0, ids[0]);
    assert_eq!(ks.ipi_reschedule_mask(0), 1 << 2);
    assert!(!ks.reschedule_pending(0));
    assert_eq!(ks.ready_queue(2, 0, 10), vec![ids[0]]);
}

#[test]
fn possible_switch_to_equal_priority_appends_at_tail() {
    let (mut ks, ids) = kernel_with(&[(5, 0, 0), (5, 0, 0), (5, 0, 0)]);
    let e = ks.create_endpoint();
    for &t in ids.iter() {
        ks.restart(0, t);
    }
    // Both receivers block; the sender then runs on core 0.
    ks.receive_ipc(0, e, ids[1], true, false);
    ks.receive_ipc(0, e, ids[2], true, false);
    ks.schedule(0);
    assert_eq!(ks.current_thread(0), ids[0]);
    assert!(!ks.reschedule_pending(0));
    ks.send_ipc(0, e, ids[0], true, false, false, 1, false);
    ks.send_ipc(0, e, ids[0], true, false, false, 2, false);
    // Woken threads of the running thread's priority join the tail, without preempting.
    assert!(!ks.reschedule_pending(0));
    assert_eq!(ks.ready_queue(0, 0, 5), vec![ids[1], ids[2]]);
}

#[test]
fn schedule_picks_highest_priority_head() {
    let (mut ks, ids) = kernel_with(&[(3, 0, 0), (9, 0, 0), (9, 0, 0), (1, 0, 0)]);
    for &t in ids.iter() {
        ks.restart(0, t);
    }
    assert_eq!(ks.choose_thread(0), Some(ids[2]));
    ks.schedule(0);
    assert_eq!(ks.current_thread(0), ids[2]);
    assert!(!ks.is_queued(ids[2]));
    assert!(!ks.reschedule_pending(0));
    assert_eq!(ks.ready_queue(0, 0, 9), vec![ids[1]]);
}

#[test]
fn schedule_falls_back_to_idle_thread() {
    let mut ks = KernelState::new();
    ks.reschedule_required(1);
    ks.schedule(1);
    assert_eq!(ks.current_thread(1), 1);
    assert_eq!(ks.choose_thread(1), None);
}

#[test]
fn schedule_without_request_keeps_current() {
    let (mut ks, ids) = kernel_with(&[(9, 0, 0)]);
    ks.restart(0, ids[0]);
    let mut other = KernelState::new();
    other.schedule(0);
    assert_eq!(other.current_thread(0), 0);
    ks.schedule(0);
    assert_eq!(ks.current_thread(0), ids[0]);
}

#[test]
fn bitmap_consistent_after_enqueue_dequeue() {
    let (mut ks, ids) = kernel_with(&[(7, 0, 0), (7, 0, 0), (200, 1, 3)]);
    ks.restart(0, ids[0]);
    ks.restart(0, ids[1]);
    ks.restart(0, ids[2]);
    let mut rq = ReadyQueues::new();
    let q7 = queue_index(0, 0, 7);
    assert!(rq.is_empty(q7));
    rq.append(q7, ids[0]);
    rq.prepend(q7, ids[1]);
    assert!(!rq.is_empty(q7));
    assert_eq!(rq.highest_prio(0, 0), Some(7));
    assert_eq!(rq.head(q7), ids[1]);
    assert_eq!(rq.remove(q7, ids[1]), 0);
    assert!(!rq.is_empty(q7));
    assert_eq!(rq.remove(q7, ids[0]), 0);
    assert!(rq.is_empty(q7));
    assert_eq!(rq.highest_prio(0, 0), None);
    // The kernel's own bank follows its queues too.
    ks.suspend(ids[0]);
    ks.suspend(ids[1]);
    assert!(ks.ready_queue(0, 0, 7).is_empty());
    assert_eq!(ks.choose_thread(0), None);
    assert_eq!(ks.ready_queue(3, 1, 200), vec![ids[2]]);
    ks.suspend(ids[2]);
    assert!(ks.ready_queue(3, 1, 200).is_empty());
}

#[test]
fn highest_prio_across_words() {
    let mut rq = ReadyQueues::new();
    rq.append(queue_index(1, 1, 63), 10);
    rq.append(queue_index(1, 1, 64), 11);
    rq.append(queue_index(1, 1, 255), 12);
    assert_eq!(rq.highest_prio(1, 1), Some(255));
    rq.remove(queue_index(1, 1, 255), 12);
    assert_eq!(rq.highest_prio(1, 1), Some(64));
    rq.remove(queue_index(1, 1, 64), 11);
    assert_eq!(rq.highest_prio(1, 1), Some(63));
    assert_eq!(rq.highest_prio(1, 0), None);
}

#[test]
fn queue_indices() {
    assert_eq!(ready_queues_index(1, 5), 261);
    assert_eq!(queue_index(0, 0, 0), 0);
    assert_eq!(queue_index(3, 1, 255), 2047);
    assert_eq!(queue_index(1, 0, 2), 514);
}

#[test]
fn suspend_twice_is_idempotent() {
    let (mut ks, ids) = kernel_with(&[(10, 0, 0), (10, 0, 0)]);
    let t = ids[0];
    ks.restart(0, t);
    ks.restart(0, ids[1]);
    ks.suspend(t);
    assert_eq!(ks.thread_state(t), ThreadState::ThreadStateInactive);
    assert!(!ks.is_queued(t));
    assert_eq!(ks.ready_queue(0, 0, 10), vec![ids[1]]);
    ks.suspend(t);
    assert_eq!(ks.thread_state(t), ThreadState::ThreadStateInactive);
    assert!(!ks.is_queued(t));
    assert_eq!(ks.ready_queue(0, 0, 10), vec![ids[1]]);
}

#[test]
fn suspend_of_running_thread_requests_reschedule() {
    let (mut ks, ids) = kernel_with(&[(10, 0, 0)]);
    ks.restart(0, ids[0]);
    ks.schedule(0);
    assert_eq!(ks.current_thread(0), ids[0]);
    ks.suspend(ids[0]);
    assert!(ks.reschedule_pending(0));
    ks.schedule(0);
    assert_eq!(ks.current_thread(0), 0);
}

#[test]
fn set_priority_moves_thread_between_queues() {
    let (mut ks, ids) = kernel_with(&[(10, 0, 0)]);
    ks.restart(0, ids[0]);
    ks.set_priority(0, ids[0], 20);
    assert_eq!(ks.thread_priority(ids[0]), 20);
    assert!(ks.ready_queue(0, 0, 10).is_empty());
    assert_eq!(ks.ready_queue(0, 0, 20), vec![ids[0]]);
    // A blocked thread only changes priority.
    ks.suspend(ids[0]);
    ks.set_priority(0, ids[0], 3);
    assert!(!ks.is_queued(ids[0]));
    assert_eq!(ks.thread_priority(ids[0]), 3);
}

#[test]
fn set_priority_of_running_thread_requests_reschedule() {
    let (mut ks, ids) = kernel_with(&[(10, 0, 1)]);
    ks.restart(1, ids[0]);
    ks.schedule(1);
    assert_eq!(ks.current_thread(1), ids[0]);
    ks.schedule(1);
    ks.set_priority(1, ids[0], 2);
    assert!(ks.reschedule_pending(1));
    assert!(!ks.is_queued(ids[0]));
}

#[test]
fn set_domain_and_affinity_requeue() {
    let (mut ks, ids) = kernel_with(&[(10, 0, 0)]);
    let t = ids[0];
    ks.restart(0, t);
    ks.set_domain(0, t, 1);
    assert_eq!(ks.thread_domain(t), 1);
    assert_eq!(ks.ready_queue(0, 1, 10), vec![t]);
    assert!(ks.ready_queue(0, 0, 10).is_empty());
    ks.set_affinity(0, t, 3);
    assert_eq!(ks.thread_affinity(t), 3);
    assert_eq!(ks.ready_queue(3, 1, 10), vec![t]);
    assert!(ks.ready_queue(0, 1, 10).is_empty());
}

#[test]
fn set_mcp_changes_only_mcp() {
    let (mut ks, ids) = kernel_with(&[(10, 0, 0)]);
    ks.set_mcp(ids[0], 50);
    assert_eq!(ks.thread_mcp(ids[0]), 50);
    assert_eq!(ks.thread_priority(ids[0]), 10);
}

#[test]
fn bind_notification_rules() {
    let (mut ks, ids) = kernel_with(&[(10, 0, 0), (10, 0, 0)]);
    let n = ks.create_notification();
    let m = ks.create_notification();
    assert_eq!(ks.unbind_notification(ids[0]), Err(KernelError::IllegalOperation));
    assert_eq!(ks.bind_notification(ids[0], n), Ok(()));
    assert_eq!(ks.bound_notification(ids[0]), Some(n));
    assert_eq!(ks.ntfn_bound_tcb(n), Some(ids[0]));
    // Already bound thread, already bound notification.
    assert_eq!(ks.bind_notification(ids[0], m), Err(KernelError::IllegalOperation));
    assert_eq!(ks.bind_notification(ids[1], n), Err(KernelError::IllegalOperation));
    // A notification with waiters.
    ks.restart(0, ids[1]);
    ks.receive_signal(m, ids[1], true);
    let (mut ks2, ids2) = kernel_with(&[(10, 0, 0)]);
    let m2 = ks2.create_notification();
    assert_eq!(ks2.bind_notification(ids2[0], m2), Ok(()));
    assert_eq!(ks.bind_notification(ids[1], m), Err(KernelError::IllegalOperation));
    assert_eq!(ks.unbind_notification(ids[0]), Ok(()));
    assert_eq!(ks.bound_notification(ids[0]), None);
    assert_eq!(ks.ntfn_bound_tcb(n), None);
}

#[test]
fn tcb_local_state_helpers() {
    let mut t = tcb_t::new(7, 10, 0, 1);
    assert!(t.is_stopped());
    assert!(!t.is_runnable());
    assert!(!t.is_blocked());
    assert_eq!(t.get_ptr(), 7);
    assert_eq!(t.get_cpu(), 1);
    set_thread_state(&mut t, ThreadState::ThreadStateBlockedOnReply);
    assert!(t.is_blocked());
    assert!(t.is_stopped());
    t.set_state(ThreadState::ThreadStateRestart);
    assert!(t.is_runnable());
    assert!(t.is_schedulable());
    assert_eq!(t.get_state(), ThreadState::ThreadStateRestart);
    t.set_mc_priority(99);
    assert_eq!(t.tcbMCP, 99);
    t.bind_notification(3);
    assert_eq!(t.tcbBoundNotification, Some(3));
    t.unbind_notification();
    assert_eq!(t.tcbBoundNotification, None);
    migrate_tcb(&mut t, 2);
    assert_eq!(t.get_cpu(), 2);
}

#[test]
fn tcb_sched_methods_keep_queue_and_flag_together() {
    let mut rq = ReadyQueues::new();
    let mut t = tcb_t::new(9, 4, 0, 0);
    t.restart(&mut rq);
    assert!(t.tcbQueued);
    assert_eq!(t.tcbState, ThreadState::ThreadStateRestart);
    let q = queue_index(0, 0, 4);
    assert_eq!(rq.head(q), 9);
    t.sched_enqueue(&mut rq);
    assert_eq!(rq.remove(q, 9), 0);
    assert!(rq.is_empty(q));
    rq.append(q, 9);
    t.set_priority(&mut rq, 6);
    assert!(!t.tcbQueued);
    assert!(rq.is_empty(q));
    t.sched_append(&mut rq);
    assert_eq!(rq.head(queue_index(0, 0, 6)), 9);
    t.set_domain(&mut rq, 1);
    assert!(t.tcbQueued);
    assert_eq!(rq.head(queue_index(0, 1, 6)), 9);
    t.suspend(&mut rq);
    assert_eq!(t.tcbState, ThreadState::ThreadStateInactive);
    assert!(rq.is_empty(queue_index(0, 1, 6)));
    t.sched_dequeue(&mut rq);
    assert!(!t.tcbQueued);
}

#[test]
fn set_mr_writes_message_registers() {
    let mut t = tcb_t::new(0, 1, 0, 0);
    assert_eq!(t.set_mr(0, 11), 1);
    assert_eq!(t.set_mr(3, 44), 4);
    assert_eq!(t.set_mr(4, 55), 4);
    assert_eq!(t.tcbArch.get_register(ArchReg::Msg(0)), 11);
    assert_eq!(t.tcbArch.get_register(ArchReg::Msg(3)), 44);
    t.init();
    assert_eq!(t.tcbArch.get_register(ArchReg::Msg(0)), 0);
}

#[test]
fn register_indices() {
    assert_eq!(ArchReg::Badge.to_index(), 0);
    assert_eq!(ArchReg::Cap.to_index(), 0);
    assert_eq!(ArchReg::MsgInfo.to_index(), 1);
    assert_eq!(ArchReg::TlsBase.to_index(), 35);
    assert_eq!(ArchReg::FaultIP.to_index(), 34);
    assert_eq!(ArchReg::NextIP.to_index(), 32);
    assert_eq!(ArchReg::Msg(2).to_index(), 4);
    assert_eq!(ArchReg::Frame(0).to_index(), 34);
    assert_eq!(ArchReg::Frame(5).to_index(), 2);
    assert_eq!(ArchReg::Frame(13).to_index(), 17);
    assert_eq!(ArchReg::Frame(16).to_index(), 30);
    assert_eq!(ArchReg::GP(0).to_index(), 9);
    assert_eq!(ArchReg::GP(7).to_index(), 19);
    assert_eq!(ArchReg::GP(18).to_index(), 36);
    assert_eq!(ArchReg::FaultMessage(0, 8).to_index(), 34);
    assert_eq!(ArchReg::FaultMessage(0, 11).to_index(), 33);
    assert_eq!(ArchReg::FaultMessage(1, 2).to_index(), 33);
    assert_eq!(ArchReg::FaultMessage(1, 7).to_index(), 0);
}

#[test]
fn copy_range_copies_only_the_range() {
    let mut a = ArchTCB::new();
    let mut b = ArchTCB::new();
    for i in 0..6 {
        b.set_register(ArchReg::GP(i), 100 + i);
    }
    a.copy_range(&b, 9..12);
    assert_eq!(a.get_register(ArchReg::GP(0)), 100);
    assert_eq!(a.get_register(ArchReg::GP(2)), 102);
    assert_eq!(a.get_register(ArchReg::GP(3)), 0);
}

#[test]
fn fault_messages_copy_into_message_registers() {
    let mut faulter = tcb_t::new(0, 1, 0, 0);
    let mut handler = tcb_t::new(1, 1, 0, 0);
    faulter.tcbArch.set_register(ArchReg::FaultIP, 0x1000);
    faulter.tcbArch.set_register(ArchReg::GP(0), 0x22);
    faulter.tcbArch.set_register(ArchReg::MsgInfo, 0x33);
    // Exception layout: fault IP, stack pointer, saved status.
    faulter.copy_exeception_fault_mrs(&mut handler);
    assert_eq!(handler.tcbArch.get_register(ArchReg::Msg(0)), 0x1000);
    assert_eq!(handler.tcbArch.get_register(ArchReg::Msg(3)), 0);
    // Syscall layout starts with the first general registers.
    let mut handler2 = tcb_t::new(2, 1, 0, 0);
    faulter.tcbArch.set_register(ArchReg::Cap, 0x44);
    faulter.copy_syscall_fault_mrs(&mut handler2);
    assert_eq!(handler2.tcbArch.get_register(ArchReg::Msg(0)), 0x44);
    assert_eq!(handler2.tcbArch.get_register(ArchReg::Msg(1)), 0x33);
}

#[test]
fn fault_reply_copies_back_into_fault_registers() {
    let mut handler = tcb_t::new(1, 1, 0, 0);
    let mut faulter = tcb_t::new(0, 1, 0, 0);
    handler.set_mr(0, 0x2000);
    handler.set_mr(1, 0x3000);
    handler.copy_fault_mrs_for_reply(&mut faulter, 1, 2);
    assert_eq!(faulter.tcbArch.get_register(ArchReg::FaultIP), 0x2000);
    assert_eq!(faulter.tcbArch.get_register(ArchReg::Frame(1)), 0x3000);
    assert_eq!(faulter.tcbArch.get_register(ArchReg::Frame(2)), 0);
}

#[test]
fn caller_cap_links_and_unlinks() {
    let mut server = tcb_t::new(5, 1, 0, 0);
    let mut client = tcb_t::new(6, 1, 0, 0);
    server.setup_caller_cap(&mut client, true);
    assert_eq!(server.tcbCaller, Some(6));
    assert_eq!(client.tcbState, ThreadState::ThreadStateBlockedOnReply);
    server.delete_caller_cap();
    assert_eq!(server.tcbCaller, None);
}

#[test]
fn debug_hooks_leave_thread_alone() {
    let mut t = tcb_t::new(3, 2, 0, 0);
    t.debug_append();
    t.debug_remove();
    assert_eq!(t.get_ptr(), 3);
    assert_eq!(t.tcbPriority, 2);
    assert_eq!(t.get_state(), ThreadState::ThreadStateInactive);
}

#[test]
fn is_current_follows_schedule() {
    let (mut ks, ids) = kernel_with(&[(10, 0, 2)]);
    let probe = tcb_t::new(ids[0], 10, 0, 2);
    assert!(!probe.is_current(&ks));
    ks.restart(2, ids[0]);
    ks.schedule(2);
    assert!(probe.is_current(&ks));
    let idle = tcb_t::new(2, 0, 0, 2);
    assert!(!idle.is_current(&ks));
}

#[test]
fn remote_wakeup_below_running_priority_sends_no_interrupt() {
    let (mut ks, ids) = kernel_with(&[(50, 0, 2), (10, 0, 2), (60, 0, 2), (70, 1, 2)]);
    // Core 2 runs a priority-50 thread.
    ks.restart(2, ids[0]);
    ks.schedule(2);
    assert_eq!(ks.current_thread(2), ids[0]);
    // Core 0 wakes a lower-priority thread of core 2: no interrupt.
    ks.restart(0, ids[1]);
    assert_eq!(ks.ipi_reschedule_mask(0), 0);
    assert!(ks.is_queued(ids[1]));
    // A thread of another domain: no interrupt either.
    ks.restart(0, ids[3]);
    assert_eq!(ks.ipi_reschedule_mask(0), 0);
    // A higher-priority thread: core 2 is interrupted.
    ks.restart(0, ids[2]);
    assert_eq!(ks.ipi_reschedule_mask(0), 1 << 2);
}

#[test]
fn set_affinity_to_idle_core_sends_interrupt() {
    let (mut ks, ids) = kernel_with(&[(10, 0, 0)]);
    ks.restart(0, ids[0]);
    ks.set_affinity(0, ids[0], 1);
    assert_eq!(ks.ipi_reschedule_mask(0), 1 << 1);
    assert_eq!(ks.ready_queue(1, 0, 10), vec![ids[0]]);
}

#[test]
fn setup_caller_cap_records_grant_right() {
    let mut server = tcb_t::new(5, 1, 0, 0);
    let mut client = tcb_t::new(6, 1, 0, 0);
    server.setup_caller_cap(&mut client, false);
    assert!(!server.tcbCallerCanGrant);
    server.setup_caller_cap(&mut client, true);
    assert!(server.tcbCallerCanGrant);
}

#[test]
fn preempted_thread_goes_back_to_head_of_its_queue() {
    let (mut ks, ids) = kernel_with(&[(10, 0, 0), (10, 0, 0), (20, 0, 0)]);
    ks.restart(0, ids[1]);
    ks.restart(0, ids[0]);
    ks.schedule(0);
    assert_eq!(ks.current_thread(0), ids[0]);
    // A higher-priority thread arrives: the running one returns to the head.
    ks.restart(0, ids[2]);
    ks.schedule(0);
    assert_eq!(ks.current_thread(0), ids[2]);
    assert_eq!(ks.ready_queue(0, 0, 10), vec![ids[0], ids[1]]);
}

#[test]
fn moving_running_thread_requests_reschedule() {
    let (mut ks, ids) = kernel_with(&[(10, 0, 0)]);
    ks.restart(0, ids[0]);
    ks.schedule(0);
    assert!(!ks.reschedule_pending(0));
    ks.set_affinity(0, ids[0], 1);
    assert!(ks.reschedule_pending(0));
    ks.set_domain(1, ids[0], 1);
    assert!(!ks.reschedule_pending(1));
}
