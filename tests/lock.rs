use rel4_kernel::lock::{clh_lock, clh_qnode, clh_qnode_p, clh_qnode_state, clh_spin_action};
use rel4_kernel::smp::{
    clh_is_ipi_pending, clh_is_self_in_queue, clh_lock_acquire, clh_lock_init, clh_lock_release,
    clh_next_node_state, clh_set_ipi, handle_remote_call, ipi_remote_call, remote_call_done, remote_call_slot, request_remote_call,
};

fn ready_lock() -> clh_lock {
    let mut lock = clh_lock::new();
    lock.init();
    lock
}

/// Spins core `cpu` until it holds the lock, serving remote calls; returns the turns taken.
fn spin_until_granted(lock: &mut clh_lock, cpu: usize, limit: usize) -> usize {
    let mut turns = 0;
    loop {
        assert!(turns < limit, "core {} was not granted", cpu);
        match lock.spin_step(cpu) {
            clh_spin_action::Acquired => return turns,
            clh_spin_action::ServeRemoteCall => {
                let _ = handle_remote_call(lock, cpu, &remote_call_slot::new());
            }
            clh_spin_action::Pause => {}
        }
        turns += 1;
    }
}

#[test]
fn qnode_starts_granted() {
    let mut n = clh_qnode::new();
    assert_eq!(n.state(), clh_qnode_state::CLHState_Granted);
    n.set_state(clh_qnode_state::CLHState_Pending);
    assert_eq!(n.state(), clh_qnode_state::CLHState_Pending);
    let p = clh_qnode_p::new();
    assert_eq!(p.ipi, 0);
    assert!(p.next.is_none());
}

#[test]
fn fresh_lock_has_no_pending_calls() {
    let lock = ready_lock();
    for cpu in 0..4 {
        assert!(!lock.is_ipi_pending(cpu));
        assert!(!lock.is_self_in_queue(cpu));
    }
}

#[test]
fn single_core_acquires_and_releases() {
    let mut lock = ready_lock();
    lock.acquire(0);
    assert!(lock.is_self_in_queue(0));
    assert_eq!(lock.next_node_value(0), clh_qnode_state::CLHState_Granted);
    assert_eq!(lock.spin_step(0), clh_spin_action::Acquired);
    lock.release(0);
    assert!(!lock.is_self_in_queue(0));
    // The slots recycle: the same core can take the lock again.
    lock.acquire(0);
    assert_eq!(lock.spin_step(0), clh_spin_action::Acquired);
    lock.release(0);
}

#[test]
fn lock_grants_in_arrival_order() {
    let mut lock = ready_lock();
    let arrivals = [2usize, 0, 3, 1];
    for &c in arrivals.iter() {
        lock.acquire(c);
    }
    for (k, &holder) in arrivals.iter().enumerate() {
        assert_eq!(lock.spin_step(holder), clh_spin_action::Acquired);
        for &other in arrivals[k + 1..].iter() {
            assert_eq!(lock.spin_step(other), clh_spin_action::Pause);
            assert_eq!(lock.next_node_value(other), clh_qnode_state::CLHState_Pending);
        }
        lock.release(holder);
    }
    for c in 0..4 {
        assert!(!lock.is_self_in_queue(c));
    }
}

#[test]
fn lock_fifo_with_interleaved_releases() {
    let mut lock = ready_lock();
    let mut grants = Vec::new();
    lock.acquire(1);
    lock.acquire(3);
    assert_eq!(lock.spin_step(1), clh_spin_action::Acquired);
    grants.push(1);
    lock.release(1);
    lock.acquire(0);
    lock.acquire(1);
    assert_eq!(lock.spin_step(0), clh_spin_action::Pause);
    assert_eq!(lock.spin_step(3), clh_spin_action::Acquired);
    grants.push(3);
    lock.release(3);
    assert_eq!(lock.spin_step(1), clh_spin_action::Pause);
    assert_eq!(lock.spin_step(0), clh_spin_action::Acquired);
    grants.push(0);
    lock.release(0);
    assert_eq!(lock.spin_step(1), clh_spin_action::Acquired);
    grants.push(1);
    lock.release(1);
    assert_eq!(grants, vec![1, 3, 0, 1]);
}

#[test]
fn set_ipi_raises_and_lowers_flag() {
    let mut lock = ready_lock();
    lock.set_ipi(2, 1);
    assert!(lock.is_ipi_pending(2));
    assert!(!lock.is_ipi_pending(1));
    lock.set_ipi(2, 0);
    assert!(!lock.is_ipi_pending(2));
}

#[test]
fn remote_call_served_before_grant() {
    let mut lock = ready_lock();
    let mut slot = remote_call_slot::new();
    let (a, b) = (0usize, 1usize);
    lock.acquire(a);
    assert_eq!(lock.spin_step(a), clh_spin_action::Acquired);
    // Core A, holding the lock, asks core B to invalidate all translations.
    request_remote_call(
        &mut lock,
        &mut slot,
        b,
        ipi_remote_call::IpiRemoteCall_InvalidateTranslationAll,
        0,
        0,
        0,
    );
    assert!(!remote_call_done(&lock, b));
    // Core B contends for the lock and finds the request in its wait loop.
    lock.acquire(b);
    assert_eq!(lock.spin_step(b), clh_spin_action::ServeRemoteCall);
    let served = handle_remote_call(&mut lock, b, &slot);
    assert_eq!(
        served.map(|s| s.call),
        Some(ipi_remote_call::IpiRemoteCall_InvalidateTranslationAll)
    );
    // Core A observes the flag cleared within a bounded number of turns.
    let mut turns = 0;
    while !remote_call_done(&lock, b) {
        turns += 1;
        assert!(turns < 4);
    }
    assert_eq!(turns, 0);
    // B still waits for A, and is granted once A releases.
    assert_eq!(lock.spin_step(b), clh_spin_action::Pause);
    lock.release(a);
    assert_eq!(spin_until_granted(&mut lock, b, 4), 0);
    lock.release(b);
}

#[test]
fn handle_remote_call_without_request_does_nothing() {
    let mut lock = ready_lock();
    let r = handle_remote_call(&mut lock, 3, &remote_call_slot::new());
    assert!(r.is_none());
    assert!(!lock.is_ipi_pending(3));
}

#[test]
fn handle_remote_call_hands_back_arguments() {
    let mut lock = ready_lock();
    let mut slot = remote_call_slot::new();
    request_remote_call(
        &mut lock,
        &mut slot,
        2,
        ipi_remote_call::IpiRemoteCall_InvalidateTranslationASID,
        7,
        8,
        9,
    );
    assert_eq!(slot.arg0, 7);
    let r = handle_remote_call(&mut lock, 2, &slot).unwrap();
    assert_eq!(r.call, ipi_remote_call::IpiRemoteCall_InvalidateTranslationASID);
    assert_eq!((r.arg0, r.arg1, r.arg2), (7, 8, 9));
    assert!(remote_call_done(&lock, 2));
}

#[test]
fn kernel_entry_and_exit_through_lock_functions() {
    let mut lock = clh_lock::new();
    clh_lock_init(&mut lock);
    clh_lock_acquire(&mut lock, 3);
    clh_lock_acquire(&mut lock, 1);
    assert!(clh_is_self_in_queue(&lock, 1));
    assert_eq!(clh_next_node_state(&lock, 3), clh_qnode_state::CLHState_Granted);
    assert_eq!(clh_next_node_state(&lock, 1), clh_qnode_state::CLHState_Pending);
    clh_set_ipi(&mut lock, 1, 1);
    assert!(clh_is_ipi_pending(&lock, 1));
    clh_set_ipi(&mut lock, 1, 0);
    clh_lock_release(&mut lock, 3);
    assert_eq!(clh_next_node_state(&lock, 1), clh_qnode_state::CLHState_Granted);
    clh_lock_release(&mut lock, 1);
    assert!(!clh_is_self_in_queue(&lock, 1));
}
