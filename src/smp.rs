//! Remote calls between cores. A core that holds or waits for the big kernel lock asks
//! another core to do a small fixed piece of work by writing the request into the shared
//! slot and raising the target's flag; the target notices the flag inside its own wait
//! loop (`clh_lock::spin_step`), does the work and lowers the flag, which the issuer
//! waits for.
use vstd::prelude::*;
use crate::lock::{clh_lock, clh_qnode_state, CONFIG_MAX_NUM_NODES};

verus! {

/// The closed set of remote calls.
#[derive(PartialEq, Eq, Structural, Copy, Clone, Debug)]
pub enum ipi_remote_call {
    IpiRemoteCall_Stall,
    IpiRemoteCall_InvalidateTranslationSingle,
    IpiRemoteCall_InvalidateTranslationASID,
    IpiRemoteCall_InvalidateTranslationAll,
    IpiRemoteCall_switchFpuOwner,
    IpiRemoteCall_MaskPrivateInterrupt,
    IpiNumArchRemoteCall,
}

/// The shared slot that carries a remote call's kind and arguments to its target.
#[derive(PartialEq, Eq, Structural, Copy, Clone, Debug)]
pub struct remote_call_slot {
    pub call: ipi_remote_call,
    pub arg0: usize,
    pub arg1: usize,
    pub arg2: usize,
}

impl remote_call_slot {
    pub fn new() -> (r: Self)
        ensures
            r.call == ipi_remote_call::IpiRemoteCall_Stall,
            r.arg0 == 0 && r.arg1 == 0 && r.arg2 == 0,
    {
        remote_call_slot { call: ipi_remote_call::IpiRemoteCall_Stall, arg0: 0, arg1: 0, arg2: 0 }
    }
}

/// Lets a spinning core yield its pipeline; the wait itself is the caller's loop.
pub fn arch_pause() {
}

/// Issues a remote call to `target`: fills the shared slot and raises the target's flag.
/// The issuer then waits until `remote_call_done` holds.
pub fn request_remote_call(
    lock: &mut clh_lock,
    slot: &mut remote_call_slot,
    target: usize,
    call: ipi_remote_call,
    arg0: usize,
    arg1: usize,
    arg2: usize,
)
    requires
        old(lock).wf(),
        target < CONFIG_MAX_NUM_NODES,
    ensures
        final(lock).wf(),
        final(lock).waiters() == old(lock).waiters(),
        final(lock).ipi_pending(target),
        forall|c: usize|
            c < CONFIG_MAX_NUM_NODES && c != target ==> final(lock).ipi_pending(c) == old(
                lock,
            ).ipi_pending(c),
        *final(slot) == (remote_call_slot { call, arg0, arg1, arg2 }),
{
    *slot = remote_call_slot { call, arg0, arg1, arg2 };
    lock.set_ipi(target, 1);
}

/// Whether `target` has served the remote call it was asked for.
pub fn remote_call_done(lock: &clh_lock, target: usize) -> (r: bool)
    requires
        lock.wf(),
        target < CONFIG_MAX_NUM_NODES,
    ensures
        r == !lock.ipi_pending(target),
{
    !lock.is_ipi_pending(target)
}

/// Serves a remote call on core `cpu`: when its flag is raised, lowers it and returns the
/// request read from the shared slot, which the caller must now carry out; otherwise
/// returns `None` and changes nothing.
pub fn handle_remote_call(lock: &mut clh_lock, cpu: usize, slot: &remote_call_slot) -> (r: Option<
    remote_call_slot,
>)
    requires
        old(lock).wf(),
        cpu < CONFIG_MAX_NUM_NODES,
    ensures
        final(lock).wf(),
        final(lock).waiters() == old(lock).waiters(),
        r == (if old(lock).ipi_pending(cpu) {
            Some(*slot)
        } else {
            None
        }),
        !final(lock).ipi_pending(cpu),
        forall|c: usize|
            c < CONFIG_MAX_NUM_NODES && c != cpu ==> final(lock).ipi_pending(c) == old(
                lock,
            ).ipi_pending(c),
{
    if lock.is_ipi_pending(cpu) {
        lock.set_ipi(cpu, 0);
        Some(*slot)
    } else {
        None
    }
}

/// Sets up the big kernel lock before any other core starts: free, and no core waits.
pub fn clh_lock_init(lock: &mut clh_lock)
    requires
        old(lock).shaped(),
    ensures
        final(lock).wf(),
        final(lock).waiters() == Seq::<usize>::empty(),
{
    lock.init();
}

pub fn clh_is_ipi_pending(lock: &clh_lock, cpu: usize) -> (r: bool)
    requires
        lock.wf(),
        cpu < CONFIG_MAX_NUM_NODES,
    ensures
        r == lock.ipi_pending(cpu),
{
    lock.is_ipi_pending(cpu)
}

pub fn clh_is_self_in_queue(lock: &clh_lock, cpu: usize) -> (r: bool)
    requires
        lock.wf(),
        cpu < CONFIG_MAX_NUM_NODES,
    ensures
        r == lock.in_queue(cpu),
{
    lock.is_self_in_queue(cpu)
}

pub fn clh_set_ipi(lock: &mut clh_lock, cpu: usize, ipi: usize)
    requires
        old(lock).wf(),
        cpu < CONFIG_MAX_NUM_NODES,
    ensures
        final(lock).wf(),
        final(lock).waiters() == old(lock).waiters(),
        final(lock).ipi_pending(cpu) == (ipi == 1),
        forall|c: usize|
            c < CONFIG_MAX_NUM_NODES && c != cpu ==> final(lock).ipi_pending(c) == old(lock).ipi_pending(c),
{
    lock.set_ipi(cpu, ipi);
}

pub fn clh_next_node_state(lock: &clh_lock, cpu: usize) -> (r: clh_qnode_state)
    requires
        lock.wf(),
        cpu < CONFIG_MAX_NUM_NODES,
    ensures
        lock.in_queue(cpu) ==> (r == clh_qnode_state::CLHState_Granted <==> lock.holder() == Some(cpu)),
{
    lock.next_node_value(cpu)
}

/// Kernel entry on core `cpu`: joins the lock's queue. The core then spins with
/// `clh_lock::spin_step`, serving remote calls, until it is granted.
pub fn clh_lock_acquire(lock: &mut clh_lock, cpu: usize)
    requires
        old(lock).wf(),
        cpu < CONFIG_MAX_NUM_NODES,
        !old(lock).in_queue(cpu),
    ensures
        final(lock).wf(),
        final(lock).waiters() == old(lock).waiters().push(cpu),
        final(lock).in_queue(cpu),
{
    lock.acquire(cpu);
}

/// Kernel exit on core `cpu`, which holds the lock: the next waiting core is granted.
pub fn clh_lock_release(lock: &mut clh_lock, cpu: usize)
    requires
        old(lock).wf(),
        cpu < CONFIG_MAX_NUM_NODES,
        old(lock).holder() == Some(cpu),
    ensures
        final(lock).wf(),
        final(lock).waiters() == old(lock).waiters().drop_first(),
        !final(lock).in_queue(cpu),
{
    lock.release(cpu);
}

} // verus!
