//! The core of a capability-based microkernel: the big kernel lock that serialises the
//! cores (a CLH queue lock that also carries remote calls between cores), the thread
//! state machine with its ready queues and occupancy bitmap, and the endpoint and
//! notification rendezvous through which threads communicate. Capability resolution,
//! virtual memory and argument decoding stay with the layers around it.
use vstd::prelude::*;

pub mod lock;
pub mod smp;
pub mod scheduler;
pub mod arch;
pub mod tcb;
pub mod kernel;
pub mod basic;
pub mod syscall;

verus! {

} // verus!
