//! The big kernel lock: a CLH queue lock with one reusable node per core.
//!
//! Each core owns a node slot. To join the queue a core marks its node pending and swaps
//! it into `head`, remembering the previous `head` as its predecessor. A core holds the
//! lock once its predecessor's node is granted. Releasing grants the core's own node and
//! takes over the predecessor's slot for the next round, so no node is ever allocated.
//!
//! The ghost `queue` records the cores in the order they joined; the well-formedness
//! predicate ties the node states and predecessor links to that order.
use vstd::prelude::*;

verus! {

/// Number of cores that may contend for the lock.
pub const CONFIG_MAX_NUM_NODES: usize = 4;

/// The state of one CLH node.
#[derive(PartialEq, Eq, Structural, Copy, Clone, Debug)]
pub enum clh_qnode_state {
    CLHState_Granted,
    CLHState_Pending,
}

/// One node of the lock's queue.
#[derive(Copy, Clone, Debug)]
pub struct clh_qnode {
    pub state: clh_qnode_state,
}

impl clh_qnode {
    pub fn new() -> (r: Self)
        ensures
            r.state == clh_qnode_state::CLHState_Granted,
    {
        clh_qnode { state: clh_qnode_state::CLHState_Granted }
    }

    pub fn set_state(&mut self, state: clh_qnode_state)
        ensures
            final(self).state == state,
    {
        self.state = state;
    }

    pub fn state(&self) -> (r: clh_qnode_state)
        ensures
            r == self.state,
    {
        self.state
    }
}

/// The per-core record: which node slot the core currently owns, the node it waits on,
/// and the flag another core raises to ask this core for a remote call.
#[derive(Copy, Clone, Debug)]
pub struct clh_qnode_p {
    pub node: usize,
    pub next: Option<usize>,
    pub ipi: usize,
}

impl clh_qnode_p {
    pub fn new() -> (r: Self)
        ensures
            r.node == 0,
            r.next is None,
            r.ipi == 0,
    {
        clh_qnode_p { node: 0, next: None, ipi: 0 }
    }
}

/// What a core waiting in `acquire` does next.
#[derive(PartialEq, Eq, Structural, Copy, Clone, Debug)]
pub enum clh_spin_action {
    /// The predecessor has granted: the core now holds the lock.
    Acquired,
    /// Another core asked for a remote call: serve it before spinning on.
    ServeRemoteCall,
    /// Keep waiting.
    Pause,
}

pub struct clh_lock {
    nodes: Vec<clh_qnode>,
    node_owners: Vec<clh_qnode_p>,
    head: usize,
    /// The cores that have joined and not yet released, in the order they joined.
    queue: Ghost<Seq<usize>>,
}

/// The node slot a core waits on, given the queue: the free slot for the first core,
/// otherwise the slot of the core before it.
pub open spec fn pred_slot(owners: Seq<clh_qnode_p>, queue: Seq<usize>, free: int, i: int) -> int {
    if i == 0 {
        free
    } else {
        owners[queue[i - 1] as int].node as int
    }
}

impl clh_lock {
    /// The one node slot that no core owns.
    pub closed spec fn free_slot(&self) -> int {
        if self.queue@.len() == 0 {
            self.head as int
        } else {
            match self.node_owners@[self.queue@[0] as int].next {
                Some(p) => p as int,
                None => -1,
            }
        }
    }

    /// The cores that have joined and not yet released, in the order they joined.
    pub closed spec fn waiters(&self) -> Seq<usize> {
        self.queue@
    }

    /// The core that holds the lock, if any.
    pub open spec fn holder(&self) -> Option<usize> {
        if self.waiters().len() == 0 {
            None
        } else {
            Some(self.waiters()[0])
        }
    }

    pub open spec fn in_queue(&self, cpu: usize) -> bool {
        self.waiters().contains(cpu)
    }

    /// The node slot core `cpu` owns.
    pub closed spec fn node_of(&self, cpu: usize) -> usize {
        self.node_owners@[cpu as int].node
    }

    /// The node slot core `cpu` waits on, once it has joined.
    pub closed spec fn pred_of(&self, cpu: usize) -> Option<usize> {
        self.node_owners@[cpu as int].next
    }

    /// The node slot at the tail of the queue.
    pub closed spec fn tail(&self) -> usize {
        self.head
    }

    /// The state of node slot `n`.
    pub closed spec fn slot_state(&self, n: usize) -> clh_qnode_state {
        self.nodes@[n as int].state
    }

    /// In a well-formed lock every waiting core is a valid core and waits once.
    pub proof fn lemma_waiters_distinct(&self)
        requires
            self.wf(),
        ensures
            forall|i: int| 0 <= i < self.waiters().len() ==> #[trigger] self.waiters()[i] < CONFIG_MAX_NUM_NODES,
            forall|i: int, j: int|
                0 <= i < self.waiters().len() && 0 <= j < self.waiters().len() && i != j
                    ==> #[trigger] self.waiters()[i] != #[trigger] self.waiters()[j],
    {
    }

    /// Whether the remote-call flag of `cpu` is raised.
    pub closed spec fn ipi_pending(&self, cpu: usize) -> bool {
        self.node_owners@[cpu as int].ipi == 1
    }

    pub closed spec fn ipi_value(&self, cpu: usize) -> usize {
        self.node_owners@[cpu as int].ipi
    }

    pub closed spec fn shaped(&self) -> bool {
        &&& self.nodes@.len() == CONFIG_MAX_NUM_NODES + 1
        &&& self.node_owners@.len() == CONFIG_MAX_NUM_NODES
    }

    pub closed spec fn wf(&self) -> bool {
        let q = self.queue@;
        let owners = self.node_owners@;
        let nodes = self.nodes@;
        let free = self.free_slot();
        &&& self.shaped()
        &&& 0 <= free < nodes.len()
        &&& nodes[free].state == clh_qnode_state::CLHState_Granted
        &&& forall|c: int| 0 <= c < owners.len() ==> #[trigger] owners[c].node < nodes.len()
        &&& forall|c: int| 0 <= c < owners.len() ==> #[trigger] owners[c].node != free
        &&& forall|c1: int, c2: int|
            0 <= c1 < owners.len() && 0 <= c2 < owners.len() && c1 != c2
                ==> #[trigger] owners[c1].node != #[trigger] owners[c2].node
        &&& forall|i: int| 0 <= i < q.len() ==> #[trigger] q[i] < CONFIG_MAX_NUM_NODES
        &&& forall|i: int, j: int| 0 <= i < q.len() && 0 <= j < q.len() && i != j ==> q[i] != q[j]
        &&& forall|i: int|
            0 <= i < q.len() ==> #[trigger] owners[q[i] as int].next == Some(
                pred_slot(owners, q, free, i) as usize,
            )
        &&& forall|c: int|
            0 <= c < owners.len() ==> (nodes[#[trigger] owners[c].node as int].state
                == clh_qnode_state::CLHState_Pending <==> q.contains(c as usize))
        &&& q.len() > 0 ==> self.head == owners[q[q.len() - 1] as int].node
    }

    /// A lock whose node slots all stand granted; `init` links them to the cores.
    pub fn new() -> (r: Self)
        ensures
            r.shaped(),
            r.waiters() == Seq::<usize>::empty(),
    {
        let mut nodes: Vec<clh_qnode> = Vec::new();
        let mut i: usize = 0;
        while i < CONFIG_MAX_NUM_NODES + 1
            invariant
                i <= CONFIG_MAX_NUM_NODES + 1,
                nodes@.len() == i,
            decreases CONFIG_MAX_NUM_NODES + 1 - i,
        {
            nodes.push(clh_qnode::new());
            i = i + 1;
        }
        let mut node_owners: Vec<clh_qnode_p> = Vec::new();
        let mut j: usize = 0;
        while j < CONFIG_MAX_NUM_NODES
            invariant
                j <= CONFIG_MAX_NUM_NODES,
                node_owners@.len() == j,
            decreases CONFIG_MAX_NUM_NODES - j,
        {
            node_owners.push(clh_qnode_p::new());
            j = j + 1;
        }
        clh_lock { nodes, node_owners, head: 0, queue: Ghost(Seq::empty()) }
    }

    /// Gives core `i` node slot `i`, grants every slot and points `head` at the spare slot:
    /// the lock is free and no core waits.
    pub fn init(&mut self)
        requires
            old(self).shaped(),
        ensures
            final(self).wf(),
            final(self).waiters() == Seq::<usize>::empty(),
            forall|c: usize| c < CONFIG_MAX_NUM_NODES ==> !final(self).ipi_pending(c),
    {
        let mut i: usize = 0;
        while i < CONFIG_MAX_NUM_NODES
            invariant
                self.shaped(),
                i <= CONFIG_MAX_NUM_NODES,
                forall|c: int| 0 <= c < i ==> #[trigger] self.node_owners@[c].node == c,
                forall|c: int| 0 <= c < i ==> #[trigger] self.node_owners@[c].ipi == 0,
            decreases CONFIG_MAX_NUM_NODES - i,
        {
            self.node_owners.set(i, clh_qnode_p { node: i, next: None, ipi: 0 });
            i = i + 1;
        }
        let mut k: usize = 0;
        while k < CONFIG_MAX_NUM_NODES + 1
            invariant
                self.shaped(),
                k <= CONFIG_MAX_NUM_NODES + 1,
                forall|c: int| 0 <= c < CONFIG_MAX_NUM_NODES ==> #[trigger] self.node_owners@[c].node == c,
                forall|c: int| 0 <= c < CONFIG_MAX_NUM_NODES ==> #[trigger] self.node_owners@[c].ipi == 0,
                forall|n: int| 0 <= n < k ==> #[trigger] self.nodes@[n].state == clh_qnode_state::CLHState_Granted,
            decreases CONFIG_MAX_NUM_NODES + 1 - k,
        {
            self.nodes.set(k, clh_qnode::new());
            k = k + 1;
        }
        self.head = CONFIG_MAX_NUM_NODES;
        self.queue = Ghost(Seq::empty());
    }

    pub fn is_ipi_pending(&self, cpu: usize) -> (r: bool)
        requires
            self.wf(),
            cpu < CONFIG_MAX_NUM_NODES,
        ensures
            r == self.ipi_pending(cpu),
    {
        self.node_owners[cpu].ipi == 1
    }

    /// Sets the remote-call flag of `cpu`; nothing else changes.
    pub fn set_ipi(&mut self, cpu: usize, ipi: usize)
        requires
            old(self).wf(),
            cpu < CONFIG_MAX_NUM_NODES,
        ensures
            final(self).wf(),
            final(self).waiters() == old(self).waiters(),
            final(self).ipi_value(cpu) == ipi,
            final(self).ipi_pending(cpu) == (ipi == 1),
            forall|c: usize| c < CONFIG_MAX_NUM_NODES && c != cpu ==> final(self).ipi_value(c) == old(self).ipi_value(c),
            forall|c: usize| c < CONFIG_MAX_NUM_NODES && c != cpu ==> final(self).ipi_pending(c) == old(self).ipi_pending(c),
    {
        let mut o = self.node_owners[cpu];
        o.ipi = ipi;
        self.node_owners.set(cpu, o);
        assert(self.free_slot() == old(self).free_slot());
    }

    /// Whether `cpu` has joined the queue and not yet released.
    pub fn is_self_in_queue(&self, cpu: usize) -> (r: bool)
        requires
            self.wf(),
            cpu < CONFIG_MAX_NUM_NODES,
        ensures
            r == self.in_queue(cpu),
    {
        let n = self.node_owners[cpu].node;
        self.nodes[n].state() == clh_qnode_state::CLHState_Pending
    }

    /// Joins the queue: marks the core's node pending and swaps it into `head`. The core
    /// then waits with `spin_step` until it is granted.
    pub fn acquire(&mut self, cpu: usize)
        requires
            old(self).wf(),
            cpu < CONFIG_MAX_NUM_NODES,
            !old(self).in_queue(cpu),
        ensures
            final(self).wf(),
            final(self).waiters() == old(self).waiters().push(cpu),
            forall|c: usize| c < CONFIG_MAX_NUM_NODES ==> final(self).ipi_value(c) == old(self).ipi_value(c),
            forall|c: usize| c < CONFIG_MAX_NUM_NODES ==> final(self).ipi_pending(c) == old(self).ipi_pending(c),
            final(self).in_queue(cpu),
            final(self).slot_state(old(self).node_of(cpu)) == clh_qnode_state::CLHState_Pending,
            final(self).pred_of(cpu) == Some(old(self).tail()),
            final(self).tail() == old(self).node_of(cpu),
            forall|c: usize| c < CONFIG_MAX_NUM_NODES ==> final(self).node_of(c) == old(self).node_of(c),
    {
        let ghost old_free = self.free_slot();
        let ghost q0 = self.queue@;
        let n = self.node_owners[cpu].node;
        let mut qn = self.nodes[n];
        qn.set_state(clh_qnode_state::CLHState_Pending);
        self.nodes.set(n, qn);
        let prev = self.head;
        self.head = n;
        let mut o = self.node_owners[cpu];
        o.next = Some(prev);
        self.node_owners.set(cpu, o);
        self.queue = Ghost(q0.push(cpu));
        proof {
            let q = self.queue@;
            let owners = self.node_owners@;
            if q0.len() == 0 {
                assert(self.free_slot() == prev);
            } else {
                assert(q[0] == q0[0]);
                assert(q0[0] != cpu) by {
                    assert(q0.contains(q0[0]));
                }
                assert(self.free_slot() == old_free);
            }
            assert(self.free_slot() == old_free);
            assert forall|i: int| 0 <= i < q.len() implies #[trigger] owners[q[i] as int].next
                == Some(pred_slot(owners, q, old_free, i) as usize) by {
                if i < q0.len() {
                    assert(q[i] == q0[i]);
                    assert(q0[i] != cpu) by {
                        assert(q0.contains(q0[i]));
                    }
                    if i > 0 {
                        assert(q[i - 1] == q0[i - 1]);
                    }
                } else {
                    assert(q[i] == cpu);
                    if i > 0 {
                        assert(q[i - 1] == q0[q0.len() - 1]);
                    }
                }
            }
            assert forall|i: int, j: int|
                0 <= i < q.len() && 0 <= j < q.len() && i != j implies q[i] != q[j] by {
                if i < q0.len() && j < q0.len() {
                } else if i < q0.len() {
                    assert(q0.contains(q0[i]));
                } else if j < q0.len() {
                    assert(q0.contains(q0[j]));
                }
            }
            assert forall|c: int| 0 <= c < owners.len() implies (self.nodes@[
                #[trigger] owners[c].node as int].state == clh_qnode_state::CLHState_Pending
                <==> q.contains(c as usize)) by {
                if c == cpu as int {
                    assert(q[q.len() - 1] == cpu);
                } else {
                    assert(owners[c].node != n);
                    if q.contains(c as usize) {
                        let k = choose|k: int| 0 <= k < q.len() && q[k] == c as usize;
                        assert(q0[k] == c as usize);
                        assert(q0.contains(c as usize));
                    }
                    if q0.contains(c as usize) {
                        let k = choose|k: int| 0 <= k < q0.len() && q0[k] == c as usize;
                        assert(q[k] == c as usize);
                    }
                }
            }
        }
    }

    /// The state of the node `cpu` waits on; granted when it waits on none.
    pub fn next_node_value(&self, cpu: usize) -> (r: clh_qnode_state)
        requires
            self.wf(),
            cpu < CONFIG_MAX_NUM_NODES,
        ensures
            self.in_queue(cpu) ==> (r == clh_qnode_state::CLHState_Granted <==> self.holder()
                == Some(cpu)),
    {
        match self.node_owners[cpu].next {
            None => clh_qnode_state::CLHState_Granted,
            Some(p) => {
                proof {
                    if self.in_queue(cpu) {
                        let q = self.queue@;
                        let k = choose|k: int| 0 <= k < q.len() && q[k] == cpu;
                        assert(self.node_owners@[q[k] as int].next == Some(
                            pred_slot(self.node_owners@, q, self.free_slot(), k) as usize,
                        ));
                        if k > 0 {
                            let prev = q[k - 1];
                            assert(q.contains(prev));
                            assert(self.nodes@[self.node_owners@[prev as int].node as int].state
                                == clh_qnode_state::CLHState_Pending);
                            assert(q[0] != cpu);
                        }
                    }
                }
                if p < self.nodes.len() {
                    self.nodes[p].state()
                } else {
                    clh_qnode_state::CLHState_Pending
                }
            },
        }
    }

    /// One turn of the wait loop of a core that has joined the queue. A raised remote-call
    /// flag is served first, so a core never takes the lock with a request left unserved.
    pub fn spin_step(&self, cpu: usize) -> (r: clh_spin_action)
        requires
            self.wf(),
            cpu < CONFIG_MAX_NUM_NODES,
            self.in_queue(cpu),
        ensures
            r == (if self.ipi_pending(cpu) {
                clh_spin_action::ServeRemoteCall
            } else if self.holder() == Some(cpu) {
                clh_spin_action::Acquired
            } else {
                clh_spin_action::Pause
            }),
    {
        if self.is_ipi_pending(cpu) {
            clh_spin_action::ServeRemoteCall
        } else if self.next_node_value(cpu) == clh_qnode_state::CLHState_Granted {
            clh_spin_action::Acquired
        } else {
            crate::smp::arch_pause();
            clh_spin_action::Pause
        }
    }

    /// Hands the lock to the next core in the queue: grants the holder's node, and the
    /// holder takes over its predecessor's slot for its next round.
    pub fn release(&mut self, cpu: usize)
        requires
            old(self).wf(),
            cpu < CONFIG_MAX_NUM_NODES,
            old(self).holder() == Some(cpu),
        ensures
            final(self).wf(),
            final(self).waiters() == old(self).waiters().drop_first(),
            forall|c: usize| c < CONFIG_MAX_NUM_NODES ==> final(self).ipi_value(c) == old(self).ipi_value(c),
            forall|c: usize| c < CONFIG_MAX_NUM_NODES ==> final(self).ipi_pending(c) == old(self).ipi_pending(c),
            !final(self).in_queue(cpu),
            final(self).slot_state(old(self).node_of(cpu)) == clh_qnode_state::CLHState_Granted,
            old(self).pred_of(cpu) == Some(final(self).node_of(cpu)),
            forall|c: usize| c < CONFIG_MAX_NUM_NODES && c != cpu ==> final(self).node_of(c) == old(self).node_of(c),
    {
        let ghost q0 = self.queue@;
        let ghost old_free = self.free_slot();
        let n = self.node_owners[cpu].node;
        let mut qn = self.nodes[n];
        qn.set_state(clh_qnode_state::CLHState_Granted);
        self.nodes.set(n, qn);
        let mut o = self.node_owners[cpu];
        let prev = match o.next {
            Some(p) => p,
            None => n,
        };
        o.node = prev;
        self.node_owners.set(cpu, o);
        self.queue = Ghost(q0.drop_first());
        proof {
            let q = self.queue@;
            let owners = self.node_owners@;
            assert(q0[0] == cpu);
            assert(prev as int == old_free);
            if q.len() == 0 {
                assert(self.head == n);
                assert(self.free_slot() == n);
            } else {
                assert(q[0] == q0[1]);
                assert(q0[1] != cpu);
                assert(owners[q0[1] as int].next == Some(
                    pred_slot(old(self).node_owners@, q0, old_free, 1) as usize,
                ));
                assert(self.free_slot() == n);
            }
            assert forall|c: int| 0 <= c < owners.len() implies #[trigger] owners[c].node
                != self.free_slot() by {
                if c != cpu as int {
                    assert(old(self).node_owners@[c].node != n);
                }
            }
            assert forall|c1: int, c2: int|
                0 <= c1 < owners.len() && 0 <= c2 < owners.len() && c1 != c2 implies
                #[trigger] owners[c1].node != #[trigger] owners[c2].node by {
                if c1 == cpu as int {
                    assert(old(self).node_owners@[c2].node != old_free);
                } else if c2 == cpu as int {
                    assert(old(self).node_owners@[c1].node != old_free);
                }
            }
            assert forall|i: int| 0 <= i < q.len() implies #[trigger] owners[q[i] as int].next
                == Some(pred_slot(owners, q, self.free_slot(), i) as usize) by {
                assert(q[i] == q0[i + 1]);
                assert(q0[i + 1] != cpu);
                assert(old(self).node_owners@[q0[i + 1] as int].next == Some(
                    pred_slot(old(self).node_owners@, q0, old_free, i + 1) as usize,
                ));
                if i > 0 {
                    assert(q[i - 1] == q0[i]);
                    assert(q0[i] != cpu);
                }
            }
            assert forall|c: int| 0 <= c < owners.len() implies (self.nodes@[
                #[trigger] owners[c].node as int].state == clh_qnode_state::CLHState_Pending
                <==> q.contains(c as usize)) by {
                if c == cpu as int {
                    if q.contains(cpu) {
                        let k = choose|k: int| 0 <= k < q.len() && q[k] == cpu;
                        assert(q0[k + 1] == cpu);
                    }
                } else {
                    assert(old(self).node_owners@[c].node != n);
                    if q.contains(c as usize) {
                        let k = choose|k: int| 0 <= k < q.len() && q[k] == c as usize;
                        assert(q0[k + 1] == c as usize);
                        assert(q0.contains(c as usize));
                    }
                    if q0.contains(c as usize) {
                        let k = choose|k: int| 0 <= k < q0.len() && q0[k] == c as usize;
                        assert(k != 0);
                        assert(q[k - 1] == c as usize);
                    }
                }
            }
            if q.len() > 0 {
                assert(q[q.len() - 1] == q0[q0.len() - 1]);
            }
        }
    }
}

/// One event seen by the lock: a core joins the queue, or the holder releases.
pub enum LockEvent {
    Arrive(usize),
    Release,
}

/// What `acquire` and `release` do to the queue of waiting cores.
pub open spec fn lock_step(q: Seq<usize>, e: LockEvent) -> Seq<usize> {
    match e {
        LockEvent::Arrive(c) => q.push(c),
        LockEvent::Release => q.drop_first(),
    }
}

/// The queue after a run of events on a free lock.
pub open spec fn run_events(events: Seq<LockEvent>) -> Seq<usize>
    decreases events.len(),
{
    if events.len() == 0 {
        Seq::empty()
    } else {
        lock_step(run_events(events.drop_last()), events.last())
    }
}

/// The cores that joined, in the order they joined.
pub open spec fn arrivals(events: Seq<LockEvent>) -> Seq<usize>
    decreases events.len(),
{
    if events.len() == 0 {
        Seq::empty()
    } else {
        match events.last() {
            LockEvent::Arrive(c) => arrivals(events.drop_last()).push(c),
            LockEvent::Release => arrivals(events.drop_last()),
        }
    }
}

/// How many times the lock was released.
pub open spec fn releases(events: Seq<LockEvent>) -> nat
    decreases events.len(),
{
    if events.len() == 0 {
        0
    } else {
        match events.last() {
            LockEvent::Arrive(_) => releases(events.drop_last()),
            LockEvent::Release => releases(events.drop_last()) + 1,
        }
    }
}

/// A run that `release` admits: every release happens while some core holds the lock.
pub open spec fn valid_run(events: Seq<LockEvent>) -> bool
    decreases events.len(),
{
    if events.len() == 0 {
        true
    } else {
        &&& valid_run(events.drop_last())
        &&& (events.last() is Release ==> run_events(events.drop_last()).len() > 0)
    }
}

/// Lock fairness: on a lock that starts free, however arrivals and releases interleave,
/// the waiting cores are exactly the arrivals not yet released, in arrival order. So the
/// k-th grant of the lock goes to the k-th core that arrived.
pub proof fn lemma_grant_order_is_arrival_order(events: Seq<LockEvent>)
    requires
        valid_run(events),
    ensures
        releases(events) <= arrivals(events).len(),
        run_events(events) == arrivals(events).subrange(
            releases(events) as int,
            arrivals(events).len() as int,
        ),
        run_events(events).len() > 0 ==> run_events(events)[0] == arrivals(events)[releases(
            events,
        ) as int],
    decreases events.len(),
{
    if events.len() > 0 {
        let pre = events.drop_last();
        lemma_grant_order_is_arrival_order(pre);
        match events.last() {
            LockEvent::Arrive(c) => {
                assert(run_events(events) =~= arrivals(events).subrange(
                    releases(events) as int,
                    arrivals(events).len() as int,
                ));
            },
            LockEvent::Release => {
                assert(run_events(events) =~= arrivals(events).subrange(
                    releases(events) as int,
                    arrivals(events).len() as int,
                ));
            },
        }
    } else {
        assert(run_events(events) =~= arrivals(events).subrange(0, 0));
    }
}

/// Each step of `locks` is the step `events` names: an `acquire` appends the arriving
/// core to the waiters, a `release` removes the holder.
pub open spec fn follows_events(locks: Seq<clh_lock>, events: Seq<LockEvent>) -> bool {
    &&& locks.len() == events.len() + 1
    &&& forall|i: int|
        0 <= i < events.len() ==> #[trigger] locks[i + 1].waiters() == lock_step(locks[i].waiters(), events[i])
}

proof fn lemma_locks_run(locks: Seq<clh_lock>, events: Seq<LockEvent>, k: int)
    requires
        follows_events(locks, events),
        locks[0].waiters() == Seq::<usize>::empty(),
        0 <= k <= events.len(),
    ensures
        locks[k].waiters() == run_events(events.subrange(0, k)),
    decreases k,
{
    if k == 0 {
        assert(events.subrange(0, 0) =~= Seq::<LockEvent>::empty());
    } else {
        lemma_locks_run(locks, events, k - 1);
        let j = k - 1;
        assert(locks[j + 1].waiters() == lock_step(locks[j].waiters(), events[j]));
        let pre = events.subrange(0, k);
        assert(pre.drop_last() =~= events.subrange(0, k - 1));
        assert(pre.last() == events[j]);
    }
}

/// Lock fairness over lock states: when a free lock goes through `acquire`s and
/// `release`s as `events` say, the cores waiting at the end are exactly the arrivals not
/// yet released, in arrival order, so the k-th grant goes to the k-th core that arrived.
pub proof fn lemma_lock_states_grant_in_order(locks: Seq<clh_lock>, events: Seq<LockEvent>)
    requires
        follows_events(locks, events),
        locks[0].waiters() == Seq::<usize>::empty(),
        valid_run(events),
    ensures
        locks[events.len() as int].waiters() == arrivals(events).subrange(
            releases(events) as int,
            arrivals(events).len() as int,
        ),
        locks[events.len() as int].holder() == if releases(events) < arrivals(events).len() {
            Some(arrivals(events)[releases(events) as int])
        } else {
            None::<usize>
        },
{
    lemma_locks_run(locks, events, events.len() as int);
    assert(events.subrange(0, events.len() as int) =~= events);
    lemma_grant_order_is_arrival_order(events);
}

} // verus!
