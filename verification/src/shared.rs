//! The pool and the cursor as concurrent tasks share them: every flag and the
//! ticket counter is a single atomic word, read and written without locks.
//!
//! Another task may write a flag between any two steps here, so nothing is
//! promised about the value that a read returns. What is decided on a value
//! read is decided by the functions of the router and the prober, whose
//! contracts cover every value.

use std::sync::atomic::{AtomicBool, AtomicUsize, Ordering};
use vstd::prelude::*;
use crate::cursor::candidate_index;
use crate::probe::{classify, outcome_is_healthy, transition, ProbeOutcome, Transition};
use crate::router::{after_connect, Attempt, Router, Verdict};

verus! {

/// One backend of a shared pool.
pub struct SharedBackend {
    addr: String,
    healthy: AtomicBool,
}

/// A pool shared by reference among the connection handlers and the prober.
/// Addresses and their order never change; only the flags do.
pub struct SharedRegistry {
    backends: Vec<SharedBackend>,
}

impl SharedRegistry {
    /// The addresses, in pool order.
    pub closed spec fn addresses(&self) -> Seq<Seq<char>> {
        Seq::new(self.backends@.len(), |i: int| self.backends@[i].addr@)
    }

    /// Builds the pool from its addresses, every backend flagged healthy.
    /// An empty pool is refused.
    pub fn new(addrs: Vec<String>) -> (registry: Option<SharedRegistry>)
        ensures
            registry is None <==> addrs@.len() == 0,
            registry matches Some(r) ==> r.addresses() == Seq::new(
                addrs@.len(),
                |i: int| addrs@[i]@,
            ),
    {
        if addrs.len() == 0 {
            return None;
        }
        let mut backends: Vec<SharedBackend> = Vec::new();
        let mut i: usize = 0;
        while i < addrs.len()
            invariant
                i <= addrs@.len(),
                backends@.len() == i,
                forall|k: int| 0 <= k < i ==> (#[trigger] backends@[k]).addr@ == addrs@[k]@,
            decreases addrs@.len() - i,
        {
            backends.push(SharedBackend { addr: addrs[i].clone(), healthy: AtomicBool::new(true) });
            i = i + 1;
        }
        let r = SharedRegistry { backends };
        assert(r.addresses() =~= Seq::new(addrs@.len(), |i: int| addrs@[i]@));
        Some(r)
    }

    /// The number of backends.
    pub fn len(&self) -> (n: usize)
        ensures
            n == self.addresses().len(),
    {
        self.backends.len()
    }

    /// The address of the backend at `index`.
    pub fn address(&self, index: usize) -> (addr: &String)
        requires
            index < self.addresses().len(),
        ensures
            addr@ == self.addresses()[index as int],
    {
        &self.backends[index].addr
    }

    /// Reads the liveness flag of the backend at `index`, as it is at this
    /// moment.
    pub fn is_healthy(&self, index: usize) -> (healthy: bool)
        requires
            index < self.addresses().len(),
    {
        self.backends[index].healthy.load(Ordering::Relaxed)
    }

    /// Writes the liveness flag of the backend at `index` and returns the
    /// value it replaced, in one atomic step.
    pub fn set_healthy(&self, index: usize, healthy: bool) -> (previous: bool)
        requires
            index < self.addresses().len(),
    {
        self.backends[index].healthy.swap(healthy, Ordering::Relaxed)
    }
}

/// A ticket counter shared among the connection handlers. No two calls get
/// the same ticket until the counter wraps.
pub struct SharedCursor {
    ticket: AtomicUsize,
}

impl SharedCursor {
    /// A cursor whose first ticket is zero.
    pub fn new() -> (cursor: SharedCursor) {
        SharedCursor { ticket: AtomicUsize::new(0) }
    }

    /// Takes the next ticket, in one atomic step.
    pub fn take_ticket(&self) -> (ticket: usize) {
        self.ticket.fetch_add(1, Ordering::Relaxed)
    }

    /// The next candidate index for a pool of `pool_size` backends.
    pub fn next(&self, pool_size: usize) -> (index: usize)
        requires
            pool_size > 0,
        ensures
            index < pool_size,
    {
        let ticket: usize = self.take_ticket();
        candidate_index(ticket, pool_size)
    }
}

/// Uses up attempts of `router` until a candidate is found whose flag reads
/// healthy: the backend to connect to next. `None` means that every attempt
/// is used up.
pub fn next_candidate(
    registry: &SharedRegistry,
    cursor: &SharedCursor,
    router: &mut Router,
) -> (candidate: Option<usize>)
    requires
        old(router).wf(),
        old(router).pool_size() == registry.addresses().len(),
    ensures
        final(router).wf(),
        final(router).pool_size() == old(router).pool_size(),
        match candidate {
            Some(index) => {
                &&& index < registry.addresses().len()
                &&& final(router).attempts() > old(router).attempts()
            },
            None => final(router).attempts() == final(router).pool_size(),
        },
{
    let total: usize = registry.len();
    while !router.exhausted()
        invariant
            router.wf(),
            router.pool_size() == total,
            router.pool_size() == old(router).pool_size(),
            total == registry.addresses().len(),
            router.attempts() >= old(router).attempts(),
        decreases total - router.attempts(),
    {
        let index: usize = cursor.next(total);
        let healthy: bool = registry.is_healthy(index);
        match router.attempt(index, healthy) {
            Attempt::Skip(_) => {},
            Attempt::Connect(candidate) => {
                return Some(candidate);
            },
        }
    }
    None
}

/// Settles the connect attempt on the backend at `index`: after a failed
/// connect its flag is cleared at once.
pub fn settle(registry: &SharedRegistry, index: usize, connected: bool) -> (verdict: Verdict)
    requires
        index < registry.addresses().len(),
    ensures
        verdict == (if connected {
            Verdict::Relay(index)
        } else {
            Verdict::MarkDown(index)
        }),
{
    let verdict = after_connect(index, connected);
    match verdict {
        Verdict::Relay(_) => {},
        Verdict::MarkDown(refused) => {
            registry.set_healthy(refused, false);
        },
    }
    verdict
}

/// Writes what a probe of the backend at `index` came to into its flag and
/// reports the transition from the value that the write replaced. A healthy
/// outcome never reports `Down`, an unhealthy one never `Up`.
pub fn observe(registry: &SharedRegistry, index: usize, outcome: &ProbeOutcome) -> (change:
    Transition)
    requires
        index < registry.addresses().len(),
    ensures
        outcome_is_healthy(*outcome) ==> change != Transition::Down,
        !outcome_is_healthy(*outcome) ==> change != Transition::Up,
{
    let healthy: bool = classify(outcome);
    let previous: bool = registry.set_healthy(index, healthy);
    transition(previous, healthy)
}

} // verus!
