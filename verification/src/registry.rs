//! The backend registry: a fixed, ordered pool of addresses, each with a
//! liveness flag.

use vstd::prelude::*;

verus! {

/// One backend of the pool.
pub struct Backend {
    pub addr: String,
    pub healthy: bool,
}

/// The pool. Addresses and their order never change; only the flags do.
pub struct Registry {
    backends: Vec<Backend>,
}

impl Registry {
    /// The addresses, in pool order.
    pub closed spec fn addresses(&self) -> Seq<Seq<char>> {
        Seq::new(self.backends@.len(), |i: int| self.backends@[i].addr@)
    }

    /// The liveness flags, in pool order.
    pub closed spec fn flags(&self) -> Seq<bool> {
        Seq::new(self.backends@.len(), |i: int| self.backends@[i].healthy)
    }

    /// A registry holds at least one backend, and one flag per address.
    pub closed spec fn wf(&self) -> bool {
        self.backends@.len() > 0
    }

    /// What `wf` means for the two sequences that contracts speak of.
    pub proof fn wf_facts(&self)
        ensures
            self.flags().len() == self.addresses().len(),
            self.wf() <==> self.flags().len() > 0,
    {
    }

    /// Builds the pool from its addresses, every backend flagged healthy.
    /// An empty pool is refused.
    pub fn new(addrs: Vec<String>) -> (registry: Option<Registry>)
        ensures
            registry is None <==> addrs@.len() == 0,
            registry matches Some(r) ==> {
                &&& r.wf()
                &&& r.addresses() == Seq::new(addrs@.len(), |i: int| addrs@[i]@)
                &&& r.flags() == Seq::new(addrs@.len(), |i: int| true)
            },
    {
        if addrs.len() == 0 {
            return None;
        }
        let mut backends: Vec<Backend> = Vec::new();
        let mut i: usize = 0;
        while i < addrs.len()
            invariant
                i <= addrs@.len(),
                backends@.len() == i,
                forall|k: int| 0 <= k < i ==> (#[trigger] backends@[k]).addr@ == addrs@[k]@,
                forall|k: int| 0 <= k < i ==> (#[trigger] backends@[k]).healthy,
            decreases addrs@.len() - i,
        {
            backends.push(Backend { addr: addrs[i].clone(), healthy: true });
            i = i + 1;
        }
        let r = Registry { backends };
        assert(r.addresses() =~= Seq::new(addrs@.len(), |i: int| addrs@[i]@));
        assert(r.flags() =~= Seq::new(addrs@.len(), |i: int| true));
        Some(r)
    }

    /// The number of backends.
    pub fn len(&self) -> (n: usize)
        ensures
            n == self.flags().len(),
            n == self.addresses().len(),
    {
        self.backends.len()
    }

    /// The address of the backend at `index`.
    pub fn address(&self, index: usize) -> (addr: &String)
        requires
            index < self.flags().len(),
        ensures
            addr@ == self.addresses()[index as int],
    {
        &self.backends[index].addr
    }

    /// Reads the liveness flag of the backend at `index`.
    pub fn is_healthy(&self, index: usize) -> (healthy: bool)
        requires
            index < self.flags().len(),
        ensures
            healthy == self.flags()[index as int],
    {
        self.backends[index].healthy
    }

    /// Writes the liveness flag of the backend at `index` and returns the
    /// value it had before.
    pub fn set_healthy(&mut self, index: usize, healthy: bool) -> (previous: bool)
        requires
            index < old(self).flags().len(),
        ensures
            previous == old(self).flags()[index as int],
            final(self).flags() == old(self).flags().update(index as int, healthy),
            final(self).addresses() == old(self).addresses(),
            final(self).wf() == old(self).wf(),
    {
        let previous: bool = self.backends[index].healthy;
        self.backends[index].healthy = healthy;
        assert(self.flags() =~= old(self).flags().update(index as int, healthy));
        assert(self.addresses() =~= old(self).addresses());
        previous
    }
}

} // verus!
