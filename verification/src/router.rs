//! The connection router: round-robin selection with failover, bounded by the
//! pool size.

use vstd::prelude::*;
use crate::cursor::{next_ticket, slot_of, Cursor};
use crate::registry::Registry;
use crate::laws::{route_only_clears_refusing_flags, route_succeeds_iff_some_backend_usable};

verus! {

/// Why a connection could not be routed.
#[derive(Debug, Clone, Copy, PartialEq, Eq, Structural)]
pub enum RouteError {
    /// Every attempt was used up without a successful connect.
    NoHealthyBackend,
}

impl RouteError {
    /// The condition in words.
    pub fn message(&self) -> (text: String)
        ensures
            text@ == "No healthy backends available"@,
    {
        "No healthy backends available".to_owned()
    }
}

/// What one attempt decides.
#[derive(Debug, Clone, Copy, PartialEq, Eq, Structural)]
pub enum Attempt {
    /// The candidate is flagged unhealthy: no connect is made.
    Skip(usize),
    /// The candidate is flagged healthy: try to connect to it.
    Connect(usize),
}

/// What follows a connect attempt.
#[derive(Debug, Clone, Copy, PartialEq, Eq, Structural)]
pub enum Verdict {
    /// The connect succeeded: relay between the client and this backend.
    Relay(usize),
    /// The connect failed: clear this backend's flag at once and go on to
    /// the next attempt.
    MarkDown(usize),
}

/// Decides what follows the connect attempt on the backend at `index`. One
/// failed connect is enough to flag the backend down.
pub fn after_connect(index: usize, connected: bool) -> (verdict: Verdict)
    ensures
        verdict == (if connected {
            Verdict::Relay(index)
        } else {
            Verdict::MarkDown(index)
        }),
{
    if connected {
        Verdict::Relay(index)
    } else {
        Verdict::MarkDown(index)
    }
}

/// The attempt counter of one client connection.
pub struct Router {
    pool_size: usize,
    attempts: usize,
}

impl Router {
    /// The size of the pool that is routed over.
    pub closed spec fn pool_size(&self) -> usize {
        self.pool_size
    }

    /// The number of attempts made so far.
    pub closed spec fn attempts(&self) -> usize {
        self.attempts
    }

    /// No more attempts are made than the pool has backends.
    pub open spec fn wf(&self) -> bool {
        self.attempts() <= self.pool_size()
    }

    /// A router for one connection, with no attempt made yet.
    pub fn new(pool_size: usize) -> (router: Router)
        ensures
            router.wf(),
            router.pool_size() == pool_size,
            router.attempts() == 0,
    {
        Router { pool_size, attempts: 0 }
    }

    /// Whether every attempt has been used.
    pub fn exhausted(&self) -> (done: bool)
        requires
            self.wf(),
        ensures
            done == (self.attempts() == self.pool_size()),
    {
        self.attempts >= self.pool_size
    }

    /// Uses one attempt on the candidate at `index`, whose liveness flag read
    /// `healthy`: a flagged-down candidate is skipped, any other is to be
    /// connected to.
    pub fn attempt(&mut self, index: usize, healthy: bool) -> (decision: Attempt)
        requires
            old(self).wf(),
            old(self).attempts() < old(self).pool_size(),
        ensures
            final(self).wf(),
            final(self).pool_size() == old(self).pool_size(),
            final(self).attempts() == old(self).attempts() + 1,
            decision == (if healthy {
                Attempt::Connect(index)
            } else {
                Attempt::Skip(index)
            }),
    {
        self.attempts = self.attempts + 1;
        if healthy {
            Attempt::Connect(index)
        } else {
            Attempt::Skip(index)
        }
    }
}

/// A backend can take a connection when it is flagged healthy and a connect
/// to it succeeds.
pub open spec fn usable(flags: Seq<bool>, reachable: Seq<bool>, slot: int) -> bool {
    flags[slot] && reachable[slot]
}

/// Where one routing decision ends: the backend chosen, if any, and the flags
/// and the cursor as the decision leaves them.
pub ghost struct RouteOutcome {
    pub chosen: Option<int>,
    pub flags: Seq<bool>,
    pub ticket: usize,
}

/// One routing decision over a pool with liveness flags `flags`, where a
/// connect to backend `i` succeeds if and only if `reachable[i]`, starting at
/// `ticket` with `attempts` attempts left.
///
/// Each attempt takes the next ticket. A backend flagged down is passed over.
/// A backend flagged up is connected to: on success it is chosen, on failure
/// its flag is cleared and the next attempt follows.
pub open spec fn route_model(
    flags: Seq<bool>,
    reachable: Seq<bool>,
    ticket: usize,
    attempts: nat,
) -> RouteOutcome
    decreases attempts,
{
    let slot = slot_of(ticket, flags.len());
    if attempts == 0 {
        RouteOutcome { chosen: None, flags, ticket }
    } else if !flags[slot] {
        route_model(flags, reachable, next_ticket(ticket), (attempts - 1) as nat)
    } else if reachable[slot] {
        RouteOutcome { chosen: Some(slot), flags, ticket: next_ticket(ticket) }
    } else {
        route_model(
            flags.update(slot, false),
            reachable,
            next_ticket(ticket),
            (attempts - 1) as nat,
        )
    }
}

/// Routes one connection: at most as many attempts as the pool has backends,
/// each on the next candidate of the rotation. `reachable[i]` tells whether a
/// connect to backend `i` succeeds. Returns the index of the backend that was
/// connected to, or the error when every attempt is used up.
#[verifier::loop_isolation(false)]
pub fn route(registry: &mut Registry, cursor: &mut Cursor, reachable: &Vec<bool>) -> (result:
    Result<usize, RouteError>)
    requires
        old(registry).wf(),
        reachable@.len() == old(registry).flags().len(),
    ensures
        final(registry).wf(),
        final(registry).addresses() == old(registry).addresses(),
        final(registry).flags().len() == old(registry).flags().len(),
        ({
            let model = route_model(
                old(registry).flags(),
                reachable@,
                old(cursor).ticket(),
                old(registry).flags().len(),
            );
            &&& final(registry).flags() == model.flags
            &&& final(cursor).ticket() == model.ticket
            &&& match result {
                Ok(index) => model.chosen == Some(index as int),
                Err(e) => model.chosen is None && e == RouteError::NoHealthyBackend,
            }
        }),
        result matches Ok(index) ==> {
            &&& index < reachable@.len()
            &&& usable(old(registry).flags(), reachable@, index as int)
            &&& final(registry).flags()[index as int]
        },
        forall|i: int|
            0 <= i < reachable@.len() ==> (#[trigger] final(registry).flags()[i]
                == old(registry).flags()[i] || (old(registry).flags()[i] && !reachable@[i]
                && !final(registry).flags()[i])),
        old(cursor).ticket() + reachable@.len() <= usize::MAX ==> (result is Ok <==> exists|i: int|
            0 <= i < reachable@.len() && #[trigger] usable(old(registry).flags(), reachable@, i)),
{
    proof {
        registry.wf_facts();
        route_only_clears_refusing_flags(
            registry.flags(),
            reachable@,
            cursor.ticket(),
            registry.flags().len(),
        );
        if cursor.ticket() + reachable@.len() <= usize::MAX {
            route_succeeds_iff_some_backend_usable(registry.flags(), reachable@, cursor.ticket());
        }
    }
    let total: usize = registry.len();
    let ghost flags0 = registry.flags();
    let ghost ticket0 = cursor.ticket();
    let ghost addresses0 = registry.addresses();
    let mut router = Router::new(total);
    while !router.exhausted()
        invariant
            router.wf(),
            router.pool_size() == total,
            total > 0,
            registry.wf(),
            registry.flags().len() == total,
            reachable@.len() == total,
            registry.addresses() == addresses0,
            route_model(
                registry.flags(),
                reachable@,
                cursor.ticket(),
                (total - router.attempts()) as nat,
            ) == route_model(flags0, reachable@, ticket0, total as nat),
        decreases total - router.attempts(),
    {
        let index: usize = cursor.next(total);
        let healthy: bool = registry.is_healthy(index);
        match router.attempt(index, healthy) {
            Attempt::Skip(_) => {},
            Attempt::Connect(candidate) => {
                match after_connect(candidate, reachable[candidate]) {
                    Verdict::Relay(chosen) => {
                        return Ok(chosen);
                    },
                    Verdict::MarkDown(refused) => {
                        registry.set_healthy(refused, false);
                    },
                }
            },
        }
    }
    Err(RouteError::NoHealthyBackend)
}

} // verus!
