//! What holds of routing over the whole pool: rotation, failover, exhaustion
//! and recovery, each proved from the routing model.

use vstd::prelude::*;
use vstd::arithmetic::div_mod::{
    lemma_add_mod_noop_right, lemma_basic_div, lemma_div_is_ordered, lemma_fundamental_div_mod,
    lemma_fundamental_div_mod_converse, lemma_mod_bound, lemma_mod_equivalence,
    lemma_mod_multiples_vanish, lemma_small_mod,
};
use crate::cursor::{next_ticket, slot_at, slot_of};
use crate::router::{route_model, usable};

verus! {

/// Whether one of the `k` tickets from `ticket` on falls on `slot`.
pub open spec fn passed_over(ticket: usize, k: nat, pool_size: nat, slot: int) -> bool {
    exists|j: int| 0 <= j < k && #[trigger] slot_at(ticket, j, pool_size) == slot
}

/// The backends chosen by `count` routing decisions made one after another,
/// each starting from the flags and the ticket that the one before left.
pub open spec fn decisions(
    flags: Seq<bool>,
    reachable: Seq<bool>,
    ticket: usize,
    count: nat,
) -> Seq<Option<int>>
    decreases count,
{
    if count == 0 {
        Seq::empty()
    } else {
        let first = route_model(flags, reachable, ticket, flags.len());
        seq![first.chosen] + decisions(first.flags, reachable, first.ticket, (count - 1) as nat)
    }
}

/// Every ticket falls on a slot of the pool.
pub proof fn slot_in_pool(ticket: usize, offset: int, pool_size: nat)
    requires
        pool_size > 0,
    ensures
        0 <= slot_at(ticket, offset, pool_size) < pool_size,
{
    lemma_mod_bound(ticket + offset, pool_size as int);
}

proof fn passed_over_step(ticket: usize, k: nat, pool_size: nat, slot: int)
    requires
        k > 0,
        ticket < usize::MAX,
    ensures
        passed_over(ticket, k, pool_size, slot) <==> (slot_at(ticket, 0, pool_size) == slot
            || passed_over(next_ticket(ticket), (k - 1) as nat, pool_size, slot)),
{
    let next = next_ticket(ticket);
    if passed_over(ticket, k, pool_size, slot) {
        let j = choose|j: int| 0 <= j < k && #[trigger] slot_at(ticket, j, pool_size) == slot;
        if j > 0 {
            assert(slot_at(next, j - 1, pool_size) == slot);
        }
    }
    if passed_over(next, (k - 1) as nat, pool_size, slot) {
        let j = choose|j: int| 0 <= j < k - 1 && #[trigger] slot_at(next, j, pool_size) == slot;
        assert(slot_at(ticket, j + 1, pool_size) == slot);
    }
}

/// Routing chooses the first backend in rotation order that is flagged
/// healthy and reachable, provided it comes within the attempts allowed and
/// the ticket counter does not wrap on the way. The cursor then stands just
/// behind the ticket that chose it, and exactly the flags of the backends
/// passed on the way are down that were not down before: those that were
/// flagged healthy and refused the connect.
pub proof fn first_usable_is_chosen(
    flags: Seq<bool>,
    reachable: Seq<bool>,
    ticket: usize,
    attempts: nat,
    k: nat,
)
    requires
        flags.len() > 0,
        reachable.len() == flags.len(),
        k < attempts,
        ticket + k < usize::MAX,
        forall|j: int|
            0 <= j < k ==> !usable(flags, reachable, #[trigger] slot_at(ticket, j, flags.len())),
        usable(flags, reachable, slot_at(ticket, k as int, flags.len())),
    ensures
        ({
            let outcome = route_model(flags, reachable, ticket, attempts);
            &&& outcome.chosen == Some(slot_at(ticket, k as int, flags.len()))
            &&& outcome.ticket == ticket + k + 1
            &&& outcome.flags.len() == flags.len()
            &&& forall|i: int|
                0 <= i < flags.len() ==> #[trigger] outcome.flags[i] == (flags[i] && !passed_over(
                    ticket,
                    k,
                    flags.len(),
                    i,
                ))
        }),
    decreases k,
{
    let n = flags.len();
    let slot = slot_at(ticket, 0, n);
    slot_in_pool(ticket, 0, n);
    if k == 0 {
    } else {
        let next = next_ticket(ticket);
        assert(!usable(flags, reachable, slot));
        let flags1 = if flags[slot] {
            flags.update(slot, false)
        } else {
            flags
        };
        assert(route_model(flags, reachable, ticket, attempts) == route_model(
            flags1,
            reachable,
            next,
            (attempts - 1) as nat,
        ));
        assert forall|j: int| 0 <= j < k - 1 implies !usable(
            flags1,
            reachable,
            #[trigger] slot_at(next, j, n),
        ) by {
            assert(slot_at(next, j, n) == slot_at(ticket, j + 1, n));
            slot_in_pool(ticket, j + 1, n);
        }
        assert(slot_at(next, k - 1, n) == slot_at(ticket, k as int, n));
        slot_in_pool(ticket, k as int, n);
        first_usable_is_chosen(flags1, reachable, next, (attempts - 1) as nat, (k - 1) as nat);
        let outcome = route_model(flags, reachable, ticket, attempts);
        assert forall|i: int| 0 <= i < n implies #[trigger] outcome.flags[i] == (flags[i]
            && !passed_over(ticket, k, n, i)) by {
            passed_over_step(ticket, k, n, i);
        }
    }
}

/// One round of tickets reaches every slot of the pool: the offset returned
/// is that of a ticket, among the first `pool_size` from `ticket` on, that
/// falls on `slot`.
pub proof fn rotation_covers_pool(ticket: usize, pool_size: nat, slot: int) -> (offset: nat)
    requires
        pool_size > 0,
        0 <= slot < pool_size,
    ensures
        offset < pool_size,
        slot_at(ticket, offset as int, pool_size) == slot,
{
    let n = pool_size as int;
    lemma_mod_bound(slot - ticket, n);
    lemma_add_mod_noop_right(ticket as int, slot - ticket, n);
    lemma_small_mod(slot as nat, pool_size);
    ((slot - ticket) % n) as nat
}

proof fn first_usable_offset(flags: Seq<bool>, reachable: Seq<bool>, ticket: usize, j: nat) -> (k:
    nat)
    requires
        usable(flags, reachable, slot_at(ticket, j as int, flags.len())),
    ensures
        k <= j,
        usable(flags, reachable, slot_at(ticket, k as int, flags.len())),
        forall|m: int|
            0 <= m < k ==> !usable(flags, reachable, #[trigger] slot_at(ticket, m, flags.len())),
    decreases j,
{
    if exists|m: int|
        0 <= m < j && usable(flags, reachable, #[trigger] slot_at(ticket, m, flags.len())) {
        let m = choose|m: int|
            0 <= m < j && usable(flags, reachable, #[trigger] slot_at(ticket, m, flags.len()));
        first_usable_offset(flags, reachable, ticket, m as nat)
    } else {
        j
    }
}

/// Whatever the ticket and the number of attempts: a backend that is chosen
/// was flagged healthy and is reachable, and keeps its flag. No flag comes
/// up, and the only flags that go down are those of backends that were
/// flagged healthy and are not reachable.
pub proof fn route_only_clears_refusing_flags(
    flags: Seq<bool>,
    reachable: Seq<bool>,
    ticket: usize,
    attempts: nat,
)
    requires
        flags.len() > 0,
        reachable.len() == flags.len(),
    ensures
        ({
            let outcome = route_model(flags, reachable, ticket, attempts);
            &&& outcome.flags.len() == flags.len()
            &&& forall|i: int|
                0 <= i < flags.len() ==> (#[trigger] outcome.flags[i] == flags[i] || (flags[i]
                    && !reachable[i] && !outcome.flags[i]))
            &&& outcome.chosen matches Some(i) ==> {
                &&& 0 <= i < flags.len()
                &&& usable(flags, reachable, i)
                &&& outcome.flags[i]
            }
        }),
    decreases attempts,
{
    if attempts > 0 {
        let n = flags.len();
        let slot = slot_of(ticket, n);
        slot_in_pool(ticket, 0, n);
        if !flags[slot] {
            route_only_clears_refusing_flags(
                flags,
                reachable,
                next_ticket(ticket),
                (attempts - 1) as nat,
            );
        } else if !reachable[slot] {
            route_only_clears_refusing_flags(
                flags.update(slot, false),
                reachable,
                next_ticket(ticket),
                (attempts - 1) as nat,
            );
        }
    }
}

/// When success is owed: with one attempt for each backend and no wrap of
/// the ticket counter on the way, routing succeeds if and only if some
/// backend is both flagged healthy and reachable.
pub proof fn route_succeeds_iff_some_backend_usable(
    flags: Seq<bool>,
    reachable: Seq<bool>,
    ticket: usize,
)
    requires
        flags.len() > 0,
        reachable.len() == flags.len(),
        ticket + flags.len() <= usize::MAX,
    ensures
        route_model(flags, reachable, ticket, flags.len()).chosen is Some <==> exists|i: int|
            0 <= i < flags.len() && #[trigger] usable(flags, reachable, i),
{
    let n = flags.len();
    if exists|i: int| 0 <= i < n && #[trigger] usable(flags, reachable, i) {
        let i = choose|i: int| 0 <= i < n && #[trigger] usable(flags, reachable, i);
        let j = rotation_covers_pool(ticket, n, i);
        let k = first_usable_offset(flags, reachable, ticket, j);
        first_usable_is_chosen(flags, reachable, ticket, n, k);
    } else {
        no_usable_backend_fails(flags, reachable, ticket, n);
    }
}

/// Failover: when the rotation falls on a backend that is flagged healthy but
/// refuses the connect, the connection lands on the next backend in rotation
/// order that is flagged healthy and reachable, and the flag of the backend
/// that refused is down afterwards.
pub proof fn failover_lands_on_next_usable(
    flags: Seq<bool>,
    reachable: Seq<bool>,
    ticket: usize,
    k: nat,
)
    requires
        flags.len() > 0,
        reachable.len() == flags.len(),
        flags[slot_of(ticket, flags.len())],
        !reachable[slot_of(ticket, flags.len())],
        0 < k < flags.len(),
        ticket + k < usize::MAX,
        forall|j: int|
            0 < j < k ==> !usable(flags, reachable, #[trigger] slot_at(ticket, j, flags.len())),
        usable(flags, reachable, slot_at(ticket, k as int, flags.len())),
    ensures
        ({
            let outcome = route_model(flags, reachable, ticket, flags.len());
            &&& outcome.chosen == Some(slot_at(ticket, k as int, flags.len()))
            &&& !outcome.flags[slot_of(ticket, flags.len())]
            &&& outcome.flags[slot_at(ticket, k as int, flags.len())]
        }),
{
    let n = flags.len();
    slot_in_pool(ticket, 0, n);
    slot_in_pool(ticket, k as int, n);
    first_usable_is_chosen(flags, reachable, ticket, n, k);
    let chosen = slot_at(ticket, k as int, n);
    assert(passed_over(ticket, k, n, slot_at(ticket, 0, n)));
    if passed_over(ticket, k, n, chosen) {
        let j = choose|j: int| 0 <= j < k && #[trigger] slot_at(ticket, j, n) == chosen;
        assert(!usable(flags, reachable, slot_at(ticket, j, n)));
    }
}

/// With every backend flagged healthy and reachable, a routing decision takes
/// the slot of the current ticket, changes no flag and advances the cursor by
/// one ticket.
pub proof fn healthy_pool_takes_rotation_slot(
    flags: Seq<bool>,
    reachable: Seq<bool>,
    ticket: usize,
)
    requires
        flags.len() > 0,
        reachable.len() == flags.len(),
        forall|i: int| 0 <= i < flags.len() ==> #[trigger] usable(flags, reachable, i),
    ensures
        ({
            let outcome = route_model(flags, reachable, ticket, flags.len());
            &&& outcome.chosen == Some(slot_of(ticket, flags.len()))
            &&& outcome.flags == flags
            &&& outcome.ticket == next_ticket(ticket)
        }),
{
    slot_in_pool(ticket, 0, flags.len());
    assert(usable(flags, reachable, slot_of(ticket, flags.len())));
}

/// Round-robin order: with every backend flagged healthy and reachable, and
/// no wrap of the ticket counter, the decisions made one after another choose
/// the backends in cyclic order, starting at the slot of the first ticket.
pub proof fn healthy_pool_rotates_in_cyclic_order(
    flags: Seq<bool>,
    reachable: Seq<bool>,
    ticket: usize,
    count: nat,
)
    requires
        flags.len() > 0,
        reachable.len() == flags.len(),
        forall|i: int| 0 <= i < flags.len() ==> #[trigger] usable(flags, reachable, i),
        ticket + count <= usize::MAX,
    ensures
        decisions(flags, reachable, ticket, count).len() == count,
        forall|k: int|
            0 <= k < count ==> #[trigger] decisions(flags, reachable, ticket, count)[k] == Some(
                slot_at(ticket, k, flags.len()),
            ),
    decreases count,
{
    if count > 0 {
        let n = flags.len();
        healthy_pool_takes_rotation_slot(flags, reachable, ticket);
        let next = next_ticket(ticket);
        healthy_pool_rotates_in_cyclic_order(flags, reachable, next, (count - 1) as nat);
        let rest = decisions(flags, reachable, next, (count - 1) as nat);
        let all = decisions(flags, reachable, ticket, count);
        assert(all == seq![Some(slot_of(ticket, n))] + rest);
        assert forall|k: int| 0 <= k < count implies #[trigger] all[k] == Some(
            slot_at(ticket, k, n),
        ) by {
            if k > 0 {
                assert(all[k] == rest[k - 1]);
                assert(slot_at(next, k - 1, n) == slot_at(ticket, k, n));
            }
        }
    }
}

/// How many of the first `count` tickets from `ticket` on fall on `backend`.
pub open spec fn times_hit(ticket: usize, count: nat, pool_size: nat, backend: int) -> nat
    decreases count,
{
    if count == 0 {
        0
    } else {
        times_hit(ticket, (count - 1) as nat, pool_size, backend) + if slot_at(
            ticket,
            count - 1,
            pool_size,
        ) == backend {
            1nat
        } else {
            0nat
        }
    }
}

/// How often `backend` occurs in `choices`.
pub open spec fn times_chosen(choices: Seq<Option<int>>, backend: int) -> nat
    decreases choices.len(),
{
    if choices.len() == 0 {
        0
    } else {
        times_chosen(choices.drop_last(), backend) + if choices.last() == Some(backend) {
            1nat
        } else {
            0nat
        }
    }
}

proof fn times_hit_closed_form(ticket: usize, count: nat, pool_size: nat, backend: int)
    requires
        pool_size > 0,
        0 <= backend < pool_size,
    ensures
        times_hit(ticket, count, pool_size, backend) == (count + pool_size - 1 - (backend - ticket)
            % (pool_size as int)) / (pool_size as int),
    decreases count,
{
    let n = pool_size as int;
    let d = (backend - ticket) % n;
    lemma_mod_bound(backend - ticket, n);
    if count == 0 {
        lemma_basic_div(n - 1 - d, n);
    } else {
        times_hit_closed_form(ticket, (count - 1) as nat, pool_size, backend);
        let x = count - 1 + n - 1 - d;
        let q = x / n;
        let r = x % n;
        lemma_fundamental_div_mod(x, n);
        lemma_mod_bound(x, n);
        let y = ticket + (count - 1) - backend;
        let qd = (backend - ticket) / n;
        lemma_fundamental_div_mod(backend - ticket, n);
        assert(n * (qd + 1) == n * qd + n) by (nonlinear_arith);
        assert(x + 1 == n * (qd + 1) + y);
        lemma_mod_multiples_vanish(qd + 1, y, n);
        assert((x + 1) % n == y % n);
        lemma_mod_equivalence(ticket + (count - 1), backend, n);
        lemma_small_mod(backend as nat, pool_size);
        if r == n - 1 {
            assert(x + 1 == (q + 1) * n + 0) by (nonlinear_arith)
                requires
                    x == n * q + r,
                    r == n - 1,
            ;
            lemma_fundamental_div_mod_converse(x + 1, n, q + 1, 0);
        } else {
            assert(x + 1 == q * n + (r + 1)) by (nonlinear_arith)
                requires
                    x == n * q + r,
            ;
            lemma_fundamental_div_mod_converse(x + 1, n, q, r + 1);
        }
    }
}

proof fn times_chosen_in_rotation(
    choices: Seq<Option<int>>,
    ticket: usize,
    pool_size: nat,
    backend: int,
)
    requires
        forall|k: int|
            0 <= k < choices.len() ==> #[trigger] choices[k] == Some(
                slot_at(ticket, k, pool_size),
            ),
    ensures
        times_chosen(choices, backend) == times_hit(ticket, choices.len(), pool_size, backend),
    decreases choices.len(),
{
    if choices.len() > 0 {
        let front = choices.drop_last();
        assert forall|k: int| 0 <= k < front.len() implies #[trigger] front[k] == Some(
            slot_at(ticket, k, pool_size),
        ) by {
            assert(front[k] == choices[k]);
        }
        times_chosen_in_rotation(front, ticket, pool_size, backend);
        assert(choices.last() == choices[choices.len() - 1]);
    }
}

/// Round-robin fairness: with every backend flagged healthy and reachable,
/// and no wrap of the ticket counter, `count` decisions made one after
/// another choose each backend either the quotient of `count` by the pool
/// size, rounded down, or that quotient rounded up, times.
pub proof fn healthy_pool_is_fair(
    flags: Seq<bool>,
    reachable: Seq<bool>,
    ticket: usize,
    count: nat,
    backend: int,
)
    requires
        flags.len() > 0,
        reachable.len() == flags.len(),
        forall|i: int| 0 <= i < flags.len() ==> #[trigger] usable(flags, reachable, i),
        ticket + count <= usize::MAX,
        0 <= backend < flags.len(),
    ensures
        count as int / flags.len() as int <= times_chosen(
            decisions(flags, reachable, ticket, count),
            backend,
        ) <= (count + flags.len() - 1) / (flags.len() as int),
{
    let n = flags.len() as int;
    let choices = decisions(flags, reachable, ticket, count);
    healthy_pool_rotates_in_cyclic_order(flags, reachable, ticket, count);
    times_chosen_in_rotation(choices, ticket, flags.len(), backend);
    times_hit_closed_form(ticket, count, flags.len(), backend);
    let d = (backend - ticket) % n;
    lemma_mod_bound(backend - ticket, n);
    lemma_div_is_ordered(count as int, count + n - 1 - d, n);
    lemma_div_is_ordered(count + n - 1 - d, count + n - 1, n);
}

/// Exhaustion: when no backend is both flagged healthy and reachable, routing
/// fails, however many attempts it has. No flag comes up, and a backend that
/// was reachable keeps its flag.
pub proof fn no_usable_backend_fails(
    flags: Seq<bool>,
    reachable: Seq<bool>,
    ticket: usize,
    attempts: nat,
)
    requires
        flags.len() > 0,
        reachable.len() == flags.len(),
        forall|i: int| 0 <= i < flags.len() ==> !#[trigger] usable(flags, reachable, i),
    ensures
        ({
            let outcome = route_model(flags, reachable, ticket, attempts);
            &&& outcome.chosen is None
            &&& outcome.flags.len() == flags.len()
            &&& forall|i: int|
                0 <= i < flags.len() ==> (#[trigger] outcome.flags[i] ==> flags[i])
            &&& forall|i: int|
                0 <= i < flags.len() && !flags[i] ==> !#[trigger] outcome.flags[i]
        }),
    decreases attempts,
{
    if attempts > 0 {
        let n = flags.len();
        let slot = slot_of(ticket, n);
        slot_in_pool(ticket, 0, n);
        assert(!usable(flags, reachable, slot));
        let flags1 = if flags[slot] {
            flags.update(slot, false)
        } else {
            flags
        };
        assert forall|i: int| 0 <= i < n implies !#[trigger] usable(flags1, reachable, i) by {
            assert(!usable(flags, reachable, i));
        }
        no_usable_backend_fails(flags1, reachable, next_ticket(ticket), (attempts - 1) as nat);
    }
}

/// With every backend flagged unhealthy, routing fails without a single
/// connect: the flags stay as they are.
pub proof fn all_flagged_down_fails(
    flags: Seq<bool>,
    reachable: Seq<bool>,
    ticket: usize,
    attempts: nat,
)
    requires
        flags.len() > 0,
        reachable.len() == flags.len(),
        forall|i: int| 0 <= i < flags.len() ==> !#[trigger] flags[i],
    ensures
        route_model(flags, reachable, ticket, attempts).chosen is None,
        route_model(flags, reachable, ticket, attempts).flags == flags,
    decreases attempts,
{
    if attempts > 0 {
        slot_in_pool(ticket, 0, flags.len());
        all_flagged_down_fails(flags, reachable, next_ticket(ticket), (attempts - 1) as nat);
    }
}

/// Recovery: once a probe has set the flag of a reachable backend, a routing
/// decision whose ticket falls on that backend chooses it.
pub proof fn recovered_backend_is_selected(
    flags: Seq<bool>,
    reachable: Seq<bool>,
    ticket: usize,
    backend: int,
)
    requires
        flags.len() > 0,
        reachable.len() == flags.len(),
        0 <= backend < flags.len(),
        reachable[backend],
        slot_of(ticket, flags.len()) == backend,
    ensures
        route_model(flags.update(backend, true), reachable, ticket, flags.len()).chosen == Some(
            backend,
        ),
{
}

} // verus!
