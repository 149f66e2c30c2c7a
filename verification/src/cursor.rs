//! The rotation cursor: a counter of tickets, reduced modulo the pool size.

use vstd::prelude::*;

verus! {

/// The ticket that follows `ticket`: one more, wrapping to zero at the top of
/// the machine word.
pub open spec fn next_ticket(ticket: usize) -> usize {
    if ticket == usize::MAX {
        0
    } else {
        (ticket + 1) as usize
    }
}

/// The pool slot that a ticket falls on.
pub open spec fn slot_of(ticket: usize, pool_size: nat) -> int
    recommends
        pool_size > 0,
{
    slot_at(ticket, 0, pool_size)
}

/// The pool slot of the ticket that lies `offset` tickets after `ticket`,
/// counted without wrapping.
pub open spec fn slot_at(ticket: usize, offset: int, pool_size: nat) -> int
    recommends
        pool_size > 0,
{
    (ticket + offset) % (pool_size as int)
}

/// Reduces a raw ticket to an index into a pool of `pool_size` backends.
pub fn candidate_index(ticket: usize, pool_size: usize) -> (index: usize)
    requires
        pool_size > 0,
    ensures
        index == slot_of(ticket, pool_size as nat),
        index < pool_size,
{
    ticket % pool_size
}

/// A counter that hands out each ticket once.
pub struct Cursor {
    ticket: usize,
}

impl Cursor {
    /// The ticket that the next call of `take_ticket` returns.
    pub closed spec fn ticket(&self) -> usize {
        self.ticket
    }

    /// A cursor whose first ticket is zero.
    pub fn new() -> (cursor: Cursor)
        ensures
            cursor.ticket() == 0,
    {
        Cursor { ticket: 0 }
    }

    /// A cursor whose first ticket is `ticket`.
    pub fn starting_at(ticket: usize) -> (cursor: Cursor)
        ensures
            cursor.ticket() == ticket,
    {
        Cursor { ticket }
    }

    /// The ticket that would be handed out next, without taking it.
    pub fn peek(&self) -> (ticket: usize)
        ensures
            ticket == self.ticket(),
    {
        self.ticket
    }

    /// Hands out the current ticket and moves on to the following one.
    pub fn take_ticket(&mut self) -> (ticket: usize)
        ensures
            ticket == old(self).ticket(),
            final(self).ticket() == next_ticket(old(self).ticket()),
    {
        let ticket: usize = self.ticket;
        self.ticket = ticket.wrapping_add(1);
        ticket
    }

    /// The next candidate index for a pool of `pool_size` backends.
    pub fn next(&mut self, pool_size: usize) -> (index: usize)
        requires
            pool_size > 0,
        ensures
            index == slot_of(old(self).ticket(), pool_size as nat),
            index < pool_size,
            final(self).ticket() == next_ticket(old(self).ticket()),
    {
        let ticket: usize = self.take_ticket();
        candidate_index(ticket, pool_size)
    }
}

} // verus!
