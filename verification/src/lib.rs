//! Routing and health core of a TCP load balancer: a fixed pool of backends
//! with liveness flags, a round-robin rotation cursor, the failover router and
//! the decisions of the periodic health prober.
//!
//! Every decision here is made on plain values. Sockets, timers and tasks
//! belong to the program around the library, which performs the actions these
//! functions decide on and hands back what it observed.
//!
//! The pool and the cursor come in two forms. `registry` and `cursor` hold
//! them for a single owner: there the contracts say exactly what each call
//! returns and changes, and `laws` proves what follows for routing as a
//! whole. `shared` holds them as atomic words for concurrent tasks, and
//! leaves every decision to the same functions of `router` and `probe`.

pub mod cursor;
pub mod registry;
pub mod probe;
pub mod router;
pub mod laws;
pub mod shared;
