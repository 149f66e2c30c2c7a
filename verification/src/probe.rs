//! The health prober's decisions: the probe exchange, the classification of
//! what came back, the flag update with its transition, and the order of a
//! sweep.

use vstd::prelude::*;
use crate::registry::Registry;

verus! {

/// The size of the buffer that a probe response is read into.
pub const PROBE_BUFFER_LEN: usize = 16;

/// The usual pause between two sweeps, in seconds.
pub const PROBE_INTERVAL_SECS: u64 = 1;

/// The bytes of the probe request: `HEALTH` and a line feed.
pub open spec fn request_bytes() -> Seq<u8> {
    seq![72u8, 69u8, 65u8, 76u8, 84u8, 72u8, 10u8]
}

/// The bytes of the one response that counts as healthy: `OK` and a line feed.
pub open spec fn ack_bytes() -> Seq<u8> {
    seq![79u8, 75u8, 10u8]
}

/// The request to write on a fresh probe connection.
pub fn probe_request() -> (request: Vec<u8>)
    ensures
        request@ == request_bytes(),
{
    let request: Vec<u8> = vec![72u8, 69u8, 65u8, 76u8, 84u8, 72u8, 10u8];
    assert(request@ =~= request_bytes());
    request
}

/// Whether `response` is exactly the acknowledgment.
pub fn is_ack(response: &[u8]) -> (ack: bool)
    ensures
        ack == (response@ == ack_bytes()),
{
    if response.len() != 3 {
        return false;
    }
    let ack: bool = response[0] == 79u8 && response[1] == 75u8 && response[2] == 10u8;
    proof {
        if ack {
            assert(response@ =~= ack_bytes());
        }
    }
    ack
}

/// How one probe exchange ended.
pub enum ProbeOutcome {
    /// The connection could not be opened in time.
    ConnectFailed,
    /// The request could not be written.
    WriteFailed,
    /// The response could not be read.
    ReadFailed,
    /// The bytes of the first read, possibly none.
    Response(Vec<u8>),
}

/// A backend is healthy exactly when its response is the acknowledgment.
pub open spec fn outcome_is_healthy(outcome: ProbeOutcome) -> bool {
    match outcome {
        ProbeOutcome::Response(bytes) => bytes@ == ack_bytes(),
        _ => false,
    }
}

/// Classifies a probe exchange.
pub fn classify(outcome: &ProbeOutcome) -> (healthy: bool)
    ensures
        healthy == outcome_is_healthy(*outcome),
{
    match outcome {
        ProbeOutcome::Response(bytes) => is_ack(bytes.as_slice()),
        _ => false,
    }
}

/// A change of a liveness flag.
#[derive(Debug, Clone, Copy, PartialEq, Eq, Structural)]
pub enum Transition {
    /// The flag keeps its value: nothing to report.
    Unchanged,
    /// Down before, up now.
    Up,
    /// Up before, down now.
    Down,
}

/// The transition from flag value `previous` to `observed`.
pub open spec fn transition_of(previous: bool, observed: bool) -> Transition {
    if previous == observed {
        Transition::Unchanged
    } else if observed {
        Transition::Up
    } else {
        Transition::Down
    }
}

/// Compares a flag's previous value with the one just observed.
pub fn transition(previous: bool, observed: bool) -> (change: Transition)
    ensures
        change == transition_of(previous, observed),
{
    if previous == observed {
        Transition::Unchanged
    } else if observed {
        Transition::Up
    } else {
        Transition::Down
    }
}

/// Writes what a probe observed into the flag of the backend at `index` and
/// reports the transition, if the flag changed.
pub fn record(registry: &mut Registry, index: usize, observed: bool) -> (transition: Transition)
    requires
        index < old(registry).flags().len(),
    ensures
        final(registry).flags() == old(registry).flags().update(index as int, observed),
        final(registry).addresses() == old(registry).addresses(),
        final(registry).wf() == old(registry).wf(),
        transition == transition_of(old(registry).flags()[index as int], observed),
{
    let previous: bool = registry.set_healthy(index, observed);
    transition(previous, observed)
}

/// What the prober does next.
#[derive(Debug, Clone, Copy, PartialEq, Eq, Structural)]
pub enum ProberAction {
    /// Probe the backend at this index.
    Probe(usize),
    /// The sweep is complete: wait this many seconds.
    Sleep(u64),
}

/// The position of the prober within its sweep.
pub struct Prober {
    pool_size: usize,
    interval_secs: u64,
    position: usize,
}

impl Prober {
    /// The size of the pool that is swept.
    pub closed spec fn pool_size(&self) -> usize {
        self.pool_size
    }

    /// The pause between two sweeps, in seconds.
    pub closed spec fn interval_secs(&self) -> u64 {
        self.interval_secs
    }

    /// The index of the next backend to probe in this sweep; the pool size
    /// once every backend has been probed.
    pub closed spec fn position(&self) -> usize {
        self.position
    }

    /// The position never passes the end of the pool.
    pub open spec fn wf(&self) -> bool {
        self.position() <= self.pool_size()
    }

    /// A prober at the start of its first sweep.
    pub fn new(pool_size: usize, interval_secs: u64) -> (prober: Prober)
        ensures
            prober.wf(),
            prober.pool_size() == pool_size,
            prober.interval_secs() == interval_secs,
            prober.position() == 0,
    {
        Prober { pool_size, interval_secs, position: 0 }
    }

    /// The index of the next backend to probe in this sweep.
    pub fn position_now(&self) -> (position: usize)
        ensures
            position == self.position(),
    {
        self.position
    }

    /// The next step of the sweep: the backends one after another in pool
    /// order, then the pause, then the next sweep from the first backend.
    pub fn next_action(&mut self) -> (action: ProberAction)
        requires
            old(self).wf(),
        ensures
            final(self).wf(),
            final(self).pool_size() == old(self).pool_size(),
            final(self).interval_secs() == old(self).interval_secs(),
            old(self).position() < old(self).pool_size() ==> {
                &&& action == ProberAction::Probe(old(self).position())
                &&& final(self).position() == old(self).position() + 1
            },
            old(self).position() == old(self).pool_size() ==> {
                &&& action == ProberAction::Sleep(old(self).interval_secs())
                &&& final(self).position() == 0
            },
    {
        if self.position < self.pool_size {
            let index: usize = self.position;
            self.position = index + 1;
            ProberAction::Probe(index)
        } else {
            self.position = 0;
            ProberAction::Sleep(self.interval_secs)
        }
    }
}

/// The transitions of one sweep in which backend `i` was observed as
/// `observed[i]`, over flags that read `flags` before it.
pub open spec fn sweep_transitions(flags: Seq<bool>, observed: Seq<bool>) -> Seq<Transition> {
    Seq::new(flags.len(), |i: int| transition_of(flags[i], observed[i]))
}

/// One full sweep: every backend in pool order gets the flag that its probe
/// observed. Returns the transition of each backend.
#[verifier::loop_isolation(false)]
pub fn sweep(registry: &mut Registry, observed: &Vec<bool>) -> (transitions: Vec<Transition>)
    requires
        old(registry).wf(),
        observed@.len() == old(registry).flags().len(),
    ensures
        final(registry).wf(),
        final(registry).addresses() == old(registry).addresses(),
        final(registry).flags() == observed@,
        transitions@ == sweep_transitions(old(registry).flags(), observed@),
{
    let total: usize = registry.len();
    let mut prober = Prober::new(total, PROBE_INTERVAL_SECS);
    let mut transitions: Vec<Transition> = Vec::new();
    while prober.position_now() < total
        invariant
            prober.wf(),
            prober.pool_size() == total,
            registry.wf(),
            registry.flags().len() == total,
            registry.addresses() == old(registry).addresses(),
            transitions@.len() == prober.position(),
            forall|k: int|
                0 <= k < prober.position() ==> #[trigger] registry.flags()[k] == observed@[k],
            forall|k: int|
                0 <= k < prober.position() ==> #[trigger] transitions@[k] == transition_of(
                    old(registry).flags()[k],
                    observed@[k],
                ),
            forall|k: int|
                prober.position() <= k < total ==> #[trigger] registry.flags()[k]
                    == old(registry).flags()[k],
        decreases total - prober.position(),
    {
        match prober.next_action() {
            ProberAction::Probe(index) => {
                let transition = record(registry, index, observed[index]);
                transitions.push(transition);
            },
            ProberAction::Sleep(_) => {},
        }
    }
    assert(registry.flags() =~= observed@);
    assert(transitions@ =~= sweep_transitions(old(registry).flags(), observed@));
    transitions
}

} // verus!
