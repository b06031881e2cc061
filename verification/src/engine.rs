use vstd::prelude::*;

use crate::catalog::SymbolCatalog;
use crate::genval::generate_write_value;
use crate::genval::WRITE_VALUE_MAX;

verus! {

/// Where the engine stands inside one poll cycle. `next` is the index of the
/// symbol whose read or write is currently outstanding.
#[derive(Clone, Copy, Debug, PartialEq, Eq)]
pub enum Phase {
    /// Before the readiness report of the device has arrived.
    AwaitReadiness,
    /// The read of `read_symbols[next]` is outstanding.
    Reading { next: usize },
    /// The write of `write_symbols[next]` is outstanding.
    Writing { next: usize },
    /// The inter-cycle sleep is outstanding.
    Sleeping,
    /// A fatal failure was seen; the engine never leaves this phase.
    Stopped,
}

/// What the surrounding process reports back to the engine after it has
/// performed the previously requested action.
#[derive(Clone, Copy, Debug, PartialEq, Eq)]
pub enum Event {
    /// Outcome of the readiness query: whether the device is in its running state.
    StateReported { running: bool },
    /// Outcome of one symbol read; `ok` is false when resolving the handle or
    /// reading through it failed.
    ReadFinished { ok: bool },
    /// Outcome of one symbol write; `ok` is false when resolving the handle or
    /// writing through it failed.
    WriteFinished { ok: bool },
    /// The inter-cycle sleep has elapsed.
    SleepFinished,
}

/// What the engine asks the surrounding process to do next.
#[derive(Debug, PartialEq, Eq)]
pub enum Action {
    /// Query the operational state of the device.
    QueryState,
    /// Resolve a handle for `symbol` and read its current value.
    ReadSymbol { symbol: String },
    /// Resolve a handle for `symbol` and write `value` through it.
    WriteSymbol { symbol: String, value: u32 },
    /// Sleep for `ms` milliseconds.
    Sleep { ms: u64 },
    /// Terminate with a failure indication; no further reads or writes follow.
    Stop,
}

/// The phase a cycle begins with: the first read if there are read-symbols,
/// else the first write, else the sleep.
pub open spec fn begin_cycle(n: nat, m: nat) -> Phase {
    if n > 0 {
        Phase::Reading { next: 0 }
    } else if m > 0 {
        Phase::Writing { next: 0 }
    } else {
        Phase::Sleeping
    }
}

/// The phase after the read at index `i` succeeded, with `n` read-symbols and
/// `m` write-symbols.
pub open spec fn after_read(n: nat, m: nat, i: nat) -> Phase {
    if i + 1 < n {
        Phase::Reading { next: (i + 1) as usize }
    } else if m > 0 {
        Phase::Writing { next: 0 }
    } else {
        Phase::Sleeping
    }
}

/// The phase after the write at index `i` succeeded, with `m` write-symbols.
pub open spec fn after_write(m: nat, i: nat) -> Phase {
    if i + 1 < m {
        Phase::Writing { next: (i + 1) as usize }
    } else {
        Phase::Sleeping
    }
}

/// The transition relation of the poll cycle, for a catalog of `n`
/// read-symbols and `m` write-symbols. Any failure, and any event that does
/// not answer the outstanding action, moves to `Stopped`; `Stopped` is never
/// left.
pub open spec fn next_phase(n: nat, m: nat, p: Phase, ev: Event) -> Phase {
    match (p, ev) {
        (Phase::AwaitReadiness, Event::StateReported { running }) => {
            if running {
                begin_cycle(n, m)
            } else {
                Phase::Stopped
            }
        },
        (Phase::Reading { next }, Event::ReadFinished { ok }) => {
            if ok {
                after_read(n, m, next as nat)
            } else {
                Phase::Stopped
            }
        },
        (Phase::Writing { next }, Event::WriteFinished { ok }) => {
            if ok {
                after_write(m, next as nat)
            } else {
                Phase::Stopped
            }
        },
        (Phase::Sleeping, Event::SleepFinished) => begin_cycle(n, m),
        _ => Phase::Stopped,
    }
}

/// The poll cycle engine: the decision half of the loop. It owns the catalog
/// and the configured delay, and turns each completion event into the next
/// action; the surrounding process performs the transport work and the sleep.
pub struct PollEngine {
    pub catalog: SymbolCatalog,
    pub delay_ms: u64,
    pub phase: Phase,
}

/// The action the engine requests while standing in the given phase: the read
/// of the indexed read-symbol, a write of a bounded value to the indexed
/// write-symbol, the configured sleep, the readiness query, or the stop.
pub open spec fn action_matches_phase(e: PollEngine, a: Action) -> bool {
    match e.phase {
        Phase::AwaitReadiness => a is QueryState,
        Phase::Reading { next } => a matches Action::ReadSymbol { symbol }
            && symbol@ == e.catalog.read_view()[next as int],
        Phase::Writing { next } => a matches Action::WriteSymbol { symbol, value }
            && symbol@ == e.catalog.write_view()[next as int] && value <= WRITE_VALUE_MAX,
        Phase::Sleeping => a matches Action::Sleep { ms } && ms == e.delay_ms,
        Phase::Stopped => a is Stop,
    }
}

impl PollEngine {
    /// Number of read-symbols in the catalog.
    pub open spec fn n(&self) -> nat {
        self.catalog.read_view().len()
    }

    /// Number of write-symbols in the catalog.
    pub open spec fn m(&self) -> nat {
        self.catalog.write_view().len()
    }

    /// Well-formedness: an outstanding read or write index lies inside its list.
    pub open spec fn wf(&self) -> bool {
        match self.phase {
            Phase::Reading { next } => (next as nat) < self.n(),
            Phase::Writing { next } => (next as nat) < self.m(),
            _ => true,
        }
    }

    /// A fresh engine for the given catalog and delay; it first awaits the
    /// device readiness report.
    pub fn new(catalog: SymbolCatalog, delay_ms: u64) -> (e: PollEngine)
        ensures
            e.catalog == catalog,
            e.delay_ms == delay_ms,
            e.phase == Phase::AwaitReadiness,
            e.wf(),
    {
        PollEngine { catalog, delay_ms, phase: Phase::AwaitReadiness }
    }

    /// The action answering the engine's current phase. In the writing phase
    /// a fresh value is drawn on every call.
    pub fn current_action(&self) -> (a: Action)
        ensures
            self.wf() ==> action_matches_phase(*self, a),
    {
        match self.phase {
            Phase::AwaitReadiness => Action::QueryState,
            Phase::Reading { next } => {
                if next < self.catalog.read_symbols.len() {
                    Action::ReadSymbol { symbol: self.catalog.read_symbols[next].clone() }
                } else {
                    Action::Stop
                }
            },
            Phase::Writing { next } => {
                if next < self.catalog.write_symbols.len() {
                    Action::WriteSymbol {
                        symbol: self.catalog.write_symbols[next].clone(),
                        value: generate_write_value(),
                    }
                } else {
                    Action::Stop
                }
            },
            Phase::Sleeping => Action::Sleep { ms: self.delay_ms },
            Phase::Stopped => Action::Stop,
        }
    }

    /// Feed the outcome of the last action into the engine and obtain the
    /// next action. The new phase is exactly `next_phase` of the old one; the
    /// catalog and the delay never change, so repeated identical cycles meet
    /// identical decisions.
    pub fn step(&mut self, ev: Event) -> (a: Action)
        ensures
            final(self).catalog == old(self).catalog,
            final(self).delay_ms == old(self).delay_ms,
            old(self).wf() ==> final(self).phase == next_phase(
                old(self).n(),
                old(self).m(),
                old(self).phase,
                ev,
            ),
            old(self).wf() ==> final(self).wf(),
            old(self).wf() ==> action_matches_phase(*final(self), a),
    {
        let n = self.catalog.read_symbols.len();
        let m = self.catalog.write_symbols.len();
        let p = self.phase;
        self.phase = match (p, ev) {
            (Phase::AwaitReadiness, Event::StateReported { running }) => {
                if running {
                    if n > 0 {
                        Phase::Reading { next: 0 }
                    } else if m > 0 {
                        Phase::Writing { next: 0 }
                    } else {
                        Phase::Sleeping
                    }
                } else {
                    Phase::Stopped
                }
            },
            (Phase::Reading { next }, Event::ReadFinished { ok }) => {
                if ok && next < n {
                    if next + 1 < n {
                        Phase::Reading { next: next + 1 }
                    } else if m > 0 {
                        Phase::Writing { next: 0 }
                    } else {
                        Phase::Sleeping
                    }
                } else {
                    Phase::Stopped
                }
            },
            (Phase::Writing { next }, Event::WriteFinished { ok }) => {
                if ok && next < m {
                    if next + 1 < m {
                        Phase::Writing { next: next + 1 }
                    } else {
                        Phase::Sleeping
                    }
                } else {
                    Phase::Stopped
                }
            },
            (Phase::Sleeping, Event::SleepFinished) => {
                if n > 0 {
                    Phase::Reading { next: 0 }
                } else if m > 0 {
                    Phase::Writing { next: 0 }
                } else {
                    Phase::Sleeping
                }
            },
            _ => Phase::Stopped,
        };
        self.current_action()
    }
}

/// The phase reached from `p` after consuming the events of `evs` in order.
pub open spec fn run_phases(n: nat, m: nat, p: Phase, evs: Seq<Event>) -> Phase
    decreases evs.len(),
{
    if evs.len() == 0 {
        p
    } else {
        run_phases(n, m, next_phase(n, m, p, evs[0]), evs.drop_first())
    }
}

/// Consuming one more event applies one more transition.
pub proof fn lemma_run_snoc(n: nat, m: nat, p: Phase, s: Seq<Event>, e: Event)
    ensures
        run_phases(n, m, p, s.push(e)) == next_phase(n, m, run_phases(n, m, p, s), e),
    decreases s.len(),
{
    if s.len() == 0 {
        assert(s.push(e)[0] == e);
        assert(s.push(e).drop_first() =~= Seq::<Event>::empty());
        assert(run_phases(n, m, p, s.push(e)) == run_phases(
            n,
            m,
            next_phase(n, m, p, s.push(e)[0]),
            s.push(e).drop_first(),
        ));
    } else {
        let s2 = s.drop_first();
        let p2 = next_phase(n, m, p, s[0]);
        assert(s.push(e)[0] == s[0]);
        assert(s.push(e).drop_first() =~= s2.push(e));
        assert(run_phases(n, m, p, s.push(e)) == run_phases(n, m, p2, s2.push(e)));
        lemma_run_snoc(n, m, p2, s2, e);
    }
}

/// Once stopped, the engine stays stopped whatever events arrive, and the
/// only action matching the stopped engine is `Stop`: after a fatal outcome
/// no read and no write is ever requested again.
pub proof fn lemma_stopped_absorbing(n: nat, m: nat, evs: Seq<Event>)
    ensures
        run_phases(n, m, Phase::Stopped, evs) == Phase::Stopped,
        forall|e: PollEngine, a: Action|
            e.phase is Stopped && #[trigger] action_matches_phase(e, a) ==> a is Stop,
    decreases evs.len(),
{
    if evs.len() > 0 {
        assert(next_phase(n, m, Phase::Stopped, evs[0]) == Phase::Stopped);
        lemma_stopped_absorbing(n, m, evs.drop_first());
    }
}

/// If the readiness report says the device is not running, the engine stops
/// at once — before any read or write phase was ever entered — and no later
/// event revives it.
pub proof fn lemma_not_running_halts(n: nat, m: nat, evs: Seq<Event>)
    ensures
        next_phase(n, m, Phase::AwaitReadiness, Event::StateReported { running: false })
            == Phase::Stopped,
        run_phases(
            n,
            m,
            next_phase(n, m, Phase::AwaitReadiness, Event::StateReported { running: false }),
            evs,
        ) == Phase::Stopped,
{
    lemma_stopped_absorbing(n, m, evs);
}

/// A failed read or write — an unresolvable symbol name as much as a
/// transport fault — stops the engine at once, and it never resumes.
pub proof fn lemma_failure_stops(n: nat, m: nat, p: Phase, evs: Seq<Event>)
    ensures
        p is Reading ==> run_phases(
            n,
            m,
            next_phase(n, m, p, Event::ReadFinished { ok: false }),
            evs,
        ) == Phase::Stopped,
        p is Writing ==> run_phases(
            n,
            m,
            next_phase(n, m, p, Event::WriteFinished { ok: false }),
            evs,
        ) == Phase::Stopped,
{
    lemma_stopped_absorbing(n, m, evs);
}

/// One cycle's worth of all-successful events for a catalog with `n`
/// read-symbols and `m` write-symbols: `n` successful reads, then `m`
/// successful writes, then the end of the sleep.
pub open spec fn cycle_events(n: nat, m: nat, evs: Seq<Event>) -> bool {
    &&& evs.len() == n + m + 1
    &&& forall|i: int| 0 <= i < n ==> evs[i] == (Event::ReadFinished { ok: true })
    &&& forall|i: int| n <= i < n + m ==> evs[i] == (Event::WriteFinished { ok: true })
    &&& evs[n + m as int] == Event::SleepFinished
}

/// The phase in which the engine stands once the first `i` events of a
/// successful cycle are consumed: reading symbol `i` while `i < n`, then
/// writing symbol `i - n`, then sleeping.
pub open spec fn cycle_phase(n: nat, m: nat, i: int) -> Phase {
    if i < n {
        Phase::Reading { next: i as usize }
    } else if i < n + m {
        Phase::Writing { next: (i - n) as usize }
    } else {
        Phase::Sleeping
    }
}

proof fn lemma_cycle_prefix(n: nat, m: nat, evs: Seq<Event>, i: int)
    requires
        n + m + 1 <= usize::MAX,
        cycle_events(n, m, evs),
        0 <= i <= n + m,
    ensures
        run_phases(n, m, begin_cycle(n, m), evs.take(i)) == cycle_phase(n, m, i),
    decreases i,
{
    if i == 0 {
        assert(evs.take(0) =~= Seq::<Event>::empty());
    } else {
        lemma_cycle_prefix(n, m, evs, i - 1);
        assert(evs.take(i) =~= evs.take(i - 1).push(evs[i - 1]));
        lemma_run_snoc(n, m, begin_cycle(n, m), evs.take(i - 1), evs[i - 1]);
    }
}

/// One full successful cycle, begun at the cycle's start: the engine walks
/// through exactly the `n` read phases in catalog order, then the `m` write
/// phases in catalog order, then the sleep, and ends back at the cycle's
/// start. Together with `action_matches_phase` this pins the actions of a
/// cycle: exactly `n` reads followed by exactly `m` writes, in catalog order,
/// then one sleep of the configured delay.
pub proof fn lemma_cycle_round(n: nat, m: nat, evs: Seq<Event>)
    requires
        n + m + 1 <= usize::MAX,
        cycle_events(n, m, evs),
    ensures
        forall|i: int|
            0 <= i <= n + m ==> run_phases(n, m, begin_cycle(n, m), evs.take(i)) == cycle_phase(
                n,
                m,
                i,
            ),
        run_phases(n, m, begin_cycle(n, m), evs) == begin_cycle(n, m),
{
    assert forall|i: int| 0 <= i <= n + m implies run_phases(
        n,
        m,
        begin_cycle(n, m),
        evs.take(i),
    ) == cycle_phase(n, m, i) by {
        lemma_cycle_prefix(n, m, evs, i);
    }
    let last: int = (n + m) as int;
    lemma_cycle_prefix(n, m, evs, last);
    assert(evs =~= evs.take(last).push(evs[last]));
    lemma_run_snoc(n, m, begin_cycle(n, m), evs.take(last), evs[last]);
    assert(cycle_phase(n, m, last) == Phase::Sleeping);
    assert(evs[last] == Event::SleepFinished);
}

/// Idempotence of cycles: two full successful cycles against an unchanging
/// device pass through the same phases step for step, and each ends where the
/// next begins — the engine keeps no memory that could distort a later cycle.
pub proof fn lemma_cycles_identical(n: nat, m: nat, evs1: Seq<Event>, evs2: Seq<Event>)
    requires
        n + m + 1 <= usize::MAX,
        cycle_events(n, m, evs1),
        cycle_events(n, m, evs2),
    ensures
        forall|i: int|
            0 <= i <= n + m ==> run_phases(n, m, begin_cycle(n, m), evs1.take(i)) == run_phases(
                n,
                m,
                begin_cycle(n, m),
                evs2.take(i),
            ),
        run_phases(n, m, begin_cycle(n, m), evs1) == run_phases(
            n,
            m,
            begin_cycle(n, m),
            evs2,
        ),
{
    assert forall|i: int| 0 <= i <= n + m implies run_phases(
        n,
        m,
        begin_cycle(n, m),
        evs1.take(i),
    ) == run_phases(n, m, begin_cycle(n, m), evs2.take(i)) by {
        lemma_cycle_prefix(n, m, evs1, i);
        lemma_cycle_prefix(n, m, evs2, i);
    }
    lemma_cycle_round(n, m, evs1);
    lemma_cycle_round(n, m, evs2);
}

} // verus!

