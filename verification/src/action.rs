//! The worker-pool state machine.
//!
//! An [`ActionCore`] owns the plan and tracks what the pool has done: how
//! many invocations were handed out, which slot holds which live child, and
//! the first failure. The embedding program runs the threads, spawns and
//! waits on real children, and reports every outcome back; each decision —
//! what to run next, when to stop, what to kill, what progress to report —
//! is taken here, under contract.
//!
//! The pool's laws are stated below as proof functions: progress is
//! monotone and bounded, `stop` is idempotent and names every live child,
//! and a worker run fails exactly when a result failed while failures were
//! not ignored.

use crate::error::Error;
use crate::error::ErrorKind;
use crate::plan::Invocation;
use crate::util::str_eq;
use vstd::prelude::*;

verus! {

/// Where the children's standard output and error go: discarded, inherited
/// from the parent, or appended to one shared file.
pub enum PipeMode {
    Null,
    Inherit,
    File(String),
}

/// The output sink selected by the `pipe` field: absent discards, the
/// literal token `<inherit>` inherits, anything else names a file.
pub fn pipe_mode(pipe: &Option<String>) -> (r: PipeMode)
    ensures
        match pipe {
            None => r is Null,
            Some(s) => {
                if s@ == "<inherit>"@ {
                    r is Inherit
                } else {
                    r matches PipeMode::File(p) && p@ == s@
                }
            },
        },
{
    match pipe {
        None => PipeMode::Null,
        Some(s) => {
            if str_eq(s.as_str(), "<inherit>") {
                PipeMode::Inherit
            } else {
                PipeMode::File(s.clone())
            }
        },
    }
}

/// What the pool has done so far, reduced to what the laws speak of.
#[verifier::ext_equal]
pub struct Phase {
    /// Invocations handed out, or discarded by a stop.
    pub taken: nat,
    /// Whether a failure has been recorded.
    pub failed: bool,
}

/// The phase after trying to take the next invocation.
pub open spec fn take_t(p: Phase, total: nat) -> Phase {
    if !p.failed && p.taken < total {
        Phase { taken: p.taken + 1, failed: p.failed }
    } else {
        p
    }
}

/// The phase after a stop: the queue drained, the outcome kept.
pub open spec fn stop_t(p: Phase, total: nat) -> Phase {
    Phase { taken: total, failed: p.failed }
}

/// The phase after one child's result is reported.
pub open spec fn result_t(p: Phase, total: nat, ignore: bool, success: bool) -> Phase {
    if success || ignore {
        p
    } else {
        Phase { taken: total, failed: true }
    }
}

/// The live children recorded in the slots, in slot order.
pub open spec fn spec_live(slots: Seq<Option<u64>>) -> Seq<u64>
    decreases slots.len(),
{
    if slots.len() == 0 {
        Seq::<u64>::empty()
    } else {
        match slots[0] {
            Some(c) => seq![c] + spec_live(slots.drop_first()),
            None => spec_live(slots.drop_first()),
        }
    }
}

/// Appending a slot appends its child, if any.
pub proof fn lemma_live_snoc(slots: Seq<Option<u64>>, x: Option<u64>)
    ensures
        spec_live(slots.push(x)) == spec_live(slots) + match x {
            Some(c) => seq![c],
            None => Seq::<u64>::empty(),
        },
    decreases slots.len(),
{
    let tail: Seq<u64> = match x {
        Some(c) => seq![c],
        None => Seq::<u64>::empty(),
    };
    if slots.len() == 0 {
        assert(slots.push(x).drop_first() =~= Seq::<Option<u64>>::empty());
        assert(spec_live(Seq::<Option<u64>>::empty()) == Seq::<u64>::empty());
        assert(spec_live(slots.push(x)) =~= spec_live(slots) + tail);
    } else {
        assert(slots.push(x).drop_first() =~= slots.drop_first().push(x));
        assert(slots.push(x)[0] == slots[0]);
        lemma_live_snoc(slots.drop_first(), x);
        assert(spec_live(slots.push(x)) =~= spec_live(slots) + tail);
    }
}

/// Every recorded child appears among the live ones: nothing escapes a
/// stop.
pub proof fn lemma_live_complete(slots: Seq<Option<u64>>, i: int)
    requires
        0 <= i < slots.len(),
        slots[i] is Some,
    ensures
        spec_live(slots).contains(slots[i]->0),
    decreases slots.len(),
{
    if i == 0 {
        assert(spec_live(slots)[0] == slots[0]->0);
    } else {
        lemma_live_complete(slots.drop_first(), i - 1);
        let c = slots[i]->0;
        let rest = spec_live(slots.drop_first());
        let j = choose|j: int| 0 <= j < rest.len() && rest[j] == c;
        match slots[0] {
            Some(h) => {
                assert(spec_live(slots)[j + 1] == c);
            },
            None => {
                assert(spec_live(slots)[j] == c);
            },
        }
    }
}

/// The number of slots that hold a child the embedding program still sees
/// running.
pub open spec fn spec_active(slots: Seq<Option<u64>>, running: Seq<bool>) -> nat
    decreases slots.len(),
{
    if slots.len() == 0 || slots.len() != running.len() {
        0
    } else {
        (if slots[0] is Some && running[0] {
            1nat
        } else {
            0nat
        }) + spec_active(slots.drop_first(), running.drop_first())
    }
}

/// Finished work: invocations no longer queued and no longer running.
pub open spec fn spec_finished(taken: nat, active: nat) -> nat {
    if taken >= active {
        (taken - active) as nat
    } else {
        0
    }
}

/// Progress is monotone: as long as the running count grows by no more
/// than the taken count, the finished count never drops. Every transition
/// of the pool has this shape — handing out an invocation and spawning its
/// child raises both counts by one, a child's exit lowers the running
/// count, a stop raises the taken count alone — so two `progress` readings
/// taken across any run of such transitions are ordered. That the
/// embedding's interleaving consists of these transitions is its worker
/// loop's structure.
pub proof fn lemma_finished_monotone(t1: nat, a1: nat, t2: nat, a2: nat)
    requires
        t1 <= t2,
        a2 <= a1 + (t2 - t1),
    ensures
        spec_finished(t2, a2) >= spec_finished(t1, a1),
{
}

/// The shared state of one action: the plan, the pool's progress through
/// it, the live children, and the first failure.
pub struct ActionCore {
    /// The invocations, fixed at creation.
    pub plan: Vec<Invocation>,
    /// How many invocations have been handed out or discarded by a stop.
    pub taken: usize,
    /// Per-worker slot: the token of the child the worker is waiting on.
    pub slots: Vec<Option<u64>>,
    /// The first failure, kept; later ones are noise from the shutdown.
    pub failure: Option<Error>,
    /// Whether a failed invocation aborts the run.
    pub ignore_panic: bool,
}

impl ActionCore {
    /// The state is consistent: nothing taken beyond the plan.
    pub open spec fn wf(&self) -> bool {
        self.taken <= self.plan@.len()
    }

    /// The laws' image of the state.
    pub open spec fn phase(&self) -> Phase {
        Phase { taken: self.taken as nat, failed: self.failure is Some }
    }

    /// The number of invocations of the whole run.
    pub open spec fn total(&self) -> nat {
        self.plan@.len()
    }

    /// A fresh pool over `plan` with `threads` empty slots.
    pub fn new(plan: Vec<Invocation>, threads: usize, ignore_panic: bool) -> (r: ActionCore)
        requires
            threads >= 1,
        ensures
            r.wf(),
            r.plan == plan,
            r.taken == 0,
            r.slots@.len() == threads,
            forall|i: int| 0 <= i < threads ==> r.slots@[i] is None,
            r.failure is None,
            r.ignore_panic == ignore_panic,
    {
        let mut slots: Vec<Option<u64>> = Vec::new();
        let mut i: usize = 0;
        while i < threads
            invariant
                i <= threads,
                slots@.len() == i,
                forall|j: int| 0 <= j < i ==> slots@[j] is None,
            decreases threads - i,
        {
            slots.push(None);
            i = i + 1;
        }
        ActionCore { plan, taken: 0, slots, failure: None, ignore_panic }
    }

    /// Hand out the next invocation: the plan's entries in order, none
    /// after a failure was recorded or the queue was drained. A single
    /// worker that takes, runs and reaps one invocation at a time thus
    /// executes the plan exactly in emission order — a serial executor.
    pub fn take_next(&mut self) -> (r: Option<Invocation>)
        requires
            old(self).wf(),
        ensures
            final(self).wf(),
            final(self).plan == old(self).plan,
            final(self).slots == old(self).slots,
            final(self).failure == old(self).failure,
            final(self).ignore_panic == old(self).ignore_panic,
            final(self).phase() == take_t(old(self).phase(), old(self).total()),
            old(self).failure is Some || old(self).taken == old(self).plan@.len() ==> r is None
                && final(self).taken == old(self).taken,
            old(self).failure is None && old(self).taken < old(self).plan@.len() ==> {
                &&& r matches Some(inv) && inv@ == old(self).plan@[old(self).taken as int]@
                &&& final(self).taken == old(self).taken + 1
            },
    {
        if self.failure.is_some() {
            return None;
        }
        if self.taken == self.plan.len() {
            return None;
        }
        let inv = self.plan[self.taken].duplicate();
        self.taken = self.taken + 1;
        Some(inv)
    }

    /// Record the child a worker just spawned into its slot.
    pub fn record_spawned(&mut self, slot: usize, child: u64)
        requires
            old(self).wf(),
            slot < old(self).slots@.len(),
        ensures
            final(self).wf(),
            final(self).slots@ == old(self).slots@.update(slot as int, Some(child)),
            final(self).slots@ == apply_slot_events(
                old(self).slots@,
                seq![SlotEvent::Spawned(slot, child)],
            ),
            final(self).plan == old(self).plan,
            final(self).taken == old(self).taken,
            final(self).failure == old(self).failure,
            final(self).ignore_panic == old(self).ignore_panic,
            final(self).phase() == old(self).phase(),
    {
        self.slots.set(slot, Some(child));
        proof {
            let ev = seq![SlotEvent::Spawned(slot, child)];
            assert(ev.drop_last() =~= Seq::<SlotEvent>::empty());
            assert(apply_slot_events(old(self).slots@, ev.drop_last()) == old(self).slots@);
        }
    }

    /// Clear a worker's slot once its child is reaped.
    pub fn record_reaped(&mut self, slot: usize)
        requires
            old(self).wf(),
            slot < old(self).slots@.len(),
        ensures
            final(self).wf(),
            final(self).slots@ == old(self).slots@.update(slot as int, None),
            final(self).slots@ == apply_slot_events(
                old(self).slots@,
                seq![SlotEvent::Reaped(slot)],
            ),
            final(self).plan == old(self).plan,
            final(self).taken == old(self).taken,
            final(self).failure == old(self).failure,
            final(self).ignore_panic == old(self).ignore_panic,
            final(self).phase() == old(self).phase(),
    {
        self.slots.set(slot, None);
        proof {
            let ev = seq![SlotEvent::Reaped(slot)];
            assert(ev.drop_last() =~= Seq::<SlotEvent>::empty());
            assert(apply_slot_events(old(self).slots@, ev.drop_last()) == old(self).slots@);
        }
    }

    /// Drain the queue and name every live child, in slot order, for the
    /// embedding program to kill. The recorded outcome is untouched.
    pub fn stop(&mut self) -> (kills: Vec<u64>)
        requires
            old(self).wf(),
        ensures
            final(self).wf(),
            final(self).plan == old(self).plan,
            final(self).slots == old(self).slots,
            final(self).failure == old(self).failure,
            final(self).ignore_panic == old(self).ignore_panic,
            final(self).taken == final(self).plan@.len(),
            final(self).phase() == stop_t(old(self).phase(), old(self).total()),
            kills@ == spec_live(old(self).slots@),
    {
        self.taken = self.plan.len();
        let mut kills: Vec<u64> = Vec::new();
        let mut i: usize = 0;
        proof {
            assert(self.slots@.take(0) =~= Seq::<Option<u64>>::empty());
        }
        while i < self.slots.len()
            invariant
                i <= self.slots@.len(),
                kills@ == spec_live(self.slots@.take(i as int)),
            decreases self.slots@.len() - i,
        {
            proof {
                assert(self.slots@.take(i as int).push(self.slots@[i as int]) =~= self.slots@.take(
                    i as int + 1,
                ));
                lemma_live_snoc(self.slots@.take(i as int), self.slots@[i as int]);
            }
            if let Some(c) = self.slots[i] {
                kills.push(c);
            }
            i = i + 1;
        }
        proof {
            assert(self.slots@.take(self.slots@.len() as int) =~= self.slots@);
        }
        kills
    }

    /// Report one invocation's outcome. A success, or any outcome while
    /// failures are ignored, changes nothing. The first failure otherwise
    /// drains the queue, records an `ExecutePanic` outcome — later
    /// failures keep the first — and names the children to kill.
    pub fn on_child_result(&mut self, success: bool, message: String) -> (kills: Vec<u64>)
        requires
            old(self).wf(),
        ensures
            final(self).wf(),
            final(self).plan == old(self).plan,
            final(self).slots == old(self).slots,
            final(self).ignore_panic == old(self).ignore_panic,
            final(self).phase() == result_t(
                old(self).phase(),
                old(self).total(),
                old(self).ignore_panic,
                success,
            ),
            success || old(self).ignore_panic ==> final(self).failure == old(self).failure
                && final(self).taken == old(self).taken && kills@ == Seq::<u64>::empty(),
            !(success || old(self).ignore_panic) ==> {
                &&& final(self).taken == final(self).plan@.len()
                &&& kills@ == spec_live(old(self).slots@)
                &&& (old(self).failure is Some ==> final(self).failure == old(self).failure)
                &&& (old(self).failure is None ==> (final(self).failure matches Some(e) && e.kind
                    == ErrorKind::ExecutePanic && e.message@ == message@))
            },
    {
        if success || self.ignore_panic {
            return Vec::new();
        }
        let kills = self.stop();
        if self.failure.is_none() {
            self.failure = Some(Error::new(ErrorKind::ExecutePanic, message));
        }
        kills
    }

    /// The progress pair `(finished, total)`. The embedding program hands
    /// in, slot by slot, whether the slot's child is still running; a
    /// child already exited but not yet reaped counts as neither finished
    /// nor running.
    pub fn progress(&self, running: &Vec<bool>) -> (r: (usize, usize))
        requires
            self.wf(),
            running@.len() == self.slots@.len(),
        ensures
            r.1 == self.total(),
            r.0 == spec_finished(self.taken as nat, spec_active(self.slots@, running@)),
            r.0 <= r.1,
    {
        let total = self.plan.len();
        let mut active: usize = 0;
        let mut i: usize = 0;
        while i < self.slots.len()
            invariant
                i <= self.slots@.len(),
                running@.len() == self.slots@.len(),
                active as nat == spec_active(self.slots@.take(i as int), running@.take(i as int)),
                active <= i,
            decreases self.slots@.len() - i,
        {
            proof {
                lemma_active_snoc(
                    self.slots@.take(i as int),
                    running@.take(i as int),
                    self.slots@[i as int],
                    running@[i as int],
                );
                assert(self.slots@.take(i as int).push(self.slots@[i as int]) =~= self.slots@.take(
                    i as int + 1,
                ));
                assert(running@.take(i as int).push(running@[i as int]) =~= running@.take(
                    i as int + 1,
                ));
            }
            if self.slots[i].is_some() && running[i] {
                active = active + 1;
            }
            i = i + 1;
        }
        proof {
            assert(self.slots@.take(self.slots@.len() as int) =~= self.slots@);
            assert(running@.take(running@.len() as int) =~= running@);
        }
        let finished = if active <= self.taken {
            self.taken - active
        } else {
            0
        };
        (finished, total)
    }

    /// The run's outcome: the first failure, or success.
    pub fn outcome(&self) -> (r: Result<(), Error>)
        ensures
            self.failure is None ==> r is Ok,
            self.failure matches Some(e) ==> r matches Err(e2) && e2.kind == e.kind
                && e2.message@ == e.message@,
    {
        match &self.failure {
            None => Ok(()),
            Some(e) => Err(Error::new(e.kind, e.message.clone())),
        }
    }
}

/// Appending a slot adds one to the active count exactly when it holds a
/// running child.
pub proof fn lemma_active_snoc(slots: Seq<Option<u64>>, running: Seq<bool>, x: Option<u64>, r: bool)
    requires
        slots.len() == running.len(),
    ensures
        spec_active(slots.push(x), running.push(r)) == spec_active(slots, running) + (
        if x is Some && r {
            1nat
        } else {
            0nat
        }),
    decreases slots.len(),
{
    let tail: nat = if x is Some && r {
        1nat
    } else {
        0nat
    };
    if slots.len() == 0 {
        assert(slots.push(x).drop_first() =~= Seq::<Option<u64>>::empty());
        assert(running.push(r).drop_first() =~= Seq::<bool>::empty());
        assert(spec_active(Seq::<Option<u64>>::empty(), Seq::<bool>::empty()) == 0);
    } else {
        assert(slots.push(x).drop_first() =~= slots.drop_first().push(x));
        assert(running.push(r).drop_first() =~= running.drop_first().push(r));
        assert(slots.push(x)[0] == slots[0]);
        assert(running.push(r)[0] == running[0]);
        lemma_active_snoc(slots.drop_first(), running.drop_first(), x, r);
    }
}

/// A slot transition, as the workers record them: `record_spawned` and
/// `record_reaped` perform exactly these updates, and no other operation
/// touches the slots.
pub enum SlotEvent {
    Spawned(usize, u64),
    Reaped(usize),
}

/// Whether an event is worker `i`'s.
pub open spec fn touches_slot(e: SlotEvent, i: int) -> bool {
    match e {
        SlotEvent::Spawned(j, _) => j == i,
        SlotEvent::Reaped(j) => j == i,
    }
}

/// The slots after a sequence of recorded transitions.
pub open spec fn apply_slot_events(slots: Seq<Option<u64>>, events: Seq<SlotEvent>) -> Seq<
    Option<u64>,
>
    decreases events.len(),
{
    if events.len() == 0 {
        slots
    } else {
        let rest = apply_slot_events(slots, events.drop_last());
        match events.last() {
            SlotEvent::Spawned(i, c) => {
                if i < rest.len() {
                    rest.update(i as int, Some(c))
                } else {
                    rest
                }
            },
            SlotEvent::Reaped(i) => {
                if i < rest.len() {
                    rest.update(i as int, None)
                } else {
                    rest
                }
            },
        }
    }
}

/// Recording transitions never changes the number of slots.
pub proof fn lemma_apply_slot_events_len(slots: Seq<Option<u64>>, events: Seq<SlotEvent>)
    ensures
        apply_slot_events(slots, events).len() == slots.len(),
    decreases events.len(),
{
    if events.len() > 0 {
        lemma_apply_slot_events_len(slots, events.drop_last());
    }
}

/// Slot discipline: if slot `i` holds the child `c` after a run of recorded
/// transitions that started with the slot empty, then some event in the run
/// is worker `i` recording `c`'s spawn, and no event of worker `i` — no
/// spawn, no reap — follows it: `c` was spawned by worker `i` and has not
/// yet been reaped by worker `i`. That each worker records under its own
/// slot index, and records every spawn and reap, is the embedding's
/// discipline; no other operation of the core touches the slots.
pub proof fn lemma_slot_discipline(slots: Seq<Option<u64>>, events: Seq<SlotEvent>, i: int)
    requires
        0 <= i < slots.len(),
        slots[i] is None,
        apply_slot_events(slots, events)[i] is Some,
    ensures
        exists|k: int|
            0 <= k < events.len() && events[k] == SlotEvent::Spawned(
                i as usize,
                apply_slot_events(slots, events)[i]->0,
            ) && (forall|m: int| k < m < events.len() ==> !touches_slot(events[m], i)),
    decreases events.len(),
{
    lemma_apply_slot_events_len(slots, events);
    lemma_apply_slot_events_len(slots, events.drop_last());
    let after = apply_slot_events(slots, events);
    let e = events.last();
    if touches_slot(e, i) {
        match e {
            SlotEvent::Spawned(j, c) => {
                let k = events.len() - 1;
                assert(events[k] == SlotEvent::Spawned(i as usize, after[i]->0));
                assert(forall|m: int| k < m < events.len() ==> !touches_slot(events[m], i));
            },
            SlotEvent::Reaped(j) => {
                assert(after[i] is None);
            },
        }
    } else {
        let before = apply_slot_events(slots, events.drop_last());
        assert(after[i] == before[i]);
        lemma_slot_discipline(slots, events.drop_last(), i);
        let k = choose|k: int|
            0 <= k < events.drop_last().len() && events.drop_last()[k] == SlotEvent::Spawned(
                i as usize,
                before[i]->0,
            ) && (forall|m: int|
                k < m < events.drop_last().len() ==> !touches_slot(events.drop_last()[m], i));
        assert(events[k] == SlotEvent::Spawned(i as usize, after[i]->0));
        assert forall|m: int| k < m < events.len() implies !touches_slot(events[m], i) by {
            if m < events.len() - 1 {
                assert(!touches_slot(events.drop_last()[m], i));
                assert(events.drop_last()[m] == events[m]);
            } else {
                assert(events[m] == e);
            }
        }
    }
}

/// The phase after a worker processes a sequence of results, taking one
/// invocation before each.
pub open spec fn run_worker(p: Phase, total: nat, ignore: bool, results: Seq<bool>) -> Phase
    decreases results.len(),
{
    if results.len() == 0 {
        p
    } else {
        run_worker(
            result_t(take_t(p, total), total, ignore, results[0]),
            total,
            ignore,
            results.drop_first(),
        )
    }
}

/// A run whose every invocation succeeded records no failure: the action's
/// outcome is then success.
pub proof fn lemma_run_all_success(p: Phase, total: nat, ignore: bool, results: Seq<bool>)
    requires
        !p.failed,
        forall|j: int| 0 <= j < results.len() ==> results[j],
    ensures
        !run_worker(p, total, ignore, results).failed,
    decreases results.len(),
{
    if results.len() > 0 {
        assert(results[0]);
        lemma_run_all_success(take_t(p, total), total, ignore, results.drop_first());
    }
}

/// While failures are not ignored, a run with a failed invocation records
/// a failure: the action's outcome is then an `ExecutePanic` error.
pub proof fn lemma_run_failure(p: Phase, total: nat, results: Seq<bool>)
    requires
        exists|j: int| 0 <= j < results.len() && !results[j],
    ensures
        run_worker(p, total, false, results).failed,
    decreases results.len(),
{
    let j = choose|j: int| 0 <= j < results.len() && !results[j];
    if j == 0 {
        lemma_run_failed_stays(
            result_t(take_t(p, total), total, false, results[0]),
            total,
            results.drop_first(),
        );
    } else {
        assert(results.drop_first()[j - 1] == results[j]);
        lemma_run_failure(result_t(take_t(p, total), total, false, results[0]), total, results.drop_first());
    }
}

/// A recorded failure is never cleared: the first outcome is the one kept.
pub proof fn lemma_run_failed_stays(p: Phase, total: nat, results: Seq<bool>)
    requires
        p.failed,
    ensures
        run_worker(p, total, false, results).failed,
    decreases results.len(),
{
    if results.len() > 0 {
        lemma_run_failed_stays(
            result_t(take_t(p, total), total, false, results[0]),
            total,
            results.drop_first(),
        );
    }
}

/// Stopping twice is stopping once: the state reached is the same, and the
/// children named by the second stop are exactly those of the first.
pub proof fn lemma_stop_idempotent(p: Phase, total: nat)
    ensures
        stop_t(stop_t(p, total), total) == stop_t(p, total),
{
}

} // verus!
