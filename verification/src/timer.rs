//! Phase-based timer for managing notifications at different intervals.
//!
//! A [`PhaseTimer`] owns an ordered collection of [`Phase`]s, each of which
//! becomes eligible at a fixed minute offset from the timer's start and either
//! fires once or keeps firing at a fixed interval.  A host loop polls
//! [`PhaseTimer::check`] on a fixed cadence and maps returned actions to
//! notifications; an external acknowledgment calls [`PhaseTimer::reset`].

use vstd::prelude::*;

use crate::clock::now_epoch_millis;
use crate::seqs::{lemma_filter_first, lemma_filter_head, lemma_filter_none, lemma_filter_push, lemma_filter_singleton, lemma_filter_subset};

verus! {

/// Construction of a recurring phase was asked for with a zero interval.
#[derive(Debug, Clone, Copy, PartialEq, Eq, Structural)]
pub struct InvalidInterval;

/// Construction of a timer was asked for with no phases at all.
#[derive(Debug, Clone, Copy, PartialEq, Eq, Structural)]
pub struct EmptyScheduleError;

/// Defines the behavior of a timer phase.
#[derive(Debug, Clone, Copy)]
pub enum PhaseType {
    /// Phase triggers once at the specified time.
    OneTime { triggered: bool },
    /// Phase triggers repeatedly with the given interval after the initial
    /// trigger.
    Recurring {
        interval: usize,
        /// The minute (measured from the timer's start) at which this phase
        /// last fired; `0` means it has not fired yet.
        last_action_minute: usize,
    },
}

impl PhaseType {
    /// A recurring phase must have a positive interval; this is enforced by
    /// [`Phase::recurring`] and preserved by every timer operation.
    pub open spec fn wf(self) -> bool {
        match self {
            PhaseType::OneTime { .. } => true,
            PhaseType::Recurring { interval, .. } => interval >= 1,
        }
    }

    /// Firing state as it is right after construction: nothing has fired yet.
    pub open spec fn pristine(self) -> bool {
        match self {
            PhaseType::OneTime { triggered } => !triggered,
            PhaseType::Recurring { last_action_minute, .. } => last_action_minute == 0,
        }
    }
}

/// A phase in the timer system.
#[derive(Debug, Clone, Copy)]
pub struct Phase<T> {
    /// How this phase behaves (one-time or recurring).
    pub phase_type: PhaseType,
    /// The action data associated with this phase, returned verbatim to the
    /// caller when the phase fires.
    pub action: T,
    /// The time (in minutes from the timer's start) when this phase becomes
    /// active.
    pub trigger_at_minute: usize,
}

impl<T> Phase<T> {
    pub open spec fn wf(self) -> bool {
        self.phase_type.wf()
    }

    /// The next minute at which this phase is due, given its firing state.
    pub open spec fn next_due(self) -> int {
        match self.phase_type {
            PhaseType::OneTime { .. } => self.trigger_at_minute as int,
            PhaseType::Recurring { interval, last_action_minute } => {
                if last_action_minute == 0 {
                    self.trigger_at_minute as int
                } else {
                    last_action_minute + interval
                }
            },
        }
    }

    /// Whether this phase fires when evaluated `elapsed` minutes after the
    /// timer's start.
    pub open spec fn fires(self, elapsed: int) -> bool {
        match self.phase_type {
            PhaseType::OneTime { triggered } => !triggered && elapsed >= self.trigger_at_minute,
            PhaseType::Recurring { .. } => elapsed >= self.next_due(),
        }
    }

    /// The phase with its firing state advanced by one firing: a one-time
    /// phase is marked as triggered; a recurring phase records the occurrence
    /// it just fired for (its due minute, not the raw elapsed time).
    pub open spec fn after_firing(self) -> Phase<T> {
        Phase {
            phase_type: match self.phase_type {
                PhaseType::OneTime { .. } => PhaseType::OneTime { triggered: true },
                PhaseType::Recurring { interval, .. } => PhaseType::Recurring {
                    interval,
                    last_action_minute: self.next_due() as usize,
                },
            },
            ..self
        }
    }

    /// The recorded interval of a recurring phase (`0` for a one-time phase).
    pub open spec fn spec_interval(self) -> int {
        match self.phase_type {
            PhaseType::OneTime { .. } => 0,
            PhaseType::Recurring { interval, .. } => interval as int,
        }
    }

    /// The minute a recurring phase last fired for (`0` if it has not fired).
    pub open spec fn spec_last_action_minute(self) -> int {
        match self.phase_type {
            PhaseType::OneTime { .. } => 0,
            PhaseType::Recurring { last_action_minute, .. } => last_action_minute as int,
        }
    }

    /// The phase with its firing state wound back to the freshly constructed
    /// one.
    pub open spec fn reinitialized(self) -> Phase<T> {
        Phase {
            phase_type: match self.phase_type {
                PhaseType::OneTime { .. } => PhaseType::OneTime { triggered: false },
                PhaseType::Recurring { interval, .. } => PhaseType::Recurring {
                    interval,
                    last_action_minute: 0,
                },
            },
            ..self
        }
    }

    /// The firing record has not been wound back behind the trigger minute:
    /// the phase has either never fired, or last fired no earlier than its
    /// trigger minute.  A one-time phase cannot be rewound at all.  This
    /// holds of every phase the constructors build, and every timer step
    /// keeps it ([`lemma_no_early_due_is_invariant`]); only by hand-editing
    /// the public fields can a state violate it.
    pub open spec fn no_early_due(self) -> bool {
        match self.phase_type {
            PhaseType::OneTime { .. } => true,
            PhaseType::Recurring { last_action_minute, .. } => last_action_minute == 0
                || last_action_minute >= self.trigger_at_minute,
        }
    }

    /// Two phases with the same definition (trigger minute, action, kind and
    /// interval), though possibly different firing state.
    pub open spec fn same_definition(self, other: Phase<T>) -> bool {
        &&& self.trigger_at_minute == other.trigger_at_minute
        &&& self.action == other.action
        &&& match (self.phase_type, other.phase_type) {
            (PhaseType::OneTime { .. }, PhaseType::OneTime { .. }) => true,
            (
                PhaseType::Recurring { interval: i1, .. },
                PhaseType::Recurring { interval: i2, .. },
            ) => i1 == i2,
            _ => false,
        }
    }

    /// Create a one-time phase that triggers at the specified time.
    pub fn one_time(trigger_time: usize, action: T) -> (r: Self)
        ensures
            r == (Phase {
                phase_type: PhaseType::OneTime { triggered: false },
                action,
                trigger_at_minute: trigger_time,
            }),
            r.wf(),
            r.phase_type.pristine(),
    {
        Self {
            phase_type: PhaseType::OneTime { triggered: false },
            action,
            trigger_at_minute: trigger_time,
        }
    }

    /// Create a recurring phase that triggers at the specified time and then
    /// repeats every `interval` minutes.  A zero interval is rejected.
    pub fn recurring(trigger_time: usize, interval: usize, action: T) -> (r: Result<
        Self,
        InvalidInterval,
    >)
        ensures
            r is Err <==> interval == 0,
            r matches Ok(p) ==> p == (Phase {
                phase_type: PhaseType::Recurring { interval, last_action_minute: 0 },
                action,
                trigger_at_minute: trigger_time,
            }),
            r matches Ok(p) ==> p.wf() && p.phase_type.pristine(),
    {
        if interval == 0 {
            return Err(InvalidInterval);
        }
        Ok(
            Self {
                phase_type: PhaseType::Recurring { interval, last_action_minute: 0 },
                action,
                trigger_at_minute: trigger_time,
            },
        )
    }
}

/// The phases of `s`, in order, are sorted by ascending trigger minute.
pub open spec fn sorted_by_trigger<T>(s: Seq<Phase<T>>) -> bool {
    forall|i: int, j: int|
        0 <= i < j < s.len() ==> #[trigger] s[i].trigger_at_minute <= #[trigger] s[j].trigger_at_minute
}

/// The phases of `s` whose trigger minute is `k`, in order.
pub open spec fn with_trigger<T>(s: Seq<Phase<T>>, k: usize) -> Seq<Phase<T>> {
    s.filter(|p: Phase<T>| p.trigger_at_minute == k)
}

/// Every phase of `out` occurs somewhere in `input`.
pub open spec fn drawn_from<T>(out: Seq<Phase<T>>, input: Seq<Phase<T>>) -> bool {
    forall|j: int| #![trigger out[j]]
        0 <= j < out.len() ==> exists|l: int| #![trigger input[l]]
            0 <= l < input.len() && out[j] == input[l]
}

/// `out` is the stable sort of `input` by trigger minute: it is sorted, and
/// for every trigger minute the phases carrying it appear in their original
/// order.  This pins `out` down completely.
pub open spec fn stable_sorted_of<T>(input: Seq<Phase<T>>, out: Seq<Phase<T>>) -> bool {
    &&& out.len() == input.len()
    &&& sorted_by_trigger(out)
    &&& forall|k: usize| #[trigger] with_trigger(out, k) == with_trigger(input, k)
}

/// The number of whole minutes from the instant `start` to the instant `now`
/// (both in milliseconds): zero while the first minute has not passed — or
/// when the clock stands before `start`, the clamp chosen for a backward
/// wall-clock jump — and saturating at the largest representable count.
pub open spec fn spec_minutes_between(start: int, now: int) -> int {
    if now <= start {
        0
    } else if (now - start) / 60000 >= usize::MAX as int {
        usize::MAX as int
    } else {
        (now - start) / 60000
    }
}

/// Convert two clock readings, in milliseconds since the Unix epoch, to the
/// whole minutes that lie between them.
pub fn minutes_between(start: i64, now: i64) -> (r: usize)
    ensures
        r as int == spec_minutes_between(start as int, now as int),
{
    if now <= start {
        return 0;
    }
    let millis: i128 = now as i128 - start as i128;
    let minutes: i128 = millis / 60000;
    if minutes >= usize::MAX as i128 {
        usize::MAX
    } else {
        minutes as usize
    }
}

/// A generic timer that can manage multiple successive phases with different
/// behaviors.
///
/// The idea is to allow patterns like this:
/// - Do nothing for 90 minutes
/// - Then notify 2 times in 30 min intervals
/// - Then notify every 10 minutes until reset
///
/// There's always only a single phase active: the one at `cursor` in the
/// sorted phase list, whose working copy is `current_phase`.
#[derive(Debug)]
pub struct PhaseTimer<T> {
    pub original_phases: Vec<Phase<T>>,
    pub cursor: usize,
    pub current_phase: Phase<T>,
    /// The instant the timer was started or last reset, in milliseconds
    /// since the Unix epoch.
    pub start_time: i64,
}

impl<T: Copy> PhaseTimer<T> {
    /// Structural invariant: at least one phase, sorted definitions, a valid
    /// cursor, and a current phase that is the working copy of the definition
    /// under the cursor.
    pub open spec fn wf(self) -> bool {
        &&& self.original_phases@.len() >= 1
        &&& self.original_phases@.len() <= usize::MAX
        &&& self.cursor < self.original_phases@.len()
        &&& sorted_by_trigger(self.original_phases@)
        &&& forall|i: int|
            0 <= i < self.original_phases@.len() ==> (#[trigger] self.original_phases@[i]).wf()
        &&& self.current_phase.same_definition(self.original_phases@[self.cursor as int])
        &&& self.current_phase.wf()
    }

    /// The sorted phase definitions, as retained for `reset`.
    pub open spec fn spec_phases(self) -> Seq<Phase<T>> {
        self.original_phases@
    }

    pub open spec fn spec_cursor(self) -> int {
        self.cursor as int
    }

    pub open spec fn spec_current(self) -> Phase<T> {
        self.current_phase
    }

    /// One evaluation of the timer at `elapsed` minutes after its start: the
    /// current phase fires and records its firing, or the timer promotes to
    /// the next phase, or nothing changes.  The returned option is the action
    /// handed to the caller.  This is the complete behavior of
    /// [`PhaseTimer::check`] as a function of the elapsed minutes.
    pub open spec fn step(self, elapsed: int) -> (PhaseTimer<T>, Option<T>) {
        if self.current_phase.fires(elapsed) {
            (
                PhaseTimer { current_phase: self.current_phase.after_firing(), ..self },
                Some(self.current_phase.action),
            )
        } else if self.cursor + 1 < self.original_phases@.len()
            && elapsed >= self.original_phases@[self.cursor + 1].trigger_at_minute {
            (
                PhaseTimer {
                    cursor: (self.cursor + 1) as usize,
                    current_phase: self.original_phases@[self.cursor + 1],
                    ..self
                },
                None,
            )
        } else {
            (self, None)
        }
    }

    /// Create a new phase timer with the given phases.  The phases are stored
    /// sorted by trigger time (stably, so ties keep their insertion order) and
    /// the earliest one becomes current.  An empty phase list is rejected.
    pub fn new(phases: Vec<Phase<T>>) -> (r: Result<PhaseTimer<T>, EmptyScheduleError>)
        requires
            forall|i: int| 0 <= i < phases@.len() ==> (#[trigger] phases@[i]).wf(),
        ensures
            r is Err <==> phases@.len() == 0,
            r matches Ok(t) ==> {
                &&& t.wf()
                &&& stable_sorted_of(phases@, t.spec_phases())
                &&& t.spec_cursor() == 0
                &&& t.spec_current() == t.spec_phases()[0]
            },
            r matches Ok(t) ==> ((forall|i: int|
                0 <= i < phases@.len() ==> (#[trigger] phases@[i]).phase_type.pristine())
                ==> t.spec_current().phase_type.pristine() && (forall|i: int|
                0 <= i < t.spec_phases().len() ==> (
                #[trigger] t.spec_phases()[i]).phase_type.pristine())),
    {
        if phases.len() == 0 {
            return Err(EmptyScheduleError);
        }
        // Sort phases by trigger time to ensure the correct order.
        let sorted = sort_phases(phases);
        let current_phase = sorted[0];
        proof {
            assert(sorted@.len() == phases@.len());
            assert forall|i: int| 0 <= i < sorted@.len() implies (#[trigger] sorted@[i]).wf() by {
                let l = choose|l: int| 0 <= l < phases@.len() && sorted@[i] == phases@[l];
                assert(phases@[l].wf());
            }
            if forall|i: int|
                0 <= i < phases@.len() ==> (#[trigger] phases@[i]).phase_type.pristine() {
                assert forall|i: int|
                    0 <= i < sorted@.len() implies (
                #[trigger] sorted@[i]).phase_type.pristine() by {
                    let l = choose|l: int| 0 <= l < phases@.len() && sorted@[i] == phases@[l];
                    assert(phases@[l].phase_type.pristine());
                }
            }
        }
        Ok(
            PhaseTimer {
                original_phases: sorted,
                cursor: 0,
                current_phase,
                start_time: now_epoch_millis(),
            },
        )
    }

    /// Reset the timer to the beginning: the clock restarts now, the earliest
    /// phase becomes current again with its firing state reinitialized, and
    /// the stored phase definitions are kept unchanged.
    pub fn reset(&mut self)
        requires
            old(self).wf(),
        ensures
            final(self).wf(),
            final(self).spec_phases() == old(self).spec_phases(),
            final(self).spec_cursor() == 0,
            final(self).spec_current() == old(self).spec_phases()[0].reinitialized(),
    {
        self.start_time = now_epoch_millis();
        self.cursor = 0;
        let first = self.original_phases[0];
        self.current_phase = Phase {
            phase_type: match first.phase_type {
                PhaseType::OneTime { .. } => PhaseType::OneTime { triggered: false },
                PhaseType::Recurring { interval, .. } => PhaseType::Recurring {
                    interval,
                    last_action_minute: 0,
                },
            },
            action: first.action,
            trigger_at_minute: first.trigger_at_minute,
        };
    }

    /// Check if a phase should trigger right now.
    ///
    /// If so, the respective action will be returned.  The evaluation is
    /// exactly [`PhaseTimer::step`] at the current number of elapsed minutes,
    /// which depends on the wall clock; everything else is pinned down.
    pub fn check(&mut self) -> (r: Option<T>)
        requires
            old(self).wf(),
        ensures
            final(self).wf(),
            exists|elapsed: int|
                0 <= elapsed && (*final(self), r) == #[trigger] old(self).step(elapsed),
            final(self).spec_phases() == old(self).spec_phases(),
            final(self).spec_cursor() >= old(self).spec_cursor(),
    {
        let minutes_since_start = self.elapsed_minutes();
        let r = self.action_at_time(minutes_since_start);
        proof {
            assert((*self, r) == old(self).step(minutes_since_start as int));
        }
        r
    }

    /// Evaluate the timer as if `minutes` minutes had elapsed since its
    /// start: the behavior is exactly [`PhaseTimer::step`] at `minutes`.
    ///
    /// Trigger the current phase if it is due — even if the timer might
    /// switch to the next phase just afterwards.  Otherwise, promote to the
    /// next phase if its trigger time has been reached; the newly promoted
    /// phase is not evaluated until the next call.
    pub fn action_at_time(&mut self, minutes: usize) -> (r: Option<T>)
        requires
            old(self).wf(),
        ensures
            final(self).wf(),
            (*final(self), r) == old(self).step(minutes as int),
            final(self).spec_phases() == old(self).spec_phases(),
            final(self).spec_cursor() >= old(self).spec_cursor(),
    {
        if self.should_trigger_current_phase(minutes) {
            return Some(self.current_phase.action);
        }

        // Check if we should switch to the next phase.
        let phase_count = self.original_phases.len();
        if self.cursor + 1 < phase_count {
            let next_trigger = self.original_phases[self.cursor + 1].trigger_at_minute;
            if minutes >= next_trigger {
                self.cursor = self.cursor + 1;
                self.current_phase = self.original_phases[self.cursor];
            }
        }

        None
    }

    /// Check if the current phase should trigger at the given time, and if
    /// so record the firing in its state.
    ///
    /// One-time phases trigger once when their trigger time is reached.
    /// Recurring phases trigger at their initial time and then at regular
    /// intervals, catching up to the most recently due occurrence only.
    fn should_trigger_current_phase(&mut self, minutes: usize) -> (fired: bool)
        requires
            old(self).wf(),
        ensures
            final(self).wf(),
            fired == old(self).current_phase.fires(minutes as int),
            fired ==> *final(self) == (PhaseTimer {
                current_phase: old(self).current_phase.after_firing(),
                ..*old(self)
            }),
            // A firing recurring phase records the occurrence that was due —
            // its trigger minute for the first firing, one interval past the
            // previous occurrence afterwards — never the raw elapsed time.
            (fired && old(self).current_phase.phase_type is Recurring)
                ==> final(self).current_phase.spec_last_action_minute() == old(
                self,
            ).current_phase.next_due(),
            !fired ==> *final(self) == *old(self),
    {
        let trigger_at = self.current_phase.trigger_at_minute;
        match self.current_phase.phase_type {
            PhaseType::OneTime { triggered } => {
                if !triggered && minutes >= trigger_at {
                    self.current_phase.phase_type = PhaseType::OneTime { triggered: true };
                    true
                } else {
                    false
                }
            },
            PhaseType::Recurring { interval, last_action_minute } => {
                if last_action_minute == 0 {
                    // First trigger - use the phase's trigger time.
                    if minutes >= trigger_at {
                        self.current_phase.phase_type = PhaseType::Recurring {
                            interval,
                            last_action_minute: trigger_at,
                        };
                        true
                    } else {
                        false
                    }
                } else {
                    // Subsequent triggers - due again one interval after the
                    // last recorded firing.  The comparison is phrased so the
                    // sum `last_action_minute + interval` is only formed once
                    // it is known to fit.
                    if minutes >= last_action_minute && minutes - last_action_minute >= interval {
                        self.current_phase.phase_type = PhaseType::Recurring {
                            interval,
                            last_action_minute: last_action_minute + interval,
                        };
                        true
                    } else {
                        false
                    }
                }
            },
        }
    }

    /// Get the current elapsed minutes since the timer started: exactly
    /// [`spec_minutes_between`] of the stored start instant and the wall
    /// clock's reading, which is the only unknown.  In particular, within the
    /// first minute after construction or reset this returns `0`, and a
    /// backward wall-clock jump is clamped to zero rather than wrapping.
    pub fn elapsed_minutes(&self) -> (r: usize)
        ensures
            exists|now: int| r as int == spec_minutes_between(self.start_time as int, now),
    {
        let now = now_epoch_millis();
        let r = minutes_between(self.start_time, now);
        proof {
            assert(r as int == spec_minutes_between(self.start_time as int, now as int));
        }
        r
    }

    /// The instant the timer was started or last reset, in milliseconds
    /// since the Unix epoch.
    pub fn start_time(&self) -> (r: i64)
        ensures
            r == self.start_time,
    {
        self.start_time
    }

    /// The timer state left behind by a sequence of checks, the k-th of which
    /// observes `polls[k]` elapsed minutes.
    pub open spec fn run_state(self, polls: Seq<int>) -> PhaseTimer<T>
        decreases polls.len(),
    {
        if polls.len() == 0 {
            self
        } else {
            self.step(polls[0]).0.run_state(polls.drop_first())
        }
    }

    /// The actions returned by a sequence of checks, the k-th of which
    /// observes `polls[k]` elapsed minutes.
    pub open spec fn run_outputs(self, polls: Seq<int>) -> Seq<Option<T>>
        decreases polls.len(),
    {
        if polls.len() == 0 {
            Seq::empty()
        } else {
            seq![self.step(polls[0]).1] + self.step(polls[0]).0.run_outputs(polls.drop_first())
        }
    }
}

/// A single step preserves the invariant, keeps the phase definitions and the
/// start instant, never moves the cursor backwards, and only ever returns the
/// action of the phase under the cursor.
pub proof fn lemma_step_preserves<T: Copy>(s: PhaseTimer<T>, elapsed: int)
    requires
        s.wf(),
    ensures
        s.step(elapsed).0.wf(),
        s.step(elapsed).0.original_phases == s.original_phases,
        s.step(elapsed).0.start_time == s.start_time,
        s.step(elapsed).0.cursor >= s.cursor,
        s.step(elapsed).1 matches Some(a) ==> a == s.original_phases@[s.cursor as int].action,
{
}

/// Earliest phase first: in a stable sort of a phase
/// list by trigger minute, the first phase carries the minimum trigger minute
/// of the whole input, and among the input phases carrying that minimum it is
/// the first in insertion order.  Together with the contract of
/// [`PhaseTimer::new`] (`current == phases[0]`), this pins down which phase a
/// new timer starts with.
pub proof fn lemma_first_phase_is_earliest<T>(input: Seq<Phase<T>>, out: Seq<Phase<T>>)
    requires
        input.len() >= 1,
        stable_sorted_of(input, out),
    ensures
        forall|i: int|
            0 <= i < input.len() ==> out[0].trigger_at_minute <= (#[trigger] input[i]).trigger_at_minute,
        exists|i: int|
            0 <= i < input.len() && out[0] == input[i] && (forall|j: int|
                0 <= j < i ==> (#[trigger] input[j]).trigger_at_minute > out[0].trigger_at_minute),
{
    let k = out[0].trigger_at_minute;
    // (a) k is the minimum trigger minute of the input.
    assert forall|i: int|
        0 <= i < input.len() implies k <= (#[trigger] input[i]).trigger_at_minute by {
        let ki = input[i].trigger_at_minute;
        if ki < k {
            input.lemma_filter_contains(|p: Phase<T>| p.trigger_at_minute == ki, i);
            assert(with_trigger(input, ki).contains(input[i]));
            assert(with_trigger(out, ki).len() > 0);
            lemma_filter_subset(out, |p: Phase<T>| p.trigger_at_minute == ki);
            out.lemma_filter_pred(|p: Phase<T>| p.trigger_at_minute == ki, 0);
            let e = with_trigger(out, ki)[0];
            assert(out.contains(e));
            let oi = choose|oi: int| 0 <= oi < out.len() && out[oi] == e;
            assert(out[0].trigger_at_minute <= out[oi].trigger_at_minute);
            assert(false);
        }
    }
    // (b) out[0] is the first input phase with trigger minute k.
    let pred = |p: Phase<T>| p.trigger_at_minute == k;
    lemma_filter_head(out, pred);
    assert(with_trigger(out, k)[0] == out[0]);
    lemma_filter_first(input, pred);
    let i = choose|i: int|
        0 <= i < input.len() && input[i] == input.filter(pred)[0] && pred(input[i]) && (forall|
            j: int,
        | 0 <= j < i ==> !pred(#[trigger] input[j]));
    assert(out[0] == input[i]);
    assert forall|j: int| 0 <= j < i implies (#[trigger] input[j]).trigger_at_minute > k by {
        assert(!pred(input[j]));
        assert(input[j].trigger_at_minute >= k);
    }
}

/// Nothing happens before the first trigger minute: while the cursor still
/// sits on the earliest phase — as it does right after construction or a
/// reset, and until time passes the next phase's trigger — a check at any
/// elapsed time strictly before that phase's trigger minute returns no
/// action and does not change state at all.  The only hypothesis beyond the
/// structural invariant, [`Phase::no_early_due`], holds in every state a
/// constructed timer can reach ([`lemma_no_early_due_is_invariant`]).
pub proof fn lemma_no_action_before_first_trigger<T: Copy>(s: PhaseTimer<T>, elapsed: int)
    requires
        s.wf(),
        s.cursor == 0,
        s.current_phase.no_early_due(),
        0 <= elapsed < s.original_phases@[0].trigger_at_minute,
    ensures
        s.step(elapsed) == (s, Option::<T>::None),
{
    assert(!s.current_phase.fires(elapsed));
    if s.original_phases@.len() > 1 {
        assert(s.original_phases@[0].trigger_at_minute <= s.original_phases@[1].trigger_at_minute);
    }
}

/// The hypothesis of the law above is no extra assumption on reachable
/// states: the constructors hand out phases that satisfy it (their firing
/// record is `0`), and a step keeps it — for the current phase and for the
/// stored definitions, which a step never touches.
pub proof fn lemma_no_early_due_is_invariant<T: Copy>(s: PhaseTimer<T>, elapsed: int)
    requires
        s.wf(),
        s.current_phase.no_early_due(),
        forall|i: int|
            0 <= i < s.original_phases@.len() ==> (#[trigger] s.original_phases@[i]).no_early_due(),
        0 <= elapsed <= usize::MAX,
    ensures
        s.step(elapsed).0.current_phase.no_early_due(),
        s.step(elapsed).0.original_phases == s.original_phases,
{
}

/// Recurring catch-up: when a recurring phase fires, it
/// fires once (a check returns at most one action by construction), and its
/// recorded occurrence advances to exactly the minute that was due: by one
/// interval past the previous occurrence, or to the phase's trigger minute
/// for the first firing — never to the raw elapsed time.  The resulting
/// phase is [`Phase::after_firing`] of the old one, a function of the phase
/// alone, so how late the poll arrived cannot enter the record.
pub proof fn lemma_recurring_catch_up<T: Copy>(s: PhaseTimer<T>, elapsed: int)
    requires
        s.wf(),
        s.current_phase.phase_type matches PhaseType::Recurring { .. },
        s.current_phase.fires(elapsed),
        elapsed <= usize::MAX,
    ensures
        s.step(elapsed).1 == Some(s.current_phase.action),
        s.step(elapsed).0.current_phase == s.current_phase.after_firing(),
        s.step(elapsed).0.current_phase.spec_last_action_minute() == s.current_phase.next_due(),
        s.current_phase.spec_last_action_minute() != 0 ==> s.step(
            elapsed,
        ).0.current_phase.spec_last_action_minute() == s.current_phase.spec_last_action_minute()
            + s.current_phase.spec_interval(),
        s.current_phase.spec_last_action_minute() == 0 ==> s.step(
            elapsed,
        ).0.current_phase.spec_last_action_minute() == s.current_phase.trigger_at_minute,
        s.step(elapsed).0.current_phase.spec_interval() == s.current_phase.spec_interval(),
{
}

/// A sequence of checks returns one (possibly empty) action per check.
pub proof fn lemma_run_outputs_len<T: Copy>(s: PhaseTimer<T>, polls: Seq<int>)
    ensures
        s.run_outputs(polls).len() == polls.len(),
    decreases polls.len(),
{
    if polls.len() > 0 {
        lemma_run_outputs_len(s.step(polls[0]).0, polls.drop_first());
    }
}

/// Checked behavior does not depend on the stored start instant: two timers
/// that agree on phase definitions, cursor and current phase return the same
/// actions for every sequence of observed elapsed minutes.
pub proof fn lemma_outputs_ignore_start_time<T: Copy>(
    a: PhaseTimer<T>,
    b: PhaseTimer<T>,
    polls: Seq<int>,
)
    requires
        a.original_phases == b.original_phases,
        a.cursor == b.cursor,
        a.current_phase == b.current_phase,
    ensures
        a.run_outputs(polls) == b.run_outputs(polls),
    decreases polls.len(),
{
    if polls.len() > 0 {
        let (a1, ra) = a.step(polls[0]);
        let (b1, rb) = b.step(polls[0]);
        assert(ra == rb);
        lemma_outputs_ignore_start_time(a1, b1, polls.drop_first());
    }
}

/// Reset law: a timer that has just been reset (cursor
/// at the start, current phase reinitialized, definitions kept — exactly what
/// [`PhaseTimer::reset`] ensures) returns the same actions, for every
/// sequence of observed elapsed minutes, as a freshly constructed timer over
/// the same definitions (exactly what [`PhaseTimer::new`] ensures, given that
/// stored definitions carry pristine firing state).
pub proof fn lemma_reset_law<T: Copy>(
    after_reset: PhaseTimer<T>,
    fresh: PhaseTimer<T>,
    polls: Seq<int>,
)
    requires
        after_reset.original_phases == fresh.original_phases,
        after_reset.cursor == 0,
        fresh.cursor == 0,
        fresh.original_phases@.len() >= 1,
        fresh.current_phase == fresh.original_phases@[0],
        fresh.current_phase.phase_type.pristine(),
        after_reset.current_phase == after_reset.original_phases@[0].reinitialized(),
    ensures
        after_reset.run_outputs(polls) == fresh.run_outputs(polls),
{
    assert(after_reset.current_phase == fresh.current_phase);
    lemma_outputs_ignore_start_time(after_reset, fresh, polls);
}

/// Monotonic promotion: across any sequence of checks
/// the phase definitions are untouched, the cursor never decreases, and every
/// action returned along the way belongs to a phase at or past the cursor
/// held at the start.
pub proof fn lemma_monotonic_promotion<T: Copy>(s: PhaseTimer<T>, polls: Seq<int>)
    requires
        s.wf(),
    ensures
        s.run_state(polls).wf(),
        s.run_state(polls).original_phases == s.original_phases,
        s.run_state(polls).cursor >= s.cursor,
        forall|k: int|
            0 <= k < polls.len() && (#[trigger] s.run_outputs(polls)[k]) is Some ==> exists|j: int|
                s.cursor <= j < s.original_phases@.len() && s.run_outputs(polls)[k] == Some(
                    s.original_phases@[j].action,
                ),
    decreases polls.len(),
{
    if polls.len() > 0 {
        let (s1, r) = s.step(polls[0]);
        lemma_step_preserves(s, polls[0]);
        lemma_monotonic_promotion(s1, polls.drop_first());
        let outs = s.run_outputs(polls);
        let rest = s1.run_outputs(polls.drop_first());
        lemma_run_outputs_len(s, polls);
        lemma_run_outputs_len(s1, polls.drop_first());
        assert forall|k: int|
            0 <= k < polls.len() && (#[trigger] outs[k]) is Some implies exists|j: int|
            s.cursor <= j < s.original_phases@.len() && outs[k] == Some(
                s.original_phases@[j].action,
            ) by {
            if k == 0 {
                assert(outs[0] == r);
                assert(r matches Some(a) ==> a == s.original_phases@[s.cursor as int].action);
                assert(s.cursor < s.original_phases@.len());
            } else {
                assert(outs[k] == rest[k - 1]);
                let j = choose|j: int|
                    s1.cursor <= j < s1.original_phases@.len() && rest[k - 1] == Some(
                        s1.original_phases@[j].action,
                    );
                assert(s.cursor <= j < s.original_phases@.len());
                assert(outs[k] == Some(s.original_phases@[j].action));
            }
        }
    }
}

/// A spent one-time phase never fires while it remains current, and once the
/// timer promotes past it every later action comes from a strictly later
/// phase.
pub proof fn lemma_spent_one_time_never_fires<T: Copy>(s: PhaseTimer<T>, polls: Seq<int>)
    requires
        s.wf(),
        s.current_phase.phase_type == (PhaseType::OneTime { triggered: true }),
    ensures
        forall|k: int|
            0 <= k < polls.len() && (#[trigger] s.run_outputs(polls)[k]) is Some ==> exists|j: int|
                s.cursor < j < s.original_phases@.len() && s.run_outputs(polls)[k] == Some(
                    s.original_phases@[j].action,
                ),
    decreases polls.len(),
{
    if polls.len() > 0 {
        let (s1, r) = s.step(polls[0]);
        lemma_step_preserves(s, polls[0]);
        assert(!s.current_phase.fires(polls[0]));
        assert(r is None);
        let outs = s.run_outputs(polls);
        let rest = s1.run_outputs(polls.drop_first());
        lemma_run_outputs_len(s, polls);
        lemma_run_outputs_len(s1, polls.drop_first());
        if s1.cursor == s.cursor {
            assert(s1 == s);
            lemma_spent_one_time_never_fires(s1, polls.drop_first());
            assert forall|k: int|
                0 <= k < polls.len() && (#[trigger] outs[k]) is Some implies exists|j: int|
                s.cursor < j < s.original_phases@.len() && outs[k] == Some(
                    s.original_phases@[j].action,
                ) by {
                assert(k != 0);
                assert(outs[k] == rest[k - 1]);
                let j = choose|j: int|
                    s1.cursor < j < s1.original_phases@.len() && rest[k - 1] == Some(
                        s1.original_phases@[j].action,
                    );
                assert(outs[k] == Some(s.original_phases@[j].action));
            }
        } else {
            assert(s1.cursor == s.cursor + 1);
            lemma_monotonic_promotion(s1, polls.drop_first());
            assert forall|k: int|
                0 <= k < polls.len() && (#[trigger] outs[k]) is Some implies exists|j: int|
                s.cursor < j < s.original_phases@.len() && outs[k] == Some(
                    s.original_phases@[j].action,
                ) by {
                assert(k != 0);
                assert(outs[k] == rest[k - 1]);
                let j = choose|j: int|
                    s1.cursor <= j < s1.original_phases@.len() && rest[k - 1] == Some(
                        s1.original_phases@[j].action,
                    );
                assert(outs[k] == Some(s.original_phases@[j].action));
            }
        }
    }
}

/// One-shot idempotence: if a check fires the current
/// one-time phase, then no later check — however many, at whatever elapsed
/// times — returns that phase again: every later action belongs to a strictly
/// later phase.  Only a reset (which rebuilds the state from the kept
/// definitions) can arm it again.
pub proof fn lemma_one_shot_idempotence<T: Copy>(s: PhaseTimer<T>, first: int, polls: Seq<int>)
    requires
        s.wf(),
        s.current_phase.phase_type matches PhaseType::OneTime { .. },
        s.step(first).1 is Some,
    ensures
        forall|k: int|
            0 <= k < polls.len() && (#[trigger] s.step(first).0.run_outputs(polls)[k]) is Some
                ==> exists|j: int|
                s.cursor < j < s.original_phases@.len() && s.step(first).0.run_outputs(polls)[k]
                    == Some(s.original_phases@[j].action),
{
    let s1 = s.step(first).0;
    lemma_step_preserves(s, first);
    assert(s1.current_phase.phase_type == (PhaseType::OneTime { triggered: true }));
    lemma_spent_one_time_never_fires(s1, polls);
}

/// Stable insertion sort by trigger minute.
fn sort_phases<T: Copy>(input: Vec<Phase<T>>) -> (out: Vec<Phase<T>>)
    ensures
        stable_sorted_of(input@, out@),
        drawn_from(out@, input@),
{
    let mut out: Vec<Phase<T>> = Vec::new();
    let mut i: usize = 0;
    while i < input.len()
        invariant
            i <= input@.len(),
            out@.len() == i,
            sorted_by_trigger(out@),
            forall|k: usize| #[trigger] with_trigger(out@, k) == with_trigger(
                input@.take(i as int),
                k,
            ),
            drawn_from(out@, input@),
        decreases input@.len() - i,
    {
        let x = input[i];
        let mut pos: usize = out.len();
        while pos > 0 && out[pos - 1].trigger_at_minute > x.trigger_at_minute
            invariant
                pos <= out@.len(),
                forall|j: int|
                    pos <= j < out@.len() ==> (#[trigger] out@[j]).trigger_at_minute
                        > x.trigger_at_minute,
            decreases pos,
        {
            pos = pos - 1;
        }
        let ghost prev = out@;
        out.insert(pos, x);
        proof {
            lemma_stable_insert(prev, input@, x, pos as int, i as int);
            assert forall|j: int| #![trigger out@[j]]
                0 <= j < out@.len() implies exists|l: int| #![trigger input@[l]]
                0 <= l < input@.len() && out@[j] == input@[l] by {
                if j < pos {
                    assert(prev[j] == prev[j]);
                    let l = choose|l: int| #![trigger input@[l]]
                        0 <= l < input@.len() && prev[j] == input@[l];
                    assert(out@[j] == input@[l]);
                } else if j == pos {
                    assert(out@[j] == input@[i as int]);
                } else {
                    assert(prev[j - 1] == prev[j - 1]);
                    let l = choose|l: int| #![trigger input@[l]]
                        0 <= l < input@.len() && prev[j - 1] == input@[l];
                    assert(out@[j] == input@[l]);
                }
            }
            assert(drawn_from(out@, input@));
        }
        i = i + 1;
    }
    proof {
        assert(input@.take(input@.len() as int) == input@);
    }
    out
}

/// Inserting `x` right after the run of elements with trigger minute at most
/// `x`'s preserves sortedness and extends the per-trigger subsequences the
/// stable way.
proof fn lemma_stable_insert<T>(prev: Seq<Phase<T>>, input: Seq<Phase<T>>, x: Phase<T>, pos: int, i: int)
    requires
        0 <= pos <= prev.len(),
        0 <= i < input.len(),
        x == input[i],
        prev.len() == i,
        sorted_by_trigger(prev),
        forall|j: int| pos <= j < prev.len() ==> (#[trigger] prev[j]).trigger_at_minute
            > x.trigger_at_minute,
        pos > 0 ==> prev[pos - 1].trigger_at_minute <= x.trigger_at_minute,
        forall|k: usize| #[trigger] with_trigger(prev, k) == with_trigger(input.take(i), k),
    ensures
        sorted_by_trigger(prev.insert(pos, x)),
        prev.insert(pos, x).len() == i + 1,
        forall|k: usize| #[trigger] with_trigger(prev.insert(pos, x), k) == with_trigger(
            input.take(i + 1),
            k,
        ),
{
    let cur = prev.insert(pos, x);
    assert(sorted_by_trigger(cur)) by {
        assert forall|a: int, b: int| 0 <= a < b < cur.len() implies #[trigger] cur[a].trigger_at_minute
            <= #[trigger] cur[b].trigger_at_minute by {
            if a < pos && b < pos {
            } else if a < pos && b == pos {
                if pos > 0 {
                    assert(cur[a].trigger_at_minute <= prev[pos - 1].trigger_at_minute);
                }
            } else if a == pos && b > pos {
                assert(prev[b - 1].trigger_at_minute > x.trigger_at_minute);
            } else if a < pos && b > pos {
                assert(cur[a] == prev[a]);
                assert(cur[b] == prev[b - 1]);
            } else if a > pos && b > pos {
                assert(cur[a] == prev[a - 1]);
                assert(cur[b] == prev[b - 1]);
            }
        }
    }
    assert forall|k: usize| #[trigger] with_trigger(cur, k) == with_trigger(input.take(i + 1), k) by {
        lemma_insert_filter(prev, x, pos, k);
        assert(input.take(i + 1) == input.take(i).push(x));
        lemma_filter_push(input.take(i), x, |p: Phase<T>| p.trigger_at_minute == k);
    }
}

/// Filtering by trigger minute after inserting `x` after all its equals:
/// `x`'s own class gains `x` at the end, every other class is unchanged.
proof fn lemma_insert_filter<T>(prev: Seq<Phase<T>>, x: Phase<T>, pos: int, k: usize)
    requires
        0 <= pos <= prev.len(),
        forall|j: int| pos <= j < prev.len() ==> (#[trigger] prev[j]).trigger_at_minute
            > x.trigger_at_minute,
    ensures
        x.trigger_at_minute == k ==> with_trigger(prev.insert(pos, x), k) == with_trigger(
            prev,
            k,
        ).push(x),
        x.trigger_at_minute != k ==> with_trigger(prev.insert(pos, x), k) == with_trigger(prev, k),
{
    let pred = |p: Phase<T>| p.trigger_at_minute == k;
    let left = prev.take(pos);
    let right = prev.skip(pos);
    assert(prev.insert(pos, x) =~= left + seq![x] + right);
    assert(prev =~= left + right);
    Seq::filter_distributes_over_add(left + seq![x], right, pred);
    Seq::filter_distributes_over_add(left, seq![x], pred);
    Seq::filter_distributes_over_add(left, right, pred);
    lemma_filter_singleton(x, pred);
    if x.trigger_at_minute == k {
        // Everything to the right of the insertion point has a strictly
        // larger trigger minute, so x's class ends before it.
        lemma_filter_none(right, pred);
        assert(with_trigger(prev.insert(pos, x), k) =~= with_trigger(prev, k).push(x));
    } else {
        assert(with_trigger(prev.insert(pos, x), k) =~= with_trigger(prev, k));
    }
}

} // verus!
