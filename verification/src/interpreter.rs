//! Key-event interpretation: debouncing and the push/toggle state machines.
//!
//! The interpreter consumes the stream of key events one step at a time.
//! Each step sees the current event and, after the settle delay, one peeked
//! following event. A release immediately followed by a press with identical
//! keycode and identical timestamp is a spurious repeat: both events are
//! discarded. Every other current event is classified through the binding
//! tables and drives the push or toggle state machine, which updates the
//! desired capture state and returns the hardware action to perform. The
//! caller owns the event stream and the mixer handle: it sleeps the delays,
//! mirrors the desired state into the shared flag, and writes the hardware.

use vstd::prelude::*;

use crate::bindings::{spec_lookup, BindingEntry, BindingTable, Role};
use crate::mask::ModifierMask;

verus! {

/// Default unmute delay in milliseconds: how long a push press waits before
/// the microphone opens.
pub const DEFAULT_UNMUTE_DELAY_MS: u64 = 150;

/// Settle delay in milliseconds: the short fixed wait before the following
/// event is peeked, which lets a spurious repeat arrive in time to be seen.
pub const SETTLE_DELAY_MS: u64 = 30;

/// The class of a key event: a key went down or a key came up.
#[derive(Clone, Copy, PartialEq, Eq, Structural, Debug)]
pub enum EventKind {
    Press,
    Release,
}

/// One keyboard event as the interpreter sees it: its class, the modifier
/// state the event reports, the physical keycode, and the original event
/// timestamp.
#[derive(Clone, Copy, PartialEq, Eq, Structural, Debug)]
pub struct KeyEvent {
    pub kind: EventKind,
    pub modifiers: ModifierMask,
    pub code: u8,
    pub time: u32,
}

/// Everything the event stream can deliver: a key event, an event class
/// known to be harmless, or one the protocol does not define here — the
/// latter is fatal to the interpreter.
#[derive(Clone, Copy, PartialEq, Eq, Structural, Debug)]
pub enum StreamEvent {
    Key(KeyEvent),
    Ignorable,
    Unsupported,
}

impl StreamEvent {
    /// Whether receiving this event must terminate the interpreter. Key
    /// events and explicitly ignorable classes are not fatal; an unsupported
    /// event class is.
    pub fn is_fatal(&self) -> (r: bool)
        ensures
            r == (*self is Unsupported),
    {
        match self {
            StreamEvent::Unsupported => true,
            _ => false,
        }
    }
}

/// The hardware action one step asks its caller to perform.
#[derive(Clone, Copy, PartialEq, Eq, Structural, Debug)]
pub enum Action {
    /// Leave the hardware alone.
    Nothing,
    /// Sleep the configured unmute delay, then store `true` into the shared
    /// desired state and switch capture on for every channel.
    UnmuteWithDelay,
    /// Store `false` into the shared desired state and switch capture off
    /// for every channel, with no delay.
    MuteImmediately,
}

/// What one step decided: the action to perform, and whether the current
/// and peeked events were discarded as a spurious repeat.
#[derive(Clone, Copy, PartialEq, Eq, Structural, Debug)]
pub struct StepResult {
    pub action: Action,
    pub discarded: bool,
}

/// The debounce rule: the current event is a release and the peeked event
/// is a press carrying the identical keycode and the identical original
/// timestamp. Such a pair is a spurious repeat, not a real cycle.
pub open spec fn is_spurious_repeat(current: KeyEvent, peeked: Option<KeyEvent>) -> bool {
    &&& current.kind is Release
    &&& peeked matches Some(p) && p.kind is Press && p.code == current.code && p.time
        == current.time
}

/// How an event is classified: press events are looked up in the press
/// table, release events in the release table, each by the event's own
/// modifier state and keycode.
pub open spec fn classify_spec(
    press: Seq<BindingEntry>,
    release: Seq<BindingEntry>,
    ev: KeyEvent,
) -> Option<Role> {
    match ev.kind {
        EventKind::Press => spec_lookup(press, ev.modifiers, ev.code),
        EventKind::Release => spec_lookup(release, ev.modifiers, ev.code),
    }
}

/// The push (momentary) state machine: a press unmutes — after the delay
/// the action carries — and a release mutes immediately. The toggle latch
/// is not touched. Result: (desired, latch, action).
pub open spec fn push_transition(desired: bool, latch: bool, kind: EventKind) -> (
    bool,
    bool,
    Action,
) {
    match kind {
        EventKind::Press => (true, latch, Action::UnmuteWithDelay),
        EventKind::Release => (false, latch, Action::MuteImmediately),
    }
}

/// The toggle (latching) state machine over the three logical states
/// Unmuted (desired), MuteLatched (not desired, latch set) and Muted (not
/// desired, latch clear): a press while unmuted mutes immediately and sets
/// the latch; the matching release only clears the latch; a release while
/// muted with the latch clear unmutes; everything else does nothing.
/// Result: (desired, latch, action).
pub open spec fn toggle_transition(desired: bool, latch: bool, kind: EventKind) -> (
    bool,
    bool,
    Action,
) {
    match kind {
        EventKind::Press => if desired {
            (false, true, Action::MuteImmediately)
        } else {
            (desired, latch, Action::Nothing)
        },
        EventKind::Release => if latch {
            (desired, false, Action::Nothing)
        } else if !desired {
            (true, false, Action::UnmuteWithDelay)
        } else {
            (desired, latch, Action::Nothing)
        },
    }
}

/// One interpretation step for a classified (non-discarded) event: an
/// unmatched event is a no-op; a matched one drives its role's state
/// machine. Result: (desired, latch, action).
pub open spec fn step_transition(
    press: Seq<BindingEntry>,
    release: Seq<BindingEntry>,
    desired: bool,
    latch: bool,
    ev: KeyEvent,
) -> (bool, bool, Action) {
    match classify_spec(press, release, ev) {
        None => (desired, latch, Action::Nothing),
        Some(Role::Push) => push_transition(desired, latch, ev.kind),
        Some(Role::Toggle) => toggle_transition(desired, latch, ev.kind),
    }
}

/// The interpreter: the two binding tables, the desired capture state it
/// decides (mirrored by the caller into the shared flag), and the toggle
/// latch.
pub struct KeyEventInterpreter {
    pub press: BindingTable,
    pub release: BindingTable,
    pub desired: bool,
    pub latch: bool,
}

impl KeyEventInterpreter {
    /// Both binding tables are well-formed.
    pub open spec fn wf(self) -> bool {
        self.press.wf() && self.release.wf()
    }

    /// A fresh interpreter over the resolved tables: muted, latch clear.
    pub fn new(press: BindingTable, release: BindingTable) -> (r: KeyEventInterpreter)
        requires
            press.wf(),
            release.wf(),
        ensures
            r.wf(),
            r.press@ == press@,
            r.release@ == release@,
            r.desired == false,
            r.latch == false,
    {
        KeyEventInterpreter { press, release, desired: false, latch: false }
    }

    /// One iteration of the main loop, after the settle delay: the current
    /// event and the peeked following event, if any. A spurious repeat
    /// discards both events and changes nothing — neither triggers any
    /// role. Otherwise the current event is classified and drives its state
    /// machine; the caller keeps the peeked event as the next current one.
    pub fn step(&mut self, current: KeyEvent, peeked: Option<KeyEvent>) -> (r: StepResult)
        requires
            old(self).wf(),
        ensures
            final(self).wf(),
            final(self).press@ == old(self).press@,
            final(self).release@ == old(self).release@,
            r.discarded == is_spurious_repeat(current, peeked),
            is_spurious_repeat(current, peeked) ==> (r.action is Nothing && final(self).desired
                == old(self).desired && final(self).latch == old(self).latch),
            !is_spurious_repeat(current, peeked) ==> (final(self).desired, final(self).latch, r.action)
                == step_transition(
                old(self).press@,
                old(self).release@,
                old(self).desired,
                old(self).latch,
                current,
            ),
    {
        let spurious = current.kind == EventKind::Release && match peeked {
            Some(p) => p.kind == EventKind::Press && p.code == current.code && p.time
                == current.time,
            None => false,
        };
        if spurious {
            return StepResult { action: Action::Nothing, discarded: true };
        }
        let role = match current.kind {
            EventKind::Press => self.press.lookup(current.modifiers, current.code),
            EventKind::Release => self.release.lookup(current.modifiers, current.code),
        };
        let action = match role {
            None => Action::Nothing,
            Some(Role::Push) => match current.kind {
                EventKind::Press => {
                    self.desired = true;
                    Action::UnmuteWithDelay
                },
                EventKind::Release => {
                    self.desired = false;
                    Action::MuteImmediately
                },
            },
            Some(Role::Toggle) => match current.kind {
                EventKind::Press => {
                    if self.desired {
                        self.desired = false;
                        self.latch = true;
                        Action::MuteImmediately
                    } else {
                        Action::Nothing
                    }
                },
                EventKind::Release => {
                    if self.latch {
                        self.latch = false;
                        Action::Nothing
                    } else if !self.desired {
                        self.desired = true;
                        Action::UnmuteWithDelay
                    } else {
                        Action::Nothing
                    }
                },
            },
        };
        StepResult { action, discarded: false }
    }
}

/// Push-to-talk over one press/release pair: the press unmutes — once, with
/// the configured delay carried by the action — and the matching release
/// mutes immediately, however long the key was held and whatever the state
/// was before.
pub proof fn lemma_push_cycle(
    press: Seq<BindingEntry>,
    release: Seq<BindingEntry>,
    desired: bool,
    latch: bool,
    p: KeyEvent,
    rl: KeyEvent,
)
    requires
        p.kind is Press,
        rl.kind is Release,
        spec_lookup(press, p.modifiers, p.code) == Some(Role::Push),
        spec_lookup(release, rl.modifiers, rl.code) == Some(Role::Push),
    ensures
        step_transition(press, release, desired, latch, p) == (true, latch, Action::UnmuteWithDelay),
        step_transition(press, release, true, latch, rl) == (false, latch, Action::MuteImmediately),
{
}

/// The desired state and latch after interpreting a whole sequence of
/// classified events, one step at a time.
pub open spec fn run_transitions(
    press: Seq<BindingEntry>,
    release: Seq<BindingEntry>,
    desired: bool,
    latch: bool,
    evs: Seq<KeyEvent>,
) -> (bool, bool)
    decreases evs.len(),
{
    if evs.len() == 0 {
        (desired, latch)
    } else {
        let (d1, l1, _a1) = step_transition(press, release, desired, latch, evs[0]);
        run_transitions(press, release, d1, l1, evs.subrange(1, evs.len() as int))
    }
}

/// A sequence made entirely of full toggle cycles: events alternate press,
/// release, press, release, …, every one classified as the toggle role.
pub open spec fn all_toggle_cycles(
    press: Seq<BindingEntry>,
    release: Seq<BindingEntry>,
    evs: Seq<KeyEvent>,
) -> bool {
    &&& evs.len() % 2 == 0
    &&& forall|i: int|
        0 <= i < evs.len() ==> {
            &&& (i % 2 == 0 ==> (#[trigger] evs[i]).kind is Press)
            &&& (i % 2 == 1 ==> evs[i].kind is Release)
            &&& classify_spec(press, release, evs[i]) == Some(Role::Toggle)
        }
}

/// One full toggle cycle — a toggle press followed by its matching release,
/// started with the latch clear — flips the desired capture state exactly
/// once and leaves the latch clear again, whichever state it started from.
/// The enforcer never writes the desired state, so hardware corrections
/// between the two events cannot change this count.
pub proof fn lemma_toggle_cycle_flips_once(
    press: Seq<BindingEntry>,
    release: Seq<BindingEntry>,
    desired: bool,
    p: KeyEvent,
    rl: KeyEvent,
)
    requires
        p.kind is Press,
        rl.kind is Release,
        spec_lookup(press, p.modifiers, p.code) == Some(Role::Toggle),
        spec_lookup(release, rl.modifiers, rl.code) == Some(Role::Toggle),
    ensures
        ({
            let (d1, l1, _a1) = step_transition(press, release, desired, false, p);
            let (d2, l2, _a2) = step_transition(press, release, d1, l1, rl);
            d2 == !desired && l2 == false
        }),
{
}

/// Over any sequence of full toggle cycles started with the latch clear,
/// the desired capture state flips exactly once per cycle: after the run it
/// equals the starting state flipped iff the number of cycles is odd, and
/// the latch is clear again.
pub proof fn lemma_toggle_cycles_flip_once_each(
    press: Seq<BindingEntry>,
    release: Seq<BindingEntry>,
    desired: bool,
    evs: Seq<KeyEvent>,
)
    requires
        all_toggle_cycles(press, release, evs),
    ensures
        ({
            let (d, l) = run_transitions(press, release, desired, false, evs);
            &&& l == false
            &&& d == (desired != (((evs.len() / 2) % 2) == 1))
        }),
    decreases evs.len(),
{
    if evs.len() != 0 {
        let p = evs[0];
        let rl = evs[1];
        let (d1, l1, _a1) = step_transition(press, release, desired, false, p);
        let (d2, l2, _a2) = step_transition(press, release, d1, l1, rl);
        assert(d2 == !desired && l2 == false);
        let tail = evs.subrange(1, evs.len() as int);
        let rest = evs.subrange(2, evs.len() as int);
        assert(tail[0] == rl);
        assert(tail.subrange(1, tail.len() as int) =~= rest);
        assert(run_transitions(press, release, desired, false, evs) == run_transitions(
            press,
            release,
            d1,
            l1,
            tail,
        ));
        assert(run_transitions(press, release, d1, l1, tail) == run_transitions(
            press,
            release,
            d2,
            l2,
            rest,
        ));
        assert(all_toggle_cycles(press, release, rest)) by {
            assert forall|i: int| 0 <= i < rest.len() implies {
                &&& (i % 2 == 0 ==> (#[trigger] rest[i]).kind is Press)
                &&& (i % 2 == 1 ==> rest[i].kind is Release)
                &&& classify_spec(press, release, rest[i]) == Some(Role::Toggle)
            } by {
                assert(rest[i] == evs[i + 2]);
            }
        }
        lemma_toggle_cycles_flip_once_each(press, release, d2, rest);
    }
}

} // verus!
