//! The life of the interception layer inside one process.
//!
//! The layer is loaded into a process it does not own. Its load and unload
//! hooks may be entered more than once, and from inside one another, so
//! every hook first has to win a transition of the state below; a hook that
//! does not win does nothing. The state only ever moves forward:
//!
//! ```text
//! Uninitialized -> Initializing -> Initialized -> Finished
//! ```
//!
//! The state lives in one atomic cell that the caller owns. The functions
//! here say which transition a hook may try, and the caller makes it with a
//! compare-and-swap on the codes of the two states. What a hook that has
//! won then does is laid down with the hooks themselves.

use vstd::prelude::*;

verus! {

/// Where the layer stands.
#[derive(Clone, Copy, Debug, PartialEq, Eq, Structural)]
pub enum Lifecycle {
    /// Nothing has run yet.
    Uninitialized,
    /// The load hook has won and is reading the environment.
    Initializing,
    /// The load hook is done. Opened paths are recorded.
    Initialized,
    /// The unload hook has won. Nothing is recorded any more.
    Finished,
}

/// What can happen to the layer.
#[derive(Clone, Copy, Debug, PartialEq, Eq, Structural)]
pub enum Signal {
    /// A load hook was entered.
    Load,
    /// The hook that won the load has read the environment.
    Configured,
    /// An unload hook was entered.
    Unload,
}

/// How far a state is along the way.
pub open spec fn rank(state: Lifecycle) -> nat {
    match state {
        Lifecycle::Uninitialized => 0,
        Lifecycle::Initializing => 1,
        Lifecycle::Initialized => 2,
        Lifecycle::Finished => 3,
    }
}

/// The state from which `signal` takes effect.
pub open spec fn source(signal: Signal) -> Lifecycle {
    match signal {
        Signal::Load => Lifecycle::Uninitialized,
        Signal::Configured => Lifecycle::Initializing,
        Signal::Unload => Lifecycle::Initialized,
    }
}

/// The state to which `signal` leads when it takes effect.
pub open spec fn target(signal: Signal) -> Lifecycle {
    match signal {
        Signal::Load => Lifecycle::Initializing,
        Signal::Configured => Lifecycle::Initialized,
        Signal::Unload => Lifecycle::Finished,
    }
}

/// Whether `signal` takes effect in `state`.
pub open spec fn takes_effect(state: Lifecycle, signal: Signal) -> bool {
    state == source(signal)
}

/// The state after `signal` arrived in `state`.
pub open spec fn after(state: Lifecycle, signal: Signal) -> Lifecycle {
    if takes_effect(state, signal) {
        target(signal)
    } else {
        state
    }
}

/// How many of `signals` that are `signal` take effect when they arrive one
/// after the other, starting in `state`.
pub open spec fn effects(state: Lifecycle, signals: Seq<Signal>, signal: Signal) -> nat
    decreases signals.len(),
{
    if signals.len() == 0 {
        0
    } else {
        let here: nat = if signals[0] == signal && takes_effect(state, signal) {
            1
        } else {
            0
        };
        here + effects(after(state, signals[0]), signals.skip(1), signal)
    }
}

/// No signal moves the state back.
pub proof fn lemma_forward(state: Lifecycle, signal: Signal)
    ensures
        rank(state) <= rank(after(state, signal)),
        takes_effect(state, signal) ==> rank(after(state, signal)) == rank(state) + 1,
{
}

/// Once the state is past the source of a signal, that signal never takes
/// effect again.
pub proof fn lemma_no_effect_when_past(state: Lifecycle, signals: Seq<Signal>, signal: Signal)
    requires
        rank(state) > rank(source(signal)),
    ensures
        effects(state, signals, signal) == 0,
    decreases signals.len(),
{
    if signals.len() > 0 {
        lemma_forward(state, signals[0]);
        lemma_no_effect_when_past(after(state, signals[0]), signals.skip(1), signal);
    }
}

/// However often and in whatever order the hooks are entered, each signal
/// takes effect at most once.
pub proof fn lemma_effects_at_most_once(state: Lifecycle, signals: Seq<Signal>, signal: Signal)
    ensures
        effects(state, signals, signal) <= 1,
    decreases signals.len(),
{
    if signals.len() > 0 {
        let next = after(state, signals[0]);
        if signals[0] == signal && takes_effect(state, signal) {
            lemma_no_effect_when_past(next, signals.skip(1), signal);
        } else {
            lemma_effects_at_most_once(next, signals.skip(1), signal);
        }
    }
}

/// The load hook takes effect the first time it is entered in a fresh
/// process, so that it takes effect exactly once if it is entered at all.
pub proof fn lemma_load_exactly_once(signals: Seq<Signal>)
    requires
        signals.contains(Signal::Load),
    ensures
        effects(Lifecycle::Uninitialized, signals, Signal::Load) == 1,
    decreases signals.len(),
{
    let state = Lifecycle::Uninitialized;
    if signals[0] == Signal::Load {
        lemma_no_effect_when_past(after(state, signals[0]), signals.skip(1), Signal::Load);
    } else {
        let i = choose|i: int| 0 <= i < signals.len() && signals[i] == Signal::Load;
        assert(signals.skip(1)[i - 1] == Signal::Load);
        lemma_load_exactly_once(signals.skip(1));
    }
}

/// A signal only takes effect after those before it have: if `later` takes
/// effect in the course of `signals`, then so does every signal whose
/// source lies between the state at the start and the source of `later`.
pub proof fn lemma_effects_in_order(
    state: Lifecycle,
    signals: Seq<Signal>,
    earlier: Signal,
    later: Signal,
)
    requires
        rank(state) <= rank(source(earlier)) < rank(source(later)),
        effects(state, signals, later) >= 1,
    ensures
        effects(state, signals, earlier) == 1,
    decreases signals.len(),
{
    if signals.len() > 0 {
        let next = after(state, signals[0]);
        lemma_forward(state, signals[0]);
        if signals[0] == earlier && takes_effect(state, earlier) {
            lemma_no_effect_when_past(next, signals.skip(1), earlier);
        } else {
            lemma_effects_in_order(next, signals.skip(1), earlier, later);
        }
    }
}

/// The unload hook does its work only in a process in which the load hook
/// has done its own, to the end.
pub proof fn lemma_unload_after_load(signals: Seq<Signal>)
    requires
        effects(Lifecycle::Uninitialized, signals, Signal::Unload) >= 1,
    ensures
        effects(Lifecycle::Uninitialized, signals, Signal::Load) == 1,
        effects(Lifecycle::Uninitialized, signals, Signal::Configured) == 1,
{
    lemma_effects_in_order(Lifecycle::Uninitialized, signals, Signal::Load, Signal::Unload);
    lemma_effects_in_order(Lifecycle::Uninitialized, signals, Signal::Configured, Signal::Unload);
}

impl Lifecycle {
    /// The number that stands for the state in the atomic cell.
    pub open spec fn code_of(self) -> usize {
        match self {
            Lifecycle::Uninitialized => 0,
            Lifecycle::Initializing => 1,
            Lifecycle::Initialized => 2,
            Lifecycle::Finished => 3,
        }
    }

    /// The number that stands for the state in the atomic cell.
    pub fn code(self) -> (code: usize)
        ensures
            code == self.code_of(),
    {
        match self {
            Lifecycle::Uninitialized => 0,
            Lifecycle::Initializing => 1,
            Lifecycle::Initialized => 2,
            Lifecycle::Finished => 3,
        }
    }

    /// The state that `code` stands for, if it stands for one.
    pub fn from_code(code: usize) -> (state: Option<Lifecycle>)
        ensures
            match state {
                Some(s) => s.code_of() == code,
                None => code > 3,
            },
    {
        if code == 0 {
            Some(Lifecycle::Uninitialized)
        } else if code == 1 {
            Some(Lifecycle::Initializing)
        } else if code == 2 {
            Some(Lifecycle::Initialized)
        } else if code == 3 {
            Some(Lifecycle::Finished)
        } else {
            None
        }
    }

    /// Whether opened paths are still recorded in this state: in every
    /// state but the last.
    pub open spec fn records(self) -> bool {
        self != Lifecycle::Finished
    }

    /// Whether opened paths are still recorded in this state.
    pub fn is_recording(self) -> (r: bool)
        ensures
            r == self.records(),
    {
        match self {
            Lifecycle::Finished => false,
            _ => true,
        }
    }
}

/// The transition that a signal asks for: a compare-and-swap from `from` to
/// `to`. The signal takes effect exactly if the swap succeeds.
#[derive(Clone, Copy, Debug, PartialEq, Eq)]
pub struct Transition {
    pub from: Lifecycle,
    pub to: Lifecycle,
}

/// The transition that `signal` asks for.
pub fn transition(signal: Signal) -> (t: Transition)
    ensures
        t.from == source(signal),
        t.to == target(signal),
{
    match signal {
        Signal::Load => Transition { from: Lifecycle::Uninitialized, to: Lifecycle::Initializing },
        Signal::Configured => Transition {
            from: Lifecycle::Initializing,
            to: Lifecycle::Initialized,
        },
        Signal::Unload => Transition { from: Lifecycle::Initialized, to: Lifecycle::Finished },
    }
}

/// What became of a signal.
#[derive(Clone, Copy, Debug, PartialEq, Eq)]
pub struct Reaction {
    /// The state afterwards.
    pub state: Lifecycle,
    /// Whether the signal took effect, so that the hook has to do its work.
    pub effect: bool,
}

/// The state after `signal` arrived in `state`, and whether it took effect.
pub fn react(state: Lifecycle, signal: Signal) -> (r: Reaction)
    ensures
        r.state == after(state, signal),
        r.effect == takes_effect(state, signal),
{
    let t = transition(signal);
    if state == t.from {
        Reaction { state: t.to, effect: true }
    } else {
        Reaction { state, effect: false }
    }
}

} // verus!
