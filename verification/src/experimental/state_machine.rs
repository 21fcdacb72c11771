//! A state machine of numbered states, each with optional callbacks: one run on
//! every update while the state is current, one that starts a coroutine when the
//! state is entered, one run when the state is left.
//!
//! The callbacks are held here but run by the caller: `begin_update` applies a
//! requested change of state and says which callbacks are due.
use vstd::prelude::*;

verus! {

/// The number of states of a machine.
pub const MAX_STATE: usize = 32;

/// The callbacks of one state: `U` runs on update, `Co` makes the coroutine started
/// on entry, `E` runs on leaving.
pub struct State<U, Co, E> {
    pub update: Option<U>,
    pub coroutine: Option<Co>,
    pub on_end: Option<E>,
}

impl<U, Co, E> State<U, Co, E> {
    /// A state with no callbacks.
    pub fn new() -> (s: Self)
        ensures
            s.update is None && s.coroutine is None && s.on_end is None,
    {
        State { update: None, coroutine: None, on_end: None }
    }

    pub fn update(self, update: U) -> (s: Self)
        ensures
            s.update == Some(update),
            s.coroutine == self.coroutine,
            s.on_end == self.on_end,
    {
        State { update: Some(update), coroutine: self.coroutine, on_end: self.on_end }
    }

    pub fn coroutine(self, coroutine: Co) -> (s: Self)
        ensures
            s.coroutine == Some(coroutine),
            s.update == self.update,
            s.on_end == self.on_end,
    {
        State { update: self.update, coroutine: Some(coroutine), on_end: self.on_end }
    }

    pub fn on_end(self, on_end: E) -> (s: Self)
        ensures
            s.on_end == Some(on_end),
            s.update == self.update,
            s.coroutine == self.coroutine,
    {
        State { update: self.update, coroutine: self.coroutine, on_end: Some(on_end) }
    }
}

/// The callbacks that an update is to run, in this order: the `on_end` of the state
/// left, the `coroutine` of the state entered (its coroutine becomes the active
/// one), then the `update` of the current state.
#[derive(Clone, Copy, Debug, PartialEq, Eq, Structural)]
pub struct Transition {
    pub ended: Option<usize>,
    pub started: Option<usize>,
    pub updated: Option<usize>,
}

/// A state machine that owns its states; `C` is the type of its active coroutine.
pub struct StateMachineOwned<U, Co, E, C> {
    states: Vec<State<U, Co, E>>,
    active_coroutine: Option<C>,
    next_state: Option<usize>,
    current_state: usize,
}

impl<U, Co, E, C> StateMachineOwned<U, Co, E, C> {
    pub closed spec fn states(&self) -> Seq<State<U, Co, E>> {
        self.states@
    }

    pub closed spec fn current(&self) -> usize {
        self.current_state
    }

    /// The state asked for by `set_state`, entered at the next update.
    pub closed spec fn requested(&self) -> Option<usize> {
        self.next_state
    }

    pub closed spec fn coroutine_running(&self) -> Option<C> {
        self.active_coroutine
    }

    /// Always `MAX_STATE` states, the current one among them.
    pub open spec fn wf(&self) -> bool {
        &&& self.states().len() == MAX_STATE
        &&& self.current() < MAX_STATE
    }

    pub fn new() -> (m: Self)
        ensures
            m.wf(),
            forall|i: int| 0 <= i < MAX_STATE ==> {
                let s = #[trigger] m.states()[i];
                s.update is None && s.coroutine is None && s.on_end is None
            },
            m.current() == 0,
            m.requested() is None,
            m.coroutine_running() is None,
    {
        let mut states: Vec<State<U, Co, E>> = Vec::new();
        let mut k: usize = 0;
        while k < MAX_STATE
            invariant
                states@.len() == k,
                k <= MAX_STATE,
                forall|i: int| 0 <= i < k ==> {
                    let s = #[trigger] states@[i];
                    s.update is None && s.coroutine is None && s.on_end is None
                },
            decreases MAX_STATE - k,
        {
            states.push(State::new());
            k = k + 1;
        }
        StateMachineOwned { states, active_coroutine: None, next_state: None, current_state: 0 }
    }

    /// Sets the callbacks of state `id`.
    pub fn insert(&mut self, id: usize, state: State<U, Co, E>)
        requires
            old(self).wf(),
            id < MAX_STATE,
        ensures
            final(self).wf(),
            final(self).states() == old(self).states().update(id as int, state),
            final(self).current() == old(self).current(),
            final(self).requested() == old(self).requested(),
            final(self).coroutine_running() == old(self).coroutine_running(),
    {
        self.states.set(id, state);
    }

    /// Asks for `state` to be entered at the next update.
    pub fn set_state(&mut self, state: usize)
        ensures
            final(self).requested() == Some(state),
            final(self).states() == old(self).states(),
            final(self).current() == old(self).current(),
            final(self).coroutine_running() == old(self).coroutine_running(),
    {
        self.next_state = Some(state);
    }

    pub fn state(&self) -> (s: usize)
        ensures
            s == self.current(),
    {
        self.current_state
    }

    /// The state asked for by `set_state` and not entered yet.
    pub fn pending_state(&self) -> (s: Option<usize>)
        ensures
            s == self.requested(),
    {
        self.next_state
    }

    /// Makes `coroutine` the active coroutine.
    pub fn set_active_coroutine(&mut self, coroutine: C)
        ensures
            final(self).coroutine_running() == Some(coroutine),
            final(self).states() == old(self).states(),
            final(self).current() == old(self).current(),
            final(self).requested() == old(self).requested(),
    {
        self.active_coroutine = Some(coroutine);
    }

    /// The active coroutine, to be polled by the caller.
    pub fn active_coroutine(&mut self) -> (c: &mut Option<C>)
        ensures
            *c == old(self).coroutine_running(),
            final(self).coroutine_running() == *final(c),
            final(self).states() == old(self).states(),
            final(self).current() == old(self).current(),
            final(self).requested() == old(self).requested(),
    {
        &mut self.active_coroutine
    }

    /// The callbacks of state `id`, to be run by the caller.
    pub fn state_callbacks(&mut self, id: usize) -> (s: &mut State<U, Co, E>)
        requires
            id < old(self).states().len(),
        ensures
            *s == old(self).states()[id as int],
            final(self).states() == old(self).states().update(id as int, *final(s)),
            final(self).current() == old(self).current(),
            final(self).requested() == old(self).requested(),
            final(self).coroutine_running() == old(self).coroutine_running(),
    {
        &mut self.states[id]
    }

    /// Starts an update: a requested state different from the current one means
    /// leaving the current state (its `on_end` is due, if it has one) and entering
    /// the requested one (its `coroutine` is due, if it has one); the requested state
    /// becomes current and the request is dropped. Then the current state's `update`
    /// is due, if it has one.
    pub fn begin_update(&mut self) -> (t: Transition)
        requires
            old(self).wf(),
            old(self).requested() matches Some(n) ==> n < MAX_STATE,
        ensures
            final(self).wf(),
            final(self).states() == old(self).states(),
            final(self).coroutine_running() == old(self).coroutine_running(),
            final(self).requested() is None,
            final(self).current() == match old(self).requested() {
                Some(n) => n,
                None => old(self).current(),
            },
            t.ended == match old(self).requested() {
                Some(n) => if n != old(self).current() && old(self).states()[old(self).current() as int].on_end is Some {
                    Some(old(self).current())
                } else {
                    None
                },
                None => None,
            },
            t.started == match old(self).requested() {
                Some(n) => if n != old(self).current() && old(self).states()[n as int].coroutine is Some {
                    Some(n)
                } else {
                    None
                },
                None => None,
            },
            t.updated == if final(self).states()[final(self).current() as int].update is Some {
                Some(final(self).current())
            } else {
                None
            },
    {
        let mut ended: Option<usize> = None;
        let mut started: Option<usize> = None;
        if let Some(next) = self.next_state {
            if next != self.current_state {
                if self.states[self.current_state].on_end.is_some() {
                    ended = Some(self.current_state);
                }
                if self.states[next].coroutine.is_some() {
                    started = Some(next);
                }
            }
            self.current_state = next;
            self.next_state = None;
        }
        let updated = if self.states[self.current_state].update.is_some() {
            Some(self.current_state)
        } else {
            None
        };
        Transition { ended, started, updated }
    }
}

/// A state machine that is either in hand (`Ready`) or lent out for an update
/// (`InUse`), in which case a requested state waits until it is put back.
pub enum StateMachine<U, Co, E, C> {
    Ready(StateMachineOwned<U, Co, E, C>),
    InUse { next_state: Option<usize>, current_state: usize },
}

impl<U, Co, E, C> StateMachine<U, Co, E, C> {
    pub fn new() -> (m: Self)
        ensures
            m matches StateMachine::Ready(o) && o.wf() && o.current() == 0 && o.requested() is None,
    {
        StateMachine::Ready(StateMachineOwned::new())
    }

    /// Sets the callbacks of state `id`; the machine must be in hand.
    pub fn add_state(&mut self, id: usize, state: State<U, Co, E>)
        requires
            *old(self) matches StateMachine::Ready(o) && o.wf(),
            id < MAX_STATE,
        ensures
            *old(self) matches StateMachine::Ready(o) && *final(self) matches StateMachine::Ready(n) && n.wf()
                && n.states() == o.states().update(id as int, state) && n.current() == o.current()
                && n.requested() == o.requested(),
    {
        match self {
            StateMachine::Ready(state_machine) => state_machine.insert(id, state),
            StateMachine::InUse { .. } => {},
        }
    }

    /// The current state.
    pub fn state(&self) -> (s: usize)
        ensures
            s == match *self {
                StateMachine::Ready(o) => o.current(),
                StateMachine::InUse { current_state, .. } => current_state,
            },
    {
        match self {
            StateMachine::Ready(state_machine) => state_machine.state(),
            StateMachine::InUse { current_state, .. } => *current_state,
        }
    }

    /// Asks for `state`: at once on a machine in hand, when it is put back otherwise.
    pub fn set_state(&mut self, state: usize)
        ensures
            match (*old(self), *final(self)) {
                (StateMachine::Ready(o), StateMachine::Ready(n)) => n.requested() == Some(state) && n.states()
                    == o.states() && n.current() == o.current(),
                (StateMachine::InUse { current_state: c, .. }, StateMachine::InUse { next_state, current_state }) =>
                    next_state == Some(state) && current_state == c,
                _ => false,
            },
    {
        match self {
            StateMachine::Ready(state_machine) => {
                state_machine.set_state(state);
            },
            StateMachine::InUse { next_state, .. } => {
                *next_state = Some(state);
            },
        }
    }

    /// Lends the machine out for an update; the machine must be in hand.
    pub fn take(&mut self) -> (m: StateMachineOwned<U, Co, E, C>)
        requires
            (*old(self) is Ready),
        ensures
            *old(self) == StateMachine::Ready(m),
            *final(self) == (StateMachine::<U, Co, E, C>::InUse { next_state: None, current_state: m.current() }),
    {
        let current_state = self.state();
        let mut previous = StateMachine::InUse { next_state: None, current_state };
        core::mem::swap(&mut previous, self);
        match previous {
            StateMachine::Ready(state_machine) => state_machine,
            StateMachine::InUse { .. } => {
                proof {
                    assert(false);
                }
                StateMachineOwned { states: Vec::new(), active_coroutine: None, next_state: None, current_state: 0 }
            },
        }
    }

    /// Puts a lent-out machine back, passing on a state requested meanwhile.
    pub fn put_back(&mut self, state_machine: StateMachineOwned<U, Co, E, C>)
        requires
            (*old(self) is InUse),
        ensures
            *final(self) matches StateMachine::Ready(n) && n.states() == state_machine.states() && n.current()
                == state_machine.current() && n.coroutine_running() == state_machine.coroutine_running()
                && n.requested() == match *old(self) {
                StateMachine::InUse { next_state: Some(s), .. } => Some(s),
                _ => state_machine.requested(),
            },
    {
        let mut state_machine = state_machine;
        match self {
            StateMachine::InUse { next_state: Some(s), .. } => {
                state_machine.set_state(*s);
            },
            _ => {},
        }
        *self = StateMachine::Ready(state_machine);
    }
}

} // verus!
