//! The way to emulate multitasking with `.await`.
//! Useful for organizing state machines, animation cutscenes and other stuff that require
//! some evaluation over time.
//!
//! The coroutines live in a [`CoroutinesContext`]; resuming a coroutine's future
//! is the caller's, given to `update` as a function.
use std::marker::PhantomData;
use vstd::prelude::*;

pub mod generational_storage;

use generational_storage::{GenerationalId, GenerationalStorage, released_entries};

verus! {

pub struct CoroutineInternal<R, Tm> {
    pub future: R,
    pub manual_poll: bool,
    pub manual_time: Option<Tm>,
    // if return value of a coroutine is () there is no need to
    // keep coroutine's memory allocated until the user retrieves the data
    // we can free the memory right away, and just return () on retrieve
    pub has_value: bool,
}

pub enum CoroutineState<R, Tm, V> {
    Running(CoroutineInternal<R, Tm>),
    Value(V),
    Nothing,
}

impl<R, Tm, V> CoroutineState<R, Tm, V> {
    pub fn is_value(&self) -> (b: bool)
        ensures
            b == (*self is Value),
    {
        match self {
            CoroutineState::Value(_) => true,
            _ => false,
        }
    }

    pub fn is_nothing(&self) -> (b: bool)
        ensures
            b == (*self is Nothing),
    {
        match self {
            CoroutineState::Nothing => true,
            _ => false,
        }
    }

    /// Takes the finished value out, leaving `Nothing`.
    pub fn take_value(&mut self) -> (r: Option<V>)
        ensures
            match *old(self) {
                CoroutineState::Value(v) => r == Some(v) && *final(self) is Nothing,
                _ => r is None && *final(self) == *old(self),
            },
    {
        if self.is_value() {
            let mut state = CoroutineState::Nothing;
            std::mem::swap(self, &mut state);
            if let CoroutineState::Value(v) = state {
                return Some(v);
            }
        }
        None
    }
}

/// What one automatic step of `update` makes of a coroutine's state `s`: a running
/// coroutine that is not polled by hand is resumed once by `resume`; when it
/// finishes it keeps its value, or is dropped when it has none. `r` is the new
/// state and whether the coroutine stays.
pub open spec fn update_step<R, Tm, V, P: Fn(R) -> Result<V, R>>(
    resume: P,
    s: CoroutineState<R, Tm, V>,
    r: (CoroutineState<R, Tm, V>, bool),
) -> bool {
    match s {
        CoroutineState::Running(c) => if !c.manual_poll {
            exists|out: Result<V, R>|
                resume.ensures((c.future,), out) && r == match out {
                    Ok(v) => if c.has_value {
                        (CoroutineState::Value(v), true)
                    } else {
                        (CoroutineState::Nothing, false)
                    },
                    Err(f) => (
                        CoroutineState::Running(
                            CoroutineInternal {
                                future: f,
                                manual_poll: c.manual_poll,
                                manual_time: c.manual_time,
                                has_value: c.has_value,
                            },
                        ),
                        true,
                    ),
                }
        } else {
            r == (s, true)
        },
        _ => r == (s, true),
    }
}

fn step<R, Tm, V, P: Fn(R) -> Result<V, R>>(resume: &P, s: CoroutineState<R, Tm, V>) -> (r: (
    CoroutineState<R, Tm, V>,
    bool,
))
    requires
        forall|x: R| resume.requires((x,)),
    ensures
        update_step(*resume, s, r),
{
    match s {
        CoroutineState::Running(c) => {
            if c.manual_poll {
                return (CoroutineState::Running(c), true);
            }
            let CoroutineInternal { future, manual_poll, manual_time, has_value } = c;
            let out = resume(future);
            let r = match out {
                Ok(v) => if has_value {
                    (CoroutineState::Value(v), true)
                } else {
                    (CoroutineState::Nothing, false)
                },
                Err(f) => (
                    CoroutineState::Running(CoroutineInternal { future: f, manual_poll, manual_time, has_value }),
                    true,
                ),
            };
            assert(resume.ensures((c.future,), out));
            r
        },
        other => (other, true),
    }
}

pub struct CoroutinesContext<R, Tm, V> {
    coroutines: GenerationalStorage<CoroutineState<R, Tm, V>>,
    active_coroutine_now: Option<Tm>,
    active_coroutine_delta: Option<Tm>,
}

impl<R, Tm, V> CoroutinesContext<R, Tm, V> {
    /// The storage of the coroutines' states.
    pub closed spec fn storage(&self) -> GenerationalStorage<CoroutineState<R, Tm, V>> {
        self.coroutines
    }

    pub open spec fn wf(&self) -> bool {
        self.storage().wf()
    }

    pub fn new() -> (c: Self)
        ensures
            c.wf(),
            c.storage().slots().len() == 0,
            c.storage().free_list().len() == 0,
    {
        CoroutinesContext { coroutines: GenerationalStorage::new(), active_coroutine_now: None, active_coroutine_delta: None }
    }

    /// Resumes, once, every running coroutine that is not polled by hand.
    pub fn update<P: Fn(R) -> Result<V, R>>(&mut self, resume: P)
        requires
            old(self).wf(),
            forall|x: R| resume.requires((x,)),
        ensures
            final(self).wf(),
            final(self).storage().slots().len() == old(self).storage().slots().len(),
            forall|i: int|
                0 <= i < old(self).storage().slots().len() ==> match #[trigger] old(self).storage().slots()[i] {
                    None => final(self).storage().slots()[i] is None,
                    Some((g, s)) => exists|r: (CoroutineState<R, Tm, V>, bool)|
                        update_step(resume, s, r) && final(self).storage().slots()[i] == if r.1 {
                            Some((g, r.0))
                        } else {
                            None
                        },
                },
            final(self).storage().free_list() == old(self).storage().free_list() + released_entries(
                old(self).storage().slots(),
                final(self).storage().slots(),
                old(self).storage().slots().len() as int,
            ),
            same_generations(old(self).storage(), final(self).storage()),
    {
        let resume_ref = &resume;
        let f = |s: CoroutineState<R, Tm, V>| -> (r: (CoroutineState<R, Tm, V>, bool))
            requires
                forall|x: R| resume_ref.requires((x,)),
            ensures
                update_step(*resume_ref, s, r),
            { step(resume_ref, s) };
        self.coroutines.retain(f);
    }

    pub fn allocated_memory(&self) -> (r: usize)
        ensures
            exists|c: int|
                c >= self.storage().slots().len() && #[trigger] GenerationalStorage::<
                    CoroutineState<R, Tm, V>,
                >::cells_bytes(c) <= isize::MAX && r == GenerationalStorage::<CoroutineState<R, Tm, V>>::cells_bytes(c),
    {
        self.coroutines.allocated_memory()
    }

    pub fn active_coroutines_count(&self) -> (n: usize)
        ensures
            n == generational_storage::occupied_count(self.storage().slots()),
    {
        self.coroutines.count()
    }
}

#[derive(Debug)]
pub struct Coroutine<T = ()> {
    id: GenerationalId,
    has_value: bool,
    _phantom: PhantomData<T>,
}

impl<T> Clone for Coroutine<T> {
    fn clone(&self) -> (c: Self)
        ensures
            c.handle() == self.handle(),
            c.keeps_value() == self.keeps_value(),
    {
        *self
    }
}

impl<T> Copy for Coroutine<T> {

}

/// What `retrieve` hands out: the value a coroutine finished with, or the unit
/// value of a coroutine that has none to keep.
#[derive(Debug, PartialEq, Eq)]
pub enum Retrieved<V> {
    Value(V),
    Unit,
}

/// Whether the coroutine of `id` finished or was stopped: its slot holds a
/// finished state, or no longer holds its state.
pub open spec fn finished<R, Tm, V>(storage: GenerationalStorage<CoroutineState<R, Tm, V>>, id: GenerationalId) -> bool {
    match storage.lookup(id) {
        Some(s) => !(s is Running),
        None => true,
    }
}

/// Whether two storages hold the same slots and free list.
pub open spec fn same_storage<R, Tm, V>(
    a: GenerationalStorage<CoroutineState<R, Tm, V>>,
    b: GenerationalStorage<CoroutineState<R, Tm, V>>,
) -> bool {
    a.slots() == b.slots() && a.free_list() == b.free_list() && same_generations(a, b)
}

/// Whether two storages have the same generation floor and bound.
pub open spec fn same_generations<R, Tm, V>(
    a: GenerationalStorage<CoroutineState<R, Tm, V>>,
    b: GenerationalStorage<CoroutineState<R, Tm, V>>,
) -> bool {
    a.generation_floor() == b.generation_floor() && a.generation_bound() == b.generation_bound()
}

/// Whether `after` is `before` with the state of `id` dropped, as `GenerationalStorage::free` does.
pub open spec fn freed_in<R, Tm, V>(
    before: GenerationalStorage<CoroutineState<R, Tm, V>>,
    after: GenerationalStorage<CoroutineState<R, Tm, V>>,
    id: GenerationalId,
) -> bool {
    &&& after.slots() == before.slots().update(id.slot_index() as int, None)
    &&& after.free_list() == before.free_list().push((id.slot_index(), id.slot_generation()))
    &&& same_generations(before, after)
}

impl<T> Coroutine<T> {
    /// The handle of this coroutine's state.
    pub closed spec fn handle(&self) -> GenerationalId {
        self.id
    }

    /// Whether the coroutine's result is kept for `retrieve` (it is not of the unit type).
    pub closed spec fn keeps_value(&self) -> bool {
        self.has_value
    }

    /// Returns true if the coroutine finished or was stopped.
    pub fn is_done<R, Tm, V>(&self, context: &CoroutinesContext<R, Tm, V>) -> (b: bool)
        ensures
            b == finished(context.storage(), self.handle()),
    {
        let coroutine = context.coroutines.get(self.id);
        if let Some(coroutine) = coroutine {
            return coroutine.is_value() || coroutine.is_nothing();
        }
        return true;
    }

    /// The result of a finished coroutine. A coroutine without a value to keep gives
    /// the unit value on every call once done; one with a value gives it once, which
    /// frees its slot. Anything else gives `None`.
    pub fn retrieve<R, Tm, V>(&self, context: &mut CoroutinesContext<R, Tm, V>) -> (r: Option<Retrieved<V>>)
        requires
            old(context).wf(),
        ensures
            final(context).wf(),
            !self.keeps_value() && finished(old(context).storage(), self.handle()) ==> {
                &&& r == Some(Retrieved::<V>::Unit)
                &&& same_storage(final(context).storage(), old(context).storage())
            },
            !(!self.keeps_value() && finished(old(context).storage(), self.handle())) ==> match old(
                context,
            ).storage().lookup(self.handle()) {
                Some(CoroutineState::Value(v)) => {
                    &&& r == Some(Retrieved::Value(v))
                    &&& freed_in(old(context).storage(), final(context).storage(), self.handle())
                },
                _ => r is None && same_storage(final(context).storage(), old(context).storage()),
            },
    {
        if !self.has_value && self.is_done(context) {
            return Some(Retrieved::Unit);
        }
        let ghost before = context.coroutines;
        let coroutine = context.coroutines.get_mut(self.id);
        let v = match coroutine {
            Some(c) => c.take_value(),
            None => None,
        };
        proof {
            match before.lookup(self.id) {
                Some(CoroutineState::Value(_)) => {
                    assert(context.coroutines.slots() == before.slots().update(
                        self.id.slot_index() as int,
                        Some((self.id.slot_generation(), CoroutineState::<R, Tm, V>::Nothing)),
                    ));
                },
                Some(_) => {
                    assert(context.coroutines.slots() =~= before.slots());
                },
                None => {},
            }
        }
        if let Some(v) = v {
            context.coroutines.free(self.id);
            proof {
                assert(context.coroutines.slots() =~= before.slots().update(self.id.slot_index() as int, None));
            }
            return Some(Retrieved::Value(v));
        }
        None
    }

    /// By default coroutines are being polled each frame, inside `update`.
    /// After `set_manual_poll` the coroutine is never polled automatically, and its
    /// own timeline starts at `zero`.
    pub fn set_manual_poll<R, Tm, V>(&mut self, context: &mut CoroutinesContext<R, Tm, V>, zero: Tm)
        requires
            old(context).wf(),
        ensures
            final(context).wf(),
            final(self).keeps_value() == old(self).keeps_value(),
            final(context).storage().free_list() == old(context).storage().free_list(),
            same_generations(old(context).storage(), final(context).storage()),
            final(self).handle() == old(self).handle(),
            match old(context).storage().lookup(old(self).handle()) {
                Some(CoroutineState::Running(c)) => final(context).storage().slots() == old(
                    context,
                ).storage().slots().update(
                    old(self).handle().slot_index() as int,
                    Some(
                        (
                            old(self).handle().slot_generation(),
                            CoroutineState::Running(
                                CoroutineInternal {
                                    future: c.future,
                                    manual_poll: true,
                                    manual_time: Some(zero),
                                    has_value: c.has_value,
                                },
                            ),
                        ),
                    ),
                ),
                _ => final(context).storage().slots() == old(context).storage().slots(),
            },
    {
        if let Some(CoroutineState::Running(coroutine)) = context.coroutines.get_mut(self.id) {
            coroutine.manual_time = Some(zero);
            coroutine.manual_poll = true;
        }
    }
    /// Polls a coroutine that is polled by hand once, its own timeline advanced to
    /// `now`: `resume` runs its future one step. A finished coroutine keeps its
    /// value, or is dropped when it has none. A coroutine that is not running is
    /// left as it is.
    pub fn poll<R, Tm, V, P: Fn(R) -> Result<V, R>>(&self, context: &mut CoroutinesContext<R, Tm, V>, now: Tm, resume: P)
        requires
            old(context).wf(),
            forall|x: R| resume.requires((x,)),
            old(context).storage().lookup(self.handle()) matches Some(CoroutineState::Running(c)) ==> c.manual_poll,
        ensures
            final(context).wf(),
            same_generations(old(context).storage(), final(context).storage()),
            match old(context).storage().lookup(self.handle()) {
                Some(CoroutineState::Running(c)) => exists|out: Result<V, R>|
                    resume.ensures((c.future,), out) && match out {
                        Ok(v) => if c.has_value {
                            &&& final(context).storage().slots() == old(context).storage().slots().update(
                                self.handle().slot_index() as int,
                                Some((self.handle().slot_generation(), CoroutineState::Value(v))),
                            )
                            &&& final(context).storage().free_list() == old(context).storage().free_list()
                        } else {
                            freed_in(old(context).storage(), final(context).storage(), self.handle())
                        },
                        Err(f) => {
                            &&& final(context).storage().slots() == old(context).storage().slots().update(
                                self.handle().slot_index() as int,
                                Some(
                                    (
                                        self.handle().slot_generation(),
                                        CoroutineState::Running(
                                            CoroutineInternal {
                                                future: f,
                                                manual_poll: c.manual_poll,
                                                manual_time: Some(now),
                                                has_value: c.has_value,
                                            },
                                        ),
                                    ),
                                ),
                            )
                            &&& final(context).storage().free_list() == old(context).storage().free_list()
                        },
                    },
                _ => same_storage(final(context).storage(), old(context).storage()),
            },
    {
        let ghost before = context.coroutines;
        let slot = context.coroutines.get_mut(self.id);
        let mut unit_done = false;
        let ghost mut og: Option<Result<V, R>> = None;
        match slot {
            None => {},
            Some(st) => {
                let mut taken = CoroutineState::Nothing;
                core::mem::swap(st, &mut taken);
                match taken {
                    CoroutineState::Running(c) => {
                        let CoroutineInternal { future, manual_poll, manual_time: _, has_value } = c;
                        let out = resume(future);
                        proof {
                            og = Some(out);
                        }
                        match out {
                            Ok(v) => {
                                if has_value {
                                    *st = CoroutineState::Value(v);
                                } else {
                                    unit_done = true;
                                }
                            },
                            Err(f) => {
                                *st = CoroutineState::Running(
                                    CoroutineInternal { future: f, manual_poll, manual_time: Some(now), has_value },
                                );
                            },
                        }
                    },
                    other => {
                        *st = other;
                    },
                }
            },
        }
        let ghost mid = context.coroutines;
        proof {
            let idx = self.id.slot_index() as int;
            let g = self.id.slot_generation();
            match before.lookup(self.id) {
                Some(CoroutineState::Running(c)) => {
                    assert(og is Some);
                    let out = og->0;
                    assert(resume.ensures((c.future,), out));
                    match out {
                        Ok(v) => {
                            if !c.has_value {
                                assert(unit_done);
                                assert(mid.slots() == before.slots().update(idx, Some((g, CoroutineState::<R, Tm, V>::Nothing))));
                            }
                        },
                        Err(f) => {},
                    }
                },
                Some(_) => {
                    assert(mid.slots() =~= before.slots());
                },
                None => {},
            }
        }
        if unit_done {
            context.coroutines.free(self.id);
            proof {
                assert(context.coroutines.slots() =~= before.slots().update(self.id.slot_index() as int, None));
            }
        }
    }

}

/// Adds a running coroutine; `has_value` tells whether its result is kept for `retrieve`.
pub fn start_coroutine<T, R, Tm, V>(context: &mut CoroutinesContext<R, Tm, V>, future: R, has_value: bool) -> (c:
    Coroutine<T>)
    requires
        old(context).wf(),
        old(context).storage().can_push(),
    ensures
        final(context).wf(),
        c.keeps_value() == has_value,
        final(context).storage().lookup(c.handle()) == Some(
            CoroutineState::<R, Tm, V>::Running(
                CoroutineInternal { future, has_value, manual_poll: false, manual_time: None },
            ),
        ),
        forall|h: GenerationalId|
            #[trigger] old(context).storage().lookup(h) is Some ==> final(context).storage().lookup(h) == old(
                context,
            ).storage().lookup(h),
        final(context).storage().generation_floor() == old(context).storage().generation_floor(),
        final(context).storage().generation_bound() == old(context).storage().bound_after_push(),
        final(context).storage().generation_bound() >= old(context).storage().generation_bound(),
        old(context).storage().generation_floor() <= c.handle().slot_generation(),
        c.handle().slot_generation() < final(context).storage().generation_bound(),
{
    let ghost before = context.coroutines;
    let state = CoroutineState::Running(CoroutineInternal { future, has_value, manual_poll: false, manual_time: None });
    let ghost pushed = state;
    let id = context.coroutines.push(state);
    proof {
        assert forall|h: GenerationalId| #[trigger] before.lookup(h) is Some implies context.coroutines.lookup(h)
            == before.lookup(h) by {
            generational_storage::law_push_keeps_live_handles(before, context.coroutines, pushed, id, h);
        }
    }
    Coroutine { id, has_value, _phantom: PhantomData }
}

/// Stops every coroutine. Coroutines started afterwards get generations above
/// every one handed out before, so each stopped coroutine stays done.
pub fn stop_all_coroutines<R, Tm, V>(context: &mut CoroutinesContext<R, Tm, V>)
    requires
        old(context).wf(),
    ensures
        final(context).wf(),
        final(context).storage().slots().len() == 0,
        final(context).storage().free_list().len() == 0,
        final(context).storage().generation_floor() == old(context).storage().generation_bound(),
        final(context).storage().generation_bound() == old(context).storage().generation_bound(),
{
    context.coroutines.clear();
}

/// Stops a coroutine: its state is dropped and its slot freed, every other coroutine
/// left as it was. A coroutine that is already gone is left alone.
pub fn stop_coroutine<T, R, Tm, V>(context: &mut CoroutinesContext<R, Tm, V>, coroutine: Coroutine<T>)
    requires
        old(context).wf(),
    ensures
        final(context).wf(),
        final(context).storage().lookup(coroutine.handle()) is None,
        old(context).storage().lookup(coroutine.handle()) is None ==> same_storage(
            final(context).storage(),
            old(context).storage(),
        ),
        old(context).storage().lookup(coroutine.handle()) is Some ==> freed_in(
            old(context).storage(),
            final(context).storage(),
            coroutine.handle(),
        ),
{
    context.coroutines.free(coroutine.id);
}

/// A coroutine whose handle is older than the storage's generation floor (one that
/// was started before `stop_all_coroutines`) is done, whatever was started since.
pub proof fn law_stopped_coroutines_stay_done<T, R, Tm, V>(context: CoroutinesContext<R, Tm, V>, c: Coroutine<T>)
    requires
        context.wf(),
        c.handle().slot_generation() < context.storage().generation_floor(),
    ensures
        context.storage().lookup(c.handle()) is None,
        finished(context.storage(), c.handle()),
{
    generational_storage::law_cleared_handles_stay_stale(context.storage(), c.handle());
}

/// `update` never resumes a coroutine that is polled by hand: it stays as it was,
/// running and not done, frame after frame, until `poll` drives it.
pub proof fn law_update_skips_manual_coroutines<R, Tm, V, P: Fn(R) -> Result<V, R>>(
    before: GenerationalStorage<CoroutineState<R, Tm, V>>,
    after: GenerationalStorage<CoroutineState<R, Tm, V>>,
    resume: P,
    id: GenerationalId,
)
    requires
        after.slots().len() == before.slots().len(),
        forall|i: int|
            0 <= i < before.slots().len() ==> match #[trigger] before.slots()[i] {
                None => after.slots()[i] is None,
                Some((g, s)) => exists|r: (CoroutineState<R, Tm, V>, bool)|
                    update_step(resume, s, r) && after.slots()[i] == if r.1 {
                        Some((g, r.0))
                    } else {
                        None
                    },
            },
        before.lookup(id) matches Some(CoroutineState::Running(c)) && c.manual_poll,
    ensures
        after.lookup(id) == before.lookup(id),
        !finished(after, id),
{
    let i = id.slot_index() as int;
    assert(before.slots()[i] is Some);
}

/// A coroutine is done exactly when it no longer runs: it finished with a value,
/// finished without one, or was stopped (its state is gone).
pub proof fn law_done_means_not_running<R, Tm, V>(
    storage: GenerationalStorage<CoroutineState<R, Tm, V>>,
    id: GenerationalId,
)
    ensures
        finished(storage, id) <==> !(storage.lookup(id) matches Some(CoroutineState::Running(_))),
{
}

} // verus!
