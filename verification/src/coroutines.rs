//! The way to emulate multitasking with `.await`: coroutines polled once a frame.
//!
//! The futures live in a [`CoroutinesContext`]; polling one is the caller's,
//! given to `update` as a function.
use vstd::prelude::*;

verus! {

pub struct CoroutinesContext<F> {
    futures: Vec<Option<F>>,
}

impl<F> CoroutinesContext<F> {
    /// The futures by coroutine id, `None` once finished or stopped.
    pub closed spec fn slots(&self) -> Seq<Option<F>> {
        self.futures@
    }

    pub fn new() -> (c: CoroutinesContext<F>)
        ensures
            c.slots().len() == 0,
    {
        CoroutinesContext { futures: Vec::with_capacity(1000) }
    }

    /// Polls every unfinished coroutine once: `poll` hands the future back while
    /// it is pending, and nothing once it has finished.
    pub fn update<P: Fn(F) -> Option<F>>(&mut self, poll: P)
        requires
            forall|f: F| poll.requires((f,)),
        ensures
            final(self).slots().len() == old(self).slots().len(),
            forall|i: int|
                0 <= i < old(self).slots().len() ==> match #[trigger] old(self).slots()[i] {
                    None => final(self).slots()[i] is None,
                    Some(f) => poll.ensures((f,), final(self).slots()[i]),
                },
    {
        let n = self.futures.len();
        let ghost old_slots = self.futures@;
        let mut i: usize = 0;
        while i < n
            invariant
                n == old_slots.len(),
                self.futures@.len() == n,
                0 <= i <= n,
                forall|f: F| poll.requires((f,)),
                forall|j: int| i <= j < n ==> self.futures@[j] == old_slots[j],
                forall|j: int|
                    0 <= j < i ==> match #[trigger] old_slots[j] {
                        None => self.futures@[j] is None,
                        Some(f) => poll.ensures((f,), self.futures@[j]),
                    },
            decreases n - i,
        {
            if let Some(f) = self.futures[i].take() {
                let r = poll(f);
                self.futures.set(i, r);
            }
            i = i + 1;
        }
    }
}

#[derive(Clone, Copy, Debug)]
pub struct Coroutine {
    id: usize,
}

impl Coroutine {
    pub closed spec fn index(&self) -> usize {
        self.id
    }

    /// Whether the coroutine finished or was stopped.
    pub fn is_done<F>(&self, context: &CoroutinesContext<F>) -> (b: bool)
        requires
            self.index() < context.slots().len(),
        ensures
            b == (context.slots()[self.index() as int] is None),
    {
        context.futures[self.id].is_none()
    }
}

/// Adds a coroutine running `future`.
pub fn start_coroutine<F>(context: &mut CoroutinesContext<F>, future: F) -> (c: Coroutine)
    ensures
        final(context).slots() == old(context).slots().push(Some(future)),
        c.index() == old(context).slots().len(),
{
    context.futures.push(Some(future));
    Coroutine { id: context.futures.len() - 1 }
}

pub fn stop_all_coroutines<F>(context: &mut CoroutinesContext<F>)
    ensures
        final(context).slots().len() == 0,
{
    context.futures.clear();
}

pub fn stop_coroutine<F>(context: &mut CoroutinesContext<F>, coroutine: Coroutine)
    requires
        coroutine.index() < old(context).slots().len(),
    ensures
        final(context).slots() == old(context).slots().update(coroutine.index() as int, None),
{
    context.futures.set(coroutine.id, None);
}

} // verus!
