//! A simple unoptimized, single threaded executor.
//!
//! The executor keeps the futures and decides which runs next; polling a
//! future, and the waker that resumes it, belong to the caller.
use std::collections::VecDeque;
use vstd::prelude::*;

verus! {

/// The future returned by `next_frame`: pending once, finished once woken.
pub struct FrameFuture<W> {
    pub frame_wakers: Option<W>,
}

impl<W> FrameFuture<W> {
    /// One poll: the first hands out the frame wakers that the caller's waker is
    /// to join (the future is pending); any later one finds nothing (ready).
    pub fn poll_wakers(&mut self) -> (r: Option<W>)
        ensures
            r == old(self).frame_wakers,
            final(self).frame_wakers is None,
    {
        self.frame_wakers.take()
    }
}

/// A future for a file that another part of the program loads: ready once the
/// contents are there.
pub struct FileLoadingFuture<C> {
    pub contents: C,
}

/// Takes the loaded contents, if they are there yet.
pub fn take_loaded<R>(contents: &mut Option<R>) -> (r: Option<R>)
    ensures
        r == *old(contents),
        *final(contents) is None,
{
    contents.take()
}

/// A simple unoptimized, single threaded executor.
pub struct Executor<F, W> {
    active_futures: VecDeque<F>,
    waiting_futures: Vec<(u64, F)>,
    next_wait_id: u64,
    pub frame_wakers: W,
    /// How many futures were spawned, and how many of them returned ready.
    spawned: Ghost<nat>,
    finished: Ghost<nat>,
}

/// The ids of a list of parked futures.
pub open spec fn wait_ids<F>(w: Seq<(u64, F)>) -> Seq<u64> {
    w.map_values(|e: (u64, F)| e.0)
}

impl<F, W> Executor<F, W> {
    /// The futures ready to run, the next first.
    pub closed spec fn active(&self) -> Seq<F> {
        self.active_futures@
    }

    /// The futures waiting to be woken, by the id of their waker.
    pub closed spec fn waiting(&self) -> Seq<(u64, F)> {
        self.waiting_futures@
    }

    /// The frame wakers this executor was made with.
    pub closed spec fn wakers(&self) -> W {
        self.frame_wakers
    }

    /// The id the next poll's waker gets.
    pub closed spec fn next_id(&self) -> u64 {
        self.next_wait_id
    }

    /// How many futures were spawned so far.
    pub closed spec fn spawned_count(&self) -> nat {
        self.spawned@
    }

    /// How many spawned futures returned ready so far.
    pub closed spec fn finished_count(&self) -> nat {
        self.finished@
    }

    /// Waiting ids are distinct and all below the next id; every spawned future is
    /// queued, waiting, or finished.
    pub open spec fn wf(&self) -> bool {
        &&& self.active().len() + self.waiting().len() + self.finished_count() == self.spawned_count()
        &&& wait_ids(self.waiting()).no_duplicates()
        &&& forall|i: int| 0 <= i < self.waiting().len() ==> (#[trigger] self.waiting()[i]).0 < self.next_id()
    }

    pub fn new(frame_wakers: W) -> (e: Self)
        ensures
            e.wf(),
            e.active().len() == 0,
            e.waiting().len() == 0,
            e.next_id() == 0,
            e.wakers() == frame_wakers,
            e.spawned_count() == 0,
            e.finished_count() == 0,
    {
        let e = Executor {
            frame_wakers,
            active_futures: VecDeque::new(),
            waiting_futures: Vec::new(),
            next_wait_id: 0,
            spawned: Ghost(0),
            finished: Ghost(0),
        };
        assert(wait_ids(e.waiting()) =~= Seq::<u64>::empty());
        e
    }

    /// Returns `true` if all futures have finished: every spawned future returned ready.
    pub fn is_empty(&self) -> (b: bool)
        ensures
            b == (self.active().len() == 0 && self.waiting().len() == 0),
            self.wf() ==> (b <==> self.finished_count() == self.spawned_count()),
    {
        self.active_futures.len() == 0 && self.waiting_futures.len() == 0
    }

    /// Runs the next future once: `poll` gets the id of the waker made for this
    /// run and the future, and hands the future back if it is pending, which
    /// then waits for that id. Returns `true` if anything was run.
    pub fn tick<P: Fn(u64, F) -> Option<F>>(&mut self, poll: P) -> (ran: bool)
        requires
            old(self).wf(),
            old(self).next_id() < u64::MAX,
            forall|id: u64, f: F| poll.requires((id, f)),
        ensures
            final(self).wf(),
            ran == (old(self).active().len() > 0),
            !ran ==> final(self).active() == old(self).active() && final(self).waiting() == old(self).waiting()
                && final(self).next_id() == old(self).next_id() && final(self).finished_count()
                == old(self).finished_count(),
            final(self).spawned_count() == old(self).spawned_count(),
            ran ==> {
                &&& final(self).active() == old(self).active().drop_first()
                &&& final(self).next_id() == old(self).next_id() + 1
                &&& exists|res: Option<F>|
                    poll.ensures((old(self).next_id(), old(self).active()[0]), res) && final(self).waiting() == match res {
                        Some(f) => old(self).waiting().push((old(self).next_id(), f)),
                        None => old(self).waiting(),
                    } && final(self).finished_count() == old(self).finished_count() + if res is None {
                        1nat
                    } else {
                        0nat
                    }
            },
            final(self).wakers() == old(self).wakers(),
    {
        let future = match self.active_futures.pop_front() {
            Some(f) => f,
            None => {
                return false;
            },
        };
        let id = self.next_wait_id;
        self.next_wait_id = self.next_wait_id + 1;
        let res = poll(id, future);
        let ghost old_waiting = self.waiting_futures@;
        match res {
            Some(f) => {
                proof {
                    assert forall|i: int| 0 <= i < old_waiting.len() implies wait_ids(old_waiting)[i] != id by {
                        assert(old_waiting[i].0 < id);
                    }
                }
                self.waiting_futures.push((id, f));
                assert(wait_ids(self.waiting_futures@) =~= wait_ids(old_waiting).push(id));
            },
            None => {
                proof {
                    self.finished@ = self.finished@ + 1;
                }
            },
        }
        assert(self.active_futures@ =~= old(self).active_futures@.drop_first());
        true
    }

    /// Queues a future to run.
    pub fn spawn(&mut self, f: F)
        requires
            old(self).wf(),
        ensures
            final(self).wf(),
            final(self).active() == old(self).active().push(f),
            final(self).waiting() == old(self).waiting(),
            final(self).next_id() == old(self).next_id(),
            final(self).wakers() == old(self).wakers(),
            final(self).spawned_count() == old(self).spawned_count() + 1,
            final(self).finished_count() == old(self).finished_count(),
    {
        self.active_futures.push_back(f);
        proof {
            self.spawned@ = self.spawned@ + 1;
        }
    }

    /// Whether a future waits for the waker with id `id`.
    pub fn is_waiting(&self, id: u64) -> (b: bool)
        ensures
            b == wait_ids(self.waiting()).contains(id),
    {
        let mut i: usize = 0;
        while i < self.waiting_futures.len()
            invariant
                0 <= i <= self.waiting_futures@.len(),
                forall|j: int| 0 <= j < i ==> self.waiting_futures@[j].0 != id,
            decreases self.waiting_futures@.len() - i,
        {
            if self.waiting_futures[i].0 == id {
                assert(wait_ids(self.waiting())[i as int] == id);
                return true;
            }
            i = i + 1;
        }
        assert forall|j: int| 0 <= j < wait_ids(self.waiting()).len() implies wait_ids(self.waiting())[j] != id by {
            assert(self.waiting_futures@[j].0 != id);
        }
        false
    }

    /// The waker with id `id` fired: its future moves to the back of the run queue.
    pub fn wake(&mut self, id: u64)
        requires
            old(self).wf(),
            wait_ids(old(self).waiting()).contains(id),
        ensures
            final(self).wf(),
            exists|i: int|
                0 <= i < old(self).waiting().len() && #[trigger] old(self).waiting()[i].0 == id
                    && final(self).active() == old(self).active().push(old(self).waiting()[i].1)
                    && final(self).waiting() == old(self).waiting().remove(i),
            final(self).next_id() == old(self).next_id(),
            final(self).wakers() == old(self).wakers(),
            final(self).spawned_count() == old(self).spawned_count(),
            final(self).finished_count() == old(self).finished_count(),
    {
        let ghost old_waiting = self.waiting_futures@;
        let mut i: usize = 0;
        while i < self.waiting_futures.len()
            invariant
                0 <= i <= self.waiting_futures@.len(),
                self.waiting_futures@ == old_waiting,
                wait_ids(old_waiting).contains(id),
                forall|j: int| 0 <= j < i ==> old_waiting[j].0 != id,
            ensures
                0 <= i <= self.waiting_futures@.len(),
                self.waiting_futures@ == old_waiting,
                forall|j: int| 0 <= j < i ==> old_waiting[j].0 != id,
                i == self.waiting_futures@.len() || old_waiting[i as int].0 == id,
            decreases self.waiting_futures@.len() - i,
        {
            if self.waiting_futures[i].0 == id {
                break;
            }
            i = i + 1;
        }
        if i == self.waiting_futures.len() {
            proof {
                let k = choose|k: int| 0 <= k < old_waiting.len() && wait_ids(old_waiting)[k] == id;
                assert(old_waiting[k].0 == id);
            }
        }
        assert(i < self.waiting_futures@.len());
        assert(old_waiting[i as int].0 == id);
        let (_, future) = self.waiting_futures.remove(i);
        self.active_futures.push_back(future);
        proof {
            assert(wait_ids(self.waiting_futures@) =~= wait_ids(old_waiting).remove(i as int));
            assert forall|a: int| 0 <= a < self.waiting_futures@.len() implies (#[trigger] self.waiting_futures@[a]).0 < self.next_wait_id by {
                if a < i {
                    assert(self.waiting_futures@[a] == old_waiting[a]);
                } else {
                    assert(self.waiting_futures@[a] == old_waiting[a + 1]);
                }
            }
        }
    }
}

} // verus!
