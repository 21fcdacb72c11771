use vstd::prelude::*;
use vstd::layout::size_of;

verus! {

/// `Vec::capacity`: the number of elements the vector can hold without
/// reallocating. Its documentation promises no less than the length, and a vector
/// never holds more than `isize::MAX` bytes, so the capacity times the element size
/// stays within that (for zero-sized elements the product is 0). What more than the
/// length the allocator gave is left open.
#[verifier::external_body]
fn vec_capacity<V>(v: &Vec<V>) -> (c: usize)
    ensures
        c >= v@.len(),
        c * size_of::<V>() <= isize::MAX,
{
    v.capacity()
}

/// `core::mem::size_of` of a cell, with the layout fact that an `Option` of a cell
/// takes at least as many bytes as the cell: `Option` keeps its `Some` value in
/// place (`Option::as_ref` lends a reference into it), so it holds a whole cell.
#[verifier::external_body]
fn cell_size<T>() -> (n: usize)
    ensures
        n == size_of::<GenerationalCell<T>>(),
        n <= size_of::<Option<GenerationalCell<T>>>(),
{
    core::mem::size_of::<GenerationalCell<T>>()
}

/// A handle into a [`GenerationalStorage`]: a slot and the generation of the
/// value that was stored there when the handle was made.
#[derive(Clone, Copy, Debug)]
pub struct GenerationalId {
    id: usize,
    generation: usize,
}

impl GenerationalId {
    /// The slot this handle points at.
    pub closed spec fn slot_index(self) -> usize {
        self.id
    }

    /// The generation this handle expects to find in its slot.
    pub closed spec fn slot_generation(self) -> usize {
        self.generation
    }
}

struct GenerationalCell<T> {
    generation: usize,
    state: T,
}

/// Slot storage whose handles go stale once their slot is freed.
pub struct GenerationalStorage<T> {
    vec: Vec<Option<GenerationalCell<T>>>,
    free_indices: Vec<(usize, usize)>,
    /// The generation of a value pushed into a new slot; `clear` raises it past
    /// every generation handed out before, so that no earlier handle finds a later value.
    first_generation: usize,
    /// A generation above every one handed out so far.
    next_generation: usize,
}

spec fn cell_generation<T>(c: Option<GenerationalCell<T>>) -> usize {
    match c {
        Some(cell) => cell.generation,
        None => 0,
    }
}

/// The generation stored in slot `c`, or 0 for a vacant one.
pub open spec fn gen_of<T>(c: Option<(usize, T)>) -> usize {
    match c {
        Some((g, _)) => g,
        None => 0,
    }
}

/// The number of occupied slots in `s`.
pub open spec fn occupied_count<T>(s: Seq<Option<(usize, T)>>) -> nat
    decreases s.len(),
{
    if s.len() == 0 {
        0
    } else {
        occupied_count(s.drop_last()) + if s.last() is Some {
            1nat
        } else {
            0nat
        }
    }
}

/// The free-list entries that `retain` appends when it turns the slots of `old`
/// into those of `new`, looking at the first `n` slots in order.
pub open spec fn released_entries<T>(
    old: Seq<Option<(usize, T)>>,
    new: Seq<Option<(usize, T)>>,
    n: int,
) -> Seq<(usize, usize)>
    decreases n,
{
    if n <= 0 {
        Seq::empty()
    } else {
        let prev = released_entries(old, new, n - 1);
        match old[n - 1] {
            Some((g, _)) => if new[n - 1] is None {
                prev.push(((n - 1) as usize, g))
            } else {
                prev
            },
            None => prev,
        }
    }
}

impl<T> GenerationalStorage<T> {
    /// The slots: `Some((generation, value))` where a value lives.
    pub closed spec fn slots(&self) -> Seq<Option<(usize, T)>> {
        self.vec@.map_values(
            |c: Option<GenerationalCell<T>>|
                match c {
                    Some(cell) => Some((cell.generation, cell.state)),
                    None => None,
                },
        )
    }

    /// The freed `(slot, generation)` pairs, the next one to reuse last.
    pub closed spec fn free_list(&self) -> Seq<(usize, usize)> {
        self.free_indices@
    }

    /// No value stored since the last `clear` has a generation below this one.
    pub closed spec fn generation_floor(&self) -> usize {
        self.first_generation
    }

    /// Every generation handed out so far is below this one.
    pub closed spec fn generation_bound(&self) -> usize {
        self.next_generation
    }

    /// Every stored value's generation lies between the floor and the bound.
    pub closed spec fn generations_in_range(&self) -> bool {
        forall|i: int|
            0 <= i < self.vec@.len() && #[trigger] self.vec@[i] is Some ==> {
                &&& self.first_generation <= cell_generation(self.vec@[i])
                &&& cell_generation(self.vec@[i]) < self.next_generation
            }
    }

    /// `generations_in_range`, read through the slots.
    pub open spec fn slot_generations_in_range(&self) -> bool {
        forall|i: int|
            0 <= i < self.slots().len() && #[trigger] self.slots()[i] is Some ==> {
                &&& self.generation_floor() <= gen_of(self.slots()[i])
                &&& gen_of(self.slots()[i]) < self.generation_bound()
            }
    }

    pub proof fn lemma_generations_in_range(&self)
        ensures
            self.generations_in_range() <==> self.slot_generations_in_range(),
    {
        if self.generations_in_range() {
            assert forall|i: int| 0 <= i < self.slots().len() && #[trigger] self.slots()[i] is Some implies {
                &&& self.generation_floor() <= gen_of(self.slots()[i])
                &&& gen_of(self.slots()[i]) < self.generation_bound()
            } by {
                assert(self.vec@[i] is Some);
            }
        }
        if self.slot_generations_in_range() {
            assert forall|i: int| 0 <= i < self.vec@.len() && #[trigger] self.vec@[i] is Some implies {
                &&& self.first_generation <= cell_generation(self.vec@[i])
                &&& cell_generation(self.vec@[i]) < self.next_generation
            } by {
                assert(self.slots()[i] is Some);
            }
        }
    }

    /// Every freed pair names an existing, vacant slot, and no slot is freed twice;
    /// stored and freed generations lie between the floor and the bound.
    pub open spec fn wf(&self) -> bool {
        &&& self.generation_floor() <= self.generation_bound()
        &&& self.generations_in_range()
        &&& forall|k: int|
            0 <= k < self.free_list().len() ==> {
                &&& #[trigger] self.free_list()[k].0 < self.slots().len()
                &&& self.slots()[self.free_list()[k].0 as int] is None
                &&& self.generation_floor() <= self.free_list()[k].1
                &&& self.free_list()[k].1 < self.generation_bound()
            }
        &&& forall|i: int, j: int|
            0 <= i < j < self.free_list().len() ==> #[trigger] self.free_list()[i].0 != #[trigger] self.free_list()[j].0
    }

    /// The value that `id` reads, if its slot holds a value of its generation.
    pub open spec fn lookup(&self, id: GenerationalId) -> Option<T> {
        if id.slot_index() >= self.slots().len() {
            None
        } else {
            match self.slots()[id.slot_index() as int] {
                Some((g, s)) => if g == id.slot_generation() {
                    Some(s)
                } else {
                    None
                },
                None => None,
            }
        }
    }

    /// The generation bound after a `push`: raised past the generation the new value
    /// gets, the floor for a new slot or one more than the freed one for a reused slot.
    pub open spec fn bound_after_push(&self) -> int {
        if self.free_list().len() == 0 {
            if self.generation_floor() < self.generation_bound() {
                self.generation_bound() as int
            } else {
                self.generation_floor() + 1
            }
        } else {
            let g = self.free_list().last().1;
            if g + 2 > self.generation_bound() {
                g + 2
            } else {
                self.generation_bound() as int
            }
        }
    }

    /// Whether `push` can run: the generations can still be counted up.
    pub open spec fn can_push(&self) -> bool {
        self.generation_bound() < usize::MAX
    }

    pub fn new() -> (s: GenerationalStorage<T>)
        ensures
            s.wf(),
            s.slots() == Seq::<Option<(usize, T)>>::empty(),
            s.free_list() == Seq::<(usize, usize)>::empty(),
            s.generation_floor() == 0,
            s.generation_bound() == 0,
    {
        let s = GenerationalStorage {
            vec: Vec::with_capacity(1000),
            free_indices: Vec::with_capacity(100),
            first_generation: 0,
            next_generation: 0,
        };
        assert(s.slots() =~= Seq::<Option<(usize, T)>>::empty());
        s
    }

    pub fn push(&mut self, data: T) -> (id: GenerationalId)
        requires
            old(self).wf(),
            old(self).can_push(),
        ensures
            final(self).wf(),
            final(self).lookup(id) == Some(data),
            occupied_count(final(self).slots()) == occupied_count(old(self).slots()) + 1,
            final(self).generation_floor() == old(self).generation_floor(),
            final(self).generation_bound() == old(self).bound_after_push(),
            final(self).generation_bound() >= old(self).generation_bound(),
            old(self).generation_floor() <= id.slot_generation() < final(self).generation_bound(),
            old(self).free_list().len() == 0 ==> {
                &&& final(self).slots() == old(self).slots().push(Some((old(self).generation_floor(), data)))
                &&& final(self).free_list() == old(self).free_list()
                &&& id.slot_index() == old(self).slots().len()
                &&& id.slot_generation() == old(self).generation_floor()
            },
            old(self).free_list().len() > 0 ==> {
                let (i, g) = old(self).free_list().last();
                &&& final(self).slots() == old(self).slots().update(i as int, Some(((g + 1) as usize, data)))
                &&& final(self).free_list() == old(self).free_list().drop_last()
                &&& id.slot_index() == i
                &&& id.slot_generation() == g + 1
            },
    {
        let generation;
        let ghost old_slots = self.slots();
        let id = match self.free_indices.pop() {
            Some((free_id, old_generation)) => {
                let ghost fl = old(self).free_list();
                assert(fl.last() == fl[fl.len() - 1]);
                assert(old_slots[free_id as int] is None);
                assert(fl[fl.len() - 1].1 < self.next_generation);
                generation = old_generation + 1;
                self.vec.set(free_id, Some(GenerationalCell { state: data, generation }));
                if generation >= self.next_generation {
                    self.next_generation = generation + 1;
                }
                assert(self.slots() =~= old_slots.update(free_id as int, Some((generation, data))));
                proof {
                    lemma_occupied_fill(old_slots, free_id as int, Some((generation, data)));
                    assert forall|k: int| 0 <= k < self.free_list().len() implies {
                        &&& #[trigger] self.free_list()[k].0 < self.slots().len()
                        &&& self.slots()[self.free_list()[k].0 as int] is None
                        &&& self.generation_floor() <= self.free_list()[k].1
                        &&& self.free_list()[k].1 < self.generation_bound()
                    } by {
                        assert(self.free_list()[k] == fl[k]);
                        assert(fl[k].0 != fl[fl.len() - 1].0);
                    }
                    old(self).lemma_generations_in_range();
                    assert forall|j: int|
                        0 <= j < self.slots().len() && #[trigger] self.slots()[j] is Some implies {
                        &&& self.generation_floor() <= gen_of(self.slots()[j])
                        &&& gen_of(self.slots()[j]) < self.generation_bound()
                    } by {
                        if j != free_id {
                            assert(self.slots()[j] == old_slots[j]);
                        }
                    }
                    self.lemma_generations_in_range();
                    assert forall|i: int, j: int| 0 <= i < j < self.free_list().len() implies #[trigger] self.free_list()[i].0
                        != #[trigger] self.free_list()[j].0 by {
                        assert(self.free_list()[i] == fl[i] && self.free_list()[j] == fl[j]);
                    }
                }
                free_id
            },
            None => {
                generation = self.first_generation;
                self.vec.push(Some(GenerationalCell { state: data, generation }));
                if generation >= self.next_generation {
                    self.next_generation = generation + 1;
                }
                assert(self.slots() =~= old_slots.push(Some((generation, data))));
                proof {
                    assert(self.slots().drop_last() =~= old_slots);
                    old(self).lemma_generations_in_range();
                    assert forall|j: int|
                        0 <= j < self.slots().len() && #[trigger] self.slots()[j] is Some implies {
                        &&& self.generation_floor() <= gen_of(self.slots()[j])
                        &&& gen_of(self.slots()[j]) < self.generation_bound()
                    } by {
                        if j < old_slots.len() {
                            assert(self.slots()[j] == old_slots[j]);
                        }
                    }
                    self.lemma_generations_in_range();
                }
                self.vec.len() - 1
            },
        };
        GenerationalId { id, generation }
    }

    pub fn get(&self, id: GenerationalId) -> (r: Option<&T>)
        ensures
            match r {
                Some(v) => self.lookup(id) == Some(*v),
                None => self.lookup(id) is None,
            },
    {
        if id.id >= self.vec.len() {
            return None;
        }
        if self.vec[id.id].is_none() {
            return None;
        }
        let cell = self.vec[id.id].as_ref().unwrap();
        if cell.generation != id.generation {
            return None;
        }
        Some(&cell.state)
    }

    pub fn get_mut(&mut self, id: GenerationalId) -> (r: Option<&mut T>)
        requires
            old(self).wf(),
        ensures
            final(self).wf(),
            final(self).free_list() == old(self).free_list(),
            final(self).generation_floor() == old(self).generation_floor(),
            final(self).generation_bound() == old(self).generation_bound(),
            match r {
                Some(v) => {
                    &&& old(self).lookup(id) == Some(*v)
                    &&& final(self).slots() == old(self).slots().update(
                        id.slot_index() as int,
                        Some((id.slot_generation(), *final(v))),
                    )
                },
                None => {
                    &&& old(self).lookup(id) is None
                    &&& final(self).slots() == old(self).slots()
                },
            },
    {
        if id.id >= self.vec.len() {
            return None;
        }
        if self.vec[id.id].is_none() {
            return None;
        }
        if self.vec[id.id].as_ref().unwrap().generation != id.generation {
            return None;
        }
        proof {
            assert(self.slots()[id.id as int] is Some);
            assert(gen_of(self.slots()[id.id as int]) == id.generation);
        }
        let cell = self.vec[id.id].as_mut().unwrap();
        Some(&mut cell.state)
    }

    /// Retains only the elements specified by the predicate, passing each element to it.
    ///
    /// `f` gets each stored value and hands back the value to keep in its place and
    /// whether to keep it; the slots of values not kept are freed, which appends them
    /// to the free list in slot order. Each element is visited exactly once, in order.
    pub fn retain<F>(&mut self, f: F)
        where
            F: Fn(T) -> (T, bool),
        requires
            old(self).wf(),
            forall|x: T| f.requires((x,)),
        ensures
            final(self).wf(),
            final(self).slots().len() == old(self).slots().len(),
            forall|i: int|
                0 <= i < old(self).slots().len() ==> match #[trigger] old(self).slots()[i] {
                    None => final(self).slots()[i] is None,
                    Some((g, s)) => exists|r: (T, bool)|
                        f.ensures((s,), r) && final(self).slots()[i] == if r.1 {
                            Some((g, r.0))
                        } else {
                            None
                        },
                },
            final(self).free_list() == old(self).free_list() + released_entries(
                old(self).slots(),
                final(self).slots(),
                old(self).slots().len() as int,
            ),
            final(self).generation_floor() == old(self).generation_floor(),
            final(self).generation_bound() == old(self).generation_bound(),
            occupied_count(final(self).slots()) + released_entries(
                old(self).slots(),
                final(self).slots(),
                old(self).slots().len() as int,
            ).len() == occupied_count(old(self).slots()),
    {
        let ghost old_slots = self.slots();
        let ghost old_free = self.free_list();
        let n = self.vec.len();
        let mut i: usize = 0;
        while i < n
            invariant
                n == old_slots.len(),
                0 <= i <= n,
                self.slots().len() == n,
                forall|x: T| f.requires((x,)),
                forall|j: int| i <= j < n ==> self.slots()[j] == old_slots[j],
                forall|j: int|
                    0 <= j < i ==> match #[trigger] old_slots[j] {
                        None => self.slots()[j] is None,
                        Some((g, s)) => exists|r: (T, bool)|
                            f.ensures((s,), r) && self.slots()[j] == if r.1 {
                                Some((g, r.0))
                            } else {
                                None
                            },
                    },
                self.free_list() == old_free + released_entries(old_slots, self.slots(), i as int),
                forall|k: int| 0 <= k < self.free_list().len() ==> #[trigger] self.free_list()[k].0 < n,
                self.first_generation == old(self).first_generation,
                self.next_generation == old(self).next_generation,
            decreases n - i,
        {
            let ghost before = self.slots();
            let taken = self.vec[i].take();
            match taken {
                Some(cell) => {
                    let generation = cell.generation;
                    let ghost s = cell.state;
                    let (state, keep) = f(cell.state);
                    if keep {
                        self.vec.set(i, Some(GenerationalCell { generation, state }));
                    } else {
                        self.free_indices.push((i, generation));
                    }
                    proof {
                        let r = (state, keep);
                        assert(f.ensures((s,), r));
                    }
                },
                None => {},
            }
            proof {
                assert(self.slots() =~= before.update(i as int, self.slots()[i as int]));
                lemma_released_entries_prefix(old_slots, before, self.slots(), i as int);
            }
            i = i + 1;
        }
        proof {
            let new_slots = self.slots();
            let r = released_entries(old_slots, new_slots, n as int);
            lemma_released_entries_shape(old_slots, new_slots, n as int);
            lemma_released_count(old_slots, new_slots, n as int);
            assert(old_slots.subrange(0, n as int) =~= old_slots);
            assert(new_slots.subrange(0, n as int) =~= new_slots);
            let fl = self.free_list();
            assert(fl == old_free + r);
            assert(old(self).wf());
            assert forall|k: int| 0 <= k < fl.len() implies {
                &&& #[trigger] fl[k].0 < new_slots.len()
                &&& new_slots[fl[k].0 as int] is None
                &&& self.generation_floor() <= fl[k].1
                &&& fl[k].1 < self.generation_bound()
            } by {
                if k < old_free.len() {
                    assert(fl[k] == old_free[k]);
                    assert(old_slots[old_free[k].0 as int] is None);
                } else {
                    assert(fl[k] == r[k - old_free.len()]);
                    let e = r[k - old_free.len()];
                    assert(old_slots[e.0 as int] is Some);
                }
            }
            old(self).lemma_generations_in_range();
            assert forall|j: int|
                0 <= j < new_slots.len() && #[trigger] new_slots[j] is Some implies {
                &&& self.generation_floor() <= gen_of(new_slots[j])
                &&& gen_of(new_slots[j]) < self.generation_bound()
            } by {
                match old_slots[j] {
                    None => {},
                    Some((g, v)) => {
                        assert(old_slots[j] is Some);
                    },
                }
            }
            self.lemma_generations_in_range();
            assert forall|i: int, j: int| 0 <= i < j < fl.len() implies #[trigger] fl[i].0 != #[trigger] fl[j].0 by {
                if j < old_free.len() {
                    assert(fl[i] == old_free[i] && fl[j] == old_free[j]);
                } else if i >= old_free.len() {
                    assert(fl[i] == r[i - old_free.len()] && fl[j] == r[j - old_free.len()]);
                } else {
                    assert(fl[i] == old_free[i] && fl[j] == r[j - old_free.len()]);
                    assert(old_slots[old_free[i].0 as int] is None);
                }
            }
        }
    }

    /// The number of occupied slots.
    pub fn count(&self) -> (c: usize)
        ensures
            c == occupied_count(self.slots()),
    {
        let n = self.vec.len();
        let mut c: usize = 0;
        let mut i: usize = 0;
        while i < n
            invariant
                n == self.slots().len(),
                0 <= i <= n,
                c == occupied_count(self.slots().subrange(0, i as int)),
                c <= i,
            decreases n - i,
        {
            proof {
                assert(self.slots().subrange(0, i + 1).drop_last() =~= self.slots().subrange(0, i as int));
            }
            if self.vec[i].is_some() {
                c = c + 1;
            }
            i = i + 1;
        }
        assert(self.slots().subrange(0, n as int) =~= self.slots());
        c
    }

    /// Drops every value. Values stored from now on get generations above every one
    /// handed out before, so no earlier handle finds them.
    pub fn clear(&mut self)
        requires
            old(self).wf(),
        ensures
            final(self).wf(),
            final(self).slots() == Seq::<Option<(usize, T)>>::empty(),
            final(self).free_list() == Seq::<(usize, usize)>::empty(),
            final(self).generation_floor() == old(self).generation_bound(),
            final(self).generation_bound() == old(self).generation_bound(),
    {
        self.vec.clear();
        self.free_indices.clear();
        self.first_generation = self.next_generation;
        assert(self.slots() =~= Seq::<Option<(usize, T)>>::empty());
    }

    /// Frees the slot of `id` if it holds the value of `id`. A handle whose slot is
    /// vacant, holds a value of another generation or does not exist is outdated:
    /// freeing it is a legitimate request that changes nothing.
    pub fn free(&mut self, id: GenerationalId)
        requires
            old(self).wf(),
        ensures
            final(self).wf(),
            final(self).lookup(id) is None,
            final(self).generation_floor() == old(self).generation_floor(),
            final(self).generation_bound() == old(self).generation_bound(),
            old(self).lookup(id) is None ==> *final(self) == *old(self),
            old(self).lookup(id) is Some ==> {
                &&& final(self).slots() == old(self).slots().update(id.slot_index() as int, None)
                &&& final(self).free_list() == old(self).free_list().push((id.slot_index(), id.slot_generation()))
                &&& occupied_count(final(self).slots()) + 1 == occupied_count(old(self).slots())
            },
    {
        if id.id >= self.vec.len() {
            return;
        }
        match &self.vec[id.id] {
            Some(cell) => {
                if cell.generation != id.generation {
                    return;
                }
            },
            None => {
                return;
            },
        }
        let ghost old_slots = self.slots();
        let ghost fl = self.free_list();
        self.free_indices.push((id.id, id.generation));
        self.vec.set(id.id, None);
        assert(self.slots() =~= old_slots.update(id.id as int, None));
        proof {
            lemma_occupied_fill(old_slots.update(id.id as int, None), id.id as int, old_slots[id.id as int]);
            assert(old_slots.update(id.id as int, None).update(id.id as int, old_slots[id.id as int]) =~= old_slots);
            assert forall|k: int| 0 <= k < self.free_list().len() implies {
                &&& #[trigger] self.free_list()[k].0 < self.slots().len()
                &&& self.slots()[self.free_list()[k].0 as int] is None
                &&& self.generation_floor() <= self.free_list()[k].1
                &&& self.free_list()[k].1 < self.generation_bound()
            } by {
                if k < fl.len() {
                    assert(self.free_list()[k] == fl[k]);
                    assert(fl[k].0 != id.id);
                } else {
                    assert(old_slots[id.id as int] is Some);
                }
            }
            old(self).lemma_generations_in_range();
            assert forall|j: int|
                0 <= j < self.slots().len() && #[trigger] self.slots()[j] is Some implies {
                &&& self.generation_floor() <= gen_of(self.slots()[j])
                &&& gen_of(self.slots()[j]) < self.generation_bound()
            } by {
                assert(self.slots()[j] == old_slots[j]);
            }
            self.lemma_generations_in_range();
            assert forall|i: int, j: int| 0 <= i < j < self.free_list().len() implies #[trigger] self.free_list()[i].0
                != #[trigger] self.free_list()[j].0 by {
                assert(self.free_list()[i] == fl[i]);
                if j < fl.len() {
                    assert(self.free_list()[j] == fl[j]);
                } else {
                    assert(fl[i].0 != id.id);
                }
            }
        }
    }
}

impl<T> GenerationalStorage<T> {
    /// The size in bytes of one slot.
    pub closed spec fn cell_size() -> nat {
        size_of::<GenerationalCell<T>>()
    }

    /// The bytes that `c` cells take.
    pub open spec fn cells_bytes(c: int) -> int {
        c * Self::cell_size()
    }

    /// The bytes that a slot vector of `capacity` slots takes, counted in cells.
    pub fn allocated_bytes(capacity: usize) -> (r: usize)
        requires
            Self::cells_bytes(capacity as int) <= isize::MAX,
        ensures
            r == Self::cells_bytes(capacity as int),
    {
        let size = cell_size::<T>();
        proof {
            vstd::arithmetic::mul::lemma_mul_nonnegative(capacity as int, size as int);
        }
        capacity * size
    }

    /// The bytes held by the slot vector, counted as its capacity times the size of
    /// a cell. The capacity is the allocator's choice; it is at least the number of
    /// slots, and the vector holds at most `isize::MAX` bytes.
    pub fn allocated_memory(&self) -> (r: usize)
        ensures
            exists|c: int|
                c >= self.slots().len() && #[trigger] Self::cells_bytes(c) <= isize::MAX && r == Self::cells_bytes(c),
    {
        let c = vec_capacity(&self.vec);
        let size = cell_size::<T>();
        proof {
            assert(c * size <= c * size_of::<Option<GenerationalCell<T>>>()) by (nonlinear_arith)
                requires
                    size <= size_of::<Option<GenerationalCell<T>>>(),
                    c >= 0,
            ;
        }
        Self::allocated_bytes(c)
    }
}

/// Replacing the value of an occupied slot keeps the count of occupied slots.
proof fn lemma_occupied_replace<T>(s: Seq<Option<(usize, T)>>, i: int, v: Option<(usize, T)>)
    requires
        0 <= i < s.len(),
        s[i] is Some,
        v is Some,
    ensures
        occupied_count(s.update(i, v)) == occupied_count(s),
    decreases s.len(),
{
    let t = s.update(i, v);
    if i < s.len() - 1 {
        assert(t.drop_last() =~= s.drop_last().update(i, v));
        lemma_occupied_replace(s.drop_last(), i, v);
    } else {
        assert(t.drop_last() =~= s.drop_last());
    }
}

/// Filling a vacant slot adds one to the count of occupied slots.
proof fn lemma_occupied_fill<T>(s: Seq<Option<(usize, T)>>, i: int, v: Option<(usize, T)>)
    requires
        0 <= i < s.len(),
        s[i] is None,
        v is Some,
    ensures
        occupied_count(s.update(i, v)) == occupied_count(s) + 1,
    decreases s.len(),
{
    let t = s.update(i, v);
    if i < s.len() - 1 {
        assert(t.drop_last() =~= s.drop_last().update(i, v));
        lemma_occupied_fill(s.drop_last(), i, v);
    } else {
        assert(t.drop_last() =~= s.drop_last());
    }
}

/// What `retain` releases: slots below `m` that held a value and no longer do,
/// each once, in slot order.
proof fn lemma_released_entries_shape<T>(old: Seq<Option<(usize, T)>>, new: Seq<Option<(usize, T)>>, m: int)
    requires
        0 <= m <= old.len(),
        m <= usize::MAX,
        old.len() == new.len(),
    ensures
        forall|k: int|
            0 <= k < released_entries(old, new, m).len() ==> {
                let e = #[trigger] released_entries(old, new, m)[k];
                &&& 0 <= e.0 < m
                &&& old[e.0 as int] is Some
                &&& e.1 == gen_of(old[e.0 as int])
                &&& new[e.0 as int] is None
            },
        forall|i: int, j: int|
            0 <= i < j < released_entries(old, new, m).len() ==> #[trigger] released_entries(old, new, m)[i].0
                < #[trigger] released_entries(old, new, m)[j].0,
    decreases m,
{
    if m > 0 {
        lemma_released_entries_shape(old, new, m - 1);
        let prev = released_entries(old, new, m - 1);
        let r = released_entries(old, new, m);
        if r.len() != prev.len() {
            let cell = old[m - 1]->0;
            assert(((m - 1) as usize) as int == m - 1);
            assert(r == prev.push(((m - 1) as usize, cell.0)));
            assert forall|k: int| 0 <= k < r.len() implies {
                let e = #[trigger] r[k];
                &&& 0 <= e.0 < m
                &&& old[e.0 as int] is Some
                &&& e.1 == gen_of(old[e.0 as int])
                &&& new[e.0 as int] is None
            } by {
                if k < prev.len() {
                    assert(r[k] == prev[k]);
                }
            }
            assert forall|i: int, j: int| 0 <= i < j < r.len() implies #[trigger] r[i].0 < #[trigger] r[j].0 by {
                assert(r[i] == prev[i]);
                if j < prev.len() {
                    assert(r[j] == prev[j]);
                }
            }
        } else {
            assert(r == prev);
        }
    }
}

/// Over the first `m` slots, the values kept and the entries released add up to
/// the values there before.
proof fn lemma_released_count<T>(old: Seq<Option<(usize, T)>>, new: Seq<Option<(usize, T)>>, m: int)
    requires
        0 <= m <= old.len(),
        old.len() == new.len(),
        forall|j: int| 0 <= j < m ==> (#[trigger] old[j] is None ==> new[j] is None),
    ensures
        occupied_count(new.subrange(0, m)) + released_entries(old, new, m).len() == occupied_count(
            old.subrange(0, m),
        ),
    decreases m,
{
    if m > 0 {
        lemma_released_count(old, new, m - 1);
        assert(old.subrange(0, m).drop_last() =~= old.subrange(0, m - 1));
        assert(new.subrange(0, m).drop_last() =~= new.subrange(0, m - 1));
        assert(old.subrange(0, m).last() == old[m - 1]);
        assert(new.subrange(0, m).last() == new[m - 1]);
    } else {
        assert(old.subrange(0, 0).len() == 0);
        assert(new.subrange(0, 0).len() == 0);
    }
}

/// Slots that agree on the first `m` places release the same entries there.
proof fn lemma_released_entries_prefix<T>(
    old: Seq<Option<(usize, T)>>,
    a: Seq<Option<(usize, T)>>,
    b: Seq<Option<(usize, T)>>,
    m: int,
)
    requires
        0 <= m <= old.len(),
        forall|j: int| 0 <= j < m ==> a[j] == b[j],
    ensures
        released_entries(old, a, m) == released_entries(old, b, m),
    decreases m,
{
    if m > 0 {
        lemma_released_entries_prefix(old, a, b, m - 1);
    }
}


/// Pushing a value makes its handle find it, counts one more value, leaves every
/// live handle finding the value it found before, and gives a handle whose slot no
/// live handle names: the new value goes to a vacant slot or a new one.
pub proof fn law_push_keeps_live_handles<T>(
    before: GenerationalStorage<T>,
    after: GenerationalStorage<T>,
    data: T,
    new_id: GenerationalId,
    other: GenerationalId,
)
    requires
        before.wf(),
        before.free_list().len() == 0 ==> {
            &&& after.slots() == before.slots().push(Some((before.generation_floor(), data)))
            &&& new_id.slot_index() == before.slots().len()
            &&& new_id.slot_generation() == before.generation_floor()
        },
        before.free_list().len() > 0 ==> {
            let (i, g) = before.free_list().last();
            &&& after.slots() == before.slots().update(i as int, Some(((g + 1) as usize, data)))
            &&& new_id.slot_index() == i
            &&& new_id.slot_generation() == g + 1
        },
        before.lookup(other) is Some,
    ensures
        after.lookup(new_id) == Some(data),
        occupied_count(after.slots()) == occupied_count(before.slots()) + 1,
        after.lookup(other) == before.lookup(other),
        new_id.slot_index() != other.slot_index(),
{
    if before.free_list().len() > 0 {
        let fl = before.free_list();
        let (i, g) = fl.last();
        assert(fl.last() == fl[fl.len() - 1]);
        assert(before.slots()[i as int] is None);
        assert(other.slot_index() != i);
        lemma_occupied_fill(before.slots(), i as int, Some(((g + 1) as usize, data)));
    } else {
        assert(after.slots().drop_last() =~= before.slots());
    }
}

/// A handle that finds nothing goes on finding nothing through a `push`, as long as
/// its slot exists and every freed entry for that slot is of its generation or a
/// later one (as `free` and `retain` leave them for a handle that was live): a
/// reused slot comes back under a newer generation.
pub proof fn law_stale_handle_stays_stale<T>(
    before: GenerationalStorage<T>,
    after: GenerationalStorage<T>,
    data: T,
    new_id: GenerationalId,
    id: GenerationalId,
)
    requires
        before.wf(),
        before.free_list().len() == 0 ==> {
            &&& after.slots() == before.slots().push(Some((before.generation_floor(), data)))
            &&& new_id.slot_index() == before.slots().len()
            &&& new_id.slot_generation() == before.generation_floor()
        },
        before.free_list().len() > 0 ==> {
            let (i, g) = before.free_list().last();
            &&& after.slots() == before.slots().update(i as int, Some(((g + 1) as usize, data)))
            &&& new_id.slot_index() == i
            &&& new_id.slot_generation() == g + 1
        },
        id.slot_index() < before.slots().len(),
        before.lookup(id) is None,
        forall|k: int|
            0 <= k < before.free_list().len() && #[trigger] before.free_list()[k].0 == id.slot_index()
                ==> before.free_list()[k].1 >= id.slot_generation(),
    ensures
        after.lookup(id) is None,
        after.lookup(new_id) == Some(data),
{
    if before.free_list().len() > 0 {
        let fl = before.free_list();
        assert(fl.last() == fl[fl.len() - 1]);
    }
}

/// A freed handle stays stale: after `free(id)` the next `push` reuses its slot under
/// a newer generation, so `id` finds nothing while the new handle finds the new value.
pub proof fn law_freed_handle_stays_stale<T>(
    before: GenerationalStorage<T>,
    freed: GenerationalStorage<T>,
    pushed: GenerationalStorage<T>,
    id: GenerationalId,
    data: T,
    new_id: GenerationalId,
)
    requires
        before.wf(),
        before.lookup(id) is Some,
        freed.slots() == before.slots().update(id.slot_index() as int, None),
        freed.free_list() == before.free_list().push((id.slot_index(), id.slot_generation())),
        id.slot_generation() < usize::MAX,
        pushed.slots() == freed.slots().update(
            id.slot_index() as int,
            Some(((id.slot_generation() + 1) as usize, data)),
        ),
        new_id.slot_index() == id.slot_index(),
        new_id.slot_generation() == id.slot_generation() + 1,
    ensures
        freed.lookup(id) is None,
        pushed.lookup(id) is None,
        pushed.lookup(new_id) == Some(data),
{
}

/// A handle of a generation below the floor finds nothing: after `clear` no
/// handle made before it finds a value stored after it, however many are pushed.
pub proof fn law_cleared_handles_stay_stale<T>(s: GenerationalStorage<T>, id: GenerationalId)
    requires
        s.wf(),
        id.slot_generation() < s.generation_floor(),
    ensures
        s.lookup(id) is None,
{
    s.lemma_generations_in_range();
    if id.slot_index() < s.slots().len() {
        assert(s.slots()[id.slot_index() as int] is Some ==> s.generation_floor() <= gen_of(
            s.slots()[id.slot_index() as int],
        ));
    }
}

/// A value reached through `get_mut` and changed there is what its handle finds
/// afterwards, and every other handle, one of the same slot and an older or newer
/// generation too, finds what it found before.
pub proof fn law_get_mut_touches_only_its_handle<T>(
    before: GenerationalStorage<T>,
    after: GenerationalStorage<T>,
    id: GenerationalId,
    value: T,
    other: GenerationalId,
)
    requires
        before.lookup(id) is Some,
        after.slots() == before.slots().update(id.slot_index() as int, Some((id.slot_generation(), value))),
        other != id,
    ensures
        after.lookup(id) == Some(value),
        after.lookup(other) == before.lookup(other),
{
    if other.slot_index() == id.slot_index() {
        assert(other.slot_generation() != id.slot_generation());
    }
}

/// Retaining drops exactly the values whose slots it releases: the count falls by
/// the number of released entries, one for each value the predicate turned down.
pub proof fn law_retain_count<T>(before: GenerationalStorage<T>, after: GenerationalStorage<T>)
    requires
        after.slots().len() == before.slots().len(),
        forall|i: int|
            0 <= i < before.slots().len() ==> (#[trigger] before.slots()[i] is None ==> after.slots()[i] is None),
    ensures
        occupied_count(after.slots()) + released_entries(before.slots(), after.slots(), before.slots().len() as int).len()
            == occupied_count(before.slots()),
{
    lemma_released_count(before.slots(), after.slots(), before.slots().len() as int);
    assert(before.slots().subrange(0, before.slots().len() as int) =~= before.slots());
    assert(after.slots().subrange(0, after.slots().len() as int) =~= after.slots());
}

/// Changing a value through `get_mut` keeps the count of values.
pub proof fn law_get_mut_keeps_count<T>(
    before: GenerationalStorage<T>,
    after: GenerationalStorage<T>,
    id: GenerationalId,
    value: T,
)
    requires
        before.lookup(id) is Some,
        after.slots() == before.slots().update(id.slot_index() as int, Some((id.slot_generation(), value))),
    ensures
        occupied_count(after.slots()) == occupied_count(before.slots()),
{
    lemma_occupied_replace(before.slots(), id.slot_index() as int, Some((id.slot_generation(), value)));
}

} // verus!
