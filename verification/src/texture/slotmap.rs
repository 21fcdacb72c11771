// Heavily reduced version of the `slotmap` crate: https://github.com/orlp/slotmap
use vstd::prelude::*;
use miniquad::TextureId;
use crate::collections::{count_some, lemma_count_some_update, lemma_count_some_push};

verus! {

/// A texture handle of the graphics backend; the slot map only stores it.
#[verifier::external_type_specification]
#[verifier::external_body]
pub struct ExTextureId(TextureId);

pub type TextureSlotId = u32;

/// A slot: a stored value, or the next link of the free list when vacant.
enum Slot {
    Occupied(TextureId),
    Vacant(u32),
}

/// Slot map, storage with stable unique keys.
///
/// Slot 0 is a sentinel that never holds a value, so no key is 0.
pub struct TextureIdSlotMap {
    slots: Vec<Slot>,
    free_head: u32,
    num_elems: u32,
    /// The vacant slots in free-list order, starting at `free_head`.
    free_chain: Ghost<Seq<u32>>,
}

impl TextureIdSlotMap {
    /// The values by key: `Some` where a slot holds a value.
    pub closed spec fn contents(&self) -> Seq<Option<TextureId>> {
        self.slots@.map_values(|s: Slot| match s {
            Slot::Occupied(v) => Some(v),
            Slot::Vacant(_) => None,
        })
    }

    /// Where the free link at position `k` of the chain points.
    spec fn next_of(&self, k: int) -> u32 {
        if k + 1 < self.free_chain@.len() {
            self.free_chain@[k + 1]
        } else {
            self.slots@.len() as u32
        }
    }

    /// The number of stored values.
    pub open spec fn spec_len(&self) -> nat {
        count_some(self.contents())
    }

    pub closed spec fn wf(&self) -> bool {
        let chain = self.free_chain@;
        &&& self.slots@.len() >= 1
        &&& self.slots@.len() <= u32::MAX
        &&& self.slots@[0] is Vacant
        &&& self.slots@.len() == 1 + self.num_elems + chain.len()
        &&& self.num_elems == count_some(self.contents())
        &&& self.free_head == (if chain.len() == 0 { self.slots@.len() as u32 } else { chain[0] })
        &&& forall|k: int| 0 <= k < chain.len() ==> 1 <= #[trigger] chain[k] < self.slots@.len()
        &&& forall|k: int| 0 <= k < chain.len() ==> self.slots@[chain[k] as int] == Slot::Vacant(#[trigger] self.next_of(k))
        &&& forall|i: int, j: int| 0 <= i < j < chain.len() ==> chain[i] != chain[j]
        &&& forall|i: int| 1 <= i < self.slots@.len() && self.slots@[i] is Vacant ==> chain.contains(i as u32)
    }

    /// Constructs a new, empty [`TextureIdSlotMap`].
    pub fn new() -> (m: Self)
        ensures
            m.wf(),
            m.spec_len() == 0,
            m.contents() == seq![None::<TextureId>],
            m.free_keys().len() == 0,
    {
        let mut slots = Vec::new();
        slots.push(Slot::Vacant(0));
        let m = TextureIdSlotMap { slots, free_head: 1, num_elems: 0, free_chain: Ghost(Seq::empty()) };
        assert(m.contents() =~= seq![None::<TextureId>]);
        assert(m.contents().drop_last() =~= Seq::<Option<TextureId>>::empty());
        assert(count_some(Seq::<Option<TextureId>>::empty()) == 0);
        assert(count_some(m.contents()) == 0);
        m
    }

    /// Returns the number of elements in the slot map.
    pub fn len(&self) -> (n: usize)
        requires
            self.wf(),
        ensures
            n == self.spec_len(),
    {
        self.num_elems as usize
    }

    /// The vacant keys, in the order `insert` takes them again: the most recently
    /// vacated first.
    pub closed spec fn free_keys(&self) -> Seq<u32> {
        self.free_chain@
    }

    /// The key that the next `insert` hands out: the most recently vacated slot,
    /// or a new slot at the end when none is vacant.
    pub open spec fn next_key(&self) -> u32 {
        if self.free_keys().len() == 0 {
            self.contents().len() as u32
        } else {
            self.free_keys()[0]
        }
    }

    /// Inserts a value into the slot map. Returns a unique key that can be used
    /// to access this value.
    pub fn insert(&mut self, value: TextureId) -> (key: TextureSlotId)
        requires
            old(self).wf(),
            old(self).spec_len() + 1 < u32::MAX,
        ensures
            final(self).wf(),
            key == old(self).next_key(),
            final(self).free_keys() == if old(self).free_keys().len() == 0 {
                old(self).free_keys()
            } else {
                old(self).free_keys().drop_first()
            },
            key >= 1,
            final(self).spec_len() == old(self).spec_len() + 1,
            key < old(self).contents().len() ==> {
                &&& old(self).contents()[key as int] is None
                &&& final(self).contents() == old(self).contents().update(key as int, Some(value))
            },
            key >= old(self).contents().len() ==> {
                &&& key == old(self).contents().len()
                &&& final(self).contents() == old(self).contents().push(Some(value))
            },
    {
        let new_num_elems = self.num_elems + 1;
        let ghost old_contents = self.contents();
        let ghost chain = self.free_chain@;
        if (self.free_head as usize) < self.slots.len() {
            let kd = self.free_head;
            assert(chain.len() > 0);
            assert(self.slots@[chain[0] as int] == Slot::Vacant(self.next_of(0)));
            let next = match &self.slots[kd as usize] {
                Slot::Vacant(n) => *n,
                Slot::Occupied(_) => 0,
            };
            self.free_head = next;
            self.slots.set(kd as usize, Slot::Occupied(value));
            self.num_elems = new_num_elems;
            proof {
                self.free_chain@ = chain.drop_first();
                assert(self.contents() =~= old_contents.update(kd as int, Some(value)));
                lemma_count_some_update(old_contents, kd as int, Some(value));
                let c2 = self.free_chain@;
                assert forall|k: int| 0 <= k < c2.len() implies self.slots@[c2[k] as int] == Slot::Vacant(#[trigger] self.next_of(k)) by {
                    assert(c2[k] == chain[k + 1]);
                    assert(chain[k + 1] != chain[0]);
                    assert(old(self).next_of(k + 1) == self.next_of(k));
                    assert(old(self).slots@[chain[k + 1] as int] == Slot::Vacant(old(self).next_of(k + 1)));
                }
                assert forall|i: int| 1 <= i < self.slots@.len() && self.slots@[i] is Vacant implies c2.contains(i as u32) by {
                    assert(old(self).slots@[i] is Vacant);
                    assert(chain.contains(i as u32));
                    let k = choose|k: int| 0 <= k < chain.len() && chain[k] == i as u32;
                    assert(k != 0);
                    assert(c2[k - 1] == i as u32);
                }
                assert forall|k: int| 0 <= k < c2.len() implies 1 <= #[trigger] c2[k] < self.slots@.len() by {
                    assert(c2[k] == chain[k + 1]);
                }
            }
            return kd;
        }
        let kd = self.slots.len() as u32;
        assert(chain.len() == 0);
        self.slots.push(Slot::Occupied(value));
        self.free_head = kd + 1;
        self.num_elems = new_num_elems;
        proof {
            assert(self.contents() =~= old_contents.push(Some(value)));
            lemma_count_some_push(old_contents, Some(value));
        }
        kd
    }

    /// Removes a key from the slot map if it is present.
    pub fn remove(&mut self, key: TextureSlotId)
        requires
            old(self).wf(),
        ensures
            final(self).wf(),
            value_at(old(self).contents(), key) is Some ==> {
                &&& final(self).contents() == old(self).contents().update(key as int, None)
                &&& final(self).free_keys() == seq![key] + old(self).free_keys()
                &&& final(self).next_key() == key
                &&& final(self).spec_len() + 1 == old(self).spec_len()
            },
            value_at(old(self).contents(), key) is None ==> *final(self) == *old(self),
    {
        if self.contains_key(key) && self.is_occupied(key) {
            let idx = key as usize;
            let ghost old_contents = self.contents();
            let ghost chain = self.free_chain@;
            proof {
                lemma_count_some_update(old_contents, idx as int, None);
                assert(!chain.contains(key)) by {
                    if chain.contains(key) {
                        let k = choose|k: int| 0 <= k < chain.len() && chain[k] == key;
                        assert(self.slots@[chain[k] as int] == Slot::Vacant(self.next_of(k)));
                    }
                }
            }
            self.slots.set(idx, Slot::Vacant(self.free_head));
            self.free_head = idx as u32;
            self.num_elems = self.num_elems - 1;
            proof {
                self.free_chain@ = seq![key] + chain;
                assert(self.contents() =~= old_contents.update(idx as int, None));
                let c2 = self.free_chain@;
                assert forall|k: int| 0 <= k < c2.len() implies self.slots@[c2[k] as int] == Slot::Vacant(#[trigger] self.next_of(k)) by {
                    if k > 0 {
                        assert(c2[k] == chain[k - 1]);
                        assert(old(self).next_of(k - 1) == self.next_of(k));
                        assert(old(self).slots@[chain[k - 1] as int] == Slot::Vacant(old(self).next_of(k - 1)));
                    }
                }
                assert forall|i: int, j: int| 0 <= i < j < c2.len() implies c2[i] != c2[j] by {
                    if i > 0 {
                        assert(c2[i] == chain[i - 1]);
                    }
                    assert(c2[j] == chain[j - 1]);
                }
                assert forall|i: int| 1 <= i < self.slots@.len() && self.slots@[i] is Vacant implies c2.contains(i as u32) by {
                    if i != idx {
                        assert(chain.contains(i as u32));
                        let k = choose|k: int| 0 <= k < chain.len() && chain[k] == i as u32;
                        assert(c2[k + 1] == i as u32);
                    } else {
                        assert(c2[0] == i as u32);
                    }
                }
            }
        }
    }

    /// Returns `true` if slot `key` holds a value.
    fn is_occupied(&self, key: TextureSlotId) -> (b: bool)
        requires
            key < self.contents().len(),
        ensures
            b == (self.contents()[key as int] is Some),
    {
        match &self.slots[key as usize] {
            Slot::Occupied(_) => true,
            Slot::Vacant(_) => false,
        }
    }

    /// Returns `true` if the slot map has a slot `key`.
    fn contains_key(&self, key: TextureSlotId) -> (b: bool)
        ensures
            b == (key < self.contents().len()),
    {
        (key as usize) < self.slots.len()
    }

    /// Returns the value stored under `key`, if any.
    pub fn get(&self, key: TextureSlotId) -> (r: Option<TextureId>)
        ensures
            r == (if key < self.contents().len() { self.contents()[key as int] } else { None }),
    {
        if (key as usize) < self.slots.len() {
            match &self.slots[key as usize] {
                Slot::Occupied(v) => Some(*v),
                Slot::Vacant(_) => None,
            }
        } else {
            None
        }
    }
}


/// What `get` finds under `key` in slot contents `c`.
pub open spec fn value_at(c: Seq<Option<TextureId>>, key: u32) -> Option<TextureId> {
    if key < c.len() { c[key as int] } else { None }
}

/// Keys are stable: after `insert` hands out `key` for `value`, `key` finds `value`
/// and every other key finds what it found before; after `remove(key)`, `key` finds
/// nothing and the other keys are again unchanged.
pub proof fn law_keys_are_stable(
    before: Seq<Option<TextureId>>,
    inserted: Seq<Option<TextureId>>,
    removed: Seq<Option<TextureId>>,
    key: u32,
    value: TextureId,
    other: u32,
)
    requires
        key < before.len() ==> before[key as int] is None && inserted == before.update(key as int, Some(value)),
        key >= before.len() ==> key == before.len() && inserted == before.push(Some(value)),
        removed == inserted.update(key as int, None),
        other != key,
    ensures
        value_at(inserted, key) == Some(value),
        value_at(inserted, other) == value_at(before, other),
        value_at(removed, key) is None,
        value_at(removed, other) == value_at(before, other),
{
}


/// Slot 0 never holds a value, so no key handed out is 0.
pub proof fn law_slot_zero_stays_empty(m: TextureIdSlotMap)
    requires
        m.wf(),
    ensures
        m.contents().len() >= 1,
        m.contents()[0] is None,
{
}

/// A key that `insert` never handed out, 0 or one past the slots made so far, finds
/// nothing.
pub proof fn law_unissued_keys_find_nothing(m: TextureIdSlotMap, key: u32)
    requires
        m.wf(),
        key == 0 || key >= m.contents().len(),
    ensures
        value_at(m.contents(), key) is None,
{
    law_slot_zero_stays_empty(m);
}

/// Freed keys are taken again last freed first: after removing `a` and then `b`,
/// the next two inserts hand out `b`, then `a`.
pub proof fn law_freed_keys_are_reused_last_first(
    before: TextureIdSlotMap,
    removed_a: TextureIdSlotMap,
    removed_b: TextureIdSlotMap,
    inserted_1: TextureIdSlotMap,
    a: u32,
    b: u32,
)
    requires
        removed_a.free_keys() == seq![a] + before.free_keys(),
        removed_b.free_keys() == seq![b] + removed_a.free_keys(),
        inserted_1.free_keys() == removed_b.free_keys().drop_first(),
    ensures
        removed_b.next_key() == b,
        inserted_1.next_key() == a,
{
    assert(removed_b.free_keys()[0] == b);
    assert(inserted_1.free_keys() =~= removed_a.free_keys());
    assert(removed_a.free_keys()[0] == a);
}

} // verus!
