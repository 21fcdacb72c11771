use macroquad::collections::magic_vec::{MagicHandle, MagicVec};
use macroquad::experimental::coroutines::generational_storage::GenerationalStorage;
use macroquad::experimental::scene::arena::Arena;
use macroquad::telemetry::scene_allocated_memory;
use macroquad::texture::slotmap::TextureIdSlotMap;
use miniquad::{RawId, TextureId};

#[test]
fn generational_storage_gives_back_what_was_pushed() {
    let mut s: GenerationalStorage<u32> = GenerationalStorage::new();
    let a = s.push(7);
    let b = s.push(9);
    assert_eq!(s.get(a), Some(&7));
    assert_eq!(s.get(b), Some(&9));
    assert_eq!(s.count(), 2);
}

#[test]
fn freed_slot_is_reused_with_a_new_generation() {
    let mut s: GenerationalStorage<u32> = GenerationalStorage::new();
    let a = s.push(1);
    s.free(a);
    assert_eq!(s.get(a), None);
    assert_eq!(s.count(), 0);
    let b = s.push(2);
    // the old handle does not see the new value in the same slot
    assert_eq!(s.get(a), None);
    assert_eq!(s.get(b), Some(&2));
    assert_eq!(s.count(), 1);
}

#[test]
fn freeing_an_outdated_id_changes_nothing() {
    let mut s: GenerationalStorage<u32> = GenerationalStorage::new();
    let keep = s.push(3);
    let a = s.push(1);
    s.free(a);
    s.free(a);
    assert_eq!(s.count(), 1);
    let b = s.push(2);
    let c = s.push(4);
    assert_eq!(s.get(b), Some(&2));
    assert_eq!(s.get(c), Some(&4));
    assert_eq!(s.get(keep), Some(&3));
    assert_eq!(s.get(a), None);
    assert_eq!(s.count(), 3);
    // an outdated id whose slot was taken again frees nothing either
    s.free(a);
    assert_eq!(s.get(b), Some(&2));
    assert_eq!(s.count(), 3);
}

#[test]
fn handles_from_before_clear_stay_stale() {
    let mut s: GenerationalStorage<u32> = GenerationalStorage::new();
    let a = s.push(1);
    let b = s.push(2);
    s.clear();
    assert_eq!(s.count(), 0);
    let c = s.push(3);
    let d = s.push(4);
    // the slots are taken again from the start, under newer generations
    assert_eq!(s.get(a), None);
    assert_eq!(s.get(b), None);
    assert_eq!(s.get(c), Some(&3));
    assert_eq!(s.get(d), Some(&4));
    s.free(a);
    assert_eq!(s.count(), 2);
}

#[test]
fn get_mut_reaches_only_its_own_generation() {
    let mut s: GenerationalStorage<u32> = GenerationalStorage::new();
    let a = s.push(1);
    s.free(a);
    let b = s.push(2);
    assert!(s.get_mut(a).is_none());
    *s.get_mut(b).unwrap() = 9;
    assert_eq!(s.get(a), None);
    assert_eq!(s.get(b), Some(&9));
    assert_eq!(s.count(), 1);
    s.retain(|x| (x, false));
    assert_eq!(s.count(), 0);
}

#[test]
fn get_mut_changes_the_stored_value() {
    let mut s: GenerationalStorage<u32> = GenerationalStorage::new();
    let a = s.push(1);
    *s.get_mut(a).unwrap() = 5;
    assert_eq!(s.get(a), Some(&5));
}

#[test]
fn retain_drops_and_updates_values() {
    let mut s: GenerationalStorage<u32> = GenerationalStorage::new();
    let a = s.push(1);
    let b = s.push(2);
    let c = s.push(3);
    s.retain(|x| (x * 10, x != 2));
    assert_eq!(s.get(a), Some(&10));
    assert_eq!(s.get(b), None);
    assert_eq!(s.get(c), Some(&30));
    assert_eq!(s.count(), 2);
}

#[test]
fn clear_empties_the_storage() {
    let mut s: GenerationalStorage<u32> = GenerationalStorage::new();
    s.push(1);
    s.push(2);
    s.clear();
    assert_eq!(s.count(), 0);
    // slots are handed out from the start again
    let b = s.push(3);
    assert_eq!(s.get(b), Some(&3));
    assert_eq!(s.count(), 1);
}

#[test]
fn allocated_memory_counts_capacity_in_elements_size() {
    let mut s: GenerationalStorage<u64> = GenerationalStorage::new();
    s.push(1);
    assert!(s.allocated_memory() >= 1);
    // a cell of a u64 holds its generation and the value: 16 bytes on 64-bit targets
    let cell = 2 * std::mem::size_of::<usize>().max(8);
    assert_eq!(GenerationalStorage::<u64>::allocated_bytes(10), 10 * cell);
    // the storage starts with room for 1000 slots
    assert!(s.allocated_memory() >= 1000 * cell);
    assert_eq!(s.allocated_memory() % cell, 0);
}

#[test]
fn magic_vec_lends_each_element_once() {
    let mut v: MagicVec<u32> = MagicVec::new(4);
    v.push(10);
    v.push(20);
    let mut it = v.iter();
    let first = it.next(&mut v).unwrap();
    *v.data_mut(&first) += 1;
    let second = it.next(&mut v).unwrap();
    assert!(it.next(&mut v).is_none());
    // lent out: cannot be had again until given back
    assert!(v.get(first.handle).is_none());
    let h = first.handle;
    v.release(first);
    let again = v.get(h).unwrap();
    assert_eq!(*v.data_mut(&again), 11);
    assert_eq!(*v.data_mut(&second), 20);
    v.release(again);
    v.release(second);
}

#[test]
fn null_handle_lends_nothing() {
    let mut v: MagicVec<u32> = MagicVec::new(2);
    v.push(1);
    assert!(v.get(MagicHandle::null()).is_none());
}

#[test]
fn slotmap_insert_get_remove() {
    let mut m = TextureIdSlotMap::new();
    let t1 = TextureId::from_raw_id(RawId::OpenGl(11));
    let t2 = TextureId::from_raw_id(RawId::OpenGl(12));
    let k1 = m.insert(t1);
    let k2 = m.insert(t2);
    assert_ne!(k1, k2);
    assert_eq!(m.len(), 2);
    assert_eq!(m.get(k1), Some(t1));
    m.remove(k1);
    assert_eq!(m.len(), 1);
    assert_eq!(m.get(k1), None);
    assert_eq!(m.get(k2), Some(t2));
    // the freed slot is taken again first
    let k3 = m.insert(t1);
    assert_eq!(k3, k1);
    assert_eq!(m.get(k3), Some(t1));
}

#[test]
fn slotmap_removing_an_absent_key_is_a_no_op() {
    let mut m = TextureIdSlotMap::new();
    let t1 = TextureId::from_raw_id(RawId::OpenGl(21));
    let t2 = TextureId::from_raw_id(RawId::OpenGl(22));
    let k1 = m.insert(t1);
    let k2 = m.insert(t2);
    m.remove(k1);
    assert_eq!(m.len(), 1);
    m.remove(k1);
    assert_eq!(m.len(), 1);
    assert_eq!(m.get(k2), Some(t2));
    let k3 = m.insert(t1);
    let k4 = m.insert(t2);
    assert_ne!(k3, k4);
    assert!(k3 >= 1 && k4 >= 1);
    assert_eq!(m.len(), 3);
}

#[test]
fn slotmap_reuses_the_last_freed_key_first() {
    let mut m = TextureIdSlotMap::new();
    let t = TextureId::from_raw_id(RawId::OpenGl(31));
    let a = m.insert(t);
    let b = m.insert(t);
    let _c = m.insert(t);
    m.remove(a);
    m.remove(b);
    assert_eq!(m.insert(t), b);
    assert_eq!(m.insert(t), a);
    assert_eq!(m.insert(t), 4);
}

#[test]
fn arena_bumps_word_aligned_offsets() {
    let mut a = Arena::new();
    let word = std::mem::size_of::<usize>();
    let p = a.allocate(3);
    let q = a.allocate(5);
    assert_eq!((p.page, p.offset), (0, 0));
    assert_eq!((q.page, q.offset), (0, word));
    assert_eq!(a.offset(), 2 * word);
    assert_eq!(scene_allocated_memory(&a), 2 * word);
}

#[test]
fn arena_big_allocation_gets_a_page_of_its_own() {
    let mut a = Arena::new();
    let p = a.allocate(100_000);
    assert_eq!(p.offset, 0);
    assert_eq!(p.page, 1);
    // the page that small allocations go to is unchanged
    let q = a.allocate(8);
    assert_eq!((q.page, q.offset), (0, 0));
}

#[test]
fn arena_grows_into_a_new_page_when_full() {
    let mut a = Arena::new();
    let p = a.allocate(65_536);
    assert_eq!((p.page, p.offset), (0, 0));
    let q = a.allocate(1);
    assert_eq!((q.page, q.offset), (1, 0));
}
