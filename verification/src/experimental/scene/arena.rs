//! Gleaned from https://github.com/ratel-rust/toolshed/blob/master/src/arena.rs
//! and than modified a lot.
//!
//! The `Arena`: a bump allocator over 64KiB pages. Allocations are handed out
//! as positions (a page and an offset into it).
use vstd::prelude::*;

verus! {

broadcast use vstd::layout::layout_of_primitives;

pub const ARENA_BLOCK: usize = 65536;

/// Where an allocation starts: a page of the arena and a byte offset in it.
#[derive(Clone, Copy, Debug)]
pub struct ArenaPtr {
    pub page: usize,
    pub offset: usize,
}

/// An arena implementation that uses preallocated 64KiB pages for all allocations.
/// If a new allocation were to be pushed over the the boundaries of the page, a
/// new page is internally allocated first, thus this version of the arena can never
/// run out of memory unless the process runs out of heap altogether.
///
/// Allocating a type larger than the page size will result in a new heap allocation
/// just for that type separate from the page mechanism.
pub struct Arena {
    store: Vec<Vec<u8>>,
    /// The page that small allocations are bumped into.
    ptr: usize,
    offset: usize,
    /// The byte size that each page was made with.
    page_sizes: Ghost<Seq<nat>>,
}

/// The machine word in bytes: allocations are rounded up to a multiple of it.
pub open spec fn word() -> int {
    vstd::layout::size_of::<usize>() as int
}

/// `size` rounded up to a multiple of the machine word.
pub open spec fn round_to_word(size: int) -> int {
    if size % word() == 0 {
        size
    } else {
        size + (word() - size % word())
    }
}

/// Rounding up gives a multiple of the word no more than a word larger.
proof fn lemma_round_to_word(size: int)
    requires
        size >= 0,
        word() == 4 || word() == 8,
    ensures
        round_to_word(size) % word() == 0,
        size <= round_to_word(size) < size + word(),
{
    let w = word();
    let n = size % w;
    if n != 0 {
        vstd::arithmetic::div_mod::lemma_add_mod_noop(size, w - n, w);
        vstd::arithmetic::div_mod::lemma_small_mod((w - n) as nat, w as nat);
        vstd::arithmetic::div_mod::lemma_mod_self_0(w);
    }
}

/// The sum of two multiples of `w` is a multiple of `w`.
proof fn lemma_mod_sum(a: int, b: int, w: int)
    requires
        w > 0,
        a % w == 0,
        b % w == 0,
    ensures
        (a + b) % w == 0,
{
    vstd::arithmetic::div_mod::lemma_add_mod_noop(a, b, w);
    vstd::arithmetic::div_mod::lemma_mod_self_0(w);
    assert(0int % w == 0);
}

impl Arena {
    /// The byte size of each page, in the order they were made.
    pub closed spec fn pages(&self) -> Seq<nat> {
        self.page_sizes@
    }

    /// The page that small allocations go to.
    pub closed spec fn current_page(&self) -> int {
        self.ptr as int
    }

    /// The bytes already taken from the current page.
    pub closed spec fn used(&self) -> int {
        self.offset as int
    }

    pub closed spec fn wf(&self) -> bool {
        &&& self.store@.len() == self.page_sizes@.len()
        &&& self.ptr < self.store@.len()
        &&& self.page_sizes@[self.ptr as int] == ARENA_BLOCK
        &&& self.offset <= ARENA_BLOCK
        &&& self.offset as int % word() == 0
    }

    /// Create a new arena with a single preallocated 64KiB page.
    pub fn new() -> (a: Self)
        ensures
            a.wf(),
            a.pages() == seq![ARENA_BLOCK as nat],
            a.current_page() == 0,
            a.used() == 0,
    {
        let mut store = Vec::new();
        store.push(Vec::with_capacity(ARENA_BLOCK));
        assert(word() == 4 || word() == 8) by {
            assert(vstd::layout::size_of::<usize>() * 8 == usize::BITS);
        }
        Arena { store, ptr: 0, offset: 0, page_sizes: Ghost(Seq::empty().push(ARENA_BLOCK as nat)) }
    }

    /// Reserves `size` bytes and returns where they start.
    pub fn allocate(&mut self, size: usize) -> (p: ArenaPtr)
        requires
            old(self).wf(),
        ensures
            final(self).wf(),
            size > ARENA_BLOCK ==> {
                &&& p.page == old(self).pages().len() && p.offset == 0
                &&& final(self).pages() == old(self).pages().push(size as nat)
                &&& final(self).current_page() == old(self).current_page()
                &&& final(self).used() == old(self).used()
            },
            size <= ARENA_BLOCK ==> {
                let s = round_to_word(size as int);
                if old(self).used() + s > ARENA_BLOCK {
                    &&& p.page == old(self).pages().len() && p.offset == 0
                    &&& final(self).pages() == old(self).pages().push(ARENA_BLOCK as nat)
                    &&& final(self).current_page() == p.page
                    &&& final(self).used() == s
                } else {
                    &&& p.page == old(self).current_page() && p.offset == old(self).used()
                    &&& final(self).pages() == old(self).pages()
                    &&& final(self).current_page() == old(self).current_page()
                    &&& final(self).used() == old(self).used() + s
                }
            },
            p.page < final(self).pages().len(),
            p.offset + size <= final(self).pages()[p.page as int],
            p.offset as int % word() == 0,
            p.page == final(self).current_page() ==> p.offset + size <= final(self).used(),
            p.page == old(self).current_page() ==> p.offset >= old(self).used(),
            p.page != old(self).current_page() ==> p.page == old(self).pages().len(),
    {
        // This should be optimized away for size known at compile time.
        if size > ARENA_BLOCK {
            return self.alloc_bytes(size);
        }
        let ghost old_size = size;
        let w = core::mem::size_of::<usize>();
        assert(w == 4 || w == 8) by {
            assert(w * 8 == usize::BITS);
        }
        let size = match size % w {
            0 => size,
            n => size + (w - n),
        };
        proof {
            lemma_round_to_word(old_size as int);
            lemma_mod_sum(self.offset as int, size as int, w as int);
        }
        let offset = self.offset;
        let cap = offset + size;
        if cap > ARENA_BLOCK {
            self.grow();
            self.offset = size;
            ArenaPtr { page: self.ptr, offset: 0 }
        } else {
            self.offset = cap;
            ArenaPtr { page: self.ptr, offset }
        }
    }

    fn alloc_byte_vec(&mut self, val: Vec<u8>, size: Ghost<nat>) -> (p: ArenaPtr)
        requires
            old(self).wf(),
        ensures
            final(self).wf(),
            p.page == old(self).pages().len() && p.offset == 0,
            final(self).pages() == old(self).pages().push(size@),
            final(self).current_page() == old(self).current_page(),
            final(self).used() == old(self).used(),
    {
        let page = self.store.len();
        self.store.push(val);
        proof {
            self.page_sizes@ = self.page_sizes@.push(size@);
        }
        ArenaPtr { page, offset: 0 }
    }

    /// Starts a new 64KiB page; small allocations go there from now on.
    pub fn grow(&mut self)
        requires
            old(self).wf(),
        ensures
            final(self).wf(),
            final(self).pages() == old(self).pages().push(ARENA_BLOCK as nat),
            final(self).current_page() == old(self).pages().len(),
            final(self).used() == old(self).used(),
    {
        let p = self.alloc_byte_vec(Vec::with_capacity(ARENA_BLOCK), Ghost(ARENA_BLOCK as nat));
        self.ptr = p.page;
    }

    fn alloc_bytes(&mut self, size: usize) -> (p: ArenaPtr)
        requires
            old(self).wf(),
        ensures
            final(self).wf(),
            p.page == old(self).pages().len() && p.offset == 0,
            final(self).pages() == old(self).pages().push(size as nat),
            final(self).current_page() == old(self).current_page(),
            final(self).used() == old(self).used(),
    {
        self.alloc_byte_vec(Vec::with_capacity(size), Ghost(size as nat))
    }

    /// The bytes taken from the current page.
    pub fn offset(&self) -> (o: usize)
        ensures
            o == self.used(),
    {
        self.offset
    }
}


/// Allocations made one after the other never overlap: a later allocation on the
/// same page starts where the earlier one ended, or further on.
pub proof fn law_allocations_do_not_overlap(
    arena: Arena,
    first: ArenaPtr,
    first_size: int,
    second: ArenaPtr,
)
    requires
        first.page < arena.pages().len(),
        first.page == arena.current_page() ==> first.offset + first_size <= arena.used(),
        second.page == arena.current_page() ==> second.offset >= arena.used(),
        second.page != arena.current_page() ==> second.page == arena.pages().len(),
    ensures
        first.page == second.page ==> first.offset + first_size <= second.offset,
{
}

} // verus!
