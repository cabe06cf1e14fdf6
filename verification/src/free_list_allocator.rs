//! A first-fit free-list allocator: freed blocks go to the head of a list;
//! an allocation takes the first listed block that is large enough and
//! suitably aligned, and otherwise carves a new block from the untouched
//! part of the heap, as the bump allocator does.
//!
//! The list is kept as a sequence of (address, size) records, head first,
//! in place of headers written into the freed memory.
use vstd::prelude::*;

use crate::bump_allocator::{bump_step, carve, is_power_of_two, round_up};
use vstd::arithmetic::power2::pow2;

verus! {

/// Bytes that a free block needs for its header (size and link words); every
/// block is at least this large.
pub const FREE_BLOCK_SIZE: usize = 16;
/// Alignment of a free block header; every block is at least this aligned.
pub const FREE_BLOCK_ALIGN: usize = 8;

/// A freed block: its start address and size.
#[derive(Clone, Copy)]
pub struct FreeBlock {
    pub addr: usize,
    pub size: usize,
}

/// The size actually reserved for a request: at least a block header.
pub open spec fn block_size(size: usize) -> usize {
    if size >= FREE_BLOCK_SIZE {
        size
    } else {
        FREE_BLOCK_SIZE
    }
}

/// The alignment actually used for a request: at least a header's.
pub open spec fn block_align(align: usize) -> usize {
    if align >= FREE_BLOCK_ALIGN {
        align
    } else {
        FREE_BLOCK_ALIGN
    }
}

/// A free block can serve a request of `size` bytes aligned to `align`.
pub open spec fn fits(block: FreeBlock, size: usize, align: usize) -> bool {
    block.size >= size && block.addr % align == 0
}

/// Index of the first block from `from` on that fits, or the length.
pub open spec fn first_fit_from(list: Seq<FreeBlock>, size: usize, align: usize, from: int) -> int
    decreases list.len() - from,
{
    if from >= list.len() {
        list.len() as int
    } else if fits(list[from], size, align) {
        from
    } else {
        first_fit_from(list, size, align, from + 1)
    }
}

/// Index of the first listed block that fits, or the length.
pub open spec fn first_fit(list: Seq<FreeBlock>, size: usize, align: usize) -> int {
    first_fit_from(list, size, align, 0)
}

/// First-fit allocator over `heap_start..heap_end`.
pub struct FreeListAllocator {
    heap_start: usize,
    heap_end: usize,
    /// The untouched part of the heap starts here.
    bump_next: usize,
    /// Freed blocks, most recently freed first.
    free_list: Vec<FreeBlock>,
    /// The blocks handed out and not freed yet: start address to the number
    /// of bytes the block spans.
    live: Ghost<Map<usize, nat>>,
}

/// The byte ranges `a1..a1 + s1` and `a2..a2 + s2` do not overlap.
pub open spec fn disjoint(a1: int, s1: int, a2: int, s2: int) -> bool {
    a1 + s1 <= a2 || a2 + s2 <= a1
}

/// Rounding up to the reserved alignment also aligns to the requested one.
proof fn lemma_block_align_divides(x: usize, align: usize)
    requires
        is_power_of_two(align),
        x % block_align(align) == 0,
    ensures
        x % align == 0,
{
    if align < FREE_BLOCK_ALIGN {
        vstd::arithmetic::power2::lemma2_to64();
        let k = choose|k: nat| k < usize::BITS && pow2(k) == align;
        if k > 3 {
            vstd::arithmetic::power2::lemma_pow2_strictly_increases(3, k);
        }
        assert(k < 3);
        assert(k == 0 || k == 1 || k == 2);
        assert(align == 1 || align == 2 || align == 4);
        assert(x % 8 == 0 ==> x % 4 == 0 && x % 2 == 0 && x % 1 == 0) by (bit_vector);
    }
}

/// The larger of two powers of two is a power of two.
proof fn lemma_max_power_of_two(align: usize)
    requires
        is_power_of_two(align),
    ensures
        is_power_of_two(block_align(align)),
{
    if align < FREE_BLOCK_ALIGN {
        vstd::arithmetic::power2::lemma2_to64();
        assert(pow2(3) == 8);
    }
}

impl FreeListAllocator {
    /// The free list, head first.
    pub closed spec fn free_blocks(&self) -> Seq<FreeBlock> {
        self.free_list@
    }

    /// Start of the untouched part of the heap.
    pub closed spec fn untouched(&self) -> usize {
        self.bump_next
    }

    /// End (exclusive) of the managed region.
    pub closed spec fn end(&self) -> usize {
        self.heap_end
    }

    /// Start of the managed region.
    pub closed spec fn start(&self) -> usize {
        self.heap_start
    }

    /// The blocks handed out and not freed yet, by start address, with the
    /// number of bytes each spans.
    pub closed spec fn live_blocks(&self) -> Map<usize, nat> {
        self.live@
    }

    /// Every free and every live block lies in `heap_start..` below the
    /// untouched part, which lies in the region; no two blocks overlap.
    pub closed spec fn wf(&self) -> bool {
        let list = self.free_list@;
        let live = self.live@;
        &&& self.heap_start <= self.bump_next
        &&& self.bump_next <= self.heap_end || self.bump_next == self.heap_start
        &&& live.dom().finite()
        &&& forall|i: int|
            0 <= i < list.len() ==> {
                &&& self.heap_start <= #[trigger] list[i].addr
                &&& list[i].addr + list[i].size <= self.bump_next
                &&& list[i].size > 0
            }
        &&& forall|a: usize|
            #[trigger] live.contains_key(a) ==> {
                &&& self.heap_start <= a
                &&& a + live[a] <= self.bump_next
                &&& live[a] > 0
            }
        &&& forall|i: int, j: int|
            0 <= i < list.len() && 0 <= j < list.len() && i != j ==> disjoint(
                #[trigger] list[i].addr as int,
                list[i].size as int,
                #[trigger] list[j].addr as int,
                list[j].size as int,
            )
        &&& forall|i: int, a: usize|
            0 <= i < list.len() && #[trigger] live.contains_key(a) ==> disjoint(
                #[trigger] list[i].addr as int,
                list[i].size as int,
                a as int,
                live[a] as int,
            )
        &&& forall|a: usize, b: usize|
            #[trigger] live.contains_key(a) && #[trigger] live.contains_key(b) && a != b ==> disjoint(
                a as int,
                live[a] as int,
                b as int,
                live[b] as int,
            )
    }

    /// An allocator over `heap_start..heap_end` with an empty free list.
    pub fn new(heap_start: usize, heap_end: usize) -> (a: Self)
        ensures
            a.start() == heap_start,
            a.end() == heap_end,
            a.untouched() == heap_start,
            a.free_blocks() == Seq::<FreeBlock>::empty(),
            a.live_blocks() == Map::<usize, nat>::empty(),
            a.wf(),
    {
        Self {
            heap_start,
            heap_end,
            bump_next: heap_start,
            free_list: Vec::new(),
            live: Ghost(Map::empty()),
        }
    }
}

/// Taking free block `i` out of the list and marking it live keeps the
/// blocks inside the heap and apart.
proof fn lemma_take_free_block(before: FreeListAllocator, after: FreeListAllocator, i: int)
    requires
        before.wf(),
        0 <= i < before.free_list@.len(),
        after.heap_start == before.heap_start,
        after.heap_end == before.heap_end,
        after.bump_next == before.bump_next,
        after.free_list@ == before.free_list@.remove(i),
        after.live@ == before.live@.insert(
            before.free_list@[i].addr,
            before.free_list@[i].size as nat,
        ),
    ensures
        after.wf(),
        !before.live@.contains_key(before.free_list@[i].addr),
{
    let old_list = before.free_list@;
    let list = after.free_list@;
    let live = after.live@;
    let b = old_list[i];
    if before.live@.contains_key(b.addr) {
        assert(disjoint(
            old_list[i].addr as int,
            old_list[i].size as int,
            b.addr as int,
            before.live@[b.addr] as int,
        ));
    }
    assert forall|k: int| 0 <= k < list.len() implies #[trigger] list[k] == if k < i {
        old_list[k]
    } else {
        old_list[k + 1]
    } by {}
    assert forall|k: int|
        0 <= k < list.len() implies {
        &&& after.heap_start <= #[trigger] list[k].addr
        &&& list[k].addr + list[k].size <= after.bump_next
        &&& list[k].size > 0
    } by {
        let k0 = if k < i {
            k
        } else {
            k + 1
        };
        assert(old_list[k0].addr == list[k].addr);
    }
    assert forall|a: usize| #[trigger] live.contains_key(a) implies {
        &&& after.heap_start <= a
        &&& a + live[a] <= after.bump_next
        &&& live[a] > 0
    } by {
        if a != b.addr {
            assert(before.live@.contains_key(a));
        } else {
            assert(old_list[i].addr == a);
        }
    }
    assert forall|k: int, l: int|
        0 <= k < list.len() && 0 <= l < list.len() && k != l implies disjoint(
        #[trigger] list[k].addr as int,
        list[k].size as int,
        #[trigger] list[l].addr as int,
        list[l].size as int,
    ) by {
        let k0 = if k < i {
            k
        } else {
            k + 1
        };
        let l0 = if l < i {
            l
        } else {
            l + 1
        };
        assert(old_list[k0].addr == list[k].addr && old_list[l0].addr == list[l].addr);
    }
    assert forall|k: int, a: usize|
        0 <= k < list.len() && #[trigger] live.contains_key(a) implies disjoint(
        #[trigger] list[k].addr as int,
        list[k].size as int,
        a as int,
        live[a] as int,
    ) by {
        let k0 = if k < i {
            k
        } else {
            k + 1
        };
        assert(old_list[k0].addr == list[k].addr);
        if a == b.addr {
            assert(disjoint(
                old_list[k0].addr as int,
                old_list[k0].size as int,
                old_list[i].addr as int,
                old_list[i].size as int,
            ));
        } else {
            assert(before.live@.contains_key(a));
        }
    }
    assert forall|a: usize, c: usize|
        #[trigger] live.contains_key(a) && #[trigger] live.contains_key(c) && a != c implies disjoint(
        a as int,
        live[a] as int,
        c as int,
        live[c] as int,
    ) by {
        if a == b.addr {
            assert(before.live@.contains_key(c));
            assert(old_list[i].addr == a);
        } else if c == b.addr {
            assert(before.live@.contains_key(a));
            assert(old_list[i].addr == c);
        } else {
            assert(before.live@.contains_key(a) && before.live@.contains_key(c));
        }
    }
}

/// Carving a new block from the start of the untouched part, within the
/// heap, and marking it live keeps the blocks inside the heap and apart.
proof fn lemma_carve_fresh_block(
    before: FreeListAllocator,
    after: FreeListAllocator,
    start: usize,
    len: usize,
)
    requires
        before.wf(),
        before.bump_next <= start,
        len > 0,
        start + len == after.bump_next,
        after.bump_next <= before.heap_end,
        after.heap_start == before.heap_start,
        after.heap_end == before.heap_end,
        after.free_list@ == before.free_list@,
        after.live@ == before.live@.insert(start, len as nat),
    ensures
        after.wf(),
        !before.live@.contains_key(start),
{
    let list = after.free_list@;
    let live = after.live@;
    if before.live@.contains_key(start) {
        assert(start + before.live@[start] <= before.bump_next);
    }
    assert forall|a: usize| #[trigger] live.contains_key(a) implies {
        &&& after.heap_start <= a
        &&& a + live[a] <= after.bump_next
        &&& live[a] > 0
    } by {
        if a != start {
            assert(before.live@.contains_key(a));
        }
    }
    assert forall|k: int, a: usize|
        0 <= k < list.len() && #[trigger] live.contains_key(a) implies disjoint(
        #[trigger] list[k].addr as int,
        list[k].size as int,
        a as int,
        live[a] as int,
    ) by {
        if a != start {
            assert(before.live@.contains_key(a));
        }
    }
    assert forall|a: usize, c: usize|
        #[trigger] live.contains_key(a) && #[trigger] live.contains_key(c) && a != c implies disjoint(
        a as int,
        live[a] as int,
        c as int,
        live[c] as int,
    ) by {
        if a != start {
            assert(before.live@.contains_key(a));
        }
        if c != start {
            assert(before.live@.contains_key(c));
        }
    }
}

/// Putting the first `size` bytes of a live block at the head of the free
/// list and forgetting the block as live keeps the blocks inside the heap
/// and apart.
proof fn lemma_free_live_block(
    before: FreeListAllocator,
    after: FreeListAllocator,
    addr: usize,
    size: usize,
)
    requires
        before.wf(),
        before.live@.contains_key(addr),
        0 < size <= before.live@[addr],
        after.heap_start == before.heap_start,
        after.heap_end == before.heap_end,
        after.bump_next == before.bump_next,
        after.free_list@ == seq![FreeBlock { addr, size }] + before.free_list@,
        after.live@ == before.live@.remove(addr),
    ensures
        after.wf(),
{
    let old_list = before.free_list@;
    let list = after.free_list@;
    let live = after.live@;
    let ext = before.live@[addr];
    assert forall|k: int| 0 < k < list.len() implies #[trigger] list[k] == old_list[k - 1] by {}
    assert forall|k: int|
        0 <= k < list.len() implies {
        &&& after.heap_start <= #[trigger] list[k].addr
        &&& list[k].addr + list[k].size <= after.bump_next
        &&& list[k].size > 0
    } by {
        if k > 0 {
            assert(old_list[k - 1].addr == list[k].addr);
        }
    }
    assert forall|a: usize| #[trigger] live.contains_key(a) implies {
        &&& after.heap_start <= a
        &&& a + live[a] <= after.bump_next
        &&& live[a] > 0
    } by {
        assert(before.live@.contains_key(a));
    }
    assert forall|k: int, l: int|
        0 <= k < list.len() && 0 <= l < list.len() && k != l implies disjoint(
        #[trigger] list[k].addr as int,
        list[k].size as int,
        #[trigger] list[l].addr as int,
        list[l].size as int,
    ) by {
        if k == 0 {
            assert(old_list[l - 1].addr == list[l].addr);
            assert(disjoint(
                old_list[l - 1].addr as int,
                old_list[l - 1].size as int,
                addr as int,
                ext as int,
            ));
        } else if l == 0 {
            assert(old_list[k - 1].addr == list[k].addr);
            assert(disjoint(
                old_list[k - 1].addr as int,
                old_list[k - 1].size as int,
                addr as int,
                ext as int,
            ));
        } else {
            assert(old_list[k - 1].addr == list[k].addr && old_list[l - 1].addr == list[l].addr);
        }
    }
    assert forall|k: int, a: usize|
        0 <= k < list.len() && #[trigger] live.contains_key(a) implies disjoint(
        #[trigger] list[k].addr as int,
        list[k].size as int,
        a as int,
        live[a] as int,
    ) by {
        assert(before.live@.contains_key(a));
        if k == 0 {
            assert(disjoint(addr as int, ext as int, a as int, before.live@[a] as int));
        } else {
            assert(old_list[k - 1].addr == list[k].addr);
        }
    }
    assert forall|a: usize, c: usize|
        #[trigger] live.contains_key(a) && #[trigger] live.contains_key(c) && a != c implies disjoint(
        a as int,
        live[a] as int,
        c as int,
        live[c] as int,
    ) by {
        assert(before.live@.contains_key(a) && before.live@.contains_key(c));
    }
}

impl FreeListAllocator {
    /// Allocates `size` bytes aligned to `align` (a power of two), reserving
    /// at least a block header: takes the first listed block that is large
    /// enough and aligned, removing it from the list; when none fits, carves
    /// the block from the untouched part of the heap as the bump allocator
    /// does, or returns `None` when it would end past `heap_end`.
    pub fn allocate(&mut self, size: usize, align: usize) -> (block: Option<usize>)
        requires
            old(self).wf(),
            is_power_of_two(align),
        ensures
            final(self).wf(),
            block matches Some(a) ==> {
                &&& a % align == 0
                &&& old(self).start() <= a
                &&& a + size <= old(self).end()
                &&& !old(self).live_blocks().contains_key(a)
                &&& final(self).live_blocks().contains_key(a)
                &&& final(self).live_blocks()[a] >= block_size(size)
                &&& final(self).live_blocks() == old(self).live_blocks().insert(
                    a,
                    final(self).live_blocks()[a],
                )
            },
            block is None ==> final(self).live_blocks() == old(self).live_blocks(),
            final(self).start() == old(self).start(),
            final(self).end() == old(self).end(),
            ({
                let sz = block_size(size);
                let al = block_align(align);
                let k = first_fit(old(self).free_blocks(), sz, al);
                if k < old(self).free_blocks().len() {
                    &&& block == Some(old(self).free_blocks()[k].addr)
                    &&& final(self).free_blocks() == old(self).free_blocks().remove(k)
                    &&& final(self).untouched() == old(self).untouched()
                } else {
                    &&& final(self).free_blocks() == old(self).free_blocks()
                    &&& match bump_step(old(self).untouched(), sz, al, old(self).end()) {
                        Some(next) => {
                            &&& block == Some(round_up(old(self).untouched() as int, al as int) as usize)
                            &&& final(self).untouched() == next
                        },
                        None => {
                            &&& block is None
                            &&& final(self).untouched() == old(self).untouched()
                        },
                    }
                }
            }),
    {
        let needed = if size >= FREE_BLOCK_SIZE {
            size
        } else {
            FREE_BLOCK_SIZE
        };
        let alignment = if align >= FREE_BLOCK_ALIGN {
            align
        } else {
            FREE_BLOCK_ALIGN
        };
        proof {
            lemma_max_power_of_two(align);
        }
        let mut i: usize = 0;
        while i < self.free_list.len()
            invariant
                self.free_list@ == old(self).free_list@,
                self.bump_next == old(self).bump_next,
                self.heap_start == old(self).heap_start,
                self.heap_end == old(self).heap_end,
                self.live@ == old(self).live@,
                self.wf(),
                is_power_of_two(align),
                i <= self.free_list@.len(),
                needed == block_size(size),
                alignment == block_align(align),
                alignment > 0,
                first_fit(self.free_list@, needed, alignment) == first_fit_from(
                    self.free_list@,
                    needed,
                    alignment,
                    i as int,
                ),
            decreases self.free_list@.len() - i,
        {
            let candidate = self.free_list[i];
            if candidate.size >= needed && candidate.addr % alignment == 0 {
                assert(fits(self.free_list@[i as int], needed, alignment));
                let ghost before = *self;
                let taken = self.free_list.remove(i);
                proof {
                    self.live@ = self.live@.insert(taken.addr, taken.size as nat);
                    lemma_take_free_block(before, *self, i as int);
                    lemma_block_align_divides(taken.addr, align);
                }
                return Some(taken.addr);
            }
            i = i + 1;
        }
        match carve(self.bump_next, needed, alignment, self.heap_end) {
            Some((start, end)) => {
                let ghost before = *self;
                self.bump_next = end;
                proof {
                    self.live@ = self.live@.insert(start, needed as nat);
                    lemma_carve_fresh_block(before, *self, start, needed);
                    lemma_block_align_divides(start, align);
                }
                Some(start)
            },
            None => None,
        }
    }
}

impl FreeListAllocator {
    /// Frees the block at `addr` that was allocated with `size` and `align`:
    /// puts it, with its reserved size, at the head of the free list. The
    /// block must be live, and `size` no larger than what it was allocated
    /// with, as for any allocator's deallocation.
    pub fn dealloc(&mut self, addr: usize, size: usize, align: usize)
        requires
            old(self).wf(),
            old(self).live_blocks().contains_key(addr),
            block_size(size) <= old(self).live_blocks()[addr],
        ensures
            final(self).wf(),
            final(self).live_blocks() == old(self).live_blocks().remove(addr),
            final(self).start() == old(self).start(),
            final(self).end() == old(self).end(),
            final(self).untouched() == old(self).untouched(),
            final(self).free_blocks() == seq![FreeBlock { addr, size: block_size(size) }]
                + old(self).free_blocks(),
    {
        let size = if size >= FREE_BLOCK_SIZE {
            size
        } else {
            FREE_BLOCK_SIZE
        };
        let ghost before = *self;
        self.free_list.insert(0, FreeBlock { addr, size });
        assert(self.free_list@ =~= seq![FreeBlock { addr, size }] + old(self).free_list@);
        proof {
            self.live@ = self.live@.remove(addr);
            lemma_free_live_block(before, *self, addr, size);
        }
    }
}

/// Every block handed out and not freed yet lies inside the managed region,
/// and no two of them overlap. `new` gives a well-formed allocator and
/// `allocate` and `dealloc` keep it so, so this holds after any sequence of
/// calls in which each freed block is a live one, freed with the size it was
/// allocated with.
pub proof fn lemma_live_blocks_in_heap_and_disjoint(a: FreeListAllocator)
    requires
        a.wf(),
    ensures
        forall|x: usize| #[trigger]
            a.live_blocks().contains_key(x) ==> {
                &&& a.start() <= x
                &&& x + a.live_blocks()[x] <= a.end()
            },
        forall|x: usize, y: usize|
            #[trigger] a.live_blocks().contains_key(x) && #[trigger] a.live_blocks().contains_key(y)
                && x != y ==> disjoint(
                x as int,
                a.live_blocks()[x] as int,
                y as int,
                a.live_blocks()[y] as int,
            ),
{
}

/// First fit from `from` on picks a block that is large enough and aligned,
/// and every block it passes over is too small or misaligned.
proof fn lemma_first_fit_from(list: Seq<FreeBlock>, size: usize, align: usize, from: int)
    requires
        0 <= from <= list.len(),
    ensures
        from <= first_fit_from(list, size, align, from) <= list.len(),
        first_fit_from(list, size, align, from) < list.len() ==> {
            let k = first_fit_from(list, size, align, from);
            list[k].size >= size && list[k].addr % align == 0
        },
        forall|j: int|
            from <= j < first_fit_from(list, size, align, from) ==> #[trigger] list[j].size < size
                || list[j].addr % align != 0,
    decreases list.len() - from,
{
    if from < list.len() && !fits(list[from], size, align) {
        lemma_first_fit_from(list, size, align, from + 1);
    }
}

/// The block that `allocate` takes from the free list is the first listed
/// one that is at least as large as the reserved size and aligned to the
/// reserved alignment: it is such a block, every block before it is too
/// small or misaligned, and when the list holds any such block one is taken.
pub proof fn lemma_first_fit_is_first_large_aligned(list: Seq<FreeBlock>, size: usize, align: usize)
    ensures
        0 <= first_fit(list, size, align) <= list.len(),
        first_fit(list, size, align) < list.len() ==> {
            let k = first_fit(list, size, align);
            list[k].size >= size && list[k].addr % align == 0
        },
        forall|j: int|
            0 <= j < first_fit(list, size, align) ==> #[trigger] list[j].size < size || list[j].addr
                % align != 0,
        (exists|j: int| 0 <= j < list.len() && list[j].size >= size && #[trigger] list[j].addr % align
            == 0) ==> first_fit(list, size, align) < list.len(),
{
    lemma_first_fit_from(list, size, align, 0);
}

/// Freeing a block and then asking for the same size and alignment hands the
/// same block back and leaves the free list as it was, when the block's
/// address has the alignment that the request uses.
pub proof fn lemma_allocate_after_dealloc(list: Seq<FreeBlock>, addr: usize, size: usize, align: usize)
    requires
        addr % block_align(align) == 0,
    ensures
        ({
            let freed = seq![FreeBlock { addr, size: block_size(size) }] + list;
            &&& first_fit(freed, block_size(size), block_align(align)) == 0
            &&& freed[0].addr == addr
            &&& freed.remove(0) == list
        }),
{
    let freed = seq![FreeBlock { addr, size: block_size(size) }] + list;
    assert(fits(freed[0], block_size(size), block_align(align)));
    assert(freed.remove(0) =~= list);
}

} // verus!
