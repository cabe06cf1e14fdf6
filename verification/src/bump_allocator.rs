//! A bump allocator: hands out memory from `heap_start..heap_end` by
//! advancing a shared "next free address"; freeing is a no-op, and `reset`
//! frees everything at once.
use std::sync::atomic::{AtomicUsize, Ordering};
use vstd::arithmetic::power2::{lemma_pow2_adds, lemma_pow2_pos, pow2};
use vstd::bits::{low_bits_mask, lemma_usize_low_bits_mask_is_mod, lemma_usize_pow2_no_overflow};
use vstd::arithmetic::div_mod::{lemma_fundamental_div_mod, lemma_fundamental_div_mod_converse};
use vstd::prelude::*;

verus! {

/// `align` is a power of two.
pub open spec fn is_power_of_two(align: usize) -> bool {
    exists|k: nat| k < usize::BITS && pow2(k) == align
}

/// Powers of two are positive.
proof fn lemma_power_of_two_pos(align: usize)
    requires
        is_power_of_two(align),
    ensures
        align > 0,
{
    let k = choose|k: nat| k < usize::BITS && pow2(k) == align;
    lemma_pow2_pos(k);
}

/// A power of two divides exactly the numbers whose bits below it are clear.
proof fn lemma_mask_is_mod(x: usize, align: usize)
    requires
        is_power_of_two(align),
    ensures
        x & ((align - 1) as usize) == x % align,
{
    let k = choose|k: nat| k < usize::BITS && pow2(k) == align;
    lemma_usize_low_bits_mask_is_mod(x, k);
    lemma_usize_pow2_no_overflow(k);
    assert(low_bits_mask(k) == pow2(k) - 1);
}

/// `up` is `addr` rounded up to a multiple of `align`: the multiple of
/// `align` in `addr..addr + align`.
pub open spec fn is_aligned_up(up: int, addr: int, align: int) -> bool {
    &&& up % align == 0
    &&& addr <= up < addr + align
}

/// The smallest multiple of `align` that is at least `addr`.
pub open spec fn round_up(addr: int, align: int) -> int {
    ((addr + align - 1) / align) * align
}

/// The rounded-up address is the only multiple of `align` in
/// `addr..addr + align`.
proof fn lemma_round_up_unique(up: int, addr: int, align: int)
    requires
        align > 0,
        addr >= 0,
        is_aligned_up(up, addr, align),
    ensures
        up == round_up(addr, align),
{
    let q = up / align;
    lemma_fundamental_div_mod(up, align);
    assert(up == align * q);
    assert(q * align == up) by (nonlinear_arith)
        requires
            up == align * q,
    ;
    let r = addr + align - 1 - q * align;
    assert(0 <= r < align);
    lemma_fundamental_div_mod_converse(addr + align - 1, align, q, r);
}

/// Rounding up gives a multiple of `align` that is at least `addr` and less
/// than `align` above it.
pub proof fn lemma_round_up_bounds(addr: int, align: int)
    requires
        align > 0,
        addr >= 0,
    ensures
        round_up(addr, align) % align == 0,
        addr <= round_up(addr, align) < addr + align,
{
    let x = addr + align - 1;
    let q = x / align;
    lemma_fundamental_div_mod(x, align);
    vstd::arithmetic::div_mod::lemma_mod_multiples_basic(q, align);
    assert(q * align == align * q) by (nonlinear_arith);
}

/// When `addr + align - 1` does not fit in a `usize`, neither does the
/// rounded-up address: the last multiple of `align` that fits lies below
/// `addr`.
proof fn lemma_round_up_past_max(addr: usize, align: usize)
    requires
        is_power_of_two(align),
        addr + align - 1 > usize::MAX,
    ensures
        round_up(addr as int, align as int) > usize::MAX,
{
    let k = choose|k: nat| k < usize::BITS && pow2(k) == align;
    vstd::layout::unsigned_int_max_values();
    let b = usize::BITS as nat;
    lemma_pow2_adds(k, (b - k) as nat);
    lemma_pow2_pos((b - k) as nat);
    let m = pow2((b - k) as nat) as int;
    let a = align as int;
    let x = addr + align - 1;
    assert(a * m == usize::MAX + 1);
    let q = x / a;
    lemma_fundamental_div_mod(x, a);
    assert(q * a > usize::MAX) by (nonlinear_arith)
        requires
            a > 0,
            x >= a * m,
            x == a * q + x % a,
            0 <= x % a < a,
            a * m == usize::MAX + 1,
    ;
}

/// Rounds `addr` up to a multiple of `align` (a power of two) with
/// `(addr + align - 1) & !(align - 1)`; `None` when `addr + align - 1`
/// does not fit in a `usize`.
pub fn align_up(addr: usize, align: usize) -> (up: Option<usize>)
    requires
        is_power_of_two(align),
    ensures
        up is None <==> addr + align - 1 > usize::MAX,
        up matches Some(u) ==> is_aligned_up(u as int, addr as int, align as int) && u == round_up(
            addr as int,
            align as int,
        ),
{
    proof {
        lemma_power_of_two_pos(align);
    }
    match addr.checked_add(align - 1) {
        Some(sum) => {
            let mask = align - 1;
            let u = sum & !mask;
            assert(u & mask == 0 && u <= sum && sum - u <= mask) by (bit_vector)
                requires
                    u == sum & !mask,
            ;
            proof {
                lemma_mask_is_mod(u, align);
                lemma_round_up_unique(u as int, addr as int, align as int);
            }
            Some(u)
        },
        None => None,
    }
}

/// Carving `size` bytes aligned to `align` out of the free region that
/// starts at `next`: the new start of the free region, or `None` when the
/// block would end past `heap_end`.
pub open spec fn bump_step(next: usize, size: usize, align: usize, heap_end: usize) -> Option<usize> {
    let end = round_up(next as int, align as int) + size;
    if end <= heap_end {
        Some(end as usize)
    } else {
        None
    }
}

/// Carves `size` bytes aligned to `align` out of the free region that
/// starts at `next`: the block's start (`next` rounded up to `align`) and its
/// end, which becomes the new start of the free region; `None` when the block
/// would end past `heap_end` (or past the largest address).
pub fn carve(next: usize, size: usize, align: usize, heap_end: usize) -> (block: Option<
    (usize, usize),
>)
    requires
        is_power_of_two(align),
    ensures
        block is None <==> bump_step(next, size, align, heap_end) is None,
        block matches Some((start, end)) ==> {
            &&& start == round_up(next as int, align as int)
            &&& bump_step(next, size, align, heap_end) == Some(end)
            &&& start % align == 0
            &&& next <= start
            &&& start + size == end
        },
{
    proof {
        lemma_power_of_two_pos(align);
        assert(round_up(next as int, align as int) >= next) by (nonlinear_arith)
            requires
                align > 0,
        {
            vstd::arithmetic::div_mod::lemma_fundamental_div_mod(next + align - 1, align as int);
        }
        if next + align - 1 > usize::MAX {
            lemma_round_up_past_max(next, align);
        }
    }
    match align_up(next, align) {
        Some(start) => match start.checked_add(size) {
            Some(end) => {
                if end > heap_end {
                    None
                } else {
                    Some((start, end))
                }
            },
            None => None,
        },
        None => None,
    }
}

/// The update handed to the atomic "next" word: the end of the carved block,
/// or `None` (leave the word alone) when the block does not fit.
pub fn bump_update(next: usize, size: usize, align: usize, heap_end: usize) -> (new_next: Option<
    usize,
>)
    requires
        is_power_of_two(align),
    ensures
        new_next == bump_step(next, size, align, heap_end),
{
    match carve(next, size, align, heap_end) {
        Some((_, end)) => Some(end),
        None => None,
    }
}

/// `AtomicUsize::fetch_update` with the update `bump_update(_, size, align,
/// heap_end)`, sequentially consistent. The standard library documents that
/// it retries until a compare-exchange succeeds or the update declines, and
/// replies `Ok(previous)` when the update accepted the previous value,
/// `Err(previous)` when it declined it.
#[verifier::external_body]
fn fetch_update_bump(cell: &AtomicUsize, size: usize, align: usize, heap_end: usize) -> (r: Result<
    usize,
    usize,
>)
    requires
        is_power_of_two(align),
    ensures
        r matches Ok(v) ==> bump_step(v, size, align, heap_end) is Some,
        r matches Err(v) ==> bump_step(v, size, align, heap_end) is None,
{
    cell.fetch_update(Ordering::SeqCst, Ordering::SeqCst, |n| bump_update(n, size, align, heap_end))
}

/// A bump allocator over `heap_start..heap_end`. The "next free address" is
/// an atomic word, so threads may allocate through a shared reference.
pub struct BumpAllocator {
    heap_start: usize,
    heap_end: usize,
    next: AtomicUsize,
}

impl BumpAllocator {
    /// Start of the managed region.
    pub closed spec fn start(&self) -> usize {
        self.heap_start
    }

    /// End (exclusive) of the managed region.
    pub closed spec fn end(&self) -> usize {
        self.heap_end
    }

    /// An allocator over `heap_start..heap_end`, with every byte free.
    pub fn new(heap_start: usize, heap_end: usize) -> (a: Self)
        ensures
            a.start() == heap_start,
            a.end() == heap_end,
    {
        Self { heap_start, heap_end, next: AtomicUsize::new(heap_start) }
    }

    /// Frees everything: the next allocation starts again at `heap_start`.
    pub fn reset(&self) {
        self.next.store(self.heap_start, Ordering::SeqCst);
    }

    /// Allocates `size` bytes aligned to `align` (a power of two): rounds
    /// the next free address up to `align`, and when the block ends at or
    /// before `heap_end` moves the next free address to its end and returns
    /// its start; otherwise returns `None` (the null pointer of a global
    /// allocator).
    pub fn allocate(&self, size: usize, align: usize) -> (block: Option<usize>)
        requires
            is_power_of_two(align),
        ensures
            block matches Some(a) ==> a % align == 0 && a + size <= self.end(),
            block matches Some(a) ==> exists|previous: usize|
                a == round_up(previous as int, align as int) && #[trigger] bump_step(
                    previous,
                    size,
                    align,
                    self.end(),
                ) == Some((a + size) as usize),
            block is None ==> exists|previous: usize| #[trigger]
                bump_step(previous, size, align, self.end()) is None,
    {
        match fetch_update_bump(&self.next, size, align, self.heap_end) {
            Ok(previous) => match carve(previous, size, align, self.heap_end) {
                Some((start, end)) => {
                    assert(bump_step(previous, size, align, self.end()) == Some(
                        (start + size) as usize,
                    ));
                    Some(start)
                },
                None => {
                    assert(bump_step(previous, size, align, self.end()) is None);
                    None
                },
            },
            Err(previous) => {
                assert(bump_step(previous, size, align, self.end()) is None);
                None
            },
        }
    }
}

/// Two allocations in a row from the same region do not overlap: the second
/// block starts at or after the end of the first, and both lie between the
/// next free address before the first and `heap_end`.
pub proof fn lemma_bump_blocks_disjoint(
    next: usize,
    size1: usize,
    align1: usize,
    size2: usize,
    align2: usize,
    heap_end: usize,
)
    requires
        is_power_of_two(align1),
        is_power_of_two(align2),
        bump_step(next, size1, align1, heap_end) is Some,
        bump_step(bump_step(next, size1, align1, heap_end)->0, size2, align2, heap_end) is Some,
    ensures
        ({
            let start1 = round_up(next as int, align1 as int);
            let end1 = bump_step(next, size1, align1, heap_end)->0;
            let start2 = round_up(end1 as int, align2 as int);
            let end2 = bump_step(end1, size2, align2, heap_end)->0;
            &&& next <= start1
            &&& start1 + size1 == end1
            &&& end1 <= start2
            &&& start2 + size2 == end2
            &&& end2 <= heap_end
        }),
{
    lemma_power_of_two_pos(align1);
    lemma_power_of_two_pos(align2);
    let end1 = bump_step(next, size1, align1, heap_end)->0;
    assert(round_up(next as int, align1 as int) >= next) by (nonlinear_arith)
        requires
            align1 > 0,
    {
        lemma_fundamental_div_mod(next + align1 - 1, align1 as int);
    }
    assert(round_up(end1 as int, align2 as int) >= end1) by (nonlinear_arith)
        requires
            align2 > 0,
    {
        lemma_fundamental_div_mod(end1 + align2 - 1, align2 as int);
    }
}

} // verus!
