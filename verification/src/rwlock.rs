//! The state word of a writer-priority read-write lock and the transitions
//! that readers and writers apply to it.
//!
//! One 32-bit word holds the number of readers in its low 30 bits, a
//! "writer holds the lock" bit and a "writer is waiting" bit. While a writer
//! holds or waits, new readers stay out; a writer enters once no reader and
//! no other writer holds the lock. The spinning, the atomic word and the
//! guards that hand out the data live with the caller, which applies these
//! transitions with compare-exchange.
use vstd::prelude::*;

verus! {

/// Largest reader count; also the mask of the reader count.
pub const READER_MASK: u32 = 0x3fff_ffff;
/// Set while a writer holds the lock.
pub const WRITER_HOLDING: u32 = 0x4000_0000;
/// Set while at least one writer waits: new readers stay out.
pub const WRITER_WAITING: u32 = 0x8000_0000;

/// Number of readers holding the lock.
pub open spec fn readers(state: u32) -> u32 {
    state & READER_MASK
}

/// A writer holds the lock.
pub open spec fn writer_holds(state: u32) -> bool {
    state & WRITER_HOLDING != 0
}

/// A writer waits for the lock.
pub open spec fn writer_waits(state: u32) -> bool {
    state & WRITER_WAITING != 0
}

/// Readers and a writer never hold the lock together.
pub open spec fn exclusive(state: u32) -> bool {
    !(writer_holds(state) && readers(state) > 0)
}

/// The state a reader moves the lock to when it enters, or `None` when it
/// must wait: while a writer holds or waits, or while the reader count is
/// full. Entering adds one reader and keeps both writer bits.
pub fn read_acquire_target(state: u32) -> (next: Option<u32>)
    ensures
        next is None <==> writer_holds(state) || writer_waits(state) || readers(state)
            == READER_MASK,
        next matches Some(n) ==> {
            &&& n == state + 1
            &&& readers(n) == readers(state) + 1
            &&& !writer_holds(n)
            &&& !writer_waits(n)
        },
{
    if state & (WRITER_HOLDING | WRITER_WAITING) != 0 {
        assert(state & (0x4000_0000u32 | 0x8000_0000u32) != 0 ==> (state & 0x4000_0000u32 != 0
            || state & 0x8000_0000u32 != 0)) by (bit_vector);
        return None;
    }
    if state & READER_MASK == READER_MASK {
        return None;
    }
    assert(state & 0x4000_0000u32 == 0 && state & 0x8000_0000u32 == 0 && state < 0xffff_ffffu32)
        by (bit_vector)
        requires
            state & (0x4000_0000u32 | 0x8000_0000u32) == 0,
    ;
    let n: u32 = state + 1;
    assert((n & 0x3fff_ffffu32) == (state & 0x3fff_ffffu32) + 1 && n & 0x4000_0000u32 == 0 && n
        & 0x8000_0000u32 == 0) by (bit_vector)
        requires
            n == state + 1,
            state & 0x4000_0000u32 == 0,
            state & 0x8000_0000u32 == 0,
            state & 0x3fff_ffffu32 != 0x3fff_ffffu32,
    ;
    Some(n)
}

/// The state after a writer announces itself (sets the waiting bit, as the
/// `fetch_or` does): new readers stay out from now on.
pub fn writer_announce(state: u32) -> (next: u32)
    ensures
        next == state | WRITER_WAITING,
        writer_waits(next),
        writer_holds(next) == writer_holds(state),
        readers(next) == readers(state),
{
    let n = state | WRITER_WAITING;
    assert(n & 0x8000_0000u32 != 0 && (n & 0x4000_0000u32 != 0) == (state & 0x4000_0000u32 != 0) && (
    n & 0x3fff_ffffu32) == (state & 0x3fff_ffffu32)) by (bit_vector)
        requires
            n == state | 0x8000_0000u32,
    ;
    n
}

/// The state a writer moves the lock to when it takes it, or `None` when it
/// must wait: while readers or another writer hold the lock. Taking the lock
/// leaves only the holding bit set (the waiting bit is cleared).
pub fn write_acquire_target(state: u32) -> (next: Option<u32>)
    ensures
        next is None <==> writer_holds(state) || readers(state) > 0,
        next matches Some(n) ==> {
            &&& n == WRITER_HOLDING
            &&& writer_holds(n)
            &&& !writer_waits(n)
            &&& readers(n) == 0
        },
{
    assert((state & (0x4000_0000u32 | 0x3fff_ffffu32) != 0) == (state & 0x4000_0000u32 != 0 || state
        & 0x3fff_ffffu32 != 0)) by (bit_vector);
    assert(0x4000_0000u32 & 0x4000_0000u32 != 0 && 0x4000_0000u32 & 0x8000_0000u32 == 0
        && 0x4000_0000u32 & 0x3fff_ffffu32 == 0) by (bit_vector);
    if state & (WRITER_HOLDING | READER_MASK) != 0 {
        None
    } else {
        Some(WRITER_HOLDING)
    }
}

/// The state after a reader leaves (the `fetch_sub` of one): one reader
/// fewer, writer bits unchanged.
pub fn read_release(state: u32) -> (next: u32)
    requires
        readers(state) > 0,
    ensures
        next == state - 1,
        readers(next) == readers(state) - 1,
        writer_holds(next) == writer_holds(state),
        writer_waits(next) == writer_waits(state),
{
    assert(state > 0 && ((((state - 1) as u32) & 0x3fff_ffffu32) == (state & 0x3fff_ffffu32) - 1) && (((state - 1) as u32) & 0x4000_0000u32 != 0) == (state & 0x4000_0000u32 != 0) && (((state - 1) as u32) & 0x8000_0000u32 != 0)
        == (state & 0x8000_0000u32 != 0)) by (bit_vector)
        requires
            state & 0x3fff_ffffu32 > 0,
    ;
    state - 1
}

/// The state after a writer releases the lock (the `fetch_and` that clears
/// both writer bits): the readers are untouched, no writer holds or waits.
pub fn write_release(state: u32) -> (next: u32)
    ensures
        next == state & !(WRITER_HOLDING | WRITER_WAITING),
        !writer_holds(next),
        !writer_waits(next),
        readers(next) == readers(state),
{
    let n = state & !(WRITER_HOLDING | WRITER_WAITING);
    assert(n & 0x4000_0000u32 == 0 && n & 0x8000_0000u32 == 0 && (n & 0x3fff_ffffu32) == (state
        & 0x3fff_ffffu32)) by (bit_vector)
        requires
            n == state & !(0x4000_0000u32 | 0x8000_0000u32),
    ;
    n
}

/// Every transition keeps readers and a writer from holding the lock
/// together, from the free lock on.
pub proof fn lemma_transitions_keep_exclusive(state: u32)
    requires
        exclusive(state),
    ensures
        exclusive(0),
        !(writer_holds(state) || writer_waits(state) || readers(state) == READER_MASK) ==> exclusive(
            (state + 1) as u32,
        ),
        exclusive(state | WRITER_WAITING),
        exclusive(WRITER_HOLDING),
        readers(state) > 0 ==> exclusive((state - 1) as u32),
        exclusive(state & !(WRITER_HOLDING | WRITER_WAITING)),
{
    assert(0u32 & 0x4000_0000u32 == 0) by (bit_vector);
    assert(0x4000_0000u32 & 0x3fff_ffffu32 == 0) by (bit_vector);
    assert((state | 0x8000_0000u32) & 0x4000_0000u32 == state & 0x4000_0000u32 && (state
        | 0x8000_0000u32) & 0x3fff_ffffu32 == state & 0x3fff_ffffu32) by (bit_vector);
    assert((state & !(0x4000_0000u32 | 0x8000_0000u32)) & 0x4000_0000u32 == 0) by (bit_vector);
    if readers(state) > 0 {
        assert(((state - 1) as u32) & 0x4000_0000u32 == state & 0x4000_0000u32) by (bit_vector)
            requires
                state & 0x3fff_ffffu32 > 0,
        ;
    }
    if !(writer_holds(state) || writer_waits(state) || readers(state) == READER_MASK) {
        assert(((state + 1) as u32) & 0x4000_0000u32 == 0) by (bit_vector)
            requires
                state & 0x4000_0000u32 == 0,
                state & 0x8000_0000u32 == 0,
                state & 0x3fff_ffffu32 != 0x3fff_ffffu32,
        ;
    }
}

} // verus!
