//! A per-process file-descriptor table: fd numbers index a sparse table of
//! open files; closing leaves a hole, and allocation reuses the smallest hole.
use std::sync::Arc;
use vstd::prelude::*;

verus! {

/// A kernel file object, as the fd table hands it out.
pub trait File: Send + Sync {
    fn read(&self, buf: &mut [u8]) -> isize;

    fn write(&self, buf: &[u8]) -> isize;
}

/// Number of occupied slots in a table.
pub open spec fn open_count<F: ?Sized>(slots: Seq<Option<Arc<F>>>) -> nat
    decreases slots.len(),
{
    if slots.len() == 0 {
        0
    } else {
        open_count(slots.drop_last()) + if slots.last() is Some {
            1nat
        } else {
            0nat
        }
    }
}

/// Index of the first empty slot at or after `from`, or the length when every
/// slot from there on is occupied.
pub open spec fn first_free_from<F: ?Sized>(slots: Seq<Option<Arc<F>>>, from: int) -> int
    decreases slots.len() - from,
{
    if from >= slots.len() {
        slots.len() as int
    } else if slots[from] is None {
        from
    } else {
        first_free_from(slots, from + 1)
    }
}

/// The smallest free fd number: the first empty slot, or the length.
pub open spec fn first_free<F: ?Sized>(slots: Seq<Option<Arc<F>>>) -> int {
    first_free_from(slots, 0)
}

/// A call that changes an fd table: opening a file, or closing an fd.
pub enum FdOp<F: ?Sized> {
    Alloc(Arc<F>),
    Close(usize),
}

/// What `get(fd)` finds in a table with these slots.
pub open spec fn slot_of<F: ?Sized>(slots: Seq<Option<Arc<F>>>, fd: usize) -> Option<Arc<F>> {
    if fd < slots.len() {
        slots[fd as int]
    } else {
        None
    }
}

/// The slots after one call: opening puts the file in the smallest free
/// slot (appending when none is free); closing empties an occupied slot and
/// leaves the table alone otherwise.
pub open spec fn apply_op<F: ?Sized>(slots: Seq<Option<Arc<F>>>, op: FdOp<F>) -> Seq<
    Option<Arc<F>>,
> {
    match op {
        FdOp::Alloc(file) => {
            let fd = first_free(slots);
            if fd < slots.len() {
                slots.update(fd, Some(file))
            } else {
                slots.push(Some(file))
            }
        },
        FdOp::Close(fd) => {
            if fd < slots.len() && slots[fd as int] is Some {
                slots.update(fd as int, None)
            } else {
                slots
            }
        },
    }
}

/// The slots of a new table after a sequence of calls.
pub open spec fn replay<F: ?Sized>(ops: Seq<FdOp<F>>) -> Seq<Option<Arc<F>>>
    decreases ops.len(),
{
    if ops.len() == 0 {
        Seq::empty()
    } else {
        apply_op(replay(ops.drop_last()), ops.last())
    }
}

/// Call `i` of `ops` opened `file` under `fd`, and no later call closed
/// `fd`.
pub open spec fn opened_and_not_closed<F: ?Sized>(
    ops: Seq<FdOp<F>>,
    i: int,
    fd: usize,
    file: Arc<F>,
) -> bool {
    &&& 0 <= i < ops.len()
    &&& ops[i] == FdOp::Alloc(file)
    &&& first_free(replay(ops.take(i))) == fd
    &&& forall|j: int| i < j < ops.len() ==> #[trigger] ops[j] != FdOp::<F>::Close(fd)
}

/// File descriptor table: slot `fd` holds the file open under `fd`, `None`
/// when `fd` is closed or was never allocated. The files are kernel file
/// objects, by default any `File` behind a trait object.
pub struct FdTable<F: ?Sized + File = dyn File> {
    files: Vec<Option<Arc<F>>>,
    file_count: usize,
}

impl<F: ?Sized + File> View for FdTable<F> {
    type V = Seq<Option<Arc<F>>>;

    closed spec fn view(&self) -> Seq<Option<Arc<F>>> {
        self.files@
    }
}

/// `Option::<Arc<_>>::clone`: a new pointer to the same file object, if any.
#[verifier::external_body]
fn clone_slot<F: ?Sized>(slot: &Option<Arc<F>>) -> (copy: Option<Arc<F>>)
    ensures
        copy == *slot,
{
    slot.clone()
}

/// Appending a slot adds one to the count when the slot is occupied.
proof fn lemma_open_count_push<F: ?Sized>(slots: Seq<Option<Arc<F>>>, x: Option<Arc<F>>)
    ensures
        open_count(slots.push(x)) == open_count(slots) + if x is Some {
            1nat
        } else {
            0nat
        },
{
    assert(slots.push(x).drop_last() =~= slots);
}

/// Overwriting one slot changes the count by what leaves and what comes in.
proof fn lemma_open_count_update<F: ?Sized>(
    slots: Seq<Option<Arc<F>>>,
    i: int,
    x: Option<Arc<F>>,
)
    requires
        0 <= i < slots.len(),
    ensures
        open_count(slots.update(i, x)) + (if slots[i] is Some {
            1nat
        } else {
            0nat
        }) == open_count(slots) + (if x is Some {
            1nat
        } else {
            0nat
        }),
    decreases slots.len(),
{
    let u = slots.update(i, x);
    if i == slots.len() - 1 {
        assert(u.drop_last() =~= slots.drop_last());
    } else {
        lemma_open_count_update(slots.drop_last(), i, x);
        assert(u.drop_last() =~= slots.drop_last().update(i, x));
    }
}

/// At most every slot is occupied.
proof fn lemma_open_count_bound<F: ?Sized>(slots: Seq<Option<Arc<F>>>)
    ensures
        open_count(slots) <= slots.len(),
    decreases slots.len(),
{
    if slots.len() > 0 {
        lemma_open_count_bound(slots.drop_last());
    }
}

/// The first free slot from `from` is `from` itself or lies past it, and
/// every slot in between is occupied.
proof fn lemma_first_free_from<F: ?Sized>(slots: Seq<Option<Arc<F>>>, from: int)
    requires
        0 <= from <= slots.len(),
    ensures
        from <= first_free_from(slots, from) <= slots.len(),
        first_free_from(slots, from) < slots.len() ==> slots[first_free_from(slots, from)] is None,
        forall|j: int| from <= j < first_free_from(slots, from) ==> #[trigger] slots[j] is Some,
    decreases slots.len() - from,
{
    if from < slots.len() && slots[from] is Some {
        lemma_first_free_from(slots, from + 1);
    }
}

/// The first free slot is the only index at which every earlier slot is
/// occupied and the slot itself is free (or the table ends).
proof fn lemma_first_free_unique<F: ?Sized>(slots: Seq<Option<Arc<F>>>, from: int, k: int)
    requires
        0 <= from <= k <= slots.len(),
        forall|j: int| from <= j < k ==> #[trigger] slots[j] is Some,
        k < slots.len() ==> slots[k] is None,
    ensures
        first_free_from(slots, from) == k,
    decreases k - from,
{
    if from < k {
        lemma_first_free_unique(slots, from + 1, k);
    }
}

/// Allocating after a successful close: the smallest free number becomes the
/// closed one, unless a smaller one was already free.
pub proof fn lemma_first_free_after_close<F: ?Sized>(slots: Seq<Option<Arc<F>>>, fd: int)
    requires
        0 <= fd < slots.len(),
        slots[fd] is Some,
    ensures
        first_free(slots.update(fd, None)) == if first_free(slots) < fd {
            first_free(slots)
        } else {
            fd
        },
{
    let after = slots.update(fd, None);
    lemma_first_free_from(slots, 0);
    let k = first_free(slots);
    if k < fd {
        assert forall|j: int| 0 <= j < k implies #[trigger] after[j] is Some by {
            assert(slots[j] is Some);
        }
        lemma_first_free_unique(after, 0, k);
    } else {
        assert forall|j: int| 0 <= j < fd implies #[trigger] after[j] is Some by {
            assert(slots[j] is Some);
        }
        lemma_first_free_unique(after, 0, fd);
    }
}

/// Read after allocation: the new number holds the file, every other slot
/// is as before, and one more fd is open.
pub proof fn lemma_slot_after_alloc<F: ?Sized>(slots: Seq<Option<Arc<F>>>, file: Arc<F>)
    ensures
        ({
            let fd = first_free(slots);
            let after = if fd < slots.len() {
                slots.update(fd, Some(file))
            } else {
                slots.push(Some(file))
            };
            &&& after[fd] == Some(file)
            &&& forall|j: int| 0 <= j < slots.len() && j != fd ==> #[trigger] after[j] == slots[j]
            &&& open_count(after) == open_count(slots) + 1
        }),
{
    lemma_first_free_from(slots, 0);
    let fd = first_free(slots);
    if fd < slots.len() {
        lemma_open_count_update(slots, fd, Some(file));
    } else {
        lemma_open_count_push(slots, Some(file));
    }
}

impl<F: ?Sized + File> FdTable<F> {
    /// The count kept beside the table equals the number of open fds.
    pub closed spec fn wf(&self) -> bool {
        self.file_count == open_count(self.files@)
    }

    /// An empty table.
    pub fn new() -> (table: Self)
        ensures
            table.wf(),
            table@ == Seq::<Option<Arc<F>>>::empty(),
            table@ == replay(Seq::<FdOp<F>>::empty()),
    {
        Self { files: Vec::new(), file_count: 0 }
    }

    /// Opens `file` under the smallest fd number that is free: the first
    /// closed slot, or a new slot at the end. Returns that number.
    pub fn alloc_fd(&mut self, file: Arc<F>) -> (fd: usize)
        requires
            old(self).wf(),
            old(self)@.len() < usize::MAX,
        ensures
            final(self).wf(),
            fd == first_free(old(self)@),
            final(self)@ == if fd < old(self)@.len() {
                old(self)@.update(fd as int, Some(file))
            } else {
                old(self)@.push(Some(file))
            },
            open_count(final(self)@) == open_count(old(self)@) + 1,
            final(self)@ == apply_op(old(self)@, FdOp::Alloc(file)),
    {
        proof {
            lemma_first_free_from(self.files@, 0);
            lemma_open_count_bound(self.files@);
        }
        let mut i: usize = 0;
        while i < self.files.len()
            invariant
                self.files@ == old(self).files@,
                self.file_count == old(self).file_count,
                self.wf(),
                i <= self.files@.len(),
                first_free(self.files@) == first_free_from(self.files@, i as int),
            decreases self.files@.len() - i,
        {
            if self.files[i].is_none() {
                proof {
                    lemma_open_count_update(self.files@, i as int, Some(file));
                    lemma_open_count_bound(self.files@.update(i as int, Some(file)));
                }
                self.files.set(i, Some(file));
                self.file_count = self.file_count + 1;
                return i;
            }
            i = i + 1;
        }
        proof {
            lemma_open_count_push(self.files@, Some(file));
        }
        self.files.push(Some(file));
        self.file_count = self.file_count + 1;
        self.files.len() - 1
    }

    /// The file open under `fd`, or `None` when `fd` is closed or out of
    /// range.
    pub fn get(&self, fd: usize) -> (file: Option<Arc<F>>)
        ensures
            file == if fd < self@.len() {
                self@[fd as int]
            } else {
                None
            },
    {
        if fd < self.files.len() {
            clone_slot(&self.files[fd])
        } else {
            None
        }
    }

    /// Closes `fd`: true when it was open (its slot becomes empty), false
    /// when it was out of range or already closed (nothing changes).
    pub fn close(&mut self, fd: usize) -> (closed: bool)
        requires
            old(self).wf(),
        ensures
            final(self).wf(),
            closed == (fd < old(self)@.len() && old(self)@[fd as int] is Some),
            final(self)@ == if closed {
                old(self)@.update(fd as int, None)
            } else {
                old(self)@
            },
            open_count(final(self)@) + (if closed {
                1nat
            } else {
                0nat
            }) == open_count(old(self)@),
            final(self)@ == apply_op(old(self)@, FdOp::Close(fd)),
    {
        if fd < self.files.len() && self.files[fd].is_some() {
            proof {
                lemma_open_count_update(self.files@, fd as int, None);
            }
            self.files.set(fd, None);
            self.file_count = self.file_count - 1;
            true
        } else {
            false
        }
    }

    /// Number of open fds.
    pub fn count(&self) -> (n: usize)
        requires
            self.wf(),
        ensures
            n == open_count(self@),
    {
        self.file_count
    }
}

impl<F: ?Sized + File> Default for FdTable<F> {
    fn default() -> (table: Self)
        ensures
            table.wf(),
            table@ == Seq::<Option<Arc<F>>>::empty(),
    {
        Self::new()
    }
}

/// History of an fd table: after any sequence of opens and closes from an
/// empty table, `get(fd)` finds `file` exactly when some open call put
/// `file` under `fd` and no later call closed `fd`.
pub proof fn lemma_fd_history<F: ?Sized>(ops: Seq<FdOp<F>>, fd: usize, file: Arc<F>)
    ensures
        slot_of(replay(ops), fd) == Some(file) <==> exists|i: int|
            opened_and_not_closed(ops, i, fd, file),
    decreases ops.len(),
{
    if ops.len() == 0 {
        assert forall|i: int| !opened_and_not_closed(ops, i, fd, file) by {}
    } else {
        let n = ops.len() - 1;
        let p = ops.drop_last();
        let s = replay(p);
        let op = ops.last();
        lemma_fd_history(p, fd, file);
        lemma_first_free_from(s, 0);
        assert(ops.take(n) =~= p);
        assert forall|i: int| 0 <= i < n implies #[trigger] ops.take(i) == p.take(i) by {
            assert(ops.take(i) =~= p.take(i));
        }
        assert forall|i: int| 0 <= i < n implies opened_and_not_closed(ops, i, fd, file)
            == (opened_and_not_closed(p, i, fd, file) && ops[n] != FdOp::<F>::Close(fd)) by {
            assert(ops.take(i) == p.take(i));
            if opened_and_not_closed(p, i, fd, file) && ops[n] != FdOp::<F>::Close(fd) {
                assert forall|j: int| i < j < ops.len() implies #[trigger] ops[j] != FdOp::<F>::Close(
                    fd,
                ) by {
                    if j < n {
                        assert(p[j] == ops[j]);
                    }
                }
            }
            if opened_and_not_closed(ops, i, fd, file) {
                assert(ops[n] != FdOp::<F>::Close(fd));
                assert forall|j: int| i < j < p.len() implies #[trigger] p[j] != FdOp::<F>::Close(
                    fd,
                ) by {
                    assert(ops[j] != FdOp::<F>::Close(fd));
                }
            }
        }
        match op {
            FdOp::Alloc(g) => {
                let fd0 = first_free(s);
                if fd == fd0 {
                    if slot_of(replay(ops), fd) == Some(file) {
                        assert(opened_and_not_closed(ops, n, fd, file));
                    }
                    if exists|i: int| opened_and_not_closed(ops, i, fd, file) {
                        let i = choose|i: int| opened_and_not_closed(ops, i, fd, file);
                        if i < n {
                            assert(opened_and_not_closed(p, i, fd, file));
                            assert(slot_of(s, fd) == Some(file));
                        }
                    }
                } else {
                    assert(slot_of(replay(ops), fd) == slot_of(s, fd));
                    if exists|i: int| opened_and_not_closed(ops, i, fd, file) {
                        let i = choose|i: int| opened_and_not_closed(ops, i, fd, file);
                        assert(i < n);
                        assert(opened_and_not_closed(p, i, fd, file));
                    }
                    if exists|i: int| opened_and_not_closed(p, i, fd, file) {
                        let i = choose|i: int| opened_and_not_closed(p, i, fd, file);
                        assert(opened_and_not_closed(ops, i, fd, file));
                    }
                }
            },
            FdOp::Close(c) => {
                if fd == c {
                    assert(slot_of(replay(ops), fd) is None);
                    if exists|i: int| opened_and_not_closed(ops, i, fd, file) {
                        let i = choose|i: int| opened_and_not_closed(ops, i, fd, file);
                        assert(i < n);
                        assert(ops[n] == FdOp::<F>::Close(fd));
                    }
                } else {
                    assert(slot_of(replay(ops), fd) == slot_of(s, fd));
                    if exists|i: int| opened_and_not_closed(ops, i, fd, file) {
                        let i = choose|i: int| opened_and_not_closed(ops, i, fd, file);
                        assert(i < n);
                        assert(opened_and_not_closed(p, i, fd, file));
                    }
                    if exists|i: int| opened_and_not_closed(p, i, fd, file) {
                        let i = choose|i: int| opened_and_not_closed(p, i, fd, file);
                        assert(opened_and_not_closed(ops, i, fd, file));
                    }
                }
            },
        }
    }
}

/// The fd that an allocation takes is the smallest free one: every smaller
/// fd is open, and it is a closed slot or the next number past the table.
pub proof fn lemma_alloc_takes_smallest_free_fd<F: ?Sized>(slots: Seq<Option<Arc<F>>>)
    ensures
        0 <= first_free(slots) <= slots.len(),
        first_free(slots) < slots.len() ==> slots[first_free(slots)] is None,
        forall|j: int| 0 <= j < first_free(slots) ==> #[trigger] slots[j] is Some,
{
    lemma_first_free_from(slots, 0);
}

} // verus!
