//! The work that threads and tasks are handed item by item: doubling the
//! numbers of a vector, summing a slice, squaring an index.
use vstd::prelude::*;

verus! {

/// Sum of a sequence of numbers.
pub open spec fn seq_sum(s: Seq<i32>) -> int
    decreases s.len(),
{
    if s.len() == 0 {
        0
    } else {
        seq_sum(s.drop_last()) + s.last()
    }
}

/// Every running sum of `s` (from the left) fits in an `i32`: summing it
/// with checked `i32` arithmetic does not overflow.
pub open spec fn sums_fit(s: Seq<i32>) -> bool {
    forall|k: int| 0 <= k <= s.len() ==> i32::MIN <= #[trigger] seq_sum(s.take(k)) <= i32::MAX
}

/// Each number of `numbers` doubled, in order.
pub fn double_all(numbers: Vec<i32>) -> (doubled: Vec<i32>)
    requires
        forall|i: int| 0 <= i < numbers@.len() ==> i32::MIN <= 2 * #[trigger] numbers@[i] <= i32::MAX,
    ensures
        doubled@.len() == numbers@.len(),
        forall|i: int| 0 <= i < numbers@.len() ==> #[trigger] doubled@[i] == 2 * numbers@[i],
{
    let mut result = numbers;
    let mut i: usize = 0;
    while i < result.len()
        invariant
            result@.len() == numbers@.len(),
            forall|j: int| 0 <= j < numbers@.len() ==> i32::MIN <= 2 * #[trigger] numbers@[j] <= i32::MAX,
            forall|j: int| 0 <= j < i ==> #[trigger] result@[j] == 2 * numbers@[j],
            forall|j: int| i <= j < result@.len() ==> #[trigger] result@[j] == numbers@[j],
        decreases result@.len() - i,
    {
        let n = result[i];
        result.set(i, n * 2);
        i = i + 1;
    }
    result
}

/// The sum of a slice of numbers.
pub fn slice_sum(values: &[i32]) -> (sum: i32)
    requires
        sums_fit(values@),
    ensures
        sum == seq_sum(values@),
{
    let mut sum: i32 = 0;
    let mut i: usize = 0;
    while i < values.len()
        invariant
            i <= values@.len(),
            sums_fit(values@),
            sum == seq_sum(values@.take(i as int)),
        decreases values@.len() - i,
    {
        assert(values@.take(i + 1).drop_last() =~= values@.take(i as int));
        assert(i32::MIN <= seq_sum(values@.take(i + 1)) <= i32::MAX);
        sum = sum + values[i];
        i = i + 1;
    }
    assert(values@.take(values@.len() as int) =~= values@);
    sum
}

/// The square of `i`.
pub fn square(i: usize) -> (sq: usize)
    requires
        i * i <= usize::MAX,
    ensures
        sq == i * i,
{
    i * i
}

/// Appending a number adds it to the sum, and the empty sequence sums to 0:
/// every element counts, whatever its value.
pub proof fn lemma_seq_sum_push(s: Seq<i32>, x: i32)
    ensures
        seq_sum(Seq::<i32>::empty()) == 0,
        seq_sum(s.push(x)) == seq_sum(s) + x,
{
    assert(s.push(x).drop_last() =~= s);
}

/// The sum of two sequences joined is the sum of their sums.
pub proof fn lemma_seq_sum_concat(a: Seq<i32>, b: Seq<i32>)
    ensures
        seq_sum(a + b) == seq_sum(a) + seq_sum(b),
    decreases b.len(),
{
    if b.len() == 0 {
        assert(a + b =~= a);
    } else {
        lemma_seq_sum_concat(a, b.drop_last());
        assert((a + b).drop_last() =~= a + b.drop_last());
        assert((a + b).last() == b.last());
    }
}

} // verus!
