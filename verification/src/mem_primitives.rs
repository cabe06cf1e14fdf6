//! The memory primitives a freestanding kernel writes for itself: copy, fill,
//! overlapping move, C-string length and C-string comparison, over byte
//! slices.
use vstd::prelude::*;

verus! {

/// Index of the first zero byte of `s` at or after `from` (the length when
/// there is none).
pub open spec fn nul_from(s: Seq<u8>, from: int) -> int
    decreases s.len() - from,
{
    if from >= s.len() {
        s.len() as int
    } else if s[from] == 0 {
        from
    } else {
        nul_from(s, from + 1)
    }
}

/// `s` holds a terminating zero byte.
pub open spec fn is_c_string(s: Seq<u8>) -> bool {
    exists|i: int| 0 <= i < s.len() && s[i] == 0
}

/// The length of the C string in `s`: the index of its first zero byte.
pub open spec fn c_strlen(s: Seq<u8>) -> int {
    nul_from(s, 0)
}

/// Index where a comparison of two C strings stops, from `from` on: the first
/// index where they differ or where the first one ends.
pub open spec fn mismatch_from(s1: Seq<u8>, s2: Seq<u8>, from: int) -> int
    decreases s1.len() - from,
{
    if from >= s1.len() || from >= s2.len() {
        from
    } else if s1[from] != s2[from] || s1[from] == 0 {
        from
    } else {
        mismatch_from(s1, s2, from + 1)
    }
}

/// Where `strcmp` stops comparing.
pub open spec fn mismatch(s1: Seq<u8>, s2: Seq<u8>) -> int {
    mismatch_from(s1, s2, 0)
}

/// Copies `n` bytes from `src` to the start of `dst`; the rest of `dst` is
/// unchanged.
pub fn my_memcpy(dst: &mut [u8], src: &[u8], n: usize)
    requires
        n <= old(dst)@.len(),
        n <= src@.len(),
    ensures
        final(dst)@ == src@.subrange(0, n as int) + old(dst)@.subrange(n as int, old(dst)@.len() as int),
{
    let mut i: usize = 0;
    while i < n
        invariant
            i <= n,
            n <= dst@.len(),
            n <= src@.len(),
            dst@.len() == old(dst)@.len(),
            forall|j: int| 0 <= j < i ==> #[trigger] dst@[j] == src@[j],
            forall|j: int| i <= j < dst@.len() ==> #[trigger] dst@[j] == old(dst)@[j],
        decreases n - i,
    {
        dst[i] = src[i];
        i = i + 1;
    }
    assert(dst@ =~= src@.subrange(0, n as int) + old(dst)@.subrange(n as int, old(dst)@.len() as int));
}

/// Sets the first `n` bytes of `dst` to `c`; the rest is unchanged.
pub fn my_memset(dst: &mut [u8], c: u8, n: usize)
    requires
        n <= old(dst)@.len(),
    ensures
        final(dst)@.len() == old(dst)@.len(),
        forall|j: int| 0 <= j < n ==> #[trigger] final(dst)@[j] == c,
        forall|j: int| n <= j < old(dst)@.len() ==> #[trigger] final(dst)@[j] == old(dst)@[j],
{
    let mut i: usize = 0;
    while i < n
        invariant
            i <= n,
            n <= dst@.len(),
            dst@.len() == old(dst)@.len(),
            forall|j: int| 0 <= j < i ==> #[trigger] dst@[j] == c,
            forall|j: int| i <= j < dst@.len() ==> #[trigger] dst@[j] == old(dst)@[j],
        decreases n - i,
    {
        dst[i] = c;
        i = i + 1;
    }
}

/// Moves `n` bytes inside `buf` from offset `src` to offset `dst`, correct
/// when the two ranges overlap: afterwards `buf[dst..dst + n]` holds what
/// `buf[src..src + n]` held before, and every byte outside `dst..dst + n` is
/// unchanged. Copies front to back when the destination lies below the
/// source, back to front otherwise.
pub fn my_memmove(buf: &mut [u8], dst: usize, src: usize, n: usize)
    requires
        dst + n <= old(buf)@.len(),
        src + n <= old(buf)@.len(),
    ensures
        final(buf)@.len() == old(buf)@.len(),
        forall|j: int| 0 <= j < n ==> #[trigger] final(buf)@[dst + j] == old(buf)@[src + j],
        forall|j: int|
            0 <= j < old(buf)@.len() && !(dst <= j < dst + n) ==> #[trigger] final(buf)@[j] == old(
                buf,
            )@[j],
{
    let len = buf.len();
    if dst <= src {
        let mut i: usize = 0;
        while i < n
            invariant
                dst <= src,
                len == buf@.len(),
                i <= n,
                dst + n <= buf@.len(),
                src + n <= buf@.len(),
                buf@.len() == old(buf)@.len(),
                forall|j: int| 0 <= j < i ==> #[trigger] buf@[dst + j] == old(buf)@[src + j],
                forall|j: int|
                    0 <= j < buf@.len() && !(dst <= j < dst + i) ==> #[trigger] buf@[j] == old(
                        buf,
                    )@[j],
            decreases n - i,
        {
            let b = buf[src + i];
            buf[dst + i] = b;
            i = i + 1;
        }
    } else {
        let mut i: usize = n;
        while i > 0
            invariant
                dst > src,
                len == buf@.len(),
                i <= n,
                dst + n <= buf@.len(),
                src + n <= buf@.len(),
                buf@.len() == old(buf)@.len(),
                forall|j: int| i <= j < n ==> #[trigger] buf@[dst + j] == old(buf)@[src + j],
                forall|j: int|
                    0 <= j < buf@.len() && !(dst + i <= j < dst + n) ==> #[trigger] buf@[j] == old(
                        buf,
                    )@[j],
            decreases i,
        {
            i = i - 1;
            let b = buf[src + i];
            buf[dst + i] = b;
        }
    }
}

/// The zero byte found from `from` is the first one at or after `from`.
proof fn lemma_nul_from(s: Seq<u8>, from: int)
    requires
        0 <= from <= s.len(),
    ensures
        from <= nul_from(s, from) <= s.len(),
        nul_from(s, from) < s.len() ==> s[nul_from(s, from)] == 0,
        forall|j: int| from <= j < nul_from(s, from) ==> #[trigger] s[j] != 0,
    decreases s.len() - from,
{
    if from < s.len() && s[from] != 0 {
        lemma_nul_from(s, from + 1);
    }
}

/// Length of the C string in `s`: the number of bytes before the first zero
/// byte.
pub fn my_strlen(s: &[u8]) -> (len: usize)
    requires
        is_c_string(s@),
    ensures
        len == c_strlen(s@),
        len < s@.len(),
        s@[len as int] == 0,
        forall|j: int| 0 <= j < len ==> #[trigger] s@[j] != 0,
{
    proof {
        lemma_nul_from(s@, 0);
    }
    let mut i: usize = 0;
    while s[i] != 0
        invariant
            i <= c_strlen(s@),
            c_strlen(s@) < s@.len(),
            s@[c_strlen(s@)] == 0,
            nul_from(s@, 0) == nul_from(s@, i as int),
        decreases c_strlen(s@) - i,
    {
        i = i + 1;
    }
    i
}

/// The bytes of the C string in `s`, without the terminating zero.
pub open spec fn c_str(s: Seq<u8>) -> Seq<u8> {
    s.subrange(0, c_strlen(s))
}

/// A C string's length lies inside its buffer, at a zero byte.
proof fn lemma_c_strlen(s: Seq<u8>)
    requires
        is_c_string(s),
    ensures
        0 <= c_strlen(s) < s.len(),
        s[c_strlen(s)] == 0,
        forall|j: int| 0 <= j < c_strlen(s) ==> #[trigger] s[j] != 0,
{
    lemma_nul_from(s, 0);
    let i = choose|i: int| 0 <= i < s.len() && s[i] == 0;
    if c_strlen(s) == s.len() {
        assert(s[i] != 0);
    }
}

/// The comparison from `from` stops inside both strings (at or before both
/// terminators), at a byte where they differ or the first one ends, after
/// equal non-zero bytes.
proof fn lemma_mismatch_from(s1: Seq<u8>, s2: Seq<u8>, from: int)
    requires
        is_c_string(s1),
        is_c_string(s2),
        0 <= from <= c_strlen(s1),
        from <= c_strlen(s2),
    ensures
        from <= mismatch_from(s1, s2, from),
        mismatch_from(s1, s2, from) <= c_strlen(s1),
        mismatch_from(s1, s2, from) <= c_strlen(s2),
        s1[mismatch_from(s1, s2, from)] != s2[mismatch_from(s1, s2, from)] || s1[mismatch_from(
            s1,
            s2,
            from,
        )] == 0,
        forall|j: int|
            from <= j < mismatch_from(s1, s2, from) ==> #[trigger] s1[j] == s2[j] && s1[j] != 0,
    decreases s1.len() - from,
{
    lemma_c_strlen(s1);
    lemma_c_strlen(s2);
    if from < c_strlen(s1) && from < c_strlen(s2) && s1[from] == s2[from] {
        lemma_mismatch_from(s1, s2, from + 1);
    }
}

/// The signed difference of two bytes.
pub open spec fn byte_diff(a: u8, b: u8) -> i32 {
    (a as int - b as int) as i32
}

/// Computes the signed difference of two bytes.
fn byte_difference(a: u8, b: u8) -> (d: i32)
    ensures
        d == byte_diff(a, b),
        d == a as int - b as int,
{
    a as i32 - b as i32
}

/// Finds where the comparison of two C strings stops: the first index where
/// they differ or where the first one ends.
fn find_mismatch(s1: &[u8], s2: &[u8]) -> (k: usize)
    requires
        is_c_string(s1@),
        is_c_string(s2@),
    ensures
        k == mismatch(s1@, s2@),
        k < s1@.len(),
        k < s2@.len(),
{
    proof {
        lemma_c_strlen(s1@);
        lemma_c_strlen(s2@);
        lemma_mismatch_from(s1@, s2@, 0);
    }
    let mut i: usize = 0;
    while s1[i] == s2[i] && s1[i] != 0
        invariant
            i <= mismatch(s1@, s2@),
            mismatch(s1@, s2@) <= c_strlen(s1@) < s1@.len(),
            mismatch(s1@, s2@) <= c_strlen(s2@) < s2@.len(),
            s1@[mismatch(s1@, s2@)] != s2@[mismatch(s1@, s2@)] || s1@[mismatch(s1@, s2@)] == 0,
            mismatch(s1@, s2@) == mismatch_from(s1@, s2@, i as int),
        decreases mismatch(s1@, s2@) - i,
    {
        i = i + 1;
    }
    i
}

/// Compares two C strings byte by byte: returns the difference of the first
/// pair of bytes that differ, or 0 when the strings end together.
pub fn my_strcmp(s1: &[u8], s2: &[u8]) -> (r: i32)
    requires
        is_c_string(s1@),
        is_c_string(s2@),
    ensures
        mismatch(s1@, s2@) < s1@.len(),
        mismatch(s1@, s2@) < s2@.len(),
        r == byte_diff(s1@[mismatch(s1@, s2@)], s2@[mismatch(s1@, s2@)]),
{
    let k = find_mismatch(s1, s2);
    byte_difference(s1[k], s2[k])
}

/// The comparison gives 0 exactly when the two C strings hold the same bytes.
pub proof fn lemma_c_string_compare_zero_iff_equal(s1: Seq<u8>, s2: Seq<u8>)
    requires
        is_c_string(s1),
        is_c_string(s2),
    ensures
        (byte_diff(s1[mismatch(s1, s2)], s2[mismatch(s1, s2)]) == 0) <==> c_str(s1) == c_str(s2),
{
    lemma_c_strlen(s1);
    lemma_c_strlen(s2);
    lemma_mismatch_from(s1, s2, 0);
    let k = mismatch(s1, s2);
    if s1[k] == s2[k] {
        assert(s1[k] == 0);
        assert(k == c_strlen(s1));
        if k < c_strlen(s2) {
            assert(s2[k] != 0);
        }
        assert(c_str(s1) =~= c_str(s2));
    } else {
        if c_str(s1) == c_str(s2) {
            assert(c_str(s1).len() == c_strlen(s1));
            assert(c_str(s2).len() == c_strlen(s2));
            assert(c_strlen(s1) == c_strlen(s2));
            if k < c_strlen(s1) {
                assert(c_str(s1)[k] == c_str(s2)[k]);
            }
        }
    }
}

/// Where two C strings are compared: at the first index where their bytes
/// differ or the first string ends, inside both strings; every byte before
/// it is equal in both and non-zero.
pub proof fn lemma_strcmp_stops_at_first_difference(s1: Seq<u8>, s2: Seq<u8>)
    requires
        is_c_string(s1),
        is_c_string(s2),
    ensures
        0 <= mismatch(s1, s2) < s1.len(),
        mismatch(s1, s2) < s2.len(),
        s1[mismatch(s1, s2)] != s2[mismatch(s1, s2)] || s1[mismatch(s1, s2)] == 0,
        forall|j: int| 0 <= j < mismatch(s1, s2) ==> #[trigger] s1[j] == s2[j] && s1[j] != 0,
{
    lemma_c_strlen(s1);
    lemma_c_strlen(s2);
    lemma_mismatch_from(s1, s2, 0);
}

} // verus!
