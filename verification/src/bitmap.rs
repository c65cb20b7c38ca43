//! The validity bitmap: one bit per value, `true` where the value is present.

use vstd::prelude::*;

verus! {

/// The number of null entries (unset bits) of `validity` in `[start, end)`.
pub open spec fn count_nulls(validity: Seq<bool>, start: int, end: int) -> nat
    decreases end - start,
{
    if end <= start {
        0
    } else {
        count_nulls(validity, start, end - 1) + if validity[end - 1] {
            0nat
        } else {
            1nat
        }
    }
}

/// The number of present entries (set bits) of `validity` in `[start, end)`.
pub open spec fn count_valid(validity: Seq<bool>, start: int, end: int) -> int {
    if end <= start {
        0
    } else {
        end - start - count_nulls(validity, start, end)
    }
}

/// Every entry of `[start, end)` is null.
pub open spec fn all_null(validity: Seq<bool>, start: int, end: int) -> bool {
    forall|i: int| start <= i < end ==> !#[trigger] validity[i]
}

/// A range never holds more nulls than entries.
pub proof fn lemma_count_nulls_bound(validity: Seq<bool>, start: int, end: int)
    requires
        start <= end,
    ensures
        count_nulls(validity, start, end) <= end - start,
    decreases end - start,
{
    if start < end {
        lemma_count_nulls_bound(validity, start, end - 1);
    }
}

/// The nulls of two adjoining ranges add up.
pub proof fn lemma_count_nulls_split(validity: Seq<bool>, start: int, mid: int, end: int)
    requires
        start <= mid <= end,
    ensures
        count_nulls(validity, start, end) == count_nulls(validity, start, mid) + count_nulls(
            validity,
            mid,
            end,
        ),
    decreases end - mid,
{
    if mid < end {
        lemma_count_nulls_split(validity, start, mid, end - 1);
    }
}

/// A range is all null exactly when it holds as many nulls as entries.
pub proof fn lemma_count_nulls_full(validity: Seq<bool>, start: int, end: int)
    requires
        start <= end,
    ensures
        all_null(validity, start, end) <==> count_nulls(validity, start, end) == end - start,
    decreases end - start,
{
    if start < end {
        lemma_count_nulls_full(validity, start, end - 1);
        lemma_count_nulls_bound(validity, start, end - 1);
        if all_null(validity, start, end) {
            assert(!validity[end - 1]);
            assert(all_null(validity, start, end - 1));
        }
        if count_nulls(validity, start, end) == end - start {
            assert(!validity[end - 1]);
            assert(all_null(validity, start, end - 1));
        }
    }
}

/// A validity bitmap over a buffer of values.
pub struct Bitmap {
    bits: Vec<bool>,
}

impl View for Bitmap {
    type V = Seq<bool>;

    closed spec fn view(&self) -> Seq<bool> {
        self.bits@
    }
}

impl Bitmap {
    /// A bitmap with one bit per entry of `bits`.
    pub fn new(bits: Vec<bool>) -> (bitmap: Bitmap)
        ensures
            bitmap@ == bits@,
    {
        Bitmap { bits }
    }

    /// The number of bits.
    pub fn len(&self) -> (n: usize)
        ensures
            n == self@.len(),
    {
        self.bits.len()
    }

    /// Whether the value at `i` is present.
    pub fn get_bit(&self, i: usize) -> (bit: bool)
        requires
            i < self@.len(),
        ensures
            bit == self@[i as int],
    {
        self.bits[i]
    }

    /// The number of nulls among the `length` entries that start at `offset`.
    pub fn null_count_range(&self, offset: usize, length: usize) -> (n: usize)
        requires
            offset + length <= self@.len(),
        ensures
            n == count_nulls(self@, offset as int, offset + length),
    {
        let total: usize = self.bits.len();
        let end: usize = offset + length;
        let mut n: usize = 0;
        let mut i: usize = offset;
        while i < end
            invariant
                offset <= i <= end,
                end <= self@.len(),
                n == count_nulls(self@, offset as int, i as int),
                n <= i - offset,
            decreases end - i,
        {
            if !self.bits[i] {
                n += 1;
            }
            i += 1;
        }
        n
    }
}

} // verus!
