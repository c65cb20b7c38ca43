//! The values a rolling window can hold.

use vstd::prelude::*;

verus! {

/// A plain numeric value that can be copied and compared.
///
/// Every value is either the not-a-number sentinel or an ordinary number with
/// a place on the number line, its `rank`. Two ordinary values compare as
/// their ranks do; how the sentinel compares is decided by the direction of
/// the search, see [`crate::order`].
pub trait NativeType: Copy + Sized {
    /// Whether the value is the not-a-number sentinel.
    spec fn nan(self) -> bool;

    /// The place of an ordinary value on the number line.
    spec fn rank(self) -> int;

    /// Tests for the not-a-number sentinel.
    fn is_nan(&self) -> (r: bool)
        ensures
            r == self.nan(),
    ;

    /// Compares two ordinary values by their place on the number line.
    fn less_than(&self, other: &Self) -> (r: bool)
        ensures
            !self.nan() && !other.nan() ==> r == (self.rank() < other.rank()),
    ;
}

impl NativeType for i8 {
    open spec fn nan(self) -> bool {
        false
    }

    open spec fn rank(self) -> int {
        self as int
    }

    fn is_nan(&self) -> (r: bool) {
        false
    }

    fn less_than(&self, other: &Self) -> (r: bool) {
        *self < *other
    }
}

impl NativeType for i16 {
    open spec fn nan(self) -> bool {
        false
    }

    open spec fn rank(self) -> int {
        self as int
    }

    fn is_nan(&self) -> (r: bool) {
        false
    }

    fn less_than(&self, other: &Self) -> (r: bool) {
        *self < *other
    }
}

impl NativeType for i32 {
    open spec fn nan(self) -> bool {
        false
    }

    open spec fn rank(self) -> int {
        self as int
    }

    fn is_nan(&self) -> (r: bool) {
        false
    }

    fn less_than(&self, other: &Self) -> (r: bool) {
        *self < *other
    }
}

impl NativeType for i64 {
    open spec fn nan(self) -> bool {
        false
    }

    open spec fn rank(self) -> int {
        self as int
    }

    fn is_nan(&self) -> (r: bool) {
        false
    }

    fn less_than(&self, other: &Self) -> (r: bool) {
        *self < *other
    }
}

impl NativeType for i128 {
    open spec fn nan(self) -> bool {
        false
    }

    open spec fn rank(self) -> int {
        self as int
    }

    fn is_nan(&self) -> (r: bool) {
        false
    }

    fn less_than(&self, other: &Self) -> (r: bool) {
        *self < *other
    }
}

impl NativeType for u8 {
    open spec fn nan(self) -> bool {
        false
    }

    open spec fn rank(self) -> int {
        self as int
    }

    fn is_nan(&self) -> (r: bool) {
        false
    }

    fn less_than(&self, other: &Self) -> (r: bool) {
        *self < *other
    }
}

impl NativeType for u16 {
    open spec fn nan(self) -> bool {
        false
    }

    open spec fn rank(self) -> int {
        self as int
    }

    fn is_nan(&self) -> (r: bool) {
        false
    }

    fn less_than(&self, other: &Self) -> (r: bool) {
        *self < *other
    }
}

impl NativeType for u32 {
    open spec fn nan(self) -> bool {
        false
    }

    open spec fn rank(self) -> int {
        self as int
    }

    fn is_nan(&self) -> (r: bool) {
        false
    }

    fn less_than(&self, other: &Self) -> (r: bool) {
        *self < *other
    }
}

impl NativeType for u64 {
    open spec fn nan(self) -> bool {
        false
    }

    open spec fn rank(self) -> int {
        self as int
    }

    fn is_nan(&self) -> (r: bool) {
        false
    }

    fn less_than(&self, other: &Self) -> (r: bool) {
        *self < *other
    }
}

} // verus!
