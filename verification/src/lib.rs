//! Rolling minimum and maximum over nullable data.
//!
//! A window slides forward over a buffer of values and a validity bitmap; at
//! every position the smallest (or largest) present value of the window is
//! reported. The window keeps enough state to avoid scanning again what it
//! has already seen: the extremum, its index, and how far the values behind
//! it are sorted.
//!
//! - [`native`] and [`float_bits`]: the values a window can hold.
//! - [`order`]: the two directions of search and the order each of them uses.
//! - [`bitmap`]: the validity bitmap and the count of nulls in a range.
//! - [`extremum`]: what the extremum of a window is, and what follows from it.
//! - [`scan`]: the scan of a range and of the sorted run behind an extremum.
//! - [`window`]: the state of a pass and how it moves from window to window.
//! - [`rolling`]: whole passes, over windows of a fixed size or given bounds.

pub mod bitmap;
pub mod extremum;
pub mod float_bits;
pub mod native;
pub mod order;
pub mod rolling;
pub mod scan;
pub mod window;
