//! In-place quicksort of a slice of integers, with a mid-element pivot and a
//! Lomuto partition, proved to leave the slice sorted and holding the same
//! elements it held before.
pub mod order;
pub mod sort;
