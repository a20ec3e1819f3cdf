//! What each operation gives back and leaves behind, said of its inputs and
//! results alone.
//!
//! Each law here speaks of any call of a function and of the fields of the
//! states before and after it: which items wait in which order, how many permits
//! were granted, and what stays as it was.
pub mod hosts;
pub mod maps;
pub mod servers;
pub mod streams;
pub mod values;
pub mod worlds;
