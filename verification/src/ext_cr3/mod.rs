//! Boxes that one camera vendor adds to the base format.

pub mod jpeg;
