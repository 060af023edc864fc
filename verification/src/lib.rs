//! Circuit-construction gadget for random access: constraining a claimed
//! value to equal the element of a fixed list selected by a witness-supplied
//! index wire, without one equality check per list position and without
//! range-checking the index.

pub mod target;
pub mod gate;
pub mod builder;
pub mod random_access;
pub mod witness;
pub mod satisfaction;
pub mod laws;
