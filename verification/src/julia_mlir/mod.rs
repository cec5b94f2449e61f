//! The binding for compiled programs that run without the runtime.
//!
//! An object is a tag word and a body; a reference points to the body. The tag is the address of
//! a type descriptor, which says how large the body is and which of its words are references.
//! Roots are kept on a stack of their own and in a table of global slots.

pub mod laws;
pub mod model;
pub mod mutator;
pub mod roots;
pub mod safepoint;
