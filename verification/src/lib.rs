//! Synthesis of structural hash procedures from memory-layout descriptions,
//! together with the reference-count storage header and the whitespace
//! formatter that accompany it.
//!
//! # Hashing
//!
//! [`build_hash::generic_hash`] emits, for a value of a given
//! [`layout::Layout`], the code that folds the value into a seed. Numbers,
//! strings and empty collections are hashed in place; a struct, a union or
//! a list gets a procedure of its own, generated once per layout and
//! called wherever the layout occurs, also from inside its own body where
//! the layout is recursive.
//!
//! The code is emitted into an [`env::Env`], a model of a module under
//! construction made of the plain data of [`ir`]: procedures, basic blocks,
//! phi nodes, instructions and terminators.
//!
//! - [`shape`] says what the emitted code looks like, instruction by
//!   instruction and block by block; the contracts of the generator are
//!   stated in its terms.
//! - [`semantics`] says what the emitted code computes on a model of
//!   run-time values, with the two mixing primitives left open, and
//!   [`interp`] runs it on sample [`data`].
//! - [`laws`] proves, for every procedure that the generator leaves behind,
//!   what it returns: that a struct and a list are folded in order, that a
//!   tag id selects its own variant, that the null pointer and the empty
//!   collections leave the seed alone, that numbers are hashed by bit
//!   pattern and width.
//! - [`outcomes`] states the same of [`build_hash::generic_hash`] itself:
//!   what one call of it leaves behind, and what that computes.
//! - [`visits`] shows that the code of a struct's procedure visits every
//!   field once, and a linked list every node once.
//! - [`meaning`] defines the hash of a value by its layout alone, proves
//!   that the procedures compute it, and computes it for sample data.
//! - [`linking`] says which procedure a recursive pointer is handed to, and
//!   for which layouts the shared procedures serve every place where they
//!   are called.
//! - [`reject`] tells beforehand which layouts cannot be hashed, and why.
//!
//! # Accompanying pieces
//!
//! - [`storage`]: the storage header of a heap value.
//! - [`spaces`]: writing blank lines and comments into an arena string.
//! - [`bump`]: what is taken on trust of the arena collections.

pub mod build_hash;
pub mod bump;
pub mod data;
pub mod env;
pub mod interp;
pub mod ir;
pub mod laws;
pub mod layout;
pub mod layout_ids;
pub mod lemmas;
pub mod linking;
pub mod meaning;
pub mod measure;
pub mod outcomes;
pub mod reject;
pub mod semantics;
pub mod shape;
pub mod spaces;
pub mod storage;
pub mod visits;
