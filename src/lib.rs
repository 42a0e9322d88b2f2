//! Esoteric language interpreters, each compiling its source "halfway" to
//! bytecode before running it.
//!
//! `brainfuck` compiles and runs programs; `lemmas` proves facts about its
//! semantics.
pub mod brainfuck;
pub mod lemmas;
