//! An interpreter for a minimal esoteric instruction set whose only source
//! vocabulary is the word "chicken": the number of repetitions of that word on
//! a source line is one numeric instruction value.  The crate provides the
//! value model (a two-variant token), the loader that turns source text into a
//! unified memory image, and the fetch-decode-execute loop with its ten
//! opcodes, including a backwards-compatible semantic mode that emulates
//! loose, legacy-scripting-style coercion.
//!
//! Every executable function is specified against a mathematical model of the
//! machine (see `model`), and the machine-independent laws of the semantics
//! are proved in `laws`.

pub mod laws;
pub mod machine;
pub mod model;
pub mod text;
pub mod value;
