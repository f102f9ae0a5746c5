//! Minimal syntax parsing over token sequences, for derive-style macros.
//!
//! The parser recognises a small subset of declaration syntax: attributes, visibility
//! modifiers and type paths (with generic, tuple and array forms). It works on its own token
//! model ([`token`]); every operation returns an explicit result, and a failure carries a
//! message and the position of the offending token, ready to be turned into a
//! `compile_error!` invocation ([`utils::spanned_error`]).

mod text;
pub mod literal;
pub mod path;
pub mod token;
pub mod ty;
pub mod utils;
