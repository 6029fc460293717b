//! A small interactive command interpreter: a tokenizer with quoting,
//! escapes and variable expansion, a session state, and a dispatcher of
//! builtin commands whose output is returned as a list of effects.
use vstd::prelude::*;

pub mod builtins;
pub mod state;
pub mod text;
pub mod tokenizer;
pub mod vars;

verus! {

} // verus!
