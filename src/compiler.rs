//! The compiler front: scopes and definitions as the reader meets them.
use crate::words::Word;
use vstd::prelude::*;

verus! {

/// The compiler front. It keeps no state of its own yet: scopes live in the
/// machine's vocabulary and definitions in its word builder.
pub struct Compiler;

impl Compiler {
    pub fn new() -> (r: Compiler)
        ensures
            r == Compiler,
    {
        Compiler
    }

    /// Entering a scope changes nothing here.
    pub fn enter_scope(&mut self, name: &str)
        ensures
            *final(self) == *old(self),
    {
    }

    /// Leaving a scope changes nothing here.
    pub fn exit_scope(&mut self)
        ensures
            *final(self) == *old(self),
    {
    }

    /// Closing a definition changes nothing here.
    pub fn finish_current_definition_and_start_next(&mut self)
        ensures
            *final(self) == *old(self),
    {
    }

    /// Compiling a word changes nothing here.
    pub fn exec_word<B>(&mut self, word: &Word<B>)
        ensures
            *final(self) == *old(self),
    {
    }
}

} // verus!
