pub mod codegen;
pub mod laws;
pub mod ir;
pub mod parse;
pub mod regalloc;
pub mod token;

use vstd::prelude::*;

verus! {

/// Size of the physical register file: how many general-purpose
/// machine registers the allocator may hand out.
pub const REGS_N: usize = 8;

/// A fatal compilation failure. Compilation is a one-shot
/// transformation: no stage recovers from any of these.
#[derive(Debug, Clone, Copy, PartialEq, Eq, Structural)]
pub enum CompileError {
    /// An unrecognized character, or a number literal too large to hold.
    Lexical,
    /// A token did not match what the grammar expects.
    Syntax,
    /// A tree or instruction shape that a later stage does not accept,
    /// such as assignment to something that is not a variable.
    Semantic,
    /// The physical register file was exhausted during allocation.
    Resource,
}

impl CompileError {
    /// A short human-readable description, for diagnostics at the
    /// command-line boundary.
    pub fn describe(&self) -> (r: &'static str)
        ensures
            r@.len() > 0,
    {
        proof {
            reveal_strlit("cannot tokenize input");
            reveal_strlit("unexpected token");
            reveal_strlit("ill-formed tree or instruction");
            reveal_strlit("register exhausted");
        }
        match self {
            CompileError::Lexical => "cannot tokenize input",
            CompileError::Syntax => "unexpected token",
            CompileError::Semantic => "ill-formed tree or instruction",
            CompileError::Resource => "register exhausted",
        }
    }
}

} // verus!
