//! Code generation back ends.
use vstd::prelude::*;

use crate::ast::Program;
use crate::symbol::SymbolTable;

pub mod c;

verus! {

/// A code generator: it turns a checked program, with the functions it imports, into
/// source text.
pub trait Backend {
    /// Generates the code of the program.
    fn process(&mut self, prog: &Program, symbols: &SymbolTable);

    /// The code generated so far.
    fn output(&self) -> &String;
}

} // verus!
