//! Assemblers for small teaching architectures.
//!
//! An assembler turns the text of a program into the bytes of a memory image
//! and a table of the labels that the program declares.
use vstd::prelude::*;

pub mod error;
pub mod lc2;
pub mod symbols;
pub mod text;

pub use error::ParseError;
pub use symbols::SymbolTable;

verus! {

/// What every assembler does.
pub trait Assembler {
    /// An address of the machine that the assembler writes programs for.
    type Address;

    /// Assembles `assembly` into a memory image, and gives the address of
    /// each label with it. The first thing that is wrong with the program is
    /// the error.
    fn assemble(&self, assembly: &str) -> Result<
        (Vec<u8>, SymbolTable<Self::Address>),
        ParseError,
    >;
}

} // verus!
