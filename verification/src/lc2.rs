//! The assembler of the LC-2, a 16-bit machine with eight registers.
use crate::error::ParseError;
use crate::lc2::lexer::{spec_tokenize, tokenize};
use crate::lc2::parser::token_helpers::TokenStream;
use crate::lc2::parser::{build_symbol_table, spec_build_symbol_table};
use crate::symbols::SymbolTable;
use crate::Assembler;
use vstd::prelude::*;
use vstd::string::*;

pub mod lexer;
pub mod parser;
pub mod proofs;
pub mod token;

verus! {

/// The dialect of the assembly language that an assembler accepts.
///
/// It is fixed when the assembler is built, and both passes go by it.
#[derive(Debug, Clone, Copy, PartialEq, Eq)]
pub struct Lc2Assembler {
    /// A program may start without `.orig`; it then starts at address 0.
    pub optional_starting_orig: bool,
    /// A program may hold further `.orig` directives, in rising order.
    pub multiple_origs: bool,
    /// A program may end without `.end`.
    pub optional_end: bool,
    /// Only comments may follow `.end`.
    pub nothing_after_end: bool,
    /// The directive `.stringzp` is part of the language.
    pub enable_stringzp: bool,
    /// The memory image starts with the address at which the program starts,
    /// unless a program may start without `.orig`.
    pub prepend_start_address: bool,
}

/// A memory image and a symbol table, or an error, as sequences and a map.
pub open spec fn viewed_assembly(result: Result<(Vec<u8>, SymbolTable<u16>), ParseError>) -> Result<
    (Seq<u8>, Map<Seq<u8>, u16>),
    ParseError,
> {
    match result {
        Ok((binary, symbol_table)) => Ok((binary@, symbol_table@)),
        Err(error) => Err(error),
    }
}

impl Lc2Assembler {
    /// The dialect of an assembler that is built without any choice made:
    /// a program starts with its only `.orig` and ends with `.end`, after
    /// which only comments stand; there is no `.stringzp`; the memory image
    /// starts with the start address.
    pub open spec fn defaults() -> Lc2Assembler {
        Lc2Assembler {
            optional_starting_orig: false,
            multiple_origs: false,
            optional_end: false,
            nothing_after_end: true,
            enable_stringzp: false,
            prepend_start_address: true,
        }
    }

    /// What assembling the text with the bytes `source` comes to: the text is
    /// cut into tokens; the first pass over all the tokens gives the symbol
    /// table; the second pass over the same tokens, with that table, gives
    /// the memory image. The first failure is the result.
    pub open spec fn spec_assemble(&self, source: Seq<u8>) -> Result<
        (Seq<u8>, Map<Seq<u8>, u16>),
        ParseError,
    > {
        let items = spec_tokenize(source);
        match spec_build_symbol_table(*self, items, 0).outcome {
            Ok(symbol_table) => match parser::spec_assemble(*self, items, 0, symbol_table).outcome {
                Ok(binary) => Ok((binary, symbol_table)),
                Err(error) => Err(error),
            },
            Err(error) => Err(error),
        }
    }
}

impl Assembler for Lc2Assembler {
    type Address = u16;

    /// Assembles `assembly` into a memory image, and gives the address of
    /// each label with it.
    fn assemble(&self, assembly: &str) -> (result: Result<
        (Vec<u8>, SymbolTable<u16>),
        ParseError,
    >)
        ensures
            viewed_assembly(result) == self.spec_assemble(assembly.spec_bytes()),
    {
        let mut lexer = TokenStream::new(tokenize(assembly));
        let symbol_table = build_symbol_table(self, &mut lexer)?;
        lexer.rewind();
        let binary = parser::assemble(self, &mut lexer, &symbol_table)?;
        Ok((binary, symbol_table))
    }
}

/// The choices for an assembler, made one by one before it is built. A
/// choice that is not made is the default.
#[derive(Debug, Clone, Copy)]
pub struct Lc2AssemblerBuilder {
    optional_starting_orig: Option<bool>,
    multiple_origs: Option<bool>,
    optional_end: Option<bool>,
    nothing_after_end: Option<bool>,
    enable_stringzp: Option<bool>,
    prepend_start_address: Option<bool>,
}

/// A choice, or the default where none is made.
pub open spec fn chosen(choice: Option<bool>, default: bool) -> bool {
    match choice {
        Some(value) => value,
        None => default,
    }
}

/// A choice, or the default where none is made.
fn choice_or(choice: Option<bool>, default: bool) -> (result: bool)
    ensures
        result == chosen(choice, default),
{
    match choice {
        Some(value) => value,
        None => default,
    }
}

impl Lc2AssemblerBuilder {
    /// The assembler that `build` gives with the choices made so far.
    pub closed spec fn spec_build(&self) -> Lc2Assembler {
        Lc2Assembler {
            optional_starting_orig: chosen(self.optional_starting_orig, false),
            multiple_origs: chosen(self.multiple_origs, false),
            optional_end: chosen(self.optional_end, false),
            nothing_after_end: chosen(self.nothing_after_end, true),
            enable_stringzp: chosen(self.enable_stringzp, false),
            prepend_start_address: chosen(self.prepend_start_address, true),
        }
    }

    /// A builder with no choice made.
    #[must_use]
    pub fn new() -> (builder: Self)
        ensures
            builder.spec_build() == Lc2Assembler::defaults(),
    {
        Lc2AssemblerBuilder {
            optional_starting_orig: None,
            multiple_origs: None,
            optional_end: None,
            nothing_after_end: None,
            enable_stringzp: None,
            prepend_start_address: None,
        }
    }

    /// Chooses whether a program may start without `.orig`.
    pub fn optional_starting_orig(&mut self, value: bool) -> (builder: &mut Self)
        ensures
            builder.spec_build() == (Lc2Assembler {
                optional_starting_orig: value,
                ..old(self).spec_build()
            }),
            *final(self) == *final(builder),
    {
        self.optional_starting_orig = Some(value);
        self
    }

    /// Chooses whether a program may hold further `.orig` directives.
    pub fn multiple_origs(&mut self, value: bool) -> (builder: &mut Self)
        ensures
            builder.spec_build() == (Lc2Assembler { multiple_origs: value, ..old(self).spec_build() }),
            *final(self) == *final(builder),
    {
        self.multiple_origs = Some(value);
        self
    }

    /// Chooses whether a program may end without `.end`.
    pub fn optional_end(&mut self, value: bool) -> (builder: &mut Self)
        ensures
            builder.spec_build() == (Lc2Assembler { optional_end: value, ..old(self).spec_build() }),
            *final(self) == *final(builder),
    {
        self.optional_end = Some(value);
        self
    }

    /// Chooses whether only comments may follow `.end`.
    pub fn nothing_after_end(&mut self, value: bool) -> (builder: &mut Self)
        ensures
            builder.spec_build() == (Lc2Assembler {
                nothing_after_end: value,
                ..old(self).spec_build()
            }),
            *final(self) == *final(builder),
    {
        self.nothing_after_end = Some(value);
        self
    }

    /// Chooses whether `.stringzp` is part of the language.
    pub fn enable_stringzp(&mut self, value: bool) -> (builder: &mut Self)
        ensures
            builder.spec_build() == (Lc2Assembler { enable_stringzp: value, ..old(self).spec_build() }),
            *final(self) == *final(builder),
    {
        self.enable_stringzp = Some(value);
        self
    }

    /// Chooses whether the memory image starts with the start address.
    pub fn prepend_start_address(&mut self, value: bool) -> (builder: &mut Self)
        ensures
            builder.spec_build() == (Lc2Assembler {
                prepend_start_address: value,
                ..old(self).spec_build()
            }),
            *final(self) == *final(builder),
    {
        self.prepend_start_address = Some(value);
        self
    }

    /// The assembler with the choices made so far. The builder stays as it
    /// is.
    #[must_use]
    pub fn build(&mut self) -> (assembler: Lc2Assembler)
        ensures
            assembler == old(self).spec_build(),
            *final(self) == *old(self),
    {
        Lc2Assembler {
            optional_starting_orig: choice_or(self.optional_starting_orig, false),
            multiple_origs: choice_or(self.multiple_origs, false),
            optional_end: choice_or(self.optional_end, false),
            nothing_after_end: choice_or(self.nothing_after_end, true),
            enable_stringzp: choice_or(self.enable_stringzp, false),
            prepend_start_address: choice_or(self.prepend_start_address, true),
        }
    }
}

impl Default for Lc2AssemblerBuilder {
    /// A builder with no choice made.
    fn default() -> (builder: Self)
        ensures
            builder.spec_build() == Lc2Assembler::defaults(),
    {
        Lc2AssemblerBuilder::new()
    }
}

} // verus!
