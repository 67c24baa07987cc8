//! The tokens of the assembly language, and the words that name its
//! operations and directives.
use crate::error::ParseError;
use crate::text::{copy_bytes, same_bytes};
use vstd::prelude::*;
use vstd::string::*;

verus! {

/// An instruction of the machine, as its mnemonic names it.
///
/// Where a mnemonic fixes part of the instruction (the flags of a branch,
/// whether a jump links, the vector of a named trap), the variant holds it.
#[derive(Debug, PartialEq, Eq, Clone, Copy)]
pub enum Operation {
    Add,
    And,
    /// Branch if the last result was negative, zero, positive.
    Branch(bool, bool, bool),
    /// Jump, and with `true` keep the return address.
    Jump(bool),
    /// Jump through a register, and with `true` keep the return address.
    JumpRegister(bool),
    Load,
    LoadIndirect,
    LoadRegister,
    LoadEffectiveAddress,
    Not,
    Return,
    ReturnInterrupt,
    Store,
    StoreIndirect,
    StoreRegister,
    /// A system call; a named one holds its vector, a bare `TRAP` holds none.
    Trap(Option<u8>),
}

/// A directive to the assembler.
#[derive(Debug, PartialEq, Eq, Clone, Copy)]
pub enum PseudoOperation {
    Orig,
    Fill,
    Stringz,
    Blkw,
    End,
    /// A string packed two characters to the word; a dialect may switch it off.
    Stringzp,
}

/// A token of the source text.
///
/// Texts are held as the bytes of their UTF-8 form.
#[derive(Debug)]
pub enum Token {
    Comma,
    Colon,
    /// A comment, from its `;` or `//` to the end of its line.
    Comment(Vec<u8>),
    /// A register, by its number; only the low three bits count.
    Register(u8),
    /// A name that is neither a register, a number nor a mnemonic.
    Label(Vec<u8>),
    /// A number; a negative one is held in two's complement.
    Number(u16),
    /// A string, without its quotes and with its escapes resolved.
    String(Vec<u8>),
    PseudoOperation(PseudoOperation),
    Operation(Operation),
}

/// What a `Token` stands for in contracts: the same, with its texts as
/// sequences of bytes.
pub enum Lexeme {
    Comma,
    Colon,
    Comment(Seq<u8>),
    Register(u8),
    Label(Seq<u8>),
    Number(u16),
    String(Seq<u8>),
    PseudoOperation(PseudoOperation),
    Operation(Operation),
}

impl View for Token {
    type V = Lexeme;

    open spec fn view(&self) -> Lexeme {
        match self {
            Token::Comma => Lexeme::Comma,
            Token::Colon => Lexeme::Colon,
            Token::Comment(text) => Lexeme::Comment(text@),
            Token::Register(number) => Lexeme::Register(*number),
            Token::Label(name) => Lexeme::Label(name@),
            Token::Number(value) => Lexeme::Number(*value),
            Token::String(text) => Lexeme::String(text@),
            Token::PseudoOperation(directive) => Lexeme::PseudoOperation(*directive),
            Token::Operation(operation) => Lexeme::Operation(*operation),
        }
    }
}

fn same_operation(left: &Operation, right: &Operation) -> (result: bool)
    ensures
        result == (*left == *right),
{
    match (left, right) {
        (Operation::Add, Operation::Add) => true,
        (Operation::And, Operation::And) => true,
        (Operation::Branch(n1, z1, p1), Operation::Branch(n2, z2, p2)) => *n1 == *n2 && *z1 == *z2
            && *p1 == *p2,
        (Operation::Jump(l1), Operation::Jump(l2)) => *l1 == *l2,
        (Operation::JumpRegister(l1), Operation::JumpRegister(l2)) => *l1 == *l2,
        (Operation::Load, Operation::Load) => true,
        (Operation::LoadIndirect, Operation::LoadIndirect) => true,
        (Operation::LoadRegister, Operation::LoadRegister) => true,
        (Operation::LoadEffectiveAddress, Operation::LoadEffectiveAddress) => true,
        (Operation::Not, Operation::Not) => true,
        (Operation::Return, Operation::Return) => true,
        (Operation::ReturnInterrupt, Operation::ReturnInterrupt) => true,
        (Operation::Store, Operation::Store) => true,
        (Operation::StoreIndirect, Operation::StoreIndirect) => true,
        (Operation::StoreRegister, Operation::StoreRegister) => true,
        (Operation::Trap(Some(v1)), Operation::Trap(Some(v2))) => *v1 == *v2,
        (Operation::Trap(None), Operation::Trap(None)) => true,
        _ => false,
    }
}

fn same_directive(left: &PseudoOperation, right: &PseudoOperation) -> (result: bool)
    ensures
        result == (*left == *right),
{
    match (left, right) {
        (PseudoOperation::Orig, PseudoOperation::Orig) => true,
        (PseudoOperation::Fill, PseudoOperation::Fill) => true,
        (PseudoOperation::Stringz, PseudoOperation::Stringz) => true,
        (PseudoOperation::Blkw, PseudoOperation::Blkw) => true,
        (PseudoOperation::End, PseudoOperation::End) => true,
        (PseudoOperation::Stringzp, PseudoOperation::Stringzp) => true,
        _ => false,
    }
}

impl PartialEq for Token {
    /// Two tokens are equal when they stand for the same lexeme.
    fn eq(&self, other: &Token) -> (result: bool) {
        match (self, other) {
            (Token::Comma, Token::Comma) => true,
            (Token::Colon, Token::Colon) => true,
            (Token::Comment(left), Token::Comment(right)) => same_bytes(
                left.as_slice(),
                right.as_slice(),
            ),
            (Token::Register(left), Token::Register(right)) => *left == *right,
            (Token::Label(left), Token::Label(right)) => same_bytes(
                left.as_slice(),
                right.as_slice(),
            ),
            (Token::Number(left), Token::Number(right)) => *left == *right,
            (Token::String(left), Token::String(right)) => same_bytes(
                left.as_slice(),
                right.as_slice(),
            ),
            (Token::PseudoOperation(left), Token::PseudoOperation(right)) => same_directive(
                left,
                right,
            ),
            (Token::Operation(left), Token::Operation(right)) => same_operation(left, right),
            _ => false,
        }
    }
}

impl vstd::std_specs::cmp::PartialEqSpecImpl for Token {
    open spec fn obeys_eq_spec() -> bool {
        true
    }

    open spec fn eq_spec(&self, other: &Token) -> bool {
        self@ == other@
    }
}

impl Eq for Token {

}

impl Clone for Token {
    fn clone(&self) -> (result: Token)
        ensures
            result@ == self@,
    {
        match self {
            Token::Comma => Token::Comma,
            Token::Colon => Token::Colon,
            Token::Comment(text) => Token::Comment(copy_bytes(text.as_slice())),
            Token::Register(number) => Token::Register(*number),
            Token::Label(name) => Token::Label(copy_bytes(name.as_slice())),
            Token::Number(value) => Token::Number(*value),
            Token::String(text) => Token::String(copy_bytes(text.as_slice())),
            Token::PseudoOperation(directive) => Token::PseudoOperation(*directive),
            Token::Operation(operation) => Token::Operation(*operation),
        }
    }
}

/// What an item of a stream stands for: a lexeme, or nothing where the text
/// held no token.
pub open spec fn item_of(item: Result<Token, ()>) -> Option<Lexeme> {
    match item {
        Ok(token) => Some(token@),
        Err(_) => None,
    }
}

/// What the items of a stream stand for, one by one.
pub open spec fn items_of(items: Seq<Result<Token, ()>>) -> Seq<Option<Lexeme>> {
    Seq::new(items.len(), |i: int| item_of(items[i]))
}

/// The upper-case form of an ASCII letter; any other byte is left as it is.
pub open spec fn upper(byte: u8) -> u8 {
    if 'a' as u8 <= byte && byte <= 'z' as u8 {
        (byte - 32) as u8
    } else {
        byte
    }
}

/// Whether `word`, read without regard to case, is the ASCII text `keyword`.
pub open spec fn spelled(word: Seq<u8>, keyword: &str) -> bool {
    &&& is_ascii(keyword)
    &&& word.len() == keyword@.len()
    &&& forall|i: int| 0 <= i < word.len() ==> upper(#[trigger] word[i]) == keyword@[i] as u8
}

/// The operation that `word` names, if it is a mnemonic.
pub open spec fn operation_named(word: Seq<u8>) -> Option<Operation> {
    if spelled(word, "ADD") {
        Some(Operation::Add)
    } else if spelled(word, "AND") {
        Some(Operation::And)
    } else if spelled(word, "BRN") || spelled(word, "BRLT") {
        Some(Operation::Branch(true, false, false))
    } else if spelled(word, "BRZ") || spelled(word, "BREQ") {
        Some(Operation::Branch(false, true, false))
    } else if spelled(word, "BRP") || spelled(word, "BRGT") {
        Some(Operation::Branch(false, false, true))
    } else if spelled(word, "BRNZ") || spelled(word, "BRLE") {
        Some(Operation::Branch(true, true, false))
    } else if spelled(word, "BRNP") || spelled(word, "BRNE") {
        Some(Operation::Branch(true, false, true))
    } else if spelled(word, "BRZP") || spelled(word, "BRGE") {
        Some(Operation::Branch(false, true, true))
    } else if spelled(word, "BRNZP") || spelled(word, "BR") {
        Some(Operation::Branch(true, true, true))
    } else if spelled(word, "BRNOP") || spelled(word, "NOP") {
        Some(Operation::Branch(false, false, false))
    } else if spelled(word, "JSR") {
        Some(Operation::Jump(true))
    } else if spelled(word, "JMP") {
        Some(Operation::Jump(false))
    } else if spelled(word, "JSRR") {
        Some(Operation::JumpRegister(true))
    } else if spelled(word, "JMPR") {
        Some(Operation::JumpRegister(false))
    } else if spelled(word, "LD") {
        Some(Operation::Load)
    } else if spelled(word, "LDI") {
        Some(Operation::LoadIndirect)
    } else if spelled(word, "LDR") {
        Some(Operation::LoadRegister)
    } else if spelled(word, "LEA") {
        Some(Operation::LoadEffectiveAddress)
    } else if spelled(word, "NOT") {
        Some(Operation::Not)
    } else if spelled(word, "RET") {
        Some(Operation::Return)
    } else if spelled(word, "RTI") {
        Some(Operation::ReturnInterrupt)
    } else if spelled(word, "ST") {
        Some(Operation::Store)
    } else if spelled(word, "STI") {
        Some(Operation::StoreIndirect)
    } else if spelled(word, "STR") {
        Some(Operation::StoreRegister)
    } else if spelled(word, "TRAP") {
        Some(Operation::Trap(None))
    } else if spelled(word, "GETC") {
        Some(Operation::Trap(Some(0x20)))
    } else if spelled(word, "OUT") {
        Some(Operation::Trap(Some(0x21)))
    } else if spelled(word, "PUTS") {
        Some(Operation::Trap(Some(0x22)))
    } else if spelled(word, "IN") {
        Some(Operation::Trap(Some(0x23)))
    } else if spelled(word, "PUTSP") {
        Some(Operation::Trap(Some(0x24)))
    } else if spelled(word, "HALT") {
        Some(Operation::Trap(Some(0x25)))
    } else {
        None
    }
}

/// The directive that `word` names, leading dot included, if it names one.
pub open spec fn directive_named(word: Seq<u8>) -> Option<PseudoOperation> {
    if spelled(word, ".ORIG") {
        Some(PseudoOperation::Orig)
    } else if spelled(word, ".FILL") {
        Some(PseudoOperation::Fill)
    } else if spelled(word, ".STRINGZ") {
        Some(PseudoOperation::Stringz)
    } else if spelled(word, ".BLKW") {
        Some(PseudoOperation::Blkw)
    } else if spelled(word, ".END") {
        Some(PseudoOperation::End)
    } else if spelled(word, ".STRINGZP") {
        Some(PseudoOperation::Stringzp)
    } else {
        None
    }
}

/// The upper-case form of an ASCII letter; any other byte is left as it is.
pub fn to_upper(byte: u8) -> (result: u8)
    ensures
        result == upper(byte),
{
    if 'a' as u8 <= byte && byte <= 'z' as u8 {
        byte - 32
    } else {
        byte
    }
}

/// Tells whether `word`, read without regard to case, is the text `keyword`.
pub fn is_spelled(word: &[u8], keyword: &str) -> (result: bool)
    ensures
        result == spelled(word@, keyword),
{
    if !keyword.is_ascii() {
        return false;
    }
    let letters = keyword.as_bytes();
    proof {
        is_ascii_spec_bytes(keyword);
    }
    if letters.len() != word.len() {
        return false;
    }
    let mut i: usize = 0;
    while i < word.len()
        invariant
            i <= word.len(),
            letters.len() == word.len(),
            letters@.len() == keyword@.len(),
            forall|j: int| 0 <= j < letters@.len() ==> letters@[j] == keyword@[j] as u8,
            forall|j: int| 0 <= j < i ==> upper(#[trigger] word@[j]) == keyword@[j] as u8,
        decreases word.len() - i,
    {
        if to_upper(word[i]) != letters[i] {
            return false;
        }
        i += 1;
    }
    true
}

impl Operation {
    /// The operation that the bytes of `word` name, if they are a mnemonic.
    pub fn from_word(word: &[u8]) -> (result: Option<Operation>)
        ensures
            result == operation_named(word@),
    {
        if is_spelled(word, "ADD") {
            Some(Operation::Add)
        } else if is_spelled(word, "AND") {
            Some(Operation::And)
        } else if is_spelled(word, "BRN") || is_spelled(word, "BRLT") {
            Some(Operation::Branch(true, false, false))
        } else if is_spelled(word, "BRZ") || is_spelled(word, "BREQ") {
            Some(Operation::Branch(false, true, false))
        } else if is_spelled(word, "BRP") || is_spelled(word, "BRGT") {
            Some(Operation::Branch(false, false, true))
        } else if is_spelled(word, "BRNZ") || is_spelled(word, "BRLE") {
            Some(Operation::Branch(true, true, false))
        } else if is_spelled(word, "BRNP") || is_spelled(word, "BRNE") {
            Some(Operation::Branch(true, false, true))
        } else if is_spelled(word, "BRZP") || is_spelled(word, "BRGE") {
            Some(Operation::Branch(false, true, true))
        } else if is_spelled(word, "BRNZP") || is_spelled(word, "BR") {
            Some(Operation::Branch(true, true, true))
        } else if is_spelled(word, "BRNOP") || is_spelled(word, "NOP") {
            Some(Operation::Branch(false, false, false))
        } else if is_spelled(word, "JSR") {
            Some(Operation::Jump(true))
        } else if is_spelled(word, "JMP") {
            Some(Operation::Jump(false))
        } else if is_spelled(word, "JSRR") {
            Some(Operation::JumpRegister(true))
        } else if is_spelled(word, "JMPR") {
            Some(Operation::JumpRegister(false))
        } else if is_spelled(word, "LD") {
            Some(Operation::Load)
        } else if is_spelled(word, "LDI") {
            Some(Operation::LoadIndirect)
        } else if is_spelled(word, "LDR") {
            Some(Operation::LoadRegister)
        } else if is_spelled(word, "LEA") {
            Some(Operation::LoadEffectiveAddress)
        } else if is_spelled(word, "NOT") {
            Some(Operation::Not)
        } else if is_spelled(word, "RET") {
            Some(Operation::Return)
        } else if is_spelled(word, "RTI") {
            Some(Operation::ReturnInterrupt)
        } else if is_spelled(word, "ST") {
            Some(Operation::Store)
        } else if is_spelled(word, "STI") {
            Some(Operation::StoreIndirect)
        } else if is_spelled(word, "STR") {
            Some(Operation::StoreRegister)
        } else if is_spelled(word, "TRAP") {
            Some(Operation::Trap(None))
        } else if is_spelled(word, "GETC") {
            Some(Operation::Trap(Some(0x20)))
        } else if is_spelled(word, "OUT") {
            Some(Operation::Trap(Some(0x21)))
        } else if is_spelled(word, "PUTS") {
            Some(Operation::Trap(Some(0x22)))
        } else if is_spelled(word, "IN") {
            Some(Operation::Trap(Some(0x23)))
        } else if is_spelled(word, "PUTSP") {
            Some(Operation::Trap(Some(0x24)))
        } else if is_spelled(word, "HALT") {
            Some(Operation::Trap(Some(0x25)))
        } else {
            None
        }
    }

    /// The operation that `token` names, in either case of its letters.
    ///
    /// Fails with `NonValidToken` exactly when `token` is no mnemonic.
    pub fn try_from(token: &str) -> (result: Result<Operation, ParseError>)
        ensures
            result == match operation_named(token.spec_bytes()) {
                Some(operation) => Ok::<Operation, ParseError>(operation),
                None => Err(ParseError::NonValidToken),
            },
    {
        match Operation::from_word(token.as_bytes()) {
            Some(operation) => Ok(operation),
            None => Err(ParseError::NonValidToken),
        }
    }
}

impl PseudoOperation {
    /// The directive that the bytes of `word` name, if they name one.
    pub fn from_word(word: &[u8]) -> (result: Option<PseudoOperation>)
        ensures
            result == directive_named(word@),
    {
        if is_spelled(word, ".ORIG") {
            Some(PseudoOperation::Orig)
        } else if is_spelled(word, ".FILL") {
            Some(PseudoOperation::Fill)
        } else if is_spelled(word, ".STRINGZ") {
            Some(PseudoOperation::Stringz)
        } else if is_spelled(word, ".BLKW") {
            Some(PseudoOperation::Blkw)
        } else if is_spelled(word, ".END") {
            Some(PseudoOperation::End)
        } else if is_spelled(word, ".STRINGZP") {
            Some(PseudoOperation::Stringzp)
        } else {
            None
        }
    }

    /// The directive that `token` names, in either case of its letters.
    ///
    /// Fails with `NonValidToken` exactly when `token` is no directive.
    pub fn try_from(token: &str) -> (result: Result<PseudoOperation, ParseError>)
        ensures
            result == match directive_named(token.spec_bytes()) {
                Some(directive) => Ok::<PseudoOperation, ParseError>(directive),
                None => Err(ParseError::NonValidToken),
            },
    {
        match PseudoOperation::from_word(token.as_bytes()) {
            Some(directive) => Ok(directive),
            None => Err(ParseError::NonValidToken),
        }
    }
}

} // verus!
