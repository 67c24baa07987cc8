//! The steps that take whole instructions and directives from a stream of
//! tokens, and give the words that they stand for.
use crate::error::ParseError;
use crate::lc2::parser::token_helpers::{
    spec_get_index6,
    spec_get_pgoffset9,
    spec_get_register,
    spec_get_register_skip_comma,
    spec_next_token,
    spec_next_token_skip,
    spec_peek_next_token,
    symbols_of,
    ParseResult,
    Step,
    TokenHelpers,
    TokenStream,
};
use crate::symbols::SymbolTable;
use crate::lc2::token::{Lexeme, Operation, PseudoOperation, Token};
use vstd::prelude::*;

verus! {

/// A result that holds words, with the words as a sequence.
pub open spec fn viewed_words(result: ParseResult<Vec<u16>>) -> ParseResult<Seq<u16>> {
    match result {
        Ok(words) => Ok(words@),
        Err(error) => Err(error),
    }
}

/// Passing over the token at `pos` where it is `skip`. At the end of the
/// stream there is nothing to pass over, which is in order; an item that is
/// no token is an error.
pub open spec fn spec_skip_token(items: Seq<Option<Lexeme>>, pos: int, skip: Lexeme) -> Step<()> {
    match spec_peek_next_token(items, pos) {
        Ok(lexeme) => Step { outcome: Ok(()), next: if lexeme == skip { pos + 1 } else { pos } },
        Err(ParseError::NoMoreTokens) => Step { outcome: Ok(()), next: pos },
        Err(error) => Step { outcome: Err(error), next: pos },
    }
}

/// The value of `token`, which must be a number.
pub open spec fn number_of(token: Step<Lexeme>) -> Step<u16> {
    match token.outcome {
        Ok(Lexeme::Number(value)) => Step { outcome: Ok(value), next: token.next },
        Ok(_) => Step { outcome: Err(ParseError::UnexpectedToken), next: token.next },
        Err(error) => Step { outcome: Err(error), next: token.next },
    }
}

/// The text of `token`, which must be a string.
pub open spec fn string_of(token: Step<Lexeme>) -> Step<Seq<u8>> {
    match token.outcome {
        Ok(Lexeme::String(text)) => Step { outcome: Ok(text), next: token.next },
        Ok(_) => Step { outcome: Err(ParseError::UnexpectedToken), next: token.next },
        Err(error) => Step { outcome: Err(error), next: token.next },
    }
}

/// The same step with its value changed to `words`.
pub open spec fn giving<T>(step: Step<T>, words: Seq<u16>) -> Step<Seq<u16>> {
    match step.outcome {
        Ok(_) => Step { outcome: Ok(words), next: step.next },
        Err(error) => Step { outcome: Err(error), next: step.next },
    }
}

/// `count` copies of `word`.
pub open spec fn repeated(word: u16, count: int) -> Seq<u16> {
    Seq::new(count as nat, |i: int| word)
}

/// A string for `.stringz`: one word for each byte, and a zero word to end it.
pub open spec fn string_words(text: Seq<u8>) -> Seq<u16> {
    Seq::new(text.len() + 1, |i: int| if i < text.len() { text[i] as u16 } else { 0u16 })
}

/// The byte at `i` of `text` with a zero byte put after it; zero beyond that.
pub open spec fn terminated_byte(text: Seq<u8>, i: int) -> int {
    if 0 <= i < text.len() {
        text[i] as int
    } else {
        0
    }
}

/// A string for `.stringzp`: the text and a zero byte to end it, two bytes to
/// the word, the earlier one in the low half. Where one byte is left over,
/// the high half of the last word is zero.
pub open spec fn packed_words(text: Seq<u8>) -> Seq<u16> {
    Seq::new(
        (text.len() + 2) / 2,
        |i: int| (terminated_byte(text, 2 * i) + 256 * terminated_byte(text, 2 * i + 1)) as u16,
    )
}

/// The words of `.blkw`, whose count stands at `pos`: the count, then the
/// word to repeat, with or without a comma before it; without a word, zero.
pub open spec fn spec_parse_block(items: Seq<Option<Lexeme>>, pos: int) -> Step<Seq<u16>> {
    let count = number_of(spec_next_token(items, pos));
    match count.outcome {
        Ok(times) => match spec_peek_next_token(items, count.next) {
            Ok(Lexeme::Number(word)) => Step {
                outcome: Ok(repeated(word, times as int)),
                next: count.next + 1,
            },
            Ok(Lexeme::Comma) => {
                let word = number_of(spec_next_token(items, count.next + 1));
                match word.outcome {
                    Ok(value) => giving(word, repeated(value, times as int)),
                    Err(error) => Step { outcome: Err(error), next: word.next },
                }
            },
            _ => Step { outcome: Ok(repeated(0, times as int)), next: count.next },
        },
        Err(error) => Step { outcome: Err(error), next: count.next },
    }
}

/// The words of a directive whose operands start at `pos`.
pub open spec fn spec_parse_pseudo_operation(
    items: Seq<Option<Lexeme>>,
    pos: int,
    pseudo_operation: PseudoOperation,
) -> Step<Seq<u16>> {
    match pseudo_operation {
        PseudoOperation::Orig | PseudoOperation::Fill => {
            let number = number_of(spec_next_token(items, pos));
            match number.outcome {
                Ok(value) => giving(number, seq![value]),
                Err(error) => Step { outcome: Err(error), next: number.next },
            }
        },
        PseudoOperation::Stringz => {
            let string = string_of(spec_next_token(items, pos));
            match string.outcome {
                Ok(text) => giving(string, string_words(text)),
                Err(error) => Step { outcome: Err(error), next: string.next },
            }
        },
        PseudoOperation::Blkw => spec_parse_block(items, pos),
        PseudoOperation::End => Step { outcome: Ok(Seq::<u16>::empty()), next: pos },
        PseudoOperation::Stringzp => {
            let string = string_of(spec_next_token(items, pos));
            match string.outcome {
                Ok(text) => giving(string, packed_words(text)),
                Err(error) => Step { outcome: Err(error), next: string.next },
            }
        },
    }
}

/// The place of the first `.orig` at or after `pos`, or the length of the
/// stream if there is none.
pub open spec fn first_orig(items: Seq<Option<Lexeme>>, pos: int) -> int
    decreases items.len() - pos,
{
    if pos < 0 || pos >= items.len() {
        items.len() as int
    } else if items[pos] == Some(Lexeme::PseudoOperation(PseudoOperation::Orig)) {
        pos
    } else {
        first_orig(items, pos + 1)
    }
}

/// Finding the address at which the program starts, from `pos` on.
///
/// Comments are passed over. An `.orig` gives the address. Any other token
/// stays where it is, and so does the end of the stream: the address is 0, if
/// a program may start without `.orig`; if it may not, the stream is searched
/// for a later `.orig`, up to and with the first one found, to tell
/// `OrigNotFirst` from `NoOrig`. An item that is no token is an error.
pub open spec fn spec_parse_start_address(
    items: Seq<Option<Lexeme>>,
    pos: int,
    orig_optional: bool,
) -> Step<u16>
    decreases items.len() - pos,
{
    match spec_peek_next_token(items, pos) {
        Ok(Lexeme::Comment(_)) => spec_parse_start_address(items, pos + 1, orig_optional),
        Ok(Lexeme::PseudoOperation(PseudoOperation::Orig)) => number_of(
            spec_next_token(items, pos + 1),
        ),
        Err(ParseError::NonValidToken) => Step {
            outcome: Err(ParseError::NonValidToken),
            next: pos,
        },
        _ => {
            if orig_optional {
                Step { outcome: Ok(0u16), next: pos }
            } else if first_orig(items, pos) < items.len() {
                Step { outcome: Err(ParseError::OrigNotFirst), next: first_orig(items, pos) + 1 }
            } else {
                Step { outcome: Err(ParseError::NoOrig), next: items.len() as int }
            }
        },
    }
}

/// The bits of an instruction that its operation fixes: the opcode in the top
/// four bits and, below it, the flags that the mnemonic carries.
pub open spec fn operation_bits(operation: Operation) -> int {
    match operation {
        Operation::Add => 0x1000,
        Operation::And => 0x5000,
        Operation::Branch(n, z, p) => (if n { 0x0800int } else { 0 }) + (if z { 0x0400int } else { 0 })
            + (if p { 0x0200int } else { 0 }),
        Operation::Jump(link) => 0x4000 + (if link { 0x0800int } else { 0 }),
        Operation::JumpRegister(link) => 0xc000 + (if link { 0x0800int } else { 0 }),
        Operation::Load => 0x2000,
        Operation::LoadIndirect => 0xa000,
        Operation::LoadRegister => 0x6000,
        Operation::LoadEffectiveAddress => 0xe000,
        Operation::Not => 0x9000,
        Operation::Return => 0xd000,
        Operation::ReturnInterrupt => 0x8000,
        Operation::Store => 0x3000,
        Operation::StoreIndirect => 0xb000,
        Operation::StoreRegister => 0x7000,
        Operation::Trap(_) => 0xf000,
    }
}

/// Two fields taken one after the other, the first shifted left by `shift`:
/// `scale` is two to the `shift`. The first failure is the failure of both.
pub open spec fn joined(first: Step<u16>, scale: int, second: Step<u16>) -> Step<u16> {
    match first.outcome {
        Ok(high) => match second.outcome {
            Ok(low) => Step { outcome: Ok((high * scale + low) as u16), next: second.next },
            Err(error) => Step { outcome: Err(error), next: second.next },
        },
        Err(error) => Step { outcome: Err(error), next: first.next },
    }
}

/// The last operand of `ADD` and `AND`: a register, or a number from -16 to
/// 15, which gives its low five bits under a bit that marks it as a number.
pub open spec fn spec_second_source(items: Seq<Option<Lexeme>>, pos: int) -> Step<u16> {
    let token = spec_next_token_skip(items, pos, Lexeme::Comma);
    match token.outcome {
        Ok(Lexeme::Register(number)) => Step { outcome: Ok((number % 8) as u16), next: token.next },
        Ok(Lexeme::Number(number)) => Step {
            outcome: if 16 <= number < 0xfff0 {
                Err(ParseError::NumberLiteralTooBig)
            } else {
                Ok((32 + number % 32) as u16)
            },
            next: token.next,
        },
        Ok(_) => Step { outcome: Err(ParseError::UnexpectedToken), next: token.next },
        Err(error) => Step { outcome: Err(error), next: token.next },
    }
}

/// The vector of a bare `TRAP`: a number of at most eight bits.
pub open spec fn spec_trap_vector(items: Seq<Option<Lexeme>>, pos: int) -> Step<u16> {
    let token = spec_next_token(items, pos);
    match token.outcome {
        Ok(Lexeme::Number(number)) => Step {
            outcome: if number > 255 {
                Err(ParseError::NumberLiteralTooBig)
            } else {
                Ok(number)
            },
            next: token.next,
        },
        Ok(_) => Step { outcome: Err(ParseError::UnexpectedToken), next: token.next },
        Err(error) => Step { outcome: Err(error), next: token.next },
    }
}

/// The bits of an instruction that its operands give, taken from `pos` on.
pub open spec fn spec_operands(
    items: Seq<Option<Lexeme>>,
    pos: int,
    operation: Operation,
    symbols: Option<(Map<Seq<u8>, u16>, u16)>,
) -> Step<u16> {
    match operation {
        Operation::Add | Operation::And => {
            let dest = spec_get_register(items, pos);
            let source = spec_get_register_skip_comma(items, dest.next);
            let registers = joined(dest, 8, source);
            joined(registers, 64, spec_second_source(items, registers.next))
        },
        Operation::Branch(_, _, _) | Operation::Jump(_) => spec_get_pgoffset9(
            items,
            pos,
            symbols,
            false,
        ),
        Operation::JumpRegister(_) => {
            let base = spec_get_register(items, pos);
            joined(base, 64, spec_get_index6(items, base.next))
        },
        Operation::Load
        | Operation::LoadIndirect
        | Operation::LoadEffectiveAddress
        | Operation::Store
        | Operation::StoreIndirect => {
            let register = spec_get_register(items, pos);
            joined(register, 512, spec_get_pgoffset9(items, register.next, symbols, true))
        },
        Operation::LoadRegister | Operation::StoreRegister => {
            let register = spec_get_register(items, pos);
            let base = spec_get_register_skip_comma(items, register.next);
            let registers = joined(register, 8, base);
            joined(registers, 64, spec_get_index6(items, registers.next))
        },
        Operation::Not => {
            let dest = spec_get_register(items, pos);
            let source = spec_get_register_skip_comma(items, dest.next);
            joined(joined(dest, 8, source), 64, Step { outcome: Ok(63u16), next: source.next })
        },
        Operation::Return | Operation::ReturnInterrupt => Step { outcome: Ok(0u16), next: pos },
        Operation::Trap(Some(vector)) => Step { outcome: Ok(vector as u16), next: pos },
        Operation::Trap(None) => spec_trap_vector(items, pos),
    }
}

/// The word of an instruction whose operands start at `pos`: the bits of the
/// operation and the bits of the operands, which never overlap.
pub open spec fn spec_parse_operation(
    items: Seq<Option<Lexeme>>,
    pos: int,
    operation: Operation,
    symbols: Option<(Map<Seq<u8>, u16>, u16)>,
) -> Step<Seq<u16>> {
    let operands = spec_operands(items, pos, operation, symbols);
    match operands.outcome {
        Ok(bits) => giving(operands, seq![(operation_bits(operation) + bits) as u16]),
        Err(error) => Step { outcome: Err(error), next: operands.next },
    }
}

/// A directive moves the stream forwards, and not beyond its end.
pub proof fn lemma_pseudo_operation_advances(
    items: Seq<Option<Lexeme>>,
    pos: int,
    pseudo_operation: PseudoOperation,
)
    requires
        0 <= pos <= items.len(),
    ensures
        pos <= spec_parse_pseudo_operation(items, pos, pseudo_operation).next <= items.len(),
{
}

/// An instruction moves the stream forwards, and not beyond its end.
pub proof fn lemma_operation_advances(
    items: Seq<Option<Lexeme>>,
    pos: int,
    operation: Operation,
    symbols: Option<(Map<Seq<u8>, u16>, u16)>,
)
    requires
        0 <= pos <= items.len(),
    ensures
        pos <= spec_parse_operation(items, pos, operation, symbols).next <= items.len(),
{
}

/// `count` copies of `word`.
pub fn repeat_word(word: u16, count: u16) -> (words: Vec<u16>)
    ensures
        words@ == repeated(word, count as int),
{
    let mut words: Vec<u16> = Vec::new();
    let mut i: u16 = 0;
    while i < count
        invariant
            i <= count,
            words@ == repeated(word, i as int),
        decreases count - i,
    {
        words.push(word);
        i += 1;
        assert(words@ =~= repeated(word, i as int));
    }
    words
}

/// One word for each byte of `text`, and a zero word to end it.
pub fn words_of_string(text: &[u8]) -> (words: Vec<u16>)
    ensures
        words@ == string_words(text@),
{
    let mut words: Vec<u16> = Vec::new();
    let mut i: usize = 0;
    while i < text.len()
        invariant
            i <= text.len(),
            words@.len() == i,
            forall|j: int| 0 <= j < i ==> words@[j] == text@[j] as u16,
        decreases text.len() - i,
    {
        words.push(text[i] as u16);
        i += 1;
    }
    words.push(0);
    assert(words@ =~= string_words(text@));
    words
}

/// The bytes of `text` and a zero byte to end it, two bytes to the word, the
/// earlier one in the low half.
pub fn packed_words_of_string(text: &[u8]) -> (words: Vec<u16>)
    ensures
        words@ == packed_words(text@),
{
    let mut words: Vec<u16> = Vec::new();
    let mut i: usize = 0;
    while text.len() - i >= 2
        invariant
            i <= text.len(),
            i % 2 == 0,
            words@.len() == i / 2,
            forall|j: int| 0 <= j < words@.len() ==> words@[j] == packed_words(text@)[j],
        decreases text.len() - i,
    {
        let low: u16 = text[i] as u16;
        let high: u16 = text[i + 1] as u16;
        words.push(low + 256 * high);
        i += 2;
    }
    if i < text.len() {
        words.push(text[i] as u16);
    } else {
        words.push(0);
    }
    assert(words@ =~= packed_words(text@));
    words
}

/// The steps that take whole statements from a stream.
pub trait TokenOperations {
    /// An address of the machine.
    type Address;

    /// A word of the machine's memory.
    type Data;

    /// Passes over the next token where it is `skip`.
    fn skip_token(&mut self, skip: Token) -> ParseResult<()>;

    /// Finds the address at which the program starts.
    fn parse_start_address(&mut self, orig_optional: bool) -> ParseResult<u16>;

    /// Takes the operands of a directive and gives its words.
    fn parse_pseudo_operation(&mut self, pseudo_operation: PseudoOperation) -> ParseResult<
        Vec<Self::Data>,
    >;

    /// Takes the operands of an instruction and gives its word.
    fn parse_operation(
        &mut self,
        operation: Operation,
        symbol_table: Option<(&SymbolTable<u16>, Self::Address)>,
    ) -> ParseResult<Vec<Self::Data>>;
}

impl TokenStream {
    /// Takes tokens up to and with the first `.orig`, or all of them if there
    /// is none, and says what is wrong with a program that did not start with
    /// `.orig`.
    fn find_orig(&mut self) -> (error: ParseError)
        ensures
            first_orig(old(self).items(), old(self).position()) < old(self).items().len() ==> error
                == ParseError::OrigNotFirst && final(self).moved(
                old(self),
                first_orig(old(self).items(), old(self).position()) + 1,
            ),
            first_orig(old(self).items(), old(self).position()) >= old(self).items().len() ==> error
                == ParseError::NoOrig && final(self).moved(
                old(self),
                old(self).items().len() as int,
            ),
    {
        proof {
            use_type_invariant(&*self);
        }
        loop
            invariant
                self.moved(old(self), self.position()),
                first_orig(self.items(), self.position()) == first_orig(
                    old(self).items(),
                    old(self).position(),
                ),
            decreases self.items().len() - self.position(),
        {
            proof {
                self.lemma_position_in_range();
            }
            match self.next_token() {
                Ok(Token::PseudoOperation(PseudoOperation::Orig)) => {
                    return ParseError::OrigNotFirst;
                },
                Err(ParseError::NoMoreTokens) => {
                    return ParseError::NoOrig;
                },
                _ => {},
            }
        }
    }

    /// Takes the operands of `.blkw` and gives its words.
    fn parse_block(&mut self) -> (result: ParseResult<Vec<u16>>)
        ensures
            viewed_words(result) == spec_parse_block(old(self).items(), old(self).position()).outcome,
            final(self).moved(
                old(self),
                spec_parse_block(old(self).items(), old(self).position()).next,
            ),
    {
        proof {
            use_type_invariant(&*self);
        }
        let times = match self.next_token()? {
            Token::Number(times) => times,
            _ => {
                return Err(ParseError::UnexpectedToken);
            },
        };
        let mut word: u16 = 0;
        let mut number = false;
        let mut comma = false;
        match self.peek_next_token() {
            Ok(Token::Number(value)) => {
                word = *value;
                number = true;
            },
            Ok(Token::Comma) => {
                comma = true;
            },
            _ => {},
        }
        if number {
            let _ = self.next_token();
        } else if comma {
            let _ = self.next_token();
            match self.next_token()? {
                Token::Number(value) => {
                    word = value;
                },
                _ => {
                    return Err(ParseError::UnexpectedToken);
                },
            }
        }
        Ok(repeat_word(word, times))
    }

    /// Takes the last operand of `ADD` and `AND`.
    fn second_source(&mut self) -> (result: ParseResult<u16>)
        ensures
            result == spec_second_source(old(self).items(), old(self).position()).outcome,
            final(self).moved(
                old(self),
                spec_second_source(old(self).items(), old(self).position()).next,
            ),
    {
        proof {
            use_type_invariant(&*self);
        }
        match self.next_token_skip(Token::Comma)? {
            Token::Register(number) => Ok((number % 8) as u16),
            Token::Number(number) => {
                if 16 <= number && number < 0xfff0 {
                    Err(ParseError::NumberLiteralTooBig)
                } else {
                    Ok(32 + number % 32)
                }
            },
            _ => Err(ParseError::UnexpectedToken),
        }
    }

    /// Takes the vector of a bare `TRAP`.
    fn trap_vector(&mut self) -> (result: ParseResult<u16>)
        ensures
            result == spec_trap_vector(old(self).items(), old(self).position()).outcome,
            final(self).moved(
                old(self),
                spec_trap_vector(old(self).items(), old(self).position()).next,
            ),
    {
        proof {
            use_type_invariant(&*self);
        }
        match self.next_token()? {
            Token::Number(number) => {
                if number > 255 {
                    Err(ParseError::NumberLiteralTooBig)
                } else {
                    Ok(number)
                }
            },
            _ => Err(ParseError::UnexpectedToken),
        }
    }

    /// Takes the operands of an instruction and gives the bits that they put
    /// in its word.
    fn operands(&mut self, operation: Operation, symbol_table: Option<(&SymbolTable<u16>, u16)>)
        -> (result: ParseResult<u16>)
        ensures
            result == spec_operands(
                old(self).items(),
                old(self).position(),
                operation,
                symbols_of(symbol_table),
            ).outcome,
            final(self).moved(
                old(self),
                spec_operands(
                    old(self).items(),
                    old(self).position(),
                    operation,
                    symbols_of(symbol_table),
                ).next,
            ),
            result matches Ok(bits) ==> operation_bits(operation) + bits <= 0xffff,
    {
        proof {
            use_type_invariant(&*self);
        }
        match operation {
            Operation::Add | Operation::And => {
                let dest = self.get_register()?;
                let source = self.get_register_skip_comma()?;
                let second = self.second_source()?;
                Ok((dest * 8 + source) * 64 + second)
            },
            Operation::Branch(_, _, _) | Operation::Jump(_) => self.get_pgoffset9(
                symbol_table,
                false,
            ),
            Operation::JumpRegister(_) => {
                let base = self.get_register()?;
                let index = self.get_index6()?;
                Ok(base * 64 + index)
            },
            Operation::Load
            | Operation::LoadIndirect
            | Operation::LoadEffectiveAddress
            | Operation::Store
            | Operation::StoreIndirect => {
                let register = self.get_register()?;
                let offset = self.get_pgoffset9(symbol_table, true)?;
                Ok(register * 512 + offset)
            },
            Operation::LoadRegister | Operation::StoreRegister => {
                let register = self.get_register()?;
                let base = self.get_register_skip_comma()?;
                let index = self.get_index6()?;
                Ok((register * 8 + base) * 64 + index)
            },
            Operation::Not => {
                let dest = self.get_register()?;
                let source = self.get_register_skip_comma()?;
                Ok((dest * 8 + source) * 64 + 63)
            },
            Operation::Return | Operation::ReturnInterrupt => Ok(0),
            Operation::Trap(Some(vector)) => Ok(vector as u16),
            Operation::Trap(None) => self.trap_vector(),
        }
    }
}

impl TokenOperations for TokenStream {
    type Address = u16;

    type Data = u16;

    /// Passes over the next token where it is `skip`.
    ///
    /// Fails with `NonValidToken` where the text held no token at this
    /// place; at the end of the stream there is nothing to pass over.
    fn skip_token(&mut self, skip: Token) -> (result: ParseResult<()>)
        ensures
            result == spec_skip_token(old(self).items(), old(self).position(), skip@).outcome,
            final(self).moved(
                old(self),
                spec_skip_token(old(self).items(), old(self).position(), skip@).next,
            ),
    {
        proof {
            use_type_invariant(&*self);
        }
        let found = match self.peek_next_token() {
            Ok(token) => *token == skip,
            Err(ParseError::NoMoreTokens) => false,
            Err(error) => {
                return Err(error);
            },
        };
        if found {
            let _ = self.next_token();
        }
        Ok(())
    }

    /// Finds the address at which the program starts: that of the `.orig`
    /// which is its first token after comments.
    ///
    /// With `orig_optional` a program that starts with another token, or
    /// that holds no token but comments, starts at 0. Without it such a
    /// program fails with `OrigNotFirst` if an `.orig` follows somewhere,
    /// else with `NoOrig`.
    fn parse_start_address(&mut self, orig_optional: bool) -> (result: ParseResult<u16>)
        ensures
            result == spec_parse_start_address(
                old(self).items(),
                old(self).position(),
                orig_optional,
            ).outcome,
            final(self).moved(
                old(self),
                spec_parse_start_address(
                    old(self).items(),
                    old(self).position(),
                    orig_optional,
                ).next,
            ),
    {
        proof {
            use_type_invariant(&*self);
        }
        loop
            invariant
                self.moved(old(self), self.position()),
                spec_parse_start_address(self.items(), self.position(), orig_optional)
                    == spec_parse_start_address(
                    old(self).items(),
                    old(self).position(),
                    orig_optional,
                ),
            decreases self.items().len() - self.position(),
        {
            proof {
                self.lemma_position_in_range();
            }
            let mut comment = false;
            let mut orig = false;
            match self.peek_next_token() {
                Ok(Token::Comment(_)) => {
                    comment = true;
                },
                Ok(Token::PseudoOperation(PseudoOperation::Orig)) => {
                    orig = true;
                },
                Err(ParseError::NonValidToken) => {
                    return Err(ParseError::NonValidToken);
                },
                _ => {},
            }
            if comment {
                let _ = self.next_token();
            } else if orig {
                let _ = self.next_token();
                let words = self.parse_pseudo_operation(PseudoOperation::Orig)?;
                return Ok(words[0]);
            } else if orig_optional {
                return Ok(0);
            } else {
                return Err(self.find_orig());
            }
        }
    }

    /// Takes the operands of a directive and gives the words that the
    /// directive puts in memory.
    ///
    /// `.orig` and `.fill` give their number; `.stringz` one word for each
    /// byte of its string and a zero word; `.stringzp` its string and a zero
    /// byte, two bytes to the word; `.blkw` as many copies as its first
    /// number says of its second, or of zero; `.end` nothing.
    fn parse_pseudo_operation(&mut self, pseudo_operation: PseudoOperation) -> (result:
        ParseResult<Vec<u16>>)
        ensures
            viewed_words(result) == spec_parse_pseudo_operation(
                old(self).items(),
                old(self).position(),
                pseudo_operation,
            ).outcome,
            final(self).moved(
                old(self),
                spec_parse_pseudo_operation(
                    old(self).items(),
                    old(self).position(),
                    pseudo_operation,
                ).next,
            ),
    {
        proof {
            use_type_invariant(&*self);
        }
        match pseudo_operation {
            PseudoOperation::Orig | PseudoOperation::Fill => {
                match self.next_token()? {
                    Token::Number(value) => {
                        let mut words: Vec<u16> = Vec::new();
                        words.push(value);
                        assert(words@ =~= seq![value]);
                        Ok(words)
                    },
                    _ => Err(ParseError::UnexpectedToken),
                }
            },
            PseudoOperation::Stringz => {
                match self.next_token()? {
                    Token::String(text) => Ok(words_of_string(text.as_slice())),
                    _ => Err(ParseError::UnexpectedToken),
                }
            },
            PseudoOperation::Blkw => self.parse_block(),
            PseudoOperation::End => Ok(Vec::new()),
            PseudoOperation::Stringzp => {
                match self.next_token()? {
                    Token::String(text) => Ok(packed_words_of_string(text.as_slice())),
                    _ => Err(ParseError::UnexpectedToken),
                }
            },
        }
    }

    /// Takes the operands of an instruction and gives its word.
    ///
    /// With a symbol table, and the address of the instruction, a label that
    /// stands for a page offset is looked up; without one it counts as 0, so
    /// that the operands can be checked before the labels are known.
    fn parse_operation(
        &mut self,
        operation: Operation,
        symbol_table: Option<(&SymbolTable<u16>, u16)>,
    ) -> (result: ParseResult<Vec<u16>>)
        ensures
            viewed_words(result) == spec_parse_operation(
                old(self).items(),
                old(self).position(),
                operation,
                symbols_of(symbol_table),
            ).outcome,
            final(self).moved(
                old(self),
                spec_parse_operation(
                    old(self).items(),
                    old(self).position(),
                    operation,
                    symbols_of(symbol_table),
                ).next,
            ),
    {
        proof {
            use_type_invariant(&*self);
        }
        let bits = self.operands(operation, symbol_table)?;
        let fixed: u16 = match operation {
            Operation::Add => 0x1000,
            Operation::And => 0x5000,
            Operation::Branch(n, z, p) => (if n { 0x0800u16 } else { 0 }) + (if z { 0x0400u16 } else { 0 })
                + (if p { 0x0200u16 } else { 0 }),
            Operation::Jump(link) => 0x4000 + (if link { 0x0800u16 } else { 0 }),
            Operation::JumpRegister(link) => 0xc000 + (if link { 0x0800u16 } else { 0 }),
            Operation::Load => 0x2000,
            Operation::LoadIndirect => 0xa000,
            Operation::LoadRegister => 0x6000,
            Operation::LoadEffectiveAddress => 0xe000,
            Operation::Not => 0x9000,
            Operation::Return => 0xd000,
            Operation::ReturnInterrupt => 0x8000,
            Operation::Store => 0x3000,
            Operation::StoreIndirect => 0xb000,
            Operation::StoreRegister => 0x7000,
            Operation::Trap(_) => 0xf000,
        };
        let mut words: Vec<u16> = Vec::new();
        words.push(fixed + bits);
        assert(words@ =~= seq![(operation_bits(operation) + bits) as u16]);
        Ok(words)
    }
}

} // verus!
