//! A stream of tokens, and the steps that take single operands from it.
use crate::error::ParseError;
use crate::symbols::SymbolTable;
use crate::lc2::token::{items_of, Lexeme, Token};
use vstd::prelude::*;

verus! {

pub type ParseResult<T> = Result<T, ParseError>;

/// What one step on a stream comes to: its result, and the place in the
/// stream at which the next step starts.
pub struct Step<T> {
    pub outcome: Result<T, ParseError>,
    pub next: int,
}

/// A result that holds a token, with the token as its lexeme.
pub open spec fn viewed(result: ParseResult<Token>) -> ParseResult<Lexeme> {
    match result {
        Ok(token) => Ok(token@),
        Err(error) => Err(error),
    }
}

/// A result that holds a borrowed token, with the token as its lexeme.
pub open spec fn viewed_ref(result: ParseResult<&Token>) -> ParseResult<Lexeme> {
    match result {
        Ok(token) => Ok(token@),
        Err(error) => Err(error),
    }
}

/// A symbol table and the address of the instruction that is being encoded,
/// with the table as a map.
pub open spec fn symbols_of(symbol_table: Option<(&SymbolTable<u16>, u16)>) -> Option<
    (Map<Seq<u8>, u16>, u16),
> {
    match symbol_table {
        Some((table, address)) => Some((table@, address)),
        None => None,
    }
}

/// The token at `pos`, which stays in the stream.
pub open spec fn spec_peek_next_token(items: Seq<Option<Lexeme>>, pos: int) -> ParseResult<
    Lexeme,
> {
    if pos < 0 || pos >= items.len() {
        Err(ParseError::NoMoreTokens)
    } else {
        match items[pos] {
            Some(lexeme) => Ok(lexeme),
            None => Err(ParseError::NonValidToken),
        }
    }
}

/// Taking the token at `pos`: the stream moves on by one item, unless it is
/// at its end.
pub open spec fn spec_next_token(items: Seq<Option<Lexeme>>, pos: int) -> Step<Lexeme> {
    if pos < 0 || pos >= items.len() {
        Step { outcome: Err(ParseError::NoMoreTokens), next: pos }
    } else {
        Step { outcome: spec_peek_next_token(items, pos), next: pos + 1 }
    }
}

/// Taking the token at `pos`, or the one after it where the first is `skip`.
pub open spec fn spec_next_token_skip(items: Seq<Option<Lexeme>>, pos: int, skip: Lexeme) -> Step<
    Lexeme,
> {
    let first = spec_next_token(items, pos);
    if first.outcome == Ok::<Lexeme, ParseError>(skip) {
        spec_next_token(items, first.next)
    } else {
        first
    }
}

/// The field of an instruction that names the register of `token`.
pub open spec fn register_field(token: Step<Lexeme>) -> Step<u16> {
    match token.outcome {
        Ok(Lexeme::Register(number)) => Step { outcome: Ok((number % 8) as u16), next: token.next },
        Ok(_) => Step { outcome: Err(ParseError::UnexpectedToken), next: token.next },
        Err(error) => Step { outcome: Err(error), next: token.next },
    }
}

/// Taking a register at `pos`.
pub open spec fn spec_get_register(items: Seq<Option<Lexeme>>, pos: int) -> Step<u16> {
    register_field(spec_next_token(items, pos))
}

/// Taking a register at `pos`, after a comma if one stands there.
pub open spec fn spec_get_register_skip_comma(items: Seq<Option<Lexeme>>, pos: int) -> Step<u16> {
    register_field(spec_next_token_skip(items, pos, Lexeme::Comma))
}

/// A number as an unsigned field of `bits` bits: it must not be negative as a
/// 16-bit number in two's complement, and must be below two to the `bits`.
pub open spec fn unsigned_field(number: u16, limit: int) -> ParseResult<u16> {
    if number >= 0x8000 {
        Err(ParseError::NumberLiteralIsNegative)
    } else if number >= limit {
        Err(ParseError::NumberLiteralTooBig)
    } else {
        Ok(number)
    }
}

/// Taking an index of six bits at `pos`, after a comma if one stands there.
pub open spec fn spec_get_index6(items: Seq<Option<Lexeme>>, pos: int) -> Step<u16> {
    let token = spec_next_token_skip(items, pos, Lexeme::Comma);
    match token.outcome {
        Ok(Lexeme::Number(number)) => Step { outcome: unsigned_field(number, 64), next: token.next },
        Ok(_) => Step { outcome: Err(ParseError::UnexpectedToken), next: token.next },
        Err(error) => Step { outcome: Err(error), next: token.next },
    }
}

/// The page offset of the label `name`, seen from the instruction at the
/// address that comes with the table: the label must be declared, and on the
/// page of 512 words that holds the instruction. Without a table the offset
/// is 0.
pub open spec fn label_offset(name: Seq<u8>, symbols: Option<(Map<Seq<u8>, u16>, u16)>)
    -> ParseResult<u16> {
    match symbols {
        None => Ok(0u16),
        Some((table, address)) => {
            if !table.contains_key(name) {
                Err(ParseError::LabelNotDeclared)
            } else if table[name] / 512 != address / 512 {
                Err(ParseError::LabelNotOnSamePage)
            } else {
                Ok((table[name] % 512) as u16)
            }
        },
    }
}

/// Taking a page offset of nine bits at `pos`, a number or a label; with
/// `skip_comma`, after a comma if one stands there.
pub open spec fn spec_get_pgoffset9(
    items: Seq<Option<Lexeme>>,
    pos: int,
    symbols: Option<(Map<Seq<u8>, u16>, u16)>,
    skip_comma: bool,
) -> Step<u16> {
    let token = if skip_comma {
        spec_next_token_skip(items, pos, Lexeme::Comma)
    } else {
        spec_next_token(items, pos)
    };
    match token.outcome {
        Ok(Lexeme::Number(number)) => Step {
            outcome: unsigned_field(number, 512),
            next: token.next,
        },
        Ok(Lexeme::Label(name)) => Step { outcome: label_offset(name, symbols), next: token.next },
        Ok(_) => Step { outcome: Err(ParseError::UnexpectedToken), next: token.next },
        Err(error) => Step { outcome: Err(error), next: token.next },
    }
}

/// The tokens of a text, and a place among them: the tokens before it are
/// taken, the one at it is next.
#[derive(Debug)]
pub struct TokenStream {
    tokens: Vec<Result<Token, ()>>,
    position: usize,
}

impl TokenStream {
    /// What the items of the stream stand for, the taken ones included.
    pub closed spec fn items(&self) -> Seq<Option<Lexeme>> {
        items_of(self.tokens@)
    }

    /// The number of items that are taken.
    pub closed spec fn position(&self) -> int {
        self.position as int
    }

    /// The place is within the stream or at its end.
    #[verifier::type_invariant]
    pub closed spec fn wf(&self) -> bool {
        self.position <= self.tokens@.len()
    }

    /// This stream is `before` with its place moved to `next`.
    pub open spec fn moved(&self, before: &TokenStream, next: int) -> bool {
        &&& self.wf()
        &&& self.items() == before.items()
        &&& self.position() == next
    }

    /// A stream over `tokens`, with none of them taken.
    pub fn new(tokens: Vec<Result<Token, ()>>) -> (stream: TokenStream)
        ensures
            stream.wf(),
            stream.items() == items_of(tokens@),
            stream.position() == 0,
    {
        TokenStream { tokens, position: 0 }
    }

    /// Goes back to the first token.
    pub fn rewind(&mut self)
        ensures
            final(self).moved(old(self), 0),
    {
        self.position = 0;
    }

    /// A well-formed stream has its place between 0 and its length.
    pub proof fn lemma_position_in_range(&self)
        requires
            self.wf(),
        ensures
            0 <= self.position() <= self.items().len(),
    {
    }
}

/// The steps that take single tokens and operands from a stream.
pub trait TokenHelpers {
    /// The next token, which stays in the stream.
    fn peek_next_token(&self) -> ParseResult<&Token>;

    /// Takes the next token.
    fn next_token(&mut self) -> ParseResult<Token>;

    /// Takes the next token, and where that is `skip`, the one after it.
    fn next_token_skip(&mut self, skip: Token) -> ParseResult<Token>;

    /// Takes a register, and gives the three bits that name it.
    fn get_register(&mut self) -> ParseResult<u16>;

    /// Takes a register, after a comma if one stands there.
    fn get_register_skip_comma(&mut self) -> ParseResult<u16>;

    /// Takes an unsigned number of six bits, after a comma if one stands
    /// there.
    fn get_index6(&mut self) -> ParseResult<u16>;

    /// Takes a page offset of nine bits, a number or a label.
    fn get_pgoffset9(
        &mut self,
        symbol_table: Option<(&SymbolTable<u16>, u16)>,
        skip_comma: bool,
    ) -> ParseResult<u16>;
}

impl TokenHelpers for TokenStream {
    /// The next token, which stays in the stream.
    ///
    /// Fails with `NoMoreTokens` at the end of the stream, and with
    /// `NonValidToken` where the text held no token.
    fn peek_next_token(&self) -> (result: ParseResult<&Token>)
        ensures
            viewed_ref(result) == spec_peek_next_token(self.items(), self.position()),
    {
        proof {
            use_type_invariant(&*self);
        }
        if self.position >= self.tokens.len() {
            return Err(ParseError::NoMoreTokens);
        }
        match &self.tokens[self.position] {
            Ok(token) => Ok(token),
            Err(_) => Err(ParseError::NonValidToken),
        }
    }

    /// Takes the next token.
    ///
    /// Fails with `NoMoreTokens` at the end of the stream, and with
    /// `NonValidToken` where the text held no token; that item is taken too.
    fn next_token(&mut self) -> (result: ParseResult<Token>)
        ensures
            viewed(result) == spec_next_token(old(self).items(), old(self).position()).outcome,
            final(self).moved(
                old(self),
                spec_next_token(old(self).items(), old(self).position()).next,
            ),
    {
        proof {
            use_type_invariant(&*self);
        }
        if self.position >= self.tokens.len() {
            return Err(ParseError::NoMoreTokens);
        }
        let result = match &self.tokens[self.position] {
            Ok(token) => Ok(token.clone()),
            Err(_) => Err(ParseError::NonValidToken),
        };
        self.position = self.position + 1;
        result
    }

    /// Takes the next token, and where that is `skip`, the one after it.
    fn next_token_skip(&mut self, skip: Token) -> (result: ParseResult<Token>)
        ensures
            viewed(result) == spec_next_token_skip(
                old(self).items(),
                old(self).position(),
                skip@,
            ).outcome,
            final(self).moved(
                old(self),
                spec_next_token_skip(old(self).items(), old(self).position(), skip@).next,
            ),
    {
        proof {
            use_type_invariant(&*self);
        }
        match self.next_token() {
            Ok(token) => {
                if token == skip {
                    self.next_token()
                } else {
                    Ok(token)
                }
            },
            Err(error) => Err(error),
        }
    }

    /// Takes the next token, which must be a register, and gives the three
    /// bits that name it in an instruction.
    fn get_register(&mut self) -> (result: ParseResult<u16>)
        ensures
            result == spec_get_register(old(self).items(), old(self).position()).outcome,
            final(self).moved(
                old(self),
                spec_get_register(old(self).items(), old(self).position()).next,
            ),
    {
        proof {
            use_type_invariant(&*self);
        }
        match self.next_token()? {
            Token::Register(number) => Ok((number % 8) as u16),
            _ => Err(ParseError::UnexpectedToken),
        }
    }

    /// As `get_register`, after a comma if one stands there.
    fn get_register_skip_comma(&mut self) -> (result: ParseResult<u16>)
        ensures
            result == spec_get_register_skip_comma(old(self).items(), old(self).position()).outcome,
            final(self).moved(
                old(self),
                spec_get_register_skip_comma(old(self).items(), old(self).position()).next,
            ),
    {
        proof {
            use_type_invariant(&*self);
        }
        match self.next_token_skip(Token::Comma)? {
            Token::Register(number) => Ok((number % 8) as u16),
            _ => Err(ParseError::UnexpectedToken),
        }
    }

    /// Takes the next token, after a comma if one stands there: a number
    /// that fits six bits without a sign.
    ///
    /// Fails with `NumberLiteralIsNegative` on a negative number, with
    /// `NumberLiteralTooBig` on one above 63, and with `UnexpectedToken` on
    /// any other token.
    fn get_index6(&mut self) -> (result: ParseResult<u16>)
        ensures
            result == spec_get_index6(old(self).items(), old(self).position()).outcome,
            final(self).moved(
                old(self),
                spec_get_index6(old(self).items(), old(self).position()).next,
            ),
    {
        proof {
            use_type_invariant(&*self);
        }
        match self.next_token_skip(Token::Comma)? {
            Token::Number(number) => {
                if number >= 0x8000 {
                    Err(ParseError::NumberLiteralIsNegative)
                } else if number >= 64 {
                    Err(ParseError::NumberLiteralTooBig)
                } else {
                    Ok(number)
                }
            },
            _ => Err(ParseError::UnexpectedToken),
        }
    }

    /// Takes the next token, with `skip_comma` after a comma if one stands
    /// there: a page offset of nine bits.
    ///
    /// A number must fit nine bits without a sign. A label gives the low nine
    /// bits of its address; it must be declared in the table, and on the same
    /// page of 512 words as the instruction at the address that comes with
    /// the table. Without a table a label gives 0.
    fn get_pgoffset9(
        &mut self,
        symbol_table: Option<(&SymbolTable<u16>, u16)>,
        skip_comma: bool,
    ) -> (result: ParseResult<u16>)
        ensures
            result == spec_get_pgoffset9(
                old(self).items(),
                old(self).position(),
                symbols_of(symbol_table),
                skip_comma,
            ).outcome,
            final(self).moved(
                old(self),
                spec_get_pgoffset9(
                    old(self).items(),
                    old(self).position(),
                    symbols_of(symbol_table),
                    skip_comma,
                ).next,
            ),
    {
        proof {
            use_type_invariant(&*self);
        }
        let token = if skip_comma {
            self.next_token_skip(Token::Comma)?
        } else {
            self.next_token()?
        };
        match token {
            Token::Number(number) => {
                if number >= 0x8000 {
                    Err(ParseError::NumberLiteralIsNegative)
                } else if number >= 512 {
                    Err(ParseError::NumberLiteralTooBig)
                } else {
                    Ok(number)
                }
            },
            Token::Label(name) => {
                match symbol_table {
                    None => Ok(0),
                    Some((table, address)) => {
                        match table.lookup(name.as_slice()) {
                            None => Err(ParseError::LabelNotDeclared),
                            Some(label_address) => {
                                if *label_address / 512 != address / 512 {
                                    Err(ParseError::LabelNotOnSamePage)
                                } else {
                                    Ok(*label_address % 512)
                                }
                            },
                        }
                    },
                }
            },
            _ => Err(ParseError::UnexpectedToken),
        }
    }
}

} // verus!
