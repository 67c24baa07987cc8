//! The two passes over the tokens of a program: the first gathers the labels
//! and checks the program's shape, the second writes the memory image.
use crate::error::ParseError;
use crate::lc2::parser::token_helpers::{ParseResult, Step, TokenHelpers, TokenStream};
use crate::lc2::parser::token_operations::{
    lemma_operation_advances,
    lemma_pseudo_operation_advances,
    repeat_word,
    repeated,
    spec_parse_operation,
    spec_parse_pseudo_operation,
    spec_parse_start_address,
    spec_skip_token,
    viewed_words,
    TokenOperations,
};
use crate::lc2::token::{Lexeme, PseudoOperation, Token};
use crate::lc2::Lc2Assembler;
use crate::symbols::SymbolTable;
use vstd::prelude::*;

pub mod token_helpers;
pub mod token_operations;

verus! {

/// A result that holds a symbol table, with the table as a map.
pub open spec fn viewed_table(result: ParseResult<SymbolTable<u16>>) -> ParseResult<
    Map<Seq<u8>, u16>,
> {
    match result {
        Ok(table) => Ok(table@),
        Err(error) => Err(error),
    }
}

/// A result that holds bytes, with the bytes as a sequence.
pub open spec fn viewed_bytes(result: ParseResult<Vec<u8>>) -> ParseResult<Seq<u8>> {
    match result {
        Ok(bytes) => Ok(bytes@),
        Err(error) => Err(error),
    }
}

/// The table that the second pass looks labels up in, as a map; the first
/// pass has none.
pub open spec fn labels_of(symbol_table: Option<&SymbolTable<u16>>) -> Option<Map<Seq<u8>, u16>> {
    match symbol_table {
        Some(table) => Some(table@),
        None => None,
    }
}

/// The address `length` words after `address`, if it is within the memory of
/// 65536 words.
pub open spec fn address_after(address: u16, length: int) -> Option<u16> {
    if 0 <= length && address + length <= 0xffff {
        Some((address + length) as u16)
    } else {
        None
    }
}

/// The words that a statement puts in memory at `address`: `lexeme` opens the
/// statement and its operands start at `pos`.
///
/// An instruction gives its word; with a table its labels are looked up,
/// without one they only have to be there. A further `.orig`, where the
/// dialect has it, gives the zero words that fill the memory up to its
/// operand, which must not lie below `address`. Any other directive gives its
/// words; `.stringzp` is no token of a dialect that does not have it.
#[verifier::opaque]
pub open spec fn spec_statement(
    options: Lc2Assembler,
    items: Seq<Option<Lexeme>>,
    lexeme: Lexeme,
    pos: int,
    address: u16,
    table: Option<Map<Seq<u8>, u16>>,
) -> Step<Seq<u16>> {
    match lexeme {
        Lexeme::Operation(operation) => spec_parse_operation(
            items,
            pos,
            operation,
            match table {
                Some(labels) => Some((labels, address)),
                None => None,
            },
        ),
        Lexeme::PseudoOperation(PseudoOperation::Orig) => {
            let target = spec_parse_pseudo_operation(items, pos, PseudoOperation::Orig);
            if !options.multiple_origs {
                Step { outcome: Err(ParseError::TooManyOrig), next: pos }
            } else {
                match target.outcome {
                    Ok(words) => Step {
                        outcome: if words[0] < address {
                            Err(ParseError::OutOfOrderOrigs)
                        } else {
                            Ok(repeated(0, words[0] - address))
                        },
                        next: target.next,
                    },
                    Err(error) => Step { outcome: Err(error), next: target.next },
                }
            }
        },
        Lexeme::PseudoOperation(directive) => {
            if directive == PseudoOperation::Stringzp && !options.enable_stringzp {
                Step { outcome: Err(ParseError::NonValidToken), next: pos }
            } else {
                spec_parse_pseudo_operation(items, pos, directive)
            }
        },
        _ => Step { outcome: Err(ParseError::UnexpectedToken), next: pos },
    }
}

/// A statement moves the stream forwards, and not beyond its end.
pub proof fn lemma_statement_advances(
    options: Lc2Assembler,
    items: Seq<Option<Lexeme>>,
    lexeme: Lexeme,
    pos: int,
    address: u16,
    table: Option<Map<Seq<u8>, u16>>,
)
    requires
        0 <= pos <= items.len(),
    ensures
        pos <= spec_statement(options, items, lexeme, pos, address, table).next <= items.len(),
{
    reveal(spec_statement);
    match lexeme {
        Lexeme::Operation(operation) => {
            lemma_operation_advances(
                items,
                pos,
                operation,
                match table {
                    Some(labels) => Some((labels, address)),
                    None => None,
                },
            );
        },
        Lexeme::PseudoOperation(directive) => {
            lemma_pseudo_operation_advances(items, pos, directive);
        },
        _ => {},
    }
}

/// The first pass from `pos` on, at `address` and with the labels of `table`
/// declared: the table of all labels, and whether the pass met `.end`.
///
/// A comment is passed over. A label is declared at the current address,
/// which fails if it is declared already, and a colon after it is passed
/// over. `.end` ends the pass, and so does the end of the stream. Anything
/// else is a statement: it moves the address on by the number of its words,
/// which must stay within the memory.
pub open spec fn spec_gather(
    options: Lc2Assembler,
    items: Seq<Option<Lexeme>>,
    pos: int,
    address: u16,
    table: Map<Seq<u8>, u16>,
) -> Step<(Map<Seq<u8>, u16>, bool)>
    decreases items.len() - pos,
    via spec_gather_decreases
{
    if pos < 0 || pos >= items.len() {
        Step { outcome: Ok((table, false)), next: pos }
    } else {
        match items[pos] {
            None => Step { outcome: Err(ParseError::NonValidToken), next: pos + 1 },
            Some(Lexeme::Comment(_)) => spec_gather(options, items, pos + 1, address, table),
            Some(Lexeme::Label(name)) => {
                let colon = spec_skip_token(items, pos + 1, Lexeme::Colon);
                if table.contains_key(name) {
                    Step { outcome: Err(ParseError::LabelRedeclaration), next: pos + 1 }
                } else {
                    match colon.outcome {
                        Ok(_) => spec_gather(
                            options,
                            items,
                            colon.next,
                            address,
                            table.insert(name, address),
                        ),
                        Err(error) => Step { outcome: Err(error), next: colon.next },
                    }
                }
            },
            Some(Lexeme::PseudoOperation(PseudoOperation::End)) => Step {
                outcome: Ok((table, true)),
                next: pos + 1,
            },
            Some(lexeme) => {
                let statement = spec_statement(options, items, lexeme, pos + 1, address, None);
                match statement.outcome {
                    Ok(words) => match address_after(address, words.len() as int) {
                        Some(following) => spec_gather(
                            options,
                            items,
                            statement.next,
                            following,
                            table,
                        ),
                        None => Step {
                            outcome: Err(ParseError::BinaryTooBig),
                            next: statement.next,
                        },
                    },
                    Err(error) => Step { outcome: Err(error), next: statement.next },
                }
            },
        }
    }
}

#[via_fn]
proof fn spec_gather_decreases(
    options: Lc2Assembler,
    items: Seq<Option<Lexeme>>,
    pos: int,
    address: u16,
    table: Map<Seq<u8>, u16>,
) {
    if 0 <= pos < items.len() {
        if let Some(lexeme) = items[pos] {
            lemma_statement_advances(options, items, lexeme, pos + 1, address, None);
        }
    }
}

/// The place of the first item at or after `pos` that is no comment, or the
/// length of the stream if there is none.
pub open spec fn first_non_comment(items: Seq<Option<Lexeme>>, pos: int) -> int
    decreases items.len() - pos,
{
    if pos < 0 || pos >= items.len() {
        items.len() as int
    } else if items[pos] matches Some(Lexeme::Comment(_)) {
        first_non_comment(items, pos + 1)
    } else {
        pos
    }
}

/// The whole first pass, from `pos` on: the start address, the labels, and
/// the checks on how the program ends.
///
/// The pass fails with `NoEnd` if it met no `.end` and the dialect wants
/// one. If it met `.end` and the dialect lets nothing follow it, the rest of
/// the stream is taken up to and with the first item that is no comment, and
/// such an item makes the pass fail with `EndNotLast`.
pub open spec fn spec_build_symbol_table(
    options: Lc2Assembler,
    items: Seq<Option<Lexeme>>,
    pos: int,
) -> Step<Map<Seq<u8>, u16>> {
    let start = spec_parse_start_address(items, pos, options.optional_starting_orig);
    match start.outcome {
        Ok(address) => {
            let body = spec_gather(options, items, start.next, address, Map::empty());
            match body.outcome {
                Ok((table, end)) => {
                    if !end && !options.optional_end {
                        Step { outcome: Err(ParseError::NoEnd), next: body.next }
                    } else if end && options.nothing_after_end {
                        let trailer = first_non_comment(items, body.next);
                        if trailer < items.len() {
                            Step { outcome: Err(ParseError::EndNotLast), next: trailer + 1 }
                        } else {
                            Step { outcome: Ok(table), next: items.len() as int }
                        }
                    } else {
                        Step { outcome: Ok(table), next: body.next }
                    }
                },
                Err(error) => Step { outcome: Err(error), next: body.next },
            }
        },
        Err(error) => Step { outcome: Err(error), next: start.next },
    }
}

/// The same step with `words` put before the words that it gives.
pub open spec fn preceded(words: Seq<u16>, step: Step<Seq<u16>>) -> Step<Seq<u16>> {
    match step.outcome {
        Ok(rest) => Step { outcome: Ok(words + rest), next: step.next },
        Err(error) => Step { outcome: Err(error), next: step.next },
    }
}

/// The second pass from `pos` on, at `address`: the words of the program.
///
/// Comments and labels, with the colon after a label, are passed over.
/// `.end` ends the pass, and so does the end of the stream. Anything else is
/// a statement, whose words must fit in the memory that is left.
pub open spec fn spec_emit(
    options: Lc2Assembler,
    items: Seq<Option<Lexeme>>,
    pos: int,
    address: u16,
    table: Map<Seq<u8>, u16>,
) -> Step<Seq<u16>>
    decreases items.len() - pos,
    via spec_emit_decreases
{
    if pos < 0 || pos >= items.len() {
        Step { outcome: Ok(Seq::<u16>::empty()), next: pos }
    } else {
        match items[pos] {
            None => Step { outcome: Err(ParseError::NonValidToken), next: pos + 1 },
            Some(Lexeme::Comment(_)) => spec_emit(options, items, pos + 1, address, table),
            Some(Lexeme::Label(_)) => {
                let colon = spec_skip_token(items, pos + 1, Lexeme::Colon);
                match colon.outcome {
                    Ok(_) => spec_emit(options, items, colon.next, address, table),
                    Err(error) => Step { outcome: Err(error), next: colon.next },
                }
            },
            Some(Lexeme::PseudoOperation(PseudoOperation::End)) => Step {
                outcome: Ok(Seq::<u16>::empty()),
                next: pos + 1,
            },
            Some(lexeme) => {
                let statement = spec_statement(
                    options,
                    items,
                    lexeme,
                    pos + 1,
                    address,
                    Some(table),
                );
                match statement.outcome {
                    Ok(words) => match address_after(address, words.len() as int) {
                        Some(following) => preceded(
                            words,
                            spec_emit(options, items, statement.next, following, table),
                        ),
                        None => Step {
                            outcome: Err(ParseError::BinaryTooBig),
                            next: statement.next,
                        },
                    },
                    Err(error) => Step { outcome: Err(error), next: statement.next },
                }
            },
        }
    }
}

#[via_fn]
proof fn spec_emit_decreases(
    options: Lc2Assembler,
    items: Seq<Option<Lexeme>>,
    pos: int,
    address: u16,
    table: Map<Seq<u8>, u16>,
) {
    if 0 <= pos < items.len() {
        if let Some(lexeme) = items[pos] {
            lemma_statement_advances(options, items, lexeme, pos + 1, address, Some(table));
        }
    }
}

/// The bytes of `words`, the high byte of each word before its low byte.
pub open spec fn big_endian(words: Seq<u16>) -> Seq<u8> {
    Seq::new(
        2 * words.len(),
        |i: int|
            if i % 2 == 0 {
                (words[i / 2] / 256) as u8
            } else {
                (words[i / 2] % 256) as u8
            },
    )
}

/// The words that stand before the program in its image: the start address,
/// if the dialect puts it there and a program must start with `.orig`.
pub open spec fn header(options: Lc2Assembler, address: u16) -> Seq<u16> {
    if !options.optional_starting_orig && options.prepend_start_address {
        seq![address]
    } else {
        Seq::<u16>::empty()
    }
}

/// The whole second pass, from `pos` on: the bytes of the memory image.
pub open spec fn spec_assemble(
    options: Lc2Assembler,
    items: Seq<Option<Lexeme>>,
    pos: int,
    table: Map<Seq<u8>, u16>,
) -> Step<Seq<u8>> {
    let start = spec_parse_start_address(items, pos, options.optional_starting_orig);
    match start.outcome {
        Ok(address) => {
            let body = spec_emit(options, items, start.next, address, table);
            match body.outcome {
                Ok(words) => Step {
                    outcome: Ok(big_endian(header(options, address) + words)),
                    next: body.next,
                },
                Err(error) => Step { outcome: Err(error), next: body.next },
            }
        },
        Err(error) => Step { outcome: Err(error), next: start.next },
    }
}

/// Takes the operands of the statement that `token` opens, and gives the
/// words that the statement puts in memory at `address`.
fn statement(
    options: &Lc2Assembler,
    lexer: &mut TokenStream,
    token: Token,
    address: u16,
    symbol_table: Option<&SymbolTable<u16>>,
) -> (result: ParseResult<Vec<u16>>)
    ensures
        viewed_words(result) == spec_statement(
            *options,
            old(lexer).items(),
            token@,
            old(lexer).position(),
            address,
            labels_of(symbol_table),
        ).outcome,
        final(lexer).moved(
            old(lexer),
            spec_statement(
                *options,
                old(lexer).items(),
                token@,
                old(lexer).position(),
                address,
                labels_of(symbol_table),
            ).next,
        ),
{
    proof {
        use_type_invariant(&*lexer);
    }
    reveal(spec_statement);
    match token {
        Token::Operation(operation) => {
            let symbols = match symbol_table {
                Some(table) => Some((table, address)),
                None => None,
            };
            lexer.parse_operation(operation, symbols)
        },
        Token::PseudoOperation(PseudoOperation::Orig) => {
            if !options.multiple_origs {
                return Err(ParseError::TooManyOrig);
            }
            let target = lexer.parse_pseudo_operation(PseudoOperation::Orig)?;
            match target[0].checked_sub(address) {
                Some(gap) => Ok(repeat_word(0, gap)),
                None => Err(ParseError::OutOfOrderOrigs),
            }
        },
        Token::PseudoOperation(directive) => {
            if !options.enable_stringzp {
                if let PseudoOperation::Stringzp = directive {
                    return Err(ParseError::NonValidToken);
                }
            }
            lexer.parse_pseudo_operation(directive)
        },
        _ => Err(ParseError::UnexpectedToken),
    }
}

/// The address `length` words after `address`.
///
/// Fails with `BinaryTooBig` exactly when that is beyond the last address.
fn advance(address: u16, length: usize) -> (result: ParseResult<u16>)
    ensures
        result == match address_after(address, length as int) {
            Some(following) => Ok::<u16, ParseError>(following),
            None => Err(ParseError::BinaryTooBig),
        },
{
    if length > 0xffff {
        return Err(ParseError::BinaryTooBig);
    }
    match address.checked_add(length as u16) {
        Some(following) => Ok(following),
        None => Err(ParseError::BinaryTooBig),
    }
}

/// Runs the first pass from the place of `lexer` on, and says whether it met
/// `.end`. The labels that it meets are declared in `table`.
fn gather(
    options: &Lc2Assembler,
    lexer: &mut TokenStream,
    start: u16,
    table: &mut SymbolTable<u16>,
) -> (result: ParseResult<bool>)
    ensures
        final(lexer).moved(
            old(lexer),
            spec_gather(*options, old(lexer).items(), old(lexer).position(), start, old(table)@).next,
        ),
        match spec_gather(
            *options,
            old(lexer).items(),
            old(lexer).position(),
            start,
            old(table)@,
        ).outcome {
            Ok((labels, end)) => result == Ok::<bool, ParseError>(end) && final(table)@ == labels,
            Err(error) => result == Err::<bool, ParseError>(error),
        },
{
    proof {
        use_type_invariant(&*lexer);
    }
    let mut address = start;
    loop
        invariant
            lexer.moved(old(lexer), lexer.position()),
            spec_gather(*options, lexer.items(), lexer.position(), address, table@) == spec_gather(
                *options,
                old(lexer).items(),
                old(lexer).position(),
                start,
                old(table)@,
            ),
        decreases lexer.items().len() - lexer.position(),
    {
        proof {
            lexer.lemma_position_in_range();
        }
        let ghost pos = lexer.position();
        let token = match lexer.next_token() {
            Ok(token) => token,
            Err(ParseError::NoMoreTokens) => {
                return Ok(false);
            },
            Err(error) => {
                return Err(error);
            },
        };
        match token {
            Token::Comment(_) => {},
            Token::Label(name) => {
                if !table.declare(name, address) {
                    return Err(ParseError::LabelRedeclaration);
                }
                lexer.skip_token(Token::Colon)?;
            },
            Token::PseudoOperation(PseudoOperation::End) => {
                return Ok(true);
            },
            token => {
                proof {
                    lemma_statement_advances(
                        *options,
                        lexer.items(),
                        token@,
                        pos + 1,
                        address,
                        None,
                    );
                }
                let words = statement(options, lexer, token, address, None)?;
                address = advance(address, words.len())?;
            },
        }
    }
}

/// Takes the rest of the stream up to and with the first item that is no
/// comment, and tells whether there was one.
fn any_but_comments(lexer: &mut TokenStream) -> (found: bool)
    ensures
        found == (first_non_comment(old(lexer).items(), old(lexer).position()) < old(
            lexer,
        ).items().len()),
        found ==> final(lexer).moved(
            old(lexer),
            first_non_comment(old(lexer).items(), old(lexer).position()) + 1,
        ),
        !found ==> final(lexer).moved(old(lexer), old(lexer).items().len() as int),
{
    proof {
        use_type_invariant(&*lexer);
    }
    loop
        invariant
            lexer.moved(old(lexer), lexer.position()),
            first_non_comment(lexer.items(), lexer.position()) == first_non_comment(
                old(lexer).items(),
                old(lexer).position(),
            ),
        decreases lexer.items().len() - lexer.position(),
    {
        proof {
            lexer.lemma_position_in_range();
        }
        match lexer.next_token() {
            Ok(Token::Comment(_)) => {},
            Err(ParseError::NoMoreTokens) => {
                return false;
            },
            _ => {
                return true;
            },
        }
    }
}

/// Runs the first pass over the tokens of a program: gathers its labels, each
/// with the address that it stands for, and checks the shape of the program.
///
/// The program must start with `.orig`, hold no second `.orig`, and end with
/// `.end`, after which only comments may stand, as far as the dialect does
/// not say otherwise; further `.orig` directives must be in rising order; no
/// label may be declared twice; the program must fit in the memory. Labels
/// that the program uses are not looked up in this pass, so that a label may
/// be used before it is declared.
pub fn build_symbol_table(options: &Lc2Assembler, lexer: &mut TokenStream) -> (result: ParseResult<
    SymbolTable<u16>,
>)
    ensures
        viewed_table(result) == spec_build_symbol_table(
            *options,
            old(lexer).items(),
            old(lexer).position(),
        ).outcome,
        final(lexer).moved(
            old(lexer),
            spec_build_symbol_table(*options, old(lexer).items(), old(lexer).position()).next,
        ),
{
    proof {
        use_type_invariant(&*lexer);
    }
    let address = lexer.parse_start_address(options.optional_starting_orig)?;
    let mut table: SymbolTable<u16> = SymbolTable::new();
    let end = gather(options, lexer, address, &mut table)?;
    if !end && !options.optional_end {
        return Err(ParseError::NoEnd);
    }
    if end && options.nothing_after_end {
        if any_but_comments(lexer) {
            return Err(ParseError::EndNotLast);
        }
    }
    Ok(table)
}

/// Concatenation of words does not depend on how it is grouped.
proof fn lemma_preceded_twice(first: Seq<u16>, second: Seq<u16>, step: Step<Seq<u16>>)
    ensures
        preceded(first, preceded(second, step)) == preceded(first + second, step),
{
    if let Ok(rest) = step.outcome {
        assert(first + (second + rest) =~= (first + second) + rest);
    }
}

/// Runs the second pass from the place of `lexer` on, and puts the words of
/// the program at the end of `binary`.
fn emit(
    options: &Lc2Assembler,
    lexer: &mut TokenStream,
    start: u16,
    symbol_table: &SymbolTable<u16>,
    binary: &mut Vec<u16>,
) -> (result: ParseResult<()>)
    ensures
        final(lexer).moved(
            old(lexer),
            spec_emit(
                *options,
                old(lexer).items(),
                old(lexer).position(),
                start,
                symbol_table@,
            ).next,
        ),
        match spec_emit(
            *options,
            old(lexer).items(),
            old(lexer).position(),
            start,
            symbol_table@,
        ).outcome {
            Ok(words) => result == Ok::<(), ParseError>(()) && final(binary)@ == old(binary)@
                + words,
            Err(error) => result == Err::<(), ParseError>(error),
        },
{
    proof {
        use_type_invariant(&*lexer);
    }
    let mut address = start;
    let ghost mut written: Seq<u16> = Seq::empty();
    proof {
        assert(old(binary)@ + written =~= old(binary)@);
        assert(preceded(
            written,
            spec_emit(*options, lexer.items(), lexer.position(), address, symbol_table@),
        ) == spec_emit(*options, lexer.items(), lexer.position(), address, symbol_table@)) by {
            let step = spec_emit(
                *options,
                lexer.items(),
                lexer.position(),
                address,
                symbol_table@,
            );
            if let Ok(rest) = step.outcome {
                assert(written + rest =~= rest);
            }
        }
    }
    loop
        invariant
            lexer.moved(old(lexer), lexer.position()),
                binary@ == old(binary)@ + written,
            preceded(
                written,
                spec_emit(*options, lexer.items(), lexer.position(), address, symbol_table@),
            ) == spec_emit(
                *options,
                old(lexer).items(),
                old(lexer).position(),
                start,
                symbol_table@,
            ),
        decreases lexer.items().len() - lexer.position(),
    {
        proof {
            lexer.lemma_position_in_range();
        }
        let ghost pos = lexer.position();
        let token = match lexer.next_token() {
            Ok(token) => token,
            Err(ParseError::NoMoreTokens) => {
                assert(binary@ + Seq::<u16>::empty() =~= binary@);
                assert(written + Seq::<u16>::empty() =~= written);
                return Ok(());
            },
            Err(error) => {
                return Err(error);
            },
        };
        match token {
            Token::Comment(_) => {},
            Token::Label(_) => {
                lexer.skip_token(Token::Colon)?;
            },
            Token::PseudoOperation(PseudoOperation::End) => {
                assert(binary@ + Seq::<u16>::empty() =~= binary@);
                assert(written + Seq::<u16>::empty() =~= written);
                return Ok(());
            },
            token => {
                proof {
                    lemma_statement_advances(
                        *options,
                        lexer.items(),
                        token@,
                        pos + 1,
                        address,
                        Some(symbol_table@),
                    );
                }
                let mut words = statement(options, lexer, token, address, Some(symbol_table))?;
                let following = advance(address, words.len())?;
                proof {
                    lemma_preceded_twice(
                        written,
                        words@,
                        spec_emit(
                            *options,
                            lexer.items(),
                            lexer.position(),
                            following,
                            symbol_table@,
                        ),
                    );
                    assert((old(binary)@ + written) + words@ =~= old(binary)@ + (written
                        + words@));
                    written = written + words@;
                }
                address = following;
                binary.append(&mut words);
            },
        }
    }
}

/// The bytes of `words`, the high byte of each word before its low byte.
pub fn to_big_endian(words: &[u16]) -> (bytes: Vec<u8>)
    ensures
        bytes@ == big_endian(words@),
{
    let mut bytes: Vec<u8> = Vec::new();
    let mut i: usize = 0;
    while i < words.len()
        invariant
            i <= words.len(),
            bytes@.len() == 2 * i,
            forall|j: int| 0 <= j < bytes@.len() ==> bytes@[j] == big_endian(words@)[j],
        decreases words.len() - i,
    {
        let word = words[i];
        bytes.push((word / 256) as u8);
        bytes.push((word % 256) as u8);
        i += 1;
    }
    assert(bytes@ =~= big_endian(words@));
    bytes
}

/// Runs the second pass over the tokens of a program: writes its memory
/// image, with the labels looked up in `symbol_table`.
///
/// The image is the start address, where the dialect puts it there, and the
/// words of the program, each as two bytes with the high byte first. A label
/// that the program uses must be in the table, and on the same page as the
/// instruction that uses it.
pub fn assemble(
    options: &Lc2Assembler,
    lexer: &mut TokenStream,
    symbol_table: &SymbolTable<u16>,
) -> (result: ParseResult<Vec<u8>>)
    ensures
        viewed_bytes(result) == spec_assemble(
            *options,
            old(lexer).items(),
            old(lexer).position(),
            symbol_table@,
        ).outcome,
        final(lexer).moved(
            old(lexer),
            spec_assemble(
                *options,
                old(lexer).items(),
                old(lexer).position(),
                symbol_table@,
            ).next,
        ),
{
    proof {
        use_type_invariant(&*lexer);
    }
    let address = lexer.parse_start_address(options.optional_starting_orig)?;
    let mut binary: Vec<u16> = Vec::new();
    if !options.optional_starting_orig && options.prepend_start_address {
        binary.push(address);
    }
    assert(binary@ =~= header(*options, address));
    emit(options, lexer, address, symbol_table, &mut binary)?;
    Ok(to_big_endian(binary.as_slice()))
}

} // verus!
