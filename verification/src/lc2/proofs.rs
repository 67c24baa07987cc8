//! What holds of the assembler as a whole.
use crate::error::ParseError;
use crate::lc2::lexer::spec_tokenize;
use crate::lc2::parser::token_helpers::{spec_get_pgoffset9, Step, TokenStream};
use crate::lc2::parser::token_operations::{
    first_orig,
    spec_operands,
    spec_parse_operation,
    spec_parse_start_address,
    spec_skip_token,
};
use crate::lc2::parser::{
    address_after,
    lemma_statement_advances,
    spec_assemble,
    spec_build_symbol_table,
    spec_emit,
    spec_gather,
    spec_statement,
    viewed_table,
};
use crate::lc2::token::{Lexeme, Operation, PseudoOperation};
use crate::lc2::{viewed_assembly, Lc2Assembler};
use crate::symbols::SymbolTable;
use vstd::prelude::*;

verus! {

/// Assembling is deterministic: whatever two runs of an assembler give for
/// one source text is the same, the bytes of the memory image, the symbol
/// table and the error alike.
pub proof fn lemma_assembly_is_deterministic(
    assembler: Lc2Assembler,
    source: Seq<u8>,
    first: Result<(Vec<u8>, SymbolTable<u16>), ParseError>,
    second: Result<(Vec<u8>, SymbolTable<u16>), ParseError>,
)
    requires
        viewed_assembly(first) == assembler.spec_assemble(source),
        viewed_assembly(second) == assembler.spec_assemble(source),
    ensures
        viewed_assembly(first) == viewed_assembly(second),
        first matches Ok((binary, table)) ==> second matches Ok((same_binary, same_table))
            && binary@ == same_binary@ && table@ == same_table@,
        first matches Err(error) ==> second == Err::<(Vec<u8>, SymbolTable<u16>), ParseError>(error),
{
}

/// The first pass is idempotent: run again on the same tokens, from the same
/// place and for the same dialect, it gives the same symbol table, or the
/// same error, and leaves the stream at the same place.
pub proof fn lemma_symbol_table_is_idempotent(
    options: Lc2Assembler,
    first_stream: TokenStream,
    second_stream: TokenStream,
    first: Result<SymbolTable<u16>, ParseError>,
    second: Result<SymbolTable<u16>, ParseError>,
)
    requires
        first_stream.items() == second_stream.items(),
        first_stream.position() == second_stream.position(),
        viewed_table(first) == spec_build_symbol_table(
            options,
            first_stream.items(),
            first_stream.position(),
        ).outcome,
        viewed_table(second) == spec_build_symbol_table(
            options,
            second_stream.items(),
            second_stream.position(),
        ).outcome,
    ensures
        viewed_table(first) == viewed_table(second),
        first matches Ok(table) ==> second matches Ok(same_table) && table@ == same_table@,
{
}

/// Whether `error` says that a label is not declared, or lies on another
/// page than the instruction that uses it.
pub open spec fn is_label_error(error: ParseError) -> bool {
    error == ParseError::LabelNotDeclared || error == ParseError::LabelNotOnSamePage
}

/// Whether the step `with` does what the step `without` does, but for a label
/// that it could not resolve: both end at the same place, a failure of
/// `without` is the failure of `with`, and where `without` gives words, `with`
/// gives as many or fails for a label.
pub open spec fn agrees_but_for_labels(without: Step<Seq<u16>>, with: Step<Seq<u16>>) -> bool {
    &&& with.next == without.next
    &&& match without.outcome {
        Ok(words) => match with.outcome {
            Ok(resolved) => resolved.len() == words.len(),
            Err(error) => is_label_error(error),
        },
        Err(error) => with.outcome == Err::<Seq<u16>, ParseError>(error),
    }
}

/// A page offset is taken in the same way with a symbol table and without
/// one, but for a label that the table cannot resolve.
proof fn lemma_offset_with_labels(
    items: Seq<Option<Lexeme>>,
    pos: int,
    table: Map<Seq<u8>, u16>,
    address: u16,
    skip_comma: bool,
)
    ensures
        ({
            let without = spec_get_pgoffset9(items, pos, None, skip_comma);
            let with = spec_get_pgoffset9(items, pos, Some((table, address)), skip_comma);
            &&& with.next == without.next
            &&& match without.outcome {
                Ok(_) => with.outcome is Ok || (with.outcome is Err && is_label_error(
                    with.outcome->Err_0,
                )),
                Err(error) => with.outcome == Err::<u16, ParseError>(error),
            }
        }),
{
}

/// An instruction is taken in the same way with a symbol table and without
/// one, but for a label that the table cannot resolve.
pub proof fn lemma_operation_with_labels(
    items: Seq<Option<Lexeme>>,
    pos: int,
    operation: Operation,
    table: Map<Seq<u8>, u16>,
    address: u16,
)
    ensures
        agrees_but_for_labels(
            spec_parse_operation(items, pos, operation, None),
            spec_parse_operation(items, pos, operation, Some((table, address))),
        ),
{
    lemma_offset_with_labels(items, pos, table, address, false);
    lemma_offset_with_labels(items, pos, table, address, true);
    lemma_offset_with_labels(items, pos + 1, table, address, true);
    let without = spec_operands(items, pos, operation, None);
    let with = spec_operands(items, pos, operation, Some((table, address)));
    assert(with.next == without.next);
}

/// A statement is taken in the same way in both passes, but for a label that
/// the second pass cannot resolve.
pub proof fn lemma_statement_with_labels(
    options: Lc2Assembler,
    items: Seq<Option<Lexeme>>,
    lexeme: Lexeme,
    pos: int,
    address: u16,
    table: Map<Seq<u8>, u16>,
)
    ensures
        agrees_but_for_labels(
            spec_statement(options, items, lexeme, pos, address, None),
            spec_statement(options, items, lexeme, pos, address, Some(table)),
        ),
{
    reveal(spec_statement);
    if let Lexeme::Operation(operation) = lexeme {
        lemma_operation_with_labels(items, pos, operation, table, address);
    }
}

/// Where the first pass gets through the tokens from `pos` on, the second
/// pass over the same tokens gets as far, or fails for a label: every other
/// check of the second pass was made by the first.
pub proof fn lemma_second_pass_follows_first(
    options: Lc2Assembler,
    items: Seq<Option<Lexeme>>,
    pos: int,
    address: u16,
    declared: Map<Seq<u8>, u16>,
    table: Map<Seq<u8>, u16>,
)
    requires
        0 <= pos <= items.len(),
        spec_gather(options, items, pos, address, declared).outcome is Ok,
    ensures
        match spec_emit(options, items, pos, address, table).outcome {
            Ok(_) => spec_emit(options, items, pos, address, table).next == spec_gather(
                options,
                items,
                pos,
                address,
                declared,
            ).next,
            Err(error) => is_label_error(error),
        },
    decreases items.len() - pos,
{
    if pos < items.len() {
        match items[pos] {
            None => {},
            Some(Lexeme::Comment(_)) => {
                lemma_second_pass_follows_first(options, items, pos + 1, address, declared, table);
            },
            Some(Lexeme::Label(name)) => {
                let colon = spec_skip_token(items, pos + 1, Lexeme::Colon);
                lemma_second_pass_follows_first(
                    options,
                    items,
                    colon.next,
                    address,
                    declared.insert(name, address),
                    table,
                );
            },
            Some(Lexeme::PseudoOperation(PseudoOperation::End)) => {},
            Some(lexeme) => {
                lemma_statement_with_labels(options, items, lexeme, pos + 1, address, table);
                lemma_statement_advances(options, items, lexeme, pos + 1, address, None);
                let without = spec_statement(options, items, lexeme, pos + 1, address, None);
                let with = spec_statement(options, items, lexeme, pos + 1, address, Some(table));
                if with.outcome is Ok {
                    let following = address_after(address, without.outcome->Ok_0.len() as int)->0;
                    lemma_second_pass_follows_first(
                        options,
                        items,
                        without.next,
                        following,
                        declared,
                        table,
                    );
                }
            },
        }
    }
}

/// Where the first pass accepts a program, the second pass over the same
/// tokens, with whatever symbol table, writes its image or fails for a
/// label: the shape of the program, the order of its `.orig` directives and
/// its size are checked once and for all by the first pass.
pub proof fn lemma_checked_program_fails_only_for_labels(
    options: Lc2Assembler,
    items: Seq<Option<Lexeme>>,
    table: Map<Seq<u8>, u16>,
)
    requires
        spec_build_symbol_table(options, items, 0).outcome is Ok,
    ensures
        spec_assemble(options, items, 0, table).outcome matches Err(error)
            ==> is_label_error(error),
{
    let start = spec_parse_start_address(items, 0, options.optional_starting_orig);
    lemma_start_address_advances(items, 0, options.optional_starting_orig);
    lemma_second_pass_follows_first(
        options,
        items,
        start.next,
        start.outcome->Ok_0,
        Map::empty(),
        table,
    );
}

/// Finding the start address moves the stream forwards, and not beyond its
/// end.
pub proof fn lemma_start_address_advances(
    items: Seq<Option<Lexeme>>,
    pos: int,
    orig_optional: bool,
)
    requires
        0 <= pos <= items.len(),
    ensures
        pos <= spec_parse_start_address(items, pos, orig_optional).next <= items.len(),
    decreases items.len() - pos,
{
    if pos < items.len() {
        if let Some(Lexeme::Comment(_)) = items[pos] {
            lemma_start_address_advances(items, pos + 1, orig_optional);
        } else {
            lemma_first_orig_in_range(items, pos);
        }
    }
}

/// The first `.orig` at or after a place is found at or after it, and within
/// the stream or at its end.
proof fn lemma_first_orig_in_range(items: Seq<Option<Lexeme>>, pos: int)
    requires
        0 <= pos <= items.len(),
    ensures
        pos <= first_orig(items, pos) <= items.len(),
    decreases items.len() - pos,
{
    if pos < items.len() && items[pos] != Some(Lexeme::PseudoOperation(PseudoOperation::Orig)) {
        lemma_first_orig_in_range(items, pos + 1);
    }
}

/// An assembler fails for a program that its first pass accepts only where
/// the program uses a label that is not declared, or that lies on another
/// page than the instruction that uses it.
pub proof fn lemma_assembly_of_checked_program(assembler: Lc2Assembler, source: Seq<u8>)
    requires
        spec_build_symbol_table(assembler, spec_tokenize(source), 0).outcome is Ok,
    ensures
        assembler.spec_assemble(source) matches Err(error) ==> is_label_error(error),
        assembler.spec_assemble(source) matches Ok((_, table)) ==> Ok::<
            Map<Seq<u8>, u16>,
            ParseError,
        >(table) == spec_build_symbol_table(assembler, spec_tokenize(source), 0).outcome,
{
    let items = spec_tokenize(source);
    let table = spec_build_symbol_table(assembler, items, 0).outcome->Ok_0;
    lemma_checked_program_fails_only_for_labels(assembler, items, table);
}

/// A label cannot be declared a second time: where the first pass is at a
/// label that is in its table, it fails with `LabelRedeclaration`, whatever
/// address the label had and has now.
pub proof fn lemma_redeclaration_fails(
    options: Lc2Assembler,
    items: Seq<Option<Lexeme>>,
    pos: int,
    address: u16,
    declared: Map<Seq<u8>, u16>,
    name: Seq<u8>,
)
    requires
        0 <= pos < items.len(),
        items[pos] == Some(Lexeme::Label(name)),
        declared.contains_key(name),
    ensures
        spec_gather(options, items, pos, address, declared).outcome == Err::<
            (Map<Seq<u8>, u16>, bool),
            ParseError,
        >(ParseError::LabelRedeclaration),
{
}

/// The first pass keeps what is declared: each label that is in its table at
/// some place is in the table that it gives in the end, at the same address.
pub proof fn lemma_declared_labels_stay(
    options: Lc2Assembler,
    items: Seq<Option<Lexeme>>,
    pos: int,
    address: u16,
    declared: Map<Seq<u8>, u16>,
    name: Seq<u8>,
)
    requires
        0 <= pos <= items.len(),
        declared.contains_key(name),
    ensures
        spec_gather(options, items, pos, address, declared).outcome matches Ok((table, _))
            ==> table.contains_key(name) && table[name] == declared[name],
    decreases items.len() - pos,
{
    if pos < items.len() {
        match items[pos] {
            None => {},
            Some(Lexeme::Comment(_)) => {
                lemma_declared_labels_stay(options, items, pos + 1, address, declared, name);
            },
            Some(Lexeme::Label(other)) => {
                let colon = spec_skip_token(items, pos + 1, Lexeme::Colon);
                if !declared.contains_key(other) && colon.outcome is Ok {
                    lemma_declared_labels_stay(
                        options,
                        items,
                        colon.next,
                        address,
                        declared.insert(other, address),
                        name,
                    );
                }
            },
            Some(Lexeme::PseudoOperation(PseudoOperation::End)) => {},
            Some(lexeme) => {
                lemma_statement_advances(options, items, lexeme, pos + 1, address, None);
                let statement = spec_statement(options, items, lexeme, pos + 1, address, None);
                if statement.outcome is Ok {
                    let following = address_after(address, statement.outcome->Ok_0.len() as int);
                    if following is Some {
                        lemma_declared_labels_stay(
                            options,
                            items,
                            statement.next,
                            following->0,
                            declared,
                            name,
                        );
                    }
                }
            },
        }
    }
}

/// The state of the first pass at a place that it comes to.
pub struct Arrival {
    /// The address of the next word.
    pub address: u16,
    /// The labels that are declared so far.
    pub table: Map<Seq<u8>, u16>,
}

/// The address and the table with which the first pass comes to the place
/// `target`, where it starts at `pos`, at `address` and with the labels of
/// `table` declared. There is none where the pass fails or ends before
/// `target`, and none where `target` lies among the operands of a statement:
/// the pass comes to a place only to look there for a comment, a label, a
/// statement or `.end`.
pub open spec fn spec_arrival(
    options: Lc2Assembler,
    items: Seq<Option<Lexeme>>,
    pos: int,
    address: u16,
    table: Map<Seq<u8>, u16>,
    target: int,
) -> Option<Arrival>
    decreases items.len() - pos,
    via spec_arrival_decreases
{
    if pos == target {
        Some(Arrival { address, table })
    } else if pos < 0 || pos >= items.len() || pos > target {
        None
    } else {
        match items[pos] {
            None => None,
            Some(Lexeme::Comment(_)) => spec_arrival(
                options,
                items,
                pos + 1,
                address,
                table,
                target,
            ),
            Some(Lexeme::Label(name)) => {
                let colon = spec_skip_token(items, pos + 1, Lexeme::Colon);
                if table.contains_key(name) || colon.outcome is Err {
                    None
                } else {
                    spec_arrival(
                        options,
                        items,
                        colon.next,
                        address,
                        table.insert(name, address),
                        target,
                    )
                }
            },
            Some(Lexeme::PseudoOperation(PseudoOperation::End)) => None,
            Some(lexeme) => {
                let statement = spec_statement(options, items, lexeme, pos + 1, address, None);
                match statement.outcome {
                    Ok(words) => match address_after(address, words.len() as int) {
                        Some(following) => spec_arrival(
                            options,
                            items,
                            statement.next,
                            following,
                            table,
                            target,
                        ),
                        None => None,
                    },
                    Err(_) => None,
                }
            },
        }
    }
}

#[via_fn]
proof fn spec_arrival_decreases(
    options: Lc2Assembler,
    items: Seq<Option<Lexeme>>,
    pos: int,
    address: u16,
    table: Map<Seq<u8>, u16>,
    target: int,
) {
    if 0 <= pos < items.len() {
        if let Some(lexeme) = items[pos] {
            lemma_statement_advances(options, items, lexeme, pos + 1, address, None);
        }
    }
}

/// The first pass goes through each place that it comes to: what it gives
/// from its start is what it gives from that place on, at the address and
/// with the table that it has there.
pub proof fn lemma_pass_goes_through(
    options: Lc2Assembler,
    items: Seq<Option<Lexeme>>,
    pos: int,
    address: u16,
    table: Map<Seq<u8>, u16>,
    target: int,
)
    requires
        0 <= pos <= items.len(),
        spec_arrival(options, items, pos, address, table, target) is Some,
    ensures
        pos <= target <= items.len(),
        spec_gather(options, items, pos, address, table) == spec_gather(
            options,
            items,
            target,
            spec_arrival(options, items, pos, address, table, target)->Some_0.address,
            spec_arrival(options, items, pos, address, table, target)->Some_0.table,
        ),
    decreases items.len() - pos,
{
    if pos != target {
        match items[pos] {
            None => {},
            Some(Lexeme::Comment(_)) => {
                lemma_pass_goes_through(options, items, pos + 1, address, table, target);
            },
            Some(Lexeme::Label(name)) => {
                let colon = spec_skip_token(items, pos + 1, Lexeme::Colon);
                lemma_pass_goes_through(
                    options,
                    items,
                    colon.next,
                    address,
                    table.insert(name, address),
                    target,
                );
            },
            Some(Lexeme::PseudoOperation(PseudoOperation::End)) => {},
            Some(lexeme) => {
                lemma_statement_advances(options, items, lexeme, pos + 1, address, None);
                let statement = spec_statement(options, items, lexeme, pos + 1, address, None);
                let following = address_after(address, statement.outcome->Ok_0.len() as int)->0;
                lemma_pass_goes_through(options, items, statement.next, following, table, target);
            },
        }
    }
}

/// A label that is declared when the first pass starts is declared at each
/// place that the pass comes to.
pub proof fn lemma_arrival_keeps_labels(
    options: Lc2Assembler,
    items: Seq<Option<Lexeme>>,
    pos: int,
    address: u16,
    table: Map<Seq<u8>, u16>,
    target: int,
    name: Seq<u8>,
)
    requires
        0 <= pos <= items.len(),
        table.contains_key(name),
        spec_arrival(options, items, pos, address, table, target) is Some,
    ensures
        spec_arrival(options, items, pos, address, table, target)->Some_0.table.contains_key(name),
    decreases items.len() - pos,
{
    if pos != target {
        match items[pos] {
            None => {},
            Some(Lexeme::Comment(_)) => {
                lemma_arrival_keeps_labels(options, items, pos + 1, address, table, target, name);
            },
            Some(Lexeme::Label(other)) => {
                let colon = spec_skip_token(items, pos + 1, Lexeme::Colon);
                lemma_arrival_keeps_labels(
                    options,
                    items,
                    colon.next,
                    address,
                    table.insert(other, address),
                    target,
                    name,
                );
            },
            Some(Lexeme::PseudoOperation(PseudoOperation::End)) => {},
            Some(lexeme) => {
                lemma_statement_advances(options, items, lexeme, pos + 1, address, None);
                let statement = spec_statement(options, items, lexeme, pos + 1, address, None);
                let following = address_after(address, statement.outcome->Ok_0.len() as int)->0;
                lemma_arrival_keeps_labels(
                    options,
                    items,
                    statement.next,
                    following,
                    table,
                    target,
                    name,
                );
            },
        }
    }
}

/// The way of the first pass to a later place leads through each earlier
/// place that the pass comes to.
pub proof fn lemma_arrival_in_two_steps(
    options: Lc2Assembler,
    items: Seq<Option<Lexeme>>,
    pos: int,
    address: u16,
    table: Map<Seq<u8>, u16>,
    first: int,
    second: int,
)
    requires
        0 <= pos <= items.len(),
        first <= second,
        spec_arrival(options, items, pos, address, table, first) is Some,
    ensures
        spec_arrival(options, items, pos, address, table, second) == spec_arrival(
            options,
            items,
            first,
            spec_arrival(options, items, pos, address, table, first)->Some_0.address,
            spec_arrival(options, items, pos, address, table, first)->Some_0.table,
            second,
        ),
    decreases items.len() - pos,
{
    if pos != first {
        match items[pos] {
            None => {},
            Some(Lexeme::Comment(_)) => {
                lemma_arrival_in_two_steps(options, items, pos + 1, address, table, first, second);
            },
            Some(Lexeme::Label(name)) => {
                let colon = spec_skip_token(items, pos + 1, Lexeme::Colon);
                lemma_arrival_in_two_steps(
                    options,
                    items,
                    colon.next,
                    address,
                    table.insert(name, address),
                    first,
                    second,
                );
            },
            Some(Lexeme::PseudoOperation(PseudoOperation::End)) => {},
            Some(lexeme) => {
                lemma_statement_advances(options, items, lexeme, pos + 1, address, None);
                let statement = spec_statement(options, items, lexeme, pos + 1, address, None);
                let following = address_after(address, statement.outcome->Ok_0.len() as int)->0;
                lemma_arrival_in_two_steps(
                    options,
                    items,
                    statement.next,
                    following,
                    table,
                    first,
                    second,
                );
            },
        }
    }
}

/// A label cannot be declared twice, wherever the two declarations stand and
/// whatever their addresses: where the first pass comes to a label, and
/// later to a label of the same name, it fails with `LabelRedeclaration`.
pub proof fn lemma_duplicate_label_fails(
    options: Lc2Assembler,
    items: Seq<Option<Lexeme>>,
    pos: int,
    address: u16,
    table: Map<Seq<u8>, u16>,
    first: int,
    second: int,
    name: Seq<u8>,
)
    requires
        0 <= pos <= first < second < items.len(),
        items[first] == Some(Lexeme::Label(name)),
        items[second] == Some(Lexeme::Label(name)),
        spec_arrival(options, items, pos, address, table, first) is Some,
        spec_arrival(options, items, pos, address, table, second) is Some,
    ensures
        spec_gather(options, items, pos, address, table).outcome == Err::<
            (Map<Seq<u8>, u16>, bool),
            ParseError,
        >(ParseError::LabelRedeclaration),
{
    let at_first = spec_arrival(options, items, pos, address, table, first)->Some_0;
    lemma_arrival_in_two_steps(options, items, pos, address, table, first, second);
    let colon = spec_skip_token(items, first + 1, Lexeme::Colon);
    let declared = at_first.table.insert(name, at_first.address);
    assert(spec_arrival(options, items, colon.next, at_first.address, declared, second) is Some);
    lemma_arrival_keeps_labels(options, items, colon.next, at_first.address, declared, second, name);
    lemma_pass_goes_through(options, items, pos, address, table, second);
    let at_second = spec_arrival(options, items, pos, address, table, second)->Some_0;
    lemma_redeclaration_fails(options, items, second, at_second.address, at_second.table, name);
}

/// A program that declares a label twice is refused: where the first pass
/// over a whole program finds its start address and then comes to a label,
/// and later to a label of the same name, it fails with
/// `LabelRedeclaration`.
pub proof fn lemma_program_with_duplicate_label_fails(
    options: Lc2Assembler,
    items: Seq<Option<Lexeme>>,
    first: int,
    second: int,
    name: Seq<u8>,
)
    requires
        first < second < items.len(),
        items[first] == Some(Lexeme::Label(name)),
        items[second] == Some(Lexeme::Label(name)),
        spec_parse_start_address(items, 0, options.optional_starting_orig).outcome is Ok,
        spec_arrival(
            options,
            items,
            spec_parse_start_address(items, 0, options.optional_starting_orig).next,
            spec_parse_start_address(items, 0, options.optional_starting_orig).outcome->Ok_0,
            Map::empty(),
            first,
        ) is Some,
        spec_arrival(
            options,
            items,
            spec_parse_start_address(items, 0, options.optional_starting_orig).next,
            spec_parse_start_address(items, 0, options.optional_starting_orig).outcome->Ok_0,
            Map::empty(),
            second,
        ) is Some,
    ensures
        spec_build_symbol_table(options, items, 0).outcome == Err::<
            Map<Seq<u8>, u16>,
            ParseError,
        >(ParseError::LabelRedeclaration),
{
    let start = spec_parse_start_address(items, 0, options.optional_starting_orig);
    lemma_start_address_advances(items, 0, options.optional_starting_orig);
    lemma_pass_goes_through(options, items, start.next, start.outcome->Ok_0, Map::empty(), first);
    lemma_duplicate_label_fails(
        options,
        items,
        start.next,
        start.outcome->Ok_0,
        Map::empty(),
        first,
        second,
        name,
    );
}

} // verus!
