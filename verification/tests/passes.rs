use assemblers::lc2::lexer::tokenize;
use assemblers::lc2::parser::token_helpers::{TokenHelpers, TokenStream};
use assemblers::lc2::parser::token_operations::TokenOperations;
use assemblers::lc2::parser::{assemble, build_symbol_table, to_big_endian};
use assemblers::lc2::token::{Operation, PseudoOperation, Token};
use assemblers::lc2::Lc2AssemblerBuilder;
use assemblers::{ParseError, SymbolTable};

fn stream(source: &str) -> TokenStream {
    TokenStream::new(tokenize(source))
}

#[test]
fn first_pass_twice_gives_the_same_table() {
    let options = Lc2AssemblerBuilder::default().build();
    let source = ".orig 0x3000\na: .fill 1\nb: ADD R0, R0, R0\nc: .blkw 3\n.end";

    let first = build_symbol_table(&options, &mut stream(source)).unwrap();
    let second = build_symbol_table(&options, &mut stream(source)).unwrap();

    assert_eq!(first, second);
    assert_eq!(first.get("a"), Some(&0x3000));
    assert_eq!(first.get("b"), Some(&0x3001));
    assert_eq!(first.get("c"), Some(&0x3002));
}

#[test]
fn first_pass_again_after_rewinding() {
    let options = Lc2AssemblerBuilder::default().build();
    let mut lexer = stream(".orig 0x3000\na: .fill 1\nb: .fill 2\n.end");

    let first = build_symbol_table(&options, &mut lexer).unwrap();
    lexer.rewind();
    let second = build_symbol_table(&options, &mut lexer).unwrap();

    assert_eq!(first, second);
}

#[test]
fn first_pass_does_not_look_labels_up() {
    let options = Lc2AssemblerBuilder::default().build();

    let table = build_symbol_table(&options, &mut stream(".orig 0x3000\nBR nowhere\n.end")).unwrap();

    assert!(table.is_empty());
}

#[test]
fn second_pass_with_a_table_of_its_own() {
    let options = Lc2AssemblerBuilder::default().build();
    let mut table: SymbolTable<u16> = SymbolTable::new();
    table.declare(b"elsewhere".to_vec(), 0x30ab);

    let binary = assemble(
        &options,
        &mut stream(".orig 0x3000\nLD R2, elsewhere\n.end"),
        &table,
    );

    assert_eq!(binary, Ok(vec![0x30, 0x00, 0x24, 0xab]));
}

#[test]
fn second_pass_checks_as_the_first_does() {
    let options = Lc2AssemblerBuilder::default().build();
    let table: SymbolTable<u16> = SymbolTable::new();

    assert_eq!(
        assemble(&options, &mut stream(".orig 0x3000\n.orig 0x4000\n.end"), &table),
        Err(ParseError::TooManyOrig)
    );
    assert_eq!(
        assemble(&options, &mut stream(".orig 0xffff\n.fill 1\n.end"), &table),
        Err(ParseError::BinaryTooBig)
    );
    assert_eq!(
        assemble(&options, &mut stream(".orig 0x3000\n.stringzp \"a\"\n.end"), &table),
        Err(ParseError::NonValidToken)
    );

    let options = Lc2AssemblerBuilder::default().multiple_origs(true).build();
    assert_eq!(
        assemble(&options, &mut stream(".orig 0x3000\n.orig 0x2000\n.end"), &table),
        Err(ParseError::OutOfOrderOrigs)
    );
}

#[test]
fn second_pass_stops_at_end() {
    let options = Lc2AssemblerBuilder::default().build();
    let table: SymbolTable<u16> = SymbolTable::new();

    assert_eq!(
        assemble(&options, &mut stream(".orig 0x3000\n.fill 1\n.end\n.fill 2"), &table),
        Ok(vec![0x30, 0x00, 0x00, 0x01])
    );
}

#[test]
fn words_as_bytes() {
    assert_eq!(to_big_endian(&[]), Vec::<u8>::new());
    assert_eq!(to_big_endian(&[0x1234]), vec![0x12, 0x34]);
    assert_eq!(
        to_big_endian(&[0x00ff, 0xff00, 0xabcd]),
        vec![0x00, 0xff, 0xff, 0x00, 0xab, 0xcd]
    );
}

#[test]
fn taking_tokens_one_by_one() {
    let mut lexer = stream("ADD , 5");

    assert_eq!(
        lexer.peek_next_token(),
        Ok(&Token::Operation(Operation::Add))
    );
    assert_eq!(lexer.next_token(), Ok(Token::Operation(Operation::Add)));
    assert_eq!(lexer.next_token_skip(Token::Comma), Ok(Token::Number(5)));
    assert_eq!(lexer.peek_next_token(), Err(ParseError::NoMoreTokens));
    assert_eq!(lexer.next_token(), Err(ParseError::NoMoreTokens));
    assert_eq!(
        lexer.next_token_skip(Token::Comma),
        Err(ParseError::NoMoreTokens)
    );

    lexer.rewind();
    assert_eq!(lexer.next_token(), Ok(Token::Operation(Operation::Add)));
}

#[test]
fn taking_what_is_no_token() {
    let mut lexer = stream("@ R1");

    assert_eq!(lexer.peek_next_token(), Err(ParseError::NonValidToken));
    assert_eq!(lexer.next_token(), Err(ParseError::NonValidToken));
    assert_eq!(lexer.get_register(), Ok(1));
}

#[test]
fn skipping_a_token() {
    let mut lexer = stream(": :");

    assert_eq!(lexer.skip_token(Token::Comma), Ok(()));
    assert_eq!(lexer.peek_next_token(), Ok(&Token::Colon));
    assert_eq!(lexer.skip_token(Token::Colon), Ok(()));
    assert_eq!(lexer.skip_token(Token::Colon), Ok(()));
    assert_eq!(lexer.skip_token(Token::Colon), Ok(()));
    assert_eq!(lexer.peek_next_token(), Err(ParseError::NoMoreTokens));
}

#[test]
fn skipping_what_is_no_token() {
    let mut lexer = stream("@ :");

    assert_eq!(
        lexer.skip_token(Token::Colon),
        Err(ParseError::NonValidToken)
    );
    assert_eq!(lexer.next_token(), Err(ParseError::NonValidToken));
    assert_eq!(lexer.skip_token(Token::Colon), Ok(()));
    assert_eq!(lexer.next_token(), Err(ParseError::NoMoreTokens));
}

#[test]
fn taking_operands() {
    let mut lexer = stream("R3 , R9 63 , 64 511 512 -1 name");

    assert_eq!(lexer.get_register(), Ok(3));
    assert_eq!(
        lexer.get_register_skip_comma(),
        Err(ParseError::UnexpectedToken)
    );
    assert_eq!(lexer.get_index6(), Ok(63));
    assert_eq!(lexer.get_index6(), Err(ParseError::NumberLiteralTooBig));
    assert_eq!(lexer.get_pgoffset9(None, false), Ok(511));
    assert_eq!(
        lexer.get_pgoffset9(None, true),
        Err(ParseError::NumberLiteralTooBig)
    );
    assert_eq!(
        lexer.get_pgoffset9(None, false),
        Err(ParseError::NumberLiteralIsNegative)
    );
    assert_eq!(lexer.get_pgoffset9(None, false), Ok(0));
    assert_eq!(lexer.get_register(), Err(ParseError::NoMoreTokens));
}

#[test]
fn registers_count_by_their_low_three_bits() {
    let mut lexer = TokenStream::new(vec![Ok(Token::Register(0xff)), Ok(Token::Register(8))]);

    assert_eq!(lexer.get_register(), Ok(7));
    assert_eq!(lexer.get_register_skip_comma(), Ok(0));
}

#[test]
fn labels_as_page_offsets() {
    let mut table: SymbolTable<u16> = SymbolTable::new();
    table.declare(b"near".to_vec(), 0x31ff);
    table.declare(b"far".to_vec(), 0x3200);

    let mut lexer = stream("near far away near");

    assert_eq!(lexer.get_pgoffset9(Some((&table, 0x3000)), false), Ok(0x1ff));
    assert_eq!(
        lexer.get_pgoffset9(Some((&table, 0x3000)), false),
        Err(ParseError::LabelNotOnSamePage)
    );
    assert_eq!(
        lexer.get_pgoffset9(Some((&table, 0x3000)), false),
        Err(ParseError::LabelNotDeclared)
    );
    assert_eq!(
        lexer.get_pgoffset9(Some((&table, 0x3200)), false),
        Err(ParseError::LabelNotOnSamePage)
    );
}

#[test]
fn start_addresses() {
    assert_eq!(stream(".orig 0x3000").parse_start_address(false), Ok(0x3000));
    assert_eq!(
        stream("; first\n// second\n.orig 12").parse_start_address(false),
        Ok(12)
    );
    assert_eq!(stream(".fill 1").parse_start_address(true), Ok(0));
    assert_eq!(
        stream(".fill 1").parse_start_address(false),
        Err(ParseError::NoOrig)
    );
    assert_eq!(
        stream(".fill 1 .orig 2").parse_start_address(false),
        Err(ParseError::OrigNotFirst)
    );
    assert_eq!(
        stream(".fill 1 @ .orig 2").parse_start_address(false),
        Err(ParseError::OrigNotFirst)
    );
    assert_eq!(stream("").parse_start_address(true), Ok(0));
    assert_eq!(stream("; nothing").parse_start_address(true), Ok(0));
    assert_eq!(
        stream("").parse_start_address(false),
        Err(ParseError::NoOrig)
    );
    assert_eq!(
        stream("; nothing").parse_start_address(false),
        Err(ParseError::NoOrig)
    );
    assert_eq!(
        stream("@").parse_start_address(true),
        Err(ParseError::NonValidToken)
    );
}

#[test]
fn the_search_for_orig_takes_the_tokens_up_to_it() {
    let mut lexer = stream(".fill 1 .orig 2 .end");

    assert_eq!(
        lexer.parse_start_address(false),
        Err(ParseError::OrigNotFirst)
    );
    assert_eq!(lexer.next_token(), Ok(Token::Number(2)));
}

#[test]
fn words_of_directives() {
    assert_eq!(
        stream("7").parse_pseudo_operation(PseudoOperation::Orig),
        Ok(vec![7])
    );
    assert_eq!(
        stream("7").parse_pseudo_operation(PseudoOperation::Fill),
        Ok(vec![7])
    );
    assert_eq!(
        stream("\"ab\"").parse_pseudo_operation(PseudoOperation::Stringz),
        Ok(vec![0x61, 0x62, 0])
    );
    assert_eq!(
        stream("\"abc\"").parse_pseudo_operation(PseudoOperation::Stringzp),
        Ok(vec![0x6261, 0x0063])
    );
    assert_eq!(
        stream("\"abcd\"").parse_pseudo_operation(PseudoOperation::Stringzp),
        Ok(vec![0x6261, 0x6463, 0])
    );
    assert_eq!(
        stream("3 9").parse_pseudo_operation(PseudoOperation::Blkw),
        Ok(vec![9, 9, 9])
    );
    assert_eq!(
        stream("7").parse_pseudo_operation(PseudoOperation::End),
        Ok(vec![])
    );
}

#[test]
fn words_of_instructions() {
    assert_eq!(
        stream("R1, R2, -3").parse_operation(Operation::Add, None),
        Ok(vec![0x12bd])
    );
    assert_eq!(
        stream("somewhere").parse_operation(Operation::Jump(true), None),
        Ok(vec![0x4800])
    );
    assert_eq!(
        stream("").parse_operation(Operation::Return, None),
        Ok(vec![0xd000])
    );
    assert_eq!(
        stream("").parse_operation(Operation::ReturnInterrupt, None),
        Ok(vec![0x8000])
    );
    assert_eq!(
        stream("").parse_operation(Operation::Trap(Some(0x25)), None),
        Ok(vec![0xf025])
    );
    assert_eq!(
        stream("0x21").parse_operation(Operation::Trap(None), None),
        Ok(vec![0xf021])
    );
}
