use assemblers::lc2::{Lc2Assembler, Lc2AssemblerBuilder};
use assemblers::{Assembler, ParseError};

#[test]
fn defaults_of_the_builder() {
    let expected = Lc2Assembler {
        optional_starting_orig: false,
        multiple_origs: false,
        optional_end: false,
        nothing_after_end: true,
        enable_stringzp: false,
        prepend_start_address: true,
    };

    assert_eq!(Lc2AssemblerBuilder::new().build(), expected);
    assert_eq!(Lc2AssemblerBuilder::default().build(), expected);
}

#[test]
fn each_choice_of_the_builder() {
    let assembler = Lc2AssemblerBuilder::new()
        .optional_starting_orig(true)
        .multiple_origs(true)
        .optional_end(true)
        .nothing_after_end(false)
        .enable_stringzp(true)
        .prepend_start_address(false)
        .build();

    assert_eq!(
        assembler,
        Lc2Assembler {
            optional_starting_orig: true,
            multiple_origs: true,
            optional_end: true,
            nothing_after_end: false,
            enable_stringzp: true,
            prepend_start_address: false,
        }
    );
}

#[test]
fn a_later_choice_replaces_an_earlier_one() {
    let mut builder = Lc2AssemblerBuilder::new();
    builder.optional_end(true);
    builder.optional_end(false);
    builder.enable_stringzp(true);

    let assembler = builder.build();
    assert!(!assembler.optional_end);
    assert!(assembler.enable_stringzp);
    assert!(assembler.nothing_after_end);

    // The builder can be used again.
    assert_eq!(builder.build(), assembler);
}

#[test]
fn same_source_and_configuration_same_output() {
    let source = ".orig 0x3000\nstart: LEA R0, text\nPUTS\nBR start\ntext: .stringz \"hi\"\n.end";
    let first = Lc2AssemblerBuilder::default().build();
    let second = Lc2AssemblerBuilder::default().build();

    let one = first.assemble(source);
    let two = first.assemble(source);
    let three = second.assemble(source);

    assert!(one.is_ok());
    assert_eq!(one, two);
    assert_eq!(one, three);

    let (binary, symbol_table) = one.unwrap();
    assert_eq!(
        binary,
        [
            0x30, 0x00, 0xE0, 0x03, 0xF0, 0x22, 0x0E, 0x00, 0x00, b'h', 0x00, b'i', 0x00, 0x00
        ]
    );
    assert_eq!(symbol_table.get("start"), Some(&0x3000));
    assert_eq!(symbol_table.get("text"), Some(&0x3003));
}

#[test]
fn same_failure_each_time() {
    let assembler = Lc2AssemblerBuilder::default().build();
    let source = ".orig 0x3000\nBR nowhere\n.end";

    assert_eq!(assembler.assemble(source), assembler.assemble(source));
    assert_eq!(
        assembler.assemble(source),
        Err(ParseError::LabelNotDeclared)
    );
}

#[test]
fn every_error_has_its_message() {
    let errors = [
        ParseError::NonValidToken,
        ParseError::NoMoreTokens,
        ParseError::UnexpectedToken,
        ParseError::NoOrig,
        ParseError::OrigNotFirst,
        ParseError::OutOfOrderOrigs,
        ParseError::TooManyOrig,
        ParseError::NoEnd,
        ParseError::EndNotLast,
        ParseError::BinaryTooBig,
        ParseError::NumberLiteralTooBig,
        ParseError::NumberLiteralIsNegative,
        ParseError::LabelRedeclaration,
        ParseError::LabelNotDeclared,
        ParseError::LabelNotOnSamePage,
    ];

    for (i, error) in errors.iter().enumerate() {
        assert!(!error.message().is_empty());
        for other in &errors[i + 1..] {
            assert_ne!(error.message(), other.message());
        }
    }
    assert_eq!(ParseError::NonValidToken.message(), "Token is not valid");
    assert_eq!(
        ParseError::NoOrig.message(),
        "The assembly should contain an \".orig\" directive"
    );
    assert_eq!(
        ParseError::BinaryTooBig.message(),
        "The binary size exceeds the 65536 word limit"
    );
}
