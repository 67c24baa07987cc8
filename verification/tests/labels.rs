use assemblers::lc2::Lc2AssemblerBuilder;
use assemblers::{Assembler, ParseError};

#[test]
fn get_labels() {
    let assembler = Lc2AssemblerBuilder::default().build();

    let (binary, symbol_table) = assembler
        .assemble(
            r"
            .orig 0x3000

            label_1:
            label_2:
              .fill 0x1234

            label_3 .fill 0x5678

            .end
            ",
        )
        .unwrap();

    assert_eq!(binary, [0x30, 0x00, 0x12, 0x34, 0x56, 0x78]);
    assert_eq!(symbol_table.get("label_1"), Some(&0x3000));
    assert_eq!(symbol_table.get("label_2"), Some(&0x3000));
    assert_eq!(symbol_table.get("label_3"), Some(&0x3001));
}

#[test]
fn label_redeclaration() {
    let assembler = Lc2AssemblerBuilder::default().build();

    let error = assembler.assemble(
        r"
            .orig 0x3000

            label:
              .fill 0x1234

            label .fill 0x5678

            .end
            ",
    );

    assert_eq!(error, Err(ParseError::LabelRedeclaration));
}

#[test]
fn two_labels_one_after_the_other() {
    let assembler = Lc2AssemblerBuilder::default().build();

    let (_binary, symbol_table) = assembler
        .assemble(".orig 0x3000\nlabel:\n .fill 0x1234\nlabel2 .fill 0x5678\n.end")
        .unwrap();

    assert_eq!(symbol_table.get("label"), Some(&0x3000));
    assert_eq!(symbol_table.get("label2"), Some(&0x3001));
    assert_eq!(symbol_table.get("label3"), None);
    assert!(!symbol_table.is_empty());
}

#[test]
fn label_redeclaration_at_the_same_address() {
    let assembler = Lc2AssemblerBuilder::default().build();

    let error = assembler.assemble(".orig 0x3000\nlabel:\nlabel:\n.fill 1\n.end");

    assert_eq!(error, Err(ParseError::LabelRedeclaration));
}

#[test]
fn labels_differ_by_case() {
    let assembler = Lc2AssemblerBuilder::default().build();

    let (_binary, symbol_table) = assembler
        .assemble(".orig 0x3000\nloop: .fill 1\nLoop: .fill 2\n.end")
        .unwrap();

    assert_eq!(symbol_table.get("loop"), Some(&0x3000));
    assert_eq!(symbol_table.get("Loop"), Some(&0x3001));
    assert_eq!(symbol_table.get("LOOP"), None);
}

#[test]
fn label_used_before_it_is_declared() {
    let assembler = Lc2AssemblerBuilder::default().build();

    let (binary, symbol_table) = assembler
        .assemble(".orig 0x3000\nBR later\n.fill 7\nlater: .fill 9\n.end")
        .unwrap();

    assert_eq!(binary, [0x30, 0x00, 0x0E, 0x02, 0x00, 0x07, 0x00, 0x09]);
    assert_eq!(symbol_table.get("later"), Some(&0x3002));
}

#[test]
fn label_not_declared() {
    let assembler = Lc2AssemblerBuilder::default().build();

    let error = assembler.assemble(".orig 0x3000\nBR nowhere\n.end");

    assert_eq!(error, Err(ParseError::LabelNotDeclared));
}

#[test]
fn label_not_on_same_page() {
    let assembler = Lc2AssemblerBuilder::default().build();

    let error = assembler.assemble(".orig 0x3000\nfar: .blkw 600\nBR far\n.end");

    assert_eq!(error, Err(ParseError::LabelNotOnSamePage));
}

#[test]
fn label_on_same_page_gives_its_low_nine_bits() {
    let assembler = Lc2AssemblerBuilder::default().build();

    let (binary, _symbol_table) = assembler
        .assemble(".orig 0x31ff\nlast: LD R1, last\n.end")
        .unwrap();

    assert_eq!(binary, [0x31, 0xff, 0x23, 0xff]);
}

#[test]
fn label_at_the_end_of_the_text() {
    let assembler = Lc2AssemblerBuilder::default().optional_end(true).build();

    let (binary, symbol_table) = assembler.assemble(".orig 0x3000\nlast").unwrap();

    assert_eq!(binary, [0x30, 0x00]);
    assert_eq!(symbol_table.get("last"), Some(&0x3000));
}

#[test]
fn label_and_colon_at_the_end_of_the_text() {
    let assembler = Lc2AssemblerBuilder::default().optional_end(true).build();

    let (binary, symbol_table) = assembler
        .assemble(".orig 0x3000\n.fill 1\nlast:")
        .unwrap();

    assert_eq!(binary, [0x30, 0x00, 0x00, 0x01]);
    assert_eq!(symbol_table.get("last"), Some(&0x3001));
}

#[test]
fn label_before_what_is_no_token() {
    let assembler = Lc2AssemblerBuilder::default().optional_end(true).build();

    let error = assembler.assemble(".orig 0x3000\nlast @");

    assert_eq!(error, Err(ParseError::NonValidToken));
}

#[test]
fn label_at_the_end_of_a_text_that_must_end_with_end() {
    let assembler = Lc2AssemblerBuilder::default().build();

    let error = assembler.assemble(".orig 0x3000\nlast");

    assert_eq!(error, Err(ParseError::NoEnd));
}

#[test]
fn label_declared_twice_far_apart() {
    let assembler = Lc2AssemblerBuilder::default().build();

    let error = assembler.assemble(
        ".orig 0x3000\nsame: ADD R0, R0, R0\n.blkw 5\nBR same\nother: .fill 1\nsame .fill 2\n.end",
    );

    assert_eq!(error, Err(ParseError::LabelRedeclaration));
}
