use assemblers::lc2::lexer::tokenize;
use assemblers::lc2::token::Token;

fn first_token(source: &str) -> Result<Token, ()> {
    tokenize(source).into_iter().next().unwrap()
}

#[test]
fn decimal() {
    assert_eq!(first_token("5"), Ok(Token::Number(5)));
    assert_eq!(first_token("#5"), Ok(Token::Number(5)));
    assert_eq!(first_token("-5"), Ok(Token::Number(!5 + 1)));
    assert_eq!(first_token("#-5"), Ok(Token::Number(!5 + 1)));

    // Zero
    assert_eq!(first_token("0"), Ok(Token::Number(0)));
    assert_eq!(first_token("#0"), Ok(Token::Number(0)));
    assert_eq!(first_token("-0"), Ok(Token::Number(0)));
    assert_eq!(first_token("#-0"), Ok(Token::Number(0)));

    // u16::MAX
    assert_eq!(first_token("65535"), Ok(Token::Number(65535)));
    assert_eq!(first_token("#65535"), Ok(Token::Number(65535)));
    assert_eq!(first_token("-65535"), Ok(Token::Number(1)));
    assert_eq!(first_token("#-65535"), Ok(Token::Number(1)));

    // u16::MAX + 1
    assert_eq!(first_token("65536"), Err(()));
    assert_eq!(first_token("#65536"), Err(()));
    assert_eq!(first_token("-65536"), Err(()));
    assert_eq!(first_token("#-65536"), Err(()));
}

#[test]
fn binary() {
    assert_eq!(first_token("0b1010"), Ok(Token::Number(10)));
    assert_eq!(first_token("b1010"), Ok(Token::Number(10)));
    assert_eq!(first_token("%1010"), Ok(Token::Number(10)));

    // Zero
    assert_eq!(first_token("0b0"), Ok(Token::Number(0)));
    assert_eq!(first_token("b0"), Ok(Token::Number(0)));
    assert_eq!(first_token("%0"), Ok(Token::Number(0)));

    // u16::MAX
    assert_eq!(
        first_token("0b1111111111111111"),
        Ok(Token::Number(65535))
    );
    assert_eq!(first_token("b1111111111111111"), Ok(Token::Number(65535)));
    assert_eq!(first_token("%1111111111111111"), Ok(Token::Number(65535)));

    // u16::MAX + 1
    assert_eq!(first_token("0b10000000000000000"), Err(()));
    assert_eq!(first_token("b10000000000000000"), Err(()));
    assert_eq!(first_token("%10000000000000000"), Err(()));
}

#[test]
fn hexadecimal() {
    assert_eq!(first_token("0x10"), Ok(Token::Number(16)));
    assert_eq!(first_token("x10"), Ok(Token::Number(16)));
    assert_eq!(first_token("$10"), Ok(Token::Number(16)));

    // Zero
    assert_eq!(first_token("0x0"), Ok(Token::Number(0)));
    assert_eq!(first_token("x0"), Ok(Token::Number(0)));
    assert_eq!(first_token("$0"), Ok(Token::Number(0)));

    // u16::MAX
    assert_eq!(first_token("0xffff"), Ok(Token::Number(65535)));
    assert_eq!(first_token("xffff"), Ok(Token::Number(65535)));
    assert_eq!(first_token("$ffff"), Ok(Token::Number(65535)));

    // u16::MAX + 1
    assert_eq!(first_token("0x10000"), Err(()));
    assert_eq!(first_token("x10000"), Err(()));
    assert_eq!(first_token("$10000"), Err(()));
}

#[test]
fn numbers_with_leading_zeros() {
    assert_eq!(first_token("000000000005"), Ok(Token::Number(5)));
    assert_eq!(first_token("#-0000005"), Ok(Token::Number(0xfffb)));
    assert_eq!(first_token("0x00000ffff"), Ok(Token::Number(0xffff)));
    assert_eq!(first_token("%00000000000000000001"), Ok(Token::Number(1)));
}

#[test]
fn numbers_in_capitals() {
    assert_eq!(first_token("0XABCD"), Ok(Token::Number(0xabcd)));
    assert_eq!(first_token("XaBcD"), Ok(Token::Number(0xabcd)));
    assert_eq!(first_token("$AbCd"), Ok(Token::Number(0xabcd)));
    assert_eq!(first_token("0B101"), Ok(Token::Number(5)));
    assert_eq!(first_token("B101"), Ok(Token::Number(5)));
}

#[test]
fn negative_numbers_in_twos_complement() {
    assert_eq!(first_token("-1"), Ok(Token::Number(0xffff)));
    assert_eq!(first_token("-16"), Ok(Token::Number(0xfff0)));
    assert_eq!(first_token("-32768"), Ok(Token::Number(0x8000)));
    assert_eq!(first_token("-32769"), Ok(Token::Number(0x7fff)));
}

#[test]
fn marks_without_digits() {
    assert_eq!(tokenize("#"), vec![Err(())]);
    assert_eq!(tokenize("-"), vec![Err(())]);
    assert_eq!(tokenize("%"), vec![Err(())]);
    assert_eq!(tokenize("$"), vec![Err(())]);
    assert_eq!(tokenize("#-"), vec![Err(()), Err(())]);
    assert_eq!(
        tokenize("%2"),
        vec![Err(()), Ok(Token::Number(2))]
    );
    assert_eq!(
        tokenize("$g"),
        vec![Err(()), Ok(Token::Label(b"g".to_vec()))]
    );
}

#[test]
fn numbers_end_where_their_digits_end() {
    assert_eq!(
        tokenize("5-3"),
        vec![Ok(Token::Number(5)), Ok(Token::Number(0xfffd))]
    );
    assert_eq!(
        tokenize("%1012"),
        vec![Ok(Token::Number(5)), Ok(Token::Number(2))]
    );
    assert_eq!(
        tokenize("#12ab"),
        vec![Ok(Token::Number(12)), Ok(Token::Label(b"ab".to_vec()))]
    );
    assert_eq!(
        tokenize("$ffg"),
        vec![Ok(Token::Number(255)), Ok(Token::Label(b"g".to_vec()))]
    );
}

#[test]
fn words_that_only_look_like_numbers() {
    assert_eq!(first_token("12ab"), Ok(Token::Label(b"12ab".to_vec())));
    assert_eq!(first_token("0b102"), Ok(Token::Label(b"0b102".to_vec())));
    assert_eq!(first_token("0xfg"), Ok(Token::Label(b"0xfg".to_vec())));
    assert_eq!(first_token("00b1"), Ok(Token::Label(b"00b1".to_vec())));
    assert_eq!(first_token("b"), Ok(Token::Label(b"b".to_vec())));
    assert_eq!(first_token("x"), Ok(Token::Label(b"x".to_vec())));
    assert_eq!(first_token("0x"), Ok(Token::Label(b"0x".to_vec())));
}
