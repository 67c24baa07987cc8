//! The tokenizer: from the bytes of a source text to its tokens.
use crate::lc2::token::{
    directive_named,
    item_of,
    items_of,
    operation_named,
    to_upper,
    upper,
    Lexeme,
    Operation,
    PseudoOperation,
    Token,
};
use crate::text::copy_bytes;
use vstd::prelude::*;
use vstd::slice::slice_subrange;
use vstd::string::*;

verus! {

/// A set of bytes that a run in the text is made of.
#[derive(Debug, Clone, Copy, PartialEq, Eq)]
pub enum ByteClass {
    /// A blank, a tab, a line feed, a vertical tab, a form feed or a
    /// carriage return.
    Space,
    /// `0` to `9`.
    Digit,
    /// `0` or `1`.
    BinaryDigit,
    /// A digit, or a letter from `a` to `f` in either case.
    HexDigit,
    /// A digit, an ASCII letter or `_`.
    Word,
    /// Any byte but a line feed.
    Line,
}

/// Whether `byte` is one of `class`.
pub open spec fn belongs(byte: u8, class: ByteClass) -> bool {
    match class {
        ByteClass::Space => byte == ' ' as u8 || (9 <= byte && byte <= 13),
        ByteClass::Digit => '0' as u8 <= byte && byte <= '9' as u8,
        ByteClass::BinaryDigit => byte == '0' as u8 || byte == '1' as u8,
        ByteClass::HexDigit => ('0' as u8 <= byte && byte <= '9' as u8) || ('A' as u8 <= upper(byte)
            && upper(byte) <= 'F' as u8),
        ByteClass::Word => ('0' as u8 <= byte && byte <= '9' as u8) || ('A' as u8 <= upper(byte)
            && upper(byte) <= 'Z' as u8) || byte == '_' as u8,
        ByteClass::Line => byte != '\n' as u8,
    }
}

/// The end of the longest run of bytes of `class` that starts at `pos`.
pub open spec fn run_end(text: Seq<u8>, pos: int, class: ByteClass) -> int
    decreases text.len() - pos,
{
    if 0 <= pos < text.len() && belongs(text[pos], class) {
        run_end(text, pos + 1, class)
    } else {
        pos
    }
}

/// A run ends at or after its start, within the text, and holds only bytes
/// of its class.
pub proof fn lemma_run_end(text: Seq<u8>, pos: int, class: ByteClass)
    requires
        0 <= pos <= text.len(),
    ensures
        pos <= run_end(text, pos, class) <= text.len(),
        forall|i: int| pos <= i < run_end(text, pos, class) ==> belongs(#[trigger] text[i], class),
        run_end(text, pos, class) < text.len() ==> !belongs(
            text[run_end(text, pos, class)],
            class,
        ),
    decreases text.len() - pos,
{
    if pos < text.len() && belongs(text[pos], class) {
        lemma_run_end(text, pos + 1, class);
    }
}

/// The value of a digit: `0` to `9` count 0 to 9, `a` to `f` count 10 to 15
/// in either case.
pub open spec fn digit_value(byte: u8) -> int {
    if '0' as u8 <= byte && byte <= '9' as u8 {
        byte - '0' as u8
    } else {
        upper(byte) - 'A' as u8 + 10
    }
}

/// Whether `byte` is a digit of the number system with `base`.
pub open spec fn is_digit_of(byte: u8, base: u32) -> bool {
    belongs(byte, ByteClass::HexDigit) && digit_value(byte) < base
}

/// The number that `digits` write in the number system with `base`.
pub open spec fn digits_value(digits: Seq<u8>, base: int) -> int
    decreases digits.len(),
{
    if digits.len() == 0 {
        0
    } else {
        digits_value(digits.drop_last(), base) * base + digit_value(digits.last())
    }
}

/// The length of what marks the number system at the start of a number:
/// `#` for 10; `%`, `b` or `0b` for 2; `$`, `x` or `0x` for 16, the letters in
/// either case. A decimal number may go without.
pub open spec fn prefix_length(text: Seq<u8>, base: u32) -> int {
    if base == 10 {
        if text.len() > 0 && text[0] == '#' as u8 {
            1
        } else {
            0
        }
    } else {
        let sign = if base == 2 {
            '%' as u8
        } else {
            '$' as u8
        };
        let letter = if base == 2 {
            'B' as u8
        } else {
            'X' as u8
        };
        if text.len() > 0 && (text[0] == sign || upper(text[0]) == letter) {
            1
        } else if text.len() > 1 && text[0] == '0' as u8 && upper(text[1]) == letter {
            2
        } else {
            0
        }
    }
}

/// Whether the number that `text` writes has a minus sign, which only a
/// decimal number can have.
pub open spec fn is_negative(text: Seq<u8>, base: u32) -> bool {
    base == 10 && prefix_length(text, base) < text.len() && text[prefix_length(text, base)]
        == '-' as u8
}

/// The place in `text` at which the digits of its number start.
pub open spec fn digits_start(text: Seq<u8>, base: u32) -> int {
    prefix_length(text, base) + if is_negative(text, base) {
        1int
    } else {
        0int
    }
}

/// Whether `text` has the form of a number with `base` 2, 10 or 16: the mark
/// of the number system, which only a decimal number may go without; for a
/// decimal number a minus sign or none; and one digit or more.
pub open spec fn number_shape(text: Seq<u8>, base: u32) -> bool {
    &&& base == 10 || ((base == 2 || base == 16) && prefix_length(text, base) > 0)
    &&& digits_start(text, base) < text.len()
    &&& forall|i: int| digits_start(text, base) <= i < text.len() ==> is_digit_of(#[trigger] text[i], base)
}

/// The 16-bit value of the number that `text` writes with `base`, if `text`
/// has the form of a number and its digits write no more than 65535. A
/// negative number is given in two's complement.
pub open spec fn spec_parse_number(text: Seq<u8>, base: u32) -> Option<u16> {
    let value = digits_value(text.skip(digits_start(text, base)), base as int);
    if !number_shape(text, base) || value > 0xffff {
        None
    } else if is_negative(text, base) && value > 0 {
        Some((0x10000 - value) as u16)
    } else {
        Some(value as u16)
    }
}

/// The number of a register from its name: the digit after the letter,
/// which must be one of `0` to `7`.
pub open spec fn spec_parse_register(text: Seq<u8>) -> Option<u8> {
    if text.len() >= 2 && '0' as u8 <= text[1] && text[1] <= '7' as u8 {
        Some((text[1] - '0' as u8) as u8)
    } else {
        None
    }
}

/// Whether `byte` may follow a `\` in a string literal.
pub open spec fn is_escape_code(byte: u8) -> bool {
    byte == '"' as u8 || byte == '\\' as u8 || byte == '0' as u8 || byte == 'n' as u8 || byte
        == 'r' as u8 || byte == 't' as u8
}

/// The byte that a `\` and the escape code `code` stand for: `\0` is the null
/// byte, `\n` a line feed, `\r` a carriage return, `\t` a tab, and `\"` and
/// `\\` are the code itself.
pub open spec fn escape_value(code: u8) -> u8 {
    if code == '0' as u8 {
        0
    } else if code == 'n' as u8 {
        '\n' as u8
    } else if code == 'r' as u8 {
        '\r' as u8
    } else if code == 't' as u8 {
        '\t' as u8
    } else {
        code
    }
}

/// `text` from `from` on with its escapes resolved, in one pass from left to
/// right: a `\` and the escape code after it give the one byte that they
/// stand for, and any other byte gives itself. A byte that an escape gives is
/// not looked at again.
pub open spec fn unescaped(text: Seq<u8>, from: int) -> Seq<u8>
    decreases text.len() - from,
{
    if from < 0 || from >= text.len() {
        Seq::<u8>::empty()
    } else if text[from] == '\\' as u8 && from + 1 < text.len() && is_escape_code(text[from + 1]) {
        seq![escape_value(text[from + 1])] + unescaped(text, from + 2)
    } else {
        seq![text[from]] + unescaped(text, from + 1)
    }
}

/// What a string literal stands for: the text between its quotes, with the
/// escapes `\"`, `\\`, `\0`, `\n`, `\r` and `\t` resolved. A text without
/// both quotes stands for nothing.
pub open spec fn spec_parse_string(literal: Seq<u8>) -> Option<Seq<u8>> {
    if literal.len() >= 2 && literal[0] == '"' as u8 && literal.last() == '"' as u8 {
        Some(unescaped(literal.subrange(1, literal.len() - 1), 0))
    } else {
        None
    }
}

/// Tells whether `byte` is one of `class`.
pub fn is_in(byte: u8, class: ByteClass) -> (result: bool)
    ensures
        result == belongs(byte, class),
{
    let digit = '0' as u8 <= byte && byte <= '9' as u8;
    let lower = 'a' as u8 <= byte && byte <= 'z' as u8;
    let capital = 'A' as u8 <= byte && byte <= 'Z' as u8;
    match class {
        ByteClass::Space => byte == ' ' as u8 || (9 <= byte && byte <= 13),
        ByteClass::Digit => digit,
        ByteClass::BinaryDigit => byte == '0' as u8 || byte == '1' as u8,
        ByteClass::HexDigit => digit || ('a' as u8 <= byte && byte <= 'f' as u8) || ('A' as u8
            <= byte && byte <= 'F' as u8),
        ByteClass::Word => digit || lower || capital || byte == '_' as u8,
        ByteClass::Line => byte != '\n' as u8,
    }
}

/// Finds the end of the longest run of bytes of `class` that starts at `pos`.
pub fn scan(text: &[u8], pos: usize, class: ByteClass) -> (end: usize)
    requires
        pos <= text@.len(),
    ensures
        end == run_end(text@, pos as int, class),
        pos <= end <= text@.len(),
{
    let mut end = pos;
    while end < text.len() && is_in(text[end], class)
        invariant
            pos <= end <= text@.len(),
            run_end(text@, end as int, class) == run_end(text@, pos as int, class),
        decreases text@.len() - end,
    {
        end += 1;
    }
    end
}

/// The number of a register from its name.
pub fn parse_register(text: &[u8]) -> (result: Option<u8>)
    ensures
        result == spec_parse_register(text@),
{
    if text.len() >= 2 && '0' as u8 <= text[1] && text[1] <= '7' as u8 {
        Some(text[1] - '0' as u8)
    } else {
        None
    }
}

/// The place in `text` at which the digits of its number start.
fn find_digits(text: &[u8], base: u32) -> (start: usize)
    ensures
        start == digits_start(text@, base),
        start == prefix_length(text@, base) || start == prefix_length(text@, base) + 1,
        start <= text@.len(),
{
    let mut start: usize = 0;
    if base == 10 {
        if text.len() > 0 && text[0] == '#' as u8 {
            start = 1;
        }
        if start < text.len() && text[start] == '-' as u8 {
            start += 1;
        }
    } else {
        let sign = if base == 2 {
            '%' as u8
        } else {
            '$' as u8
        };
        let letter = if base == 2 {
            'B' as u8
        } else {
            'X' as u8
        };
        if text.len() > 0 && (text[0] == sign || to_upper(text[0]) == letter) {
            start = 1;
        } else if text.len() > 1 && text[0] == '0' as u8 && to_upper(text[1])
            == letter {
            start = 2;
        }
    }
    start
}

/// The value of a digit.
fn value_of_digit(byte: u8) -> (value: u32)
    requires
        belongs(byte, ByteClass::HexDigit),
    ensures
        value == digit_value(byte),
        value < 16,
{
    if '0' as u8 <= byte && byte <= '9' as u8 {
        (byte - '0' as u8) as u32
    } else if 'a' as u8 <= byte {
        (byte - 'a' as u8) as u32 + 10
    } else {
        (byte - 'A' as u8) as u32 + 10
    }
}

/// Tells whether `text` has the form of a number with `base`.
pub fn is_number(text: &[u8], base: u32) -> (result: bool)
    ensures
        result == number_shape(text@, base),
{
    if base != 2 && base != 10 && base != 16 {
        return false;
    }
    let start = find_digits(text, base);
    if base != 10 && start == 0 {
        return false;
    }
    if start >= text.len() {
        return false;
    }
    let mut i = start;
    while i < text.len()
        invariant
            start <= i <= text@.len(),
            start == digits_start(text@, base),
            base == 10 || prefix_length(text@, base) > 0,
            base == 2 || base == 10 || base == 16,
            forall|j: int| start <= j < i ==> is_digit_of(#[trigger] text@[j], base),
        decreases text@.len() - i,
    {
        let byte = text[i];
        if !is_in(byte, ByteClass::HexDigit) || value_of_digit(byte) >= base {
            assert(!is_digit_of(text@[i as int], base));
            return false;
        }
        i += 1;
    }
    true
}

/// A number grows with each digit that is written after it.
proof fn lemma_digits_value_grows(digits: Seq<u8>, base: int, count: int)
    requires
        0 <= count <= digits.len(),
        base >= 2,
        forall|i: int| 0 <= i < digits.len() ==> 0 <= digit_value(#[trigger] digits[i]),
    ensures
        0 <= digits_value(digits.subrange(0, count), base) <= digits_value(digits, base),
    decreases digits.len() - count,
{
    if count == 0 {
        assert(digits.subrange(0, 0).len() == 0);
        lemma_digits_value_not_negative(digits, base);
    } else if count < digits.len() {
        lemma_digits_value_grows(digits, base, count + 1);
        let longer = digits.subrange(0, count + 1);
        assert(longer.drop_last() =~= digits.subrange(0, count));
        assert(longer.last() == digits[count]);
        lemma_digits_value_not_negative(digits.subrange(0, count), base);
        let shorter = digits_value(digits.subrange(0, count), base);
        assert(shorter * base >= shorter) by (nonlinear_arith)
            requires
                shorter >= 0,
                base >= 2,
        ;
    } else {
        assert(digits.subrange(0, count) =~= digits);
        lemma_digits_value_not_negative(digits, base);
    }
}

/// No digits write a negative number.
proof fn lemma_digits_value_not_negative(digits: Seq<u8>, base: int)
    requires
        base >= 2,
        forall|i: int| 0 <= i < digits.len() ==> 0 <= digit_value(#[trigger] digits[i]),
    ensures
        0 <= digits_value(digits, base),
    decreases digits.len(),
{
    if digits.len() > 0 {
        lemma_digits_value_not_negative(digits.drop_last(), base);
        let shorter = digits_value(digits.drop_last(), base);
        assert(shorter * base >= 0) by (nonlinear_arith)
            requires
                shorter >= 0,
                base >= 2,
        ;
    }
}

/// The 16-bit value of the number that `text` writes with `base`.
///
/// There is none where `base` is not 2, 10 or 16, where `text` has not the
/// form of a number, and where its digits write more than 65535.
pub fn parse_number(text: &[u8], base: u32) -> (result: Option<u16>)
    ensures
        result == spec_parse_number(text@, base),
{
    if !is_number(text, base) {
        return None;
    }
    let start = find_digits(text, base);
    let ghost digits = text@.skip(start as int);
    let mut value: u32 = 0;
    let mut i = start;
    proof {
        assert(digits.subrange(0, 0).len() == 0);
        assert forall|j: int| 0 <= j < digits.len() implies 0 <= digit_value(
            #[trigger] digits[j],
        ) by {
            assert(is_digit_of(text@[start + j], base));
        }
    }
    while i < text.len()
        invariant
            start <= i <= text@.len(),
            base == 2 || base == 10 || base == 16,
            number_shape(text@, base),
            start == digits_start(text@, base),
            digits == text@.skip(start as int),
            forall|j: int| 0 <= j < digits.len() ==> 0 <= digit_value(#[trigger] digits[j]),
            value == digits_value(digits.subrange(0, i - start), base as int),
            value <= 0xffff,
        decreases text@.len() - i,
    {
        let byte = text[i];
        assert(is_digit_of(text@[i as int], base));
        let digit = value_of_digit(byte);
        let ghost longer = digits.subrange(0, i + 1 - start);
        proof {
            assert(longer.drop_last() =~= digits.subrange(0, i - start));
            assert(longer.last() == byte);
            assert(value * base <= 0xffff * 16) by (nonlinear_arith)
                requires
                    value <= 0xffff,
                    base <= 16,
            ;
        }
        let next = value * base + digit;
        if next > 0xffff {
            proof {
                lemma_digits_value_grows(digits, base as int, i + 1 - start);
            }
            return None;
        }
        value = next;
        i += 1;
    }
    assert(digits.subrange(0, i - start) =~= digits);
    let negative = base == 10 && start > 0 && text[start - 1] == '-' as u8;
    if negative && value > 0 {
        Some((0x10000 - value) as u16)
    } else {
        Some(value as u16)
    }
}

/// The byte that a `\` and the escape code `code` stand for.
fn value_of_escape(code: u8) -> (value: u8)
    ensures
        value == escape_value(code),
{
    if code == '0' as u8 {
        0
    } else if code == 'n' as u8 {
        '\n' as u8
    } else if code == 'r' as u8 {
        '\r' as u8
    } else if code == 't' as u8 {
        '\t' as u8
    } else {
        code
    }
}

/// `text` with its escapes resolved, in one pass from left to right.
pub fn unescape(text: &[u8]) -> (result: Vec<u8>)
    ensures
        result@ == unescaped(text@, 0),
{
    let mut result: Vec<u8> = Vec::new();
    let mut i: usize = 0;
    assert(result@ + unescaped(text@, 0) =~= unescaped(text@, 0));
    while i < text.len()
        invariant
            i <= text@.len(),
            result@ + unescaped(text@, i as int) == unescaped(text@, 0),
        decreases text@.len() - i,
    {
        let ghost before = result@;
        if text[i] == '\\' as u8 && text.len() - i >= 2 && is_code(text[i + 1]) {
            let value = value_of_escape(text[i + 1]);
            result.push(value);
            assert((before + seq![value]) + unescaped(text@, i + 2) =~= before + (seq![value]
                + unescaped(text@, i + 2)));
            assert(result@ =~= before + seq![value]);
            i += 2;
        } else {
            result.push(text[i]);
            assert((before + seq![text@[i as int]]) + unescaped(text@, i + 1) =~= before + (
            seq![text@[i as int]] + unescaped(text@, i + 1)));
            assert(result@ =~= before + seq![text@[i as int]]);
            i += 1;
        }
    }
    assert(result@ + Seq::<u8>::empty() =~= result@);
    result
}

/// What a string literal stands for: the text between its quotes, with its
/// escapes resolved.
pub fn parse_string(literal: &[u8]) -> (result: Option<Vec<u8>>)
    ensures
        match result {
            Some(text) => spec_parse_string(literal@) == Some(text@),
            None => spec_parse_string(literal@) is None,
        },
{
    let length = literal.len();
    if length < 2 || literal[0] != '"' as u8 || literal[length - 1] != '"' as u8 {
        return None;
    }
    Some(unescape(slice_subrange(literal, 1, length - 1)))
}

/// The end of a string literal, of which `pos` is a place after its opening
/// quote: the place after the first quote that no `\` stands before. There is
/// none where the text ends first, or where a `\` stands before a byte that
/// is no escape code.
pub open spec fn string_end(text: Seq<u8>, pos: int) -> Option<int>
    decreases text.len() - pos,
{
    if pos < 0 || pos >= text.len() {
        None
    } else if text[pos] == '"' as u8 {
        Some(pos + 1)
    } else if text[pos] != '\\' as u8 {
        string_end(text, pos + 1)
    } else if pos + 1 < text.len() && is_escape_code(text[pos + 1]) {
        string_end(text, pos + 2)
    } else {
        None
    }
}

/// A string literal ends after the place at which the search for its end
/// starts, and within the text.
pub proof fn lemma_string_end(text: Seq<u8>, pos: int)
    ensures
        string_end(text, pos) matches Some(end) ==> pos < end <= text.len(),
    decreases text.len() - pos,
{
    if 0 <= pos < text.len() && text[pos] != '"' as u8 {
        if text[pos] != '\\' as u8 {
            lemma_string_end(text, pos + 1);
        } else if pos + 1 < text.len() && is_escape_code(text[pos + 1]) {
            lemma_string_end(text, pos + 2);
        }
    }
}

/// The directive that the `length` bytes from `pos` on name, if they do.
pub open spec fn directive_at(text: Seq<u8>, pos: int, length: int) -> Option<PseudoOperation> {
    if 0 <= pos && pos + length <= text.len() {
        directive_named(text.subrange(pos, pos + length))
    } else {
        None
    }
}

/// The length of the longest name of a directive that starts at `pos`, or 0.
pub open spec fn directive_length(text: Seq<u8>, pos: int) -> int {
    if directive_at(text, pos, 9) is Some {
        9
    } else if directive_at(text, pos, 8) is Some {
        8
    } else if directive_at(text, pos, 5) is Some {
        5
    } else if directive_at(text, pos, 4) is Some {
        4
    } else {
        0
    }
}

/// The item that a text in the form of a number gives: the number, or
/// nothing if it does not fit 16 bits.
pub open spec fn number_item(literal: Seq<u8>, base: u32) -> Option<Lexeme> {
    match spec_parse_number(literal, base) {
        Some(value) => Some(Lexeme::Number(value)),
        None => None,
    }
}

/// Whether `word` is the name of a register: `r` in either case, and a digit
/// from `0` to `7`.
pub open spec fn is_register_name(word: Seq<u8>) -> bool {
    word.len() == 2 && upper(word[0]) == 'R' as u8 && '0' as u8 <= word[1] && word[1] <= '7' as u8
}

/// The item that a word gives. The first of these that fits decides: the name
/// of a register; a number in decimal, binary or hexadecimal form; a
/// mnemonic; and what is none of them is a label.
pub open spec fn spec_lex_word(word: Seq<u8>) -> Option<Lexeme> {
    if is_register_name(word) {
        Some(Lexeme::Register((word[1] - '0' as u8) as u8))
    } else if number_shape(word, 10) {
        number_item(word, 10)
    } else if number_shape(word, 2) {
        number_item(word, 2)
    } else if number_shape(word, 16) {
        number_item(word, 16)
    } else {
        match operation_named(word) {
            Some(operation) => Some(Lexeme::Operation(operation)),
            None => Some(Lexeme::Label(word)),
        }
    }
}

/// The place after a minus sign at `pos`, or `pos` if none stands there.
pub open spec fn sign_end(text: Seq<u8>, pos: int) -> int {
    if 0 <= pos < text.len() && text[pos] == '-' as u8 {
        pos + 1
    } else {
        pos
    }
}

/// The number system that a number which starts with `byte` is written in,
/// where `byte` is one of `#`, `-`, `%` and `$`.
pub open spec fn base_of_mark(byte: u8) -> u32 {
    if byte == '%' as u8 {
        2
    } else if byte == '$' as u8 {
        16
    } else {
        10
    }
}

/// The end of the longest text from `pos` on that can be a number which
/// starts with its mark or its sign: after `#` a sign or none, then digits;
/// after `-` digits; after `%` binary and after `$` hexadecimal digits.
pub open spec fn marked_number_end(text: Seq<u8>, pos: int) -> int {
    if text[pos] == '#' as u8 {
        run_end(text, sign_end(text, pos + 1), ByteClass::Digit)
    } else if text[pos] == '-' as u8 {
        run_end(text, pos + 1, ByteClass::Digit)
    } else if text[pos] == '%' as u8 {
        run_end(text, pos + 1, ByteClass::BinaryDigit)
    } else {
        run_end(text, pos + 1, ByteClass::HexDigit)
    }
}

/// The item that starts at `pos`, where the text has a byte that is no space,
/// and the place at which it ends.
///
/// The first byte decides what the item can be: a comma; a colon; a comment,
/// which goes to the end of the line; a string; a directive; a number; or a
/// word, the longest run of digits, letters and `_`. Where no token starts at
/// `pos` the item is nothing and spans one byte. A number that does not fit
/// 16 bits is nothing too, and spans the whole number.
pub open spec fn spec_lex(text: Seq<u8>, pos: int) -> (Option<Lexeme>, int) {
    let byte = text[pos];
    if byte == ',' as u8 {
        (Some(Lexeme::Comma), pos + 1)
    } else if byte == ':' as u8 {
        (Some(Lexeme::Colon), pos + 1)
    } else if byte == ';' as u8 || (byte == '/' as u8 && pos + 1 < text.len() && text[pos + 1]
        == '/' as u8) {
        let end = run_end(text, pos, ByteClass::Line);
        (Some(Lexeme::Comment(text.subrange(pos, end))), end)
    } else if byte == '"' as u8 {
        match string_end(text, pos + 1) {
            Some(end) => (
                match spec_parse_string(text.subrange(pos, end)) {
                    Some(string) => Some(Lexeme::String(string)),
                    None => None,
                },
                end,
            ),
            None => (None, pos + 1),
        }
    } else if byte == '.' as u8 {
        let length = directive_length(text, pos);
        if length > 0 {
            (
                match directive_at(text, pos, length) {
                    Some(directive) => Some(Lexeme::PseudoOperation(directive)),
                    None => None,
                },
                pos + length,
            )
        } else {
            (None, pos + 1)
        }
    } else if byte == '#' as u8 || byte == '-' as u8 || byte == '%' as u8 || byte == '$' as u8 {
        let end = marked_number_end(text, pos);
        if number_shape(text.subrange(pos, end), base_of_mark(byte)) {
            (number_item(text.subrange(pos, end), base_of_mark(byte)), end)
        } else {
            (None, pos + 1)
        }
    } else if belongs(byte, ByteClass::Word) {
        let end = run_end(text, pos, ByteClass::Word);
        (spec_lex_word(text.subrange(pos, end)), end)
    } else {
        (None, pos + 1)
    }
}

/// An item ends after its start and within the text.
pub proof fn lemma_lex_advances(text: Seq<u8>, pos: int)
    requires
        0 <= pos < text.len(),
    ensures
        pos < spec_lex(text, pos).1 <= text.len(),
{
    let byte = text[pos];
    lemma_run_end(text, pos + 1, ByteClass::Line);
    lemma_run_end(text, pos + 1, ByteClass::Word);
    lemma_run_end(text, pos + 1, ByteClass::Digit);
    lemma_run_end(text, pos + 1, ByteClass::BinaryDigit);
    lemma_run_end(text, pos + 1, ByteClass::HexDigit);
    lemma_run_end(text, sign_end(text, pos + 1), ByteClass::Digit);
    lemma_string_end(text, pos + 1);
}

/// The items of `text` from `pos` on: the spaces before each are passed over.
pub open spec fn spec_tokenize_from(text: Seq<u8>, pos: int) -> Seq<Option<Lexeme>>
    decreases text.len() - pos,
    via spec_tokenize_from_decreases
{
    let start = run_end(text, pos, ByteClass::Space);
    if pos < 0 || start >= text.len() {
        Seq::<Option<Lexeme>>::empty()
    } else {
        seq![spec_lex(text, start).0] + spec_tokenize_from(text, spec_lex(text, start).1)
    }
}

#[via_fn]
proof fn spec_tokenize_from_decreases(text: Seq<u8>, pos: int) {
    if 0 <= pos <= text.len() {
        lemma_run_end(text, pos, ByteClass::Space);
        let start = run_end(text, pos, ByteClass::Space);
        if start < text.len() {
            lemma_lex_advances(text, start);
        }
    }
}

/// The items of `text`.
pub open spec fn spec_tokenize(text: Seq<u8>) -> Seq<Option<Lexeme>> {
    spec_tokenize_from(text, 0)
}

/// Finds the end of a string literal, of which `pos` is the place after its
/// opening quote.
fn find_string_end(text: &[u8], pos: usize) -> (result: Option<usize>)
    requires
        pos <= text@.len(),
    ensures
        match result {
            Some(end) => string_end(text@, pos as int) == Some(end as int) && pos < end
                <= text@.len(),
            None => string_end(text@, pos as int) is None,
        },
{
    let mut i = pos;
    proof {
        lemma_string_end(text@, pos as int);
    }
    while i < text.len()
        invariant
            pos <= i <= text@.len(),
            string_end(text@, i as int) == string_end(text@, pos as int),
        decreases text@.len() - i,
    {
        let byte = text[i];
        if byte == '"' as u8 {
            return Some(i + 1);
        } else if byte != '\\' as u8 {
            i += 1;
        } else if text.len() - i >= 2 && is_code(text[i + 1]) {
            i += 2;
        } else {
            return None;
        }
    }
    None
}

/// Tells whether `byte` may follow a `\` in a string literal.
fn is_code(byte: u8) -> (result: bool)
    ensures
        result == is_escape_code(byte),
{
    byte == '"' as u8 || byte == '\\' as u8 || byte == '0' as u8 || byte == 'n' as u8 || byte
        == 'r' as u8 || byte == 't' as u8
}

/// The directive that the `length` bytes from `pos` on name, if they do.
fn find_directive(text: &[u8], pos: usize, length: usize) -> (result: Option<PseudoOperation>)
    requires
        pos <= text@.len(),
    ensures
        result == directive_at(text@, pos as int, length as int),
{
    if text.len() - pos >= length {
        PseudoOperation::from_word(slice_subrange(text, pos, pos + length))
    } else {
        None
    }
}

/// The token that a text in the form of a number gives.
fn lex_number(literal: &[u8], base: u32) -> (result: Result<Token, ()>)
    ensures
        item_of(result) == number_item(literal@, base),
{
    match parse_number(literal, base) {
        Some(value) => Ok(Token::Number(value)),
        None => Err(()),
    }
}

/// The token that a word gives.
fn lex_word(word: &[u8]) -> (result: Result<Token, ()>)
    ensures
        item_of(result) == spec_lex_word(word@),
{
    if word.len() == 2 && to_upper(word[0]) == 'R' as u8 && '0' as u8 <= word[1] && word[1]
        <= '7' as u8 {
        match parse_register(word) {
            Some(number) => Ok(Token::Register(number)),
            None => Err(()),
        }
    } else if is_number(word, 10) {
        lex_number(word, 10)
    } else if is_number(word, 2) {
        lex_number(word, 2)
    } else if is_number(word, 16) {
        lex_number(word, 16)
    } else {
        match Operation::from_word(word) {
            Some(operation) => Ok(Token::Operation(operation)),
            None => Ok(Token::Label(copy_bytes(word))),
        }
    }
}

/// The token that starts at `pos`, and the place at which it ends.
pub fn lex(text: &[u8], pos: usize) -> (result: (Result<Token, ()>, usize))
    requires
        pos < text@.len(),
    ensures
        item_of(result.0) == spec_lex(text@, pos as int).0,
        result.1 == spec_lex(text@, pos as int).1,
        pos < result.1 <= text@.len(),
{
    proof {
        lemma_lex_advances(text@, pos as int);
    }
    let byte = text[pos];
    if byte == ',' as u8 {
        (Ok(Token::Comma), pos + 1)
    } else if byte == ':' as u8 {
        (Ok(Token::Colon), pos + 1)
    } else if byte == ';' as u8 || (byte == '/' as u8 && text.len() - pos >= 2 && text[pos + 1]
        == '/' as u8) {
        let end = scan(text, pos, ByteClass::Line);
        (Ok(Token::Comment(copy_bytes(slice_subrange(text, pos, end)))), end)
    } else if byte == '"' as u8 {
        match find_string_end(text, pos + 1) {
            Some(end) => {
                match parse_string(slice_subrange(text, pos, end)) {
                    Some(string) => (Ok(Token::String(string)), end),
                    None => (Err(()), end),
                }
            },
            None => (Err(()), pos + 1),
        }
    } else if byte == '.' as u8 {
        if let Some(directive) = find_directive(text, pos, 9) {
            (Ok(Token::PseudoOperation(directive)), pos + 9)
        } else if let Some(directive) = find_directive(text, pos, 8) {
            (Ok(Token::PseudoOperation(directive)), pos + 8)
        } else if let Some(directive) = find_directive(text, pos, 5) {
            (Ok(Token::PseudoOperation(directive)), pos + 5)
        } else if let Some(directive) = find_directive(text, pos, 4) {
            (Ok(Token::PseudoOperation(directive)), pos + 4)
        } else {
            (Err(()), pos + 1)
        }
    } else if byte == '#' as u8 || byte == '-' as u8 || byte == '%' as u8 || byte == '$' as u8 {
        let mut digits = pos + 1;
        let mut class = ByteClass::Digit;
        let mut base: u32 = 10;
        if byte == '#' as u8 {
            if digits < text.len() && text[digits] == '-' as u8 {
                digits += 1;
            }
        } else if byte == '%' as u8 {
            class = ByteClass::BinaryDigit;
            base = 2;
        } else if byte == '$' as u8 {
            class = ByteClass::HexDigit;
            base = 16;
        }
        let end = scan(text, digits, class);
        let literal = slice_subrange(text, pos, end);
        if is_number(literal, base) {
            (lex_number(literal, base), end)
        } else {
            (Err(()), pos + 1)
        }
    } else if is_in(byte, ByteClass::Word) {
        let end = scan(text, pos, ByteClass::Word);
        (lex_word(slice_subrange(text, pos, end)), end)
    } else {
        (Err(()), pos + 1)
    }
}

/// The tokens of the text with the bytes `text`, in their order. Where the
/// text holds something that is no token, an `Err` stands in its place.
pub fn tokenize_bytes(text: &[u8]) -> (tokens: Vec<Result<Token, ()>>)
    ensures
        items_of(tokens@) == spec_tokenize(text@),
{
    let mut tokens: Vec<Result<Token, ()>> = Vec::new();
    let mut pos: usize = 0;
    assert(items_of(tokens@) + spec_tokenize_from(text@, 0) =~= spec_tokenize(text@));
    loop
        invariant
            pos <= text@.len(),
            items_of(tokens@) + spec_tokenize_from(text@, pos as int) == spec_tokenize(text@),
        decreases text@.len() - pos,
    {
        let start = scan(text, pos, ByteClass::Space);
        if start >= text.len() {
            assert(items_of(tokens@) + Seq::<Option<Lexeme>>::empty() =~= items_of(tokens@));
            return tokens;
        }
        let ghost before = tokens@;
        let (token, end) = lex(text, start);
        tokens.push(token);
        proof {
            let item = spec_lex(text@, start as int).0;
            assert(items_of(tokens@) =~= items_of(before) + seq![item]);
            assert((items_of(before) + seq![item]) + spec_tokenize_from(text@, end as int)
                =~= items_of(before) + (seq![item] + spec_tokenize_from(text@, end as int)));
        }
        pos = end;
    }
}

/// The tokens of `source`, in their order. Where the text holds something
/// that is no token, an `Err` stands in its place.
pub fn tokenize(source: &str) -> (tokens: Vec<Result<Token, ()>>)
    ensures
        items_of(tokens@) == spec_tokenize(source.spec_bytes()),
{
    tokenize_bytes(source.as_bytes())
}

} // verus!
