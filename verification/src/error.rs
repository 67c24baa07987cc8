use vstd::prelude::*;

verus! {

/// Every way in which assembling a program can fail.
///
/// Assembly stops at the first failure: a caller gets exactly one of these.
#[derive(Debug, Clone, Copy, PartialEq, Eq, Structural)]
pub enum ParseError {
    /// A piece of the text is no token of the language.
    NonValidToken,
    /// The text ended where a token was still needed.
    NoMoreTokens,
    /// A token of the wrong kind stands at this place.
    UnexpectedToken,
    /// The program has no `.orig` directive.
    NoOrig,
    /// The program has an `.orig` directive, but something stands before it.
    OrigNotFirst,
    /// A later `.orig` directive names an address below the current one.
    OutOfOrderOrigs,
    /// The program has more than one `.orig` directive.
    TooManyOrig,
    /// The program has no `.end` directive.
    NoEnd,
    /// Something other than comments follows the `.end` directive.
    EndNotLast,
    /// The program does not fit in the 65536 words of memory.
    BinaryTooBig,
    /// A number does not fit the field of the instruction that takes it.
    NumberLiteralTooBig,
    /// A negative number stands where only a positive one is accepted.
    NumberLiteralIsNegative,
    /// A label is declared a second time.
    LabelRedeclaration,
    /// A label is used and nowhere declared.
    LabelNotDeclared,
    /// A label lies on another memory page than the instruction that uses it.
    LabelNotOnSamePage,
}

impl ParseError {
    /// The sentence that describes this error to a user.
    pub fn message(&self) -> (text: &'static str)
        ensures
            text@ == self.spec_message()@,
    {
        match self {
            ParseError::NonValidToken => "Token is not valid",
            ParseError::NoMoreTokens => "I was expecting more tokens",
            ParseError::UnexpectedToken => "I was not expecting that token",
            ParseError::NoOrig => "The assembly should contain an \".orig\" directive",
            ParseError::OrigNotFirst => "\".orig\" should be the first directive",
            ParseError::OutOfOrderOrigs => "The \".orig\" directives should be in order",
            ParseError::TooManyOrig => "There should be only an \".orig\" directive",
            ParseError::NoEnd => "The assembly should end with an \".end\" directive",
            ParseError::EndNotLast => "The \".end\" should be the last directive",
            ParseError::BinaryTooBig => "The binary size exceeds the 65536 word limit",
            ParseError::NumberLiteralTooBig => "The number literal is too big",
            ParseError::NumberLiteralIsNegative => "The number literal must be positive",
            ParseError::LabelRedeclaration => "The label was declarated more than once",
            ParseError::LabelNotDeclared => "The label was used but not declared",
            ParseError::LabelNotOnSamePage => "The label was found but is not on the same memory page",
        }
    }

    /// The text of `message`, as contracts speak of it.
    pub open spec fn spec_message(&self) -> &'static str {
        match self {
            ParseError::NonValidToken => "Token is not valid",
            ParseError::NoMoreTokens => "I was expecting more tokens",
            ParseError::UnexpectedToken => "I was not expecting that token",
            ParseError::NoOrig => "The assembly should contain an \".orig\" directive",
            ParseError::OrigNotFirst => "\".orig\" should be the first directive",
            ParseError::OutOfOrderOrigs => "The \".orig\" directives should be in order",
            ParseError::TooManyOrig => "There should be only an \".orig\" directive",
            ParseError::NoEnd => "The assembly should end with an \".end\" directive",
            ParseError::EndNotLast => "The \".end\" should be the last directive",
            ParseError::BinaryTooBig => "The binary size exceeds the 65536 word limit",
            ParseError::NumberLiteralTooBig => "The number literal is too big",
            ParseError::NumberLiteralIsNegative => "The number literal must be positive",
            ParseError::LabelRedeclaration => "The label was declarated more than once",
            ParseError::LabelNotDeclared => "The label was used but not declared",
            ParseError::LabelNotOnSamePage => "The label was found but is not on the same memory page",
        }
    }
}

} // verus!
