use vstd::prelude::*;
use vstd::string::StringExecFns;

verus! {

/// The four ways an evaluation can fail.
#[derive(Debug, Clone, Copy, PartialEq, Eq, Structural)]
pub enum CalcError {
    /// A character that cannot stand where it was found.
    InvalidToken(char),
    /// A literal whose body breaks the lexical rules.
    InvalidLiteral,
    /// A well-formed literal whose magnitude exceeds its bound.
    LiteralOutOfRange,
    /// An arithmetic step left the signed 32-bit range, or a remainder by zero.
    RangeError,
}

pub type CalcResult<T> = Result<T, CalcError>;

/// Relies on `String::push`: it appends the one character to the end.
#[verifier::external_body]
pub(crate) fn push_char(s: &mut String, c: char)
    ensures
        final(s)@ == old(s)@.push(c),
{
    s.push(c);
}

impl CalcError {
    /// The text shown to a user for this error.
    pub open spec fn message_text(self) -> Seq<char> {
        match self {
            CalcError::InvalidToken(c) => "invalid token '"@ + seq![c, '\''],
            CalcError::InvalidLiteral => "invalid literal"@,
            CalcError::LiteralOutOfRange => "literal out of range"@,
            CalcError::RangeError => "range error"@,
        }
    }

    /// The text shown to a user for this error.
    pub fn message(&self) -> (r: String)
        ensures
            r@ == self.message_text(),
    {
        match self {
            CalcError::InvalidToken(c) => {
                let mut out = String::from_str("invalid token '");
                push_char(&mut out, *c);
                push_char(&mut out, '\'');
                assert(out@ =~= "invalid token '"@ + seq![*c, '\'']);
                out
            },
            CalcError::InvalidLiteral => String::from_str("invalid literal"),
            CalcError::LiteralOutOfRange => String::from_str("literal out of range"),
            CalcError::RangeError => String::from_str("range error"),
        }
    }
}

} // verus!
