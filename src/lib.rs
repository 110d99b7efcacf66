//! Integer expression evaluator: literals in three bases, `+ - * %`,
//! unary minus and parentheses, with every value kept inside the signed
//! 32-bit range, plus a formatter that renders a result in three bases.
use vstd::prelude::*;

pub mod error;
pub mod eval;
pub mod format;
pub mod laws;
pub mod lexer;
pub mod text;

pub use crate::error::{CalcError, CalcResult};

use crate::eval::expression_spec;
use crate::format::{
    binary_text, decimal_text, format_binary, format_decimal, format_hex_string, hex_text,
};
use crate::lexer::{hex_prefix_at, literal_spec};
use crate::text::{chars_of, skip_ws, skip_ws_spec};

verus! {

/// Smallest value a result may take.
pub const MIN_I32: i64 = -2147483648;

/// Largest value a result may take.
pub const MAX_I32: i64 = 2147483647;

/// Literal bound for the operand written directly after a unary minus.
pub const MAX_I32_PLUS_ONE: i64 = 2147483648;

/// Whether `v` lies in the signed 32-bit range.
pub open spec fn in_range(v: int) -> bool {
    MIN_I32 <= v <= MAX_I32
}

/// The range check applied after every step.
pub open spec fn range_checked(v: int) -> Result<int, CalcError> {
    if in_range(v) {
        Ok(v)
    } else {
        Err(CalcError::RangeError)
    }
}

/// Passes `value` through when it is in range, else `RangeError`.
pub(crate) fn check_range(value: i64) -> (r: CalcResult<i64>)
    ensures
        int_result(r) == range_checked(value as int),
{
    if value < MIN_I32 || value > MAX_I32 {
        Err(CalcError::RangeError)
    } else {
        Ok(value)
    }
}

/// A result of the library seen as an integer result.
pub open spec fn int_result(r: CalcResult<i64>) -> Result<int, CalcError> {
    match r {
        Ok(v) => Ok(v as int),
        Err(e) => Err(e),
    }
}

/// `s` read as exactly one literal with optional surrounding whitespace.
/// Text left after the literal is an `InvalidToken` of its first
/// character, except that a `-` left after a hexadecimal literal is a
/// `LiteralOutOfRange`.
pub open spec fn literal_only(s: Seq<char>) -> Result<int, CalcError> {
    let start = skip_ws_spec(s, 0);
    match literal_spec(s, start, MAX_I32 as int) {
        Ok((v, e)) => {
            let q = skip_ws_spec(s, e);
            if q < s.len() {
                if s[q] == '-' && hex_prefix_at(s, start) {
                    Err(CalcError::LiteralOutOfRange)
                } else {
                    Err(CalcError::InvalidToken(s[q]))
                }
            } else {
                Ok(v)
            }
        },
        Err(x) => Err(x),
    }
}

/// `s` read as one whole expression with optional surrounding whitespace.
/// Text left after the expression is an `InvalidToken` of its first
/// character.
pub open spec fn evaluation(s: Seq<char>) -> Result<int, CalcError> {
    match expression_spec(s, 0) {
        Ok((v, e)) => {
            let q = skip_ws_spec(s, e);
            if q < s.len() {
                Err(CalcError::InvalidToken(s[q]))
            } else {
                Ok(v)
            }
        },
        Err(x) => Err(x),
    }
}

/// A result rendered in binary, decimal and hexadecimal.
#[derive(Debug, Clone, PartialEq, Eq)]
pub struct FormattedValue {
    pub bin: String,
    pub dec: String,
    pub hex: String,
}

/// Renders `value` in three bases; a value outside the signed 32-bit range
/// is a `RangeError`.
pub fn format_all(value: i64) -> (r: CalcResult<FormattedValue>)
    ensures
        r is Ok <==> in_range(value as int),
        r matches Err(e) ==> e == CalcError::RangeError,
        r matches Ok(f) ==> f.bin@ == binary_text(value as int) && f.dec@ == decimal_text(
            value as int,
        ) && f.hex@ == hex_text(value as int),
{
    let value = check_range(value)?;
    Ok(FormattedValue {
        bin: format_binary(value),
        dec: format_decimal(value),
        hex: format_hex_string(value),
    })
}

/// Whether `s` holds `0x` or `0X` at `start`.
fn is_hex_prefix(s: &[char], start: usize) -> (r: bool)
    ensures
        r == hex_prefix_at(s@, start as int),
{
    start < s.len() && s[start] == '0' && start + 1 < s.len() && (s[start + 1] == 'x' || s[start
        + 1] == 'X')
}

/// Reads `input` as exactly one literal.
pub fn parse(input: &str) -> (r: CalcResult<i64>)
    ensures
        int_result(r) == literal_only(input@),
{
    let chars = chars_of(input);
    let s = chars.as_slice();
    let mut idx: usize = 0;
    skip_ws(s, &mut idx);
    let start = idx;
    let value = crate::lexer::parse_literal(s, &mut idx)?;
    skip_ws(s, &mut idx);
    if idx < s.len() {
        let ch = s[idx];
        if ch == '-' && is_hex_prefix(s, start) {
            return Err(CalcError::LiteralOutOfRange);
        }
        return Err(CalcError::InvalidToken(ch));
    }
    Ok(value)
}

/// Evaluates `input` as one whole expression.
pub fn eval_expression(input: &str) -> (r: CalcResult<i64>)
    ensures
        int_result(r) == evaluation(input@),
        r matches Ok(v) ==> in_range(v as int),
{
    let chars = chars_of(input);
    let s = chars.as_slice();
    let mut idx: usize = 0;
    let value = crate::eval::parse_expression(s, &mut idx)?;
    skip_ws(s, &mut idx);
    if idx < s.len() {
        return Err(CalcError::InvalidToken(s[idx]));
    }
    Ok(value)
}

} // verus!
