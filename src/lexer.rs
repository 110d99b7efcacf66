//! The literal lexer: one decimal, binary or hexadecimal literal, with `_`
//! allowed between digits.
use vstd::prelude::*;

use crate::error::{CalcError, CalcResult};
use crate::text::{is_ws, lemma_skip_ws, skip_ws, skip_ws_spec};

verus! {

/// Value of `c` read as a digit, or 99 where it is none.
pub open spec fn digit_value(c: char) -> int {
    if '0' <= c <= '9' {
        c as int - '0' as int
    } else if 'a' <= c <= 'f' {
        c as int - 'a' as int + 10
    } else if 'A' <= c <= 'F' {
        c as int - 'A' as int + 10
    } else {
        99
    }
}

/// Whether `c` is a digit of base `radix`.
pub open spec fn is_digit_in(c: char, radix: int) -> bool {
    digit_value(c) < radix
}

/// ASCII letters and digits.
pub open spec fn is_alnum(c: char) -> bool {
    ('0' <= c <= '9') || ('a' <= c <= 'z') || ('A' <= c <= 'Z')
}

/// A character that continues the body of a literal in base `radix`.
pub open spec fn in_run(c: char, radix: int) -> bool {
    c == '_' || is_digit_in(c, radix)
}

/// A character that, found right after a prefixed literal's digits, makes
/// the literal malformed instead of ending it.
pub open spec fn breaks_run(c: char, radix: int) -> bool {
    radix != 10 && is_alnum(c)
}

/// Where the literal body starting at `p` ends; `None` where a character
/// that breaks the body comes first.
pub open spec fn run_end(s: Seq<char>, p: int, radix: int) -> Option<int>
    decreases s.len() - p,
{
    if 0 <= p < s.len() {
        if in_run(s[p], radix) {
            run_end(s, p + 1, radix)
        } else if breaks_run(s[p], radix) {
            None
        } else {
            Some(p)
        }
    } else {
        Some(p)
    }
}

/// Reading the literal body `s[start..end]` from position `i` on, with
/// `value` accumulated so far. Digits accumulate by `value * radix + d`; the
/// first digit that takes the value past `max` fails with
/// `LiteralOutOfRange`; an `_` at the start, after another `_` or at the end
/// fails with `InvalidLiteral`, as does an empty body.
pub open spec fn body_value(
    s: Seq<char>,
    start: int,
    i: int,
    end: int,
    radix: int,
    max: int,
    value: int,
) -> Result<int, CalcError>
    decreases end - i,
{
    if i >= end {
        if end <= start || s[end - 1] == '_' {
            Err(CalcError::InvalidLiteral)
        } else {
            Ok(value)
        }
    } else if s[i] == '_' {
        if i <= start || s[i - 1] == '_' {
            Err(CalcError::InvalidLiteral)
        } else {
            body_value(s, start, i + 1, end, radix, max, value)
        }
    } else if !is_digit_in(s[i], radix) {
        Err(CalcError::InvalidLiteral)
    } else if value * radix + digit_value(s[i]) > max {
        Err(CalcError::LiteralOutOfRange)
    } else {
        body_value(s, start, i + 1, end, radix, max, value * radix + digit_value(s[i]))
    }
}

/// The value of the whole body `s[start..end]`.
pub open spec fn token_value(s: Seq<char>, start: int, end: int, radix: int, max: int) -> Result<
    int,
    CalcError,
> {
    body_value(s, start, start, end, radix, max, 0)
}

/// A literal body read as a step: its value and the position after it.
pub open spec fn with_end(r: Result<int, CalcError>, end: int) -> Result<(int, int), CalcError> {
    match r {
        Ok(v) => Ok((v, end)),
        Err(e) => Err(e),
    }
}

/// The body of a literal after a `0b` or `0x` prefix, starting at `start`.
pub open spec fn prefixed_literal(s: Seq<char>, start: int, radix: int, max: int) -> Result<
    (int, int),
    CalcError,
> {
    match run_end(s, start, radix) {
        None => Err(CalcError::InvalidLiteral),
        Some(end) => if end == start {
            Err(CalcError::InvalidLiteral)
        } else {
            with_end(token_value(s, start, end, radix, max), end)
        },
    }
}

/// Whether `s` holds `0b` or `0B` at `q`.
pub open spec fn binary_prefix_at(s: Seq<char>, q: int) -> bool {
    0 <= q && q + 1 < s.len() && s[q] == '0' && (s[q + 1] == 'b' || s[q + 1] == 'B')
}

/// Whether `s` holds `0x` or `0X` at `q`.
pub open spec fn hex_prefix_at(s: Seq<char>, q: int) -> bool {
    0 <= q && q + 1 < s.len() && s[q] == '0' && (s[q + 1] == 'x' || s[q + 1] == 'X')
}

/// One literal read at `p` (after whitespace) with magnitude bound `max`:
/// its value and the position after it.
pub open spec fn literal_spec(s: Seq<char>, p: int, max: int) -> Result<(int, int), CalcError> {
    let q = skip_ws_spec(s, p);
    if q >= s.len() {
        Err(CalcError::InvalidLiteral)
    } else if binary_prefix_at(s, q) {
        prefixed_literal(s, q + 2, 2, max)
    } else if hex_prefix_at(s, q) {
        prefixed_literal(s, q + 2, 16, max)
    } else {
        match run_end(s, q, 10) {
            Some(end) => if end == q {
                Err(CalcError::InvalidToken(s[q]))
            } else {
                with_end(token_value(s, q, end, 10, max), end)
            },
            None => Err(CalcError::InvalidLiteral),
        }
    }
}

/// A step result of the executable parser seen as integers.
pub open spec fn step_of(r: CalcResult<i64>, end: usize) -> Result<(int, int), CalcError> {
    match r {
        Ok(v) => Ok((v as int, end as int)),
        Err(e) => Err(e),
    }
}

/// A decimal digit run never breaks, and a run ends inside the text.
proof fn lemma_run_end(s: Seq<char>, p: int, radix: int)
    requires
        0 <= p <= s.len(),
    ensures
        radix == 10 ==> run_end(s, p, radix) is Some,
        run_end(s, p, radix) matches Some(e) ==> p <= e <= s.len(),
    decreases s.len() - p,
{
    if p < s.len() && in_run(s[p], radix) {
        lemma_run_end(s, p + 1, radix);
    }
}

/// Value of a digit character, as `digit_value` gives it.
fn digit_of(c: char) -> (r: i64)
    ensures
        r == digit_value(c),
{
    if '0' <= c && c <= '9' {
        (c as u32 - '0' as u32) as i64
    } else if 'a' <= c && c <= 'f' {
        (c as u32 - 'a' as u32 + 10) as i64
    } else if 'A' <= c && c <= 'F' {
        (c as u32 - 'A' as u32 + 10) as i64
    } else {
        99
    }
}

/// Reads the body `s[start..end]` in base `radix`, failing fast once the
/// value passes `literal_max`.
fn parse_digits(s: &[char], start: usize, end: usize, radix: i64, literal_max: i64) -> (r:
    CalcResult<i64>)
    requires
        start <= end <= s@.len(),
        radix == 2 || radix == 10 || radix == 16,
        0 <= literal_max <= crate::MAX_I32_PLUS_ONE,
    ensures
        step_of(r, end) == with_end(
            token_value(s@, start as int, end as int, radix as int, literal_max as int),
            end as int,
        ),
        r matches Ok(v) ==> 0 <= v <= literal_max,
{
    let mut value: i64 = 0;
    let mut seen_digit = false;
    let mut prev_underscore = false;
    let mut i = start;
    while i < end
        invariant
            start <= i <= end <= s@.len(),
            radix == 2 || radix == 10 || radix == 16,
            0 <= literal_max <= crate::MAX_I32_PLUS_ONE,
            0 <= value <= literal_max,
            seen_digit == (i > start),
            prev_underscore == (i > start && s@[i - 1] == '_'),
            token_value(s@, start as int, end as int, radix as int, literal_max as int)
                == body_value(s@, start as int, i as int, end as int, radix as int, literal_max as int, value as int),
        decreases end - i,
    {
        let ch = s[i];
        if ch == '_' {
            if !seen_digit || prev_underscore {
                return Err(CalcError::InvalidLiteral);
            }
            prev_underscore = true;
            i += 1;
            continue;
        }
        let digit = digit_of(ch);
        if digit >= radix {
            return Err(CalcError::InvalidLiteral);
        }
        seen_digit = true;
        prev_underscore = false;
        assert(value * radix + digit <= crate::MAX_I32_PLUS_ONE * 16 + 15) by (nonlinear_arith)
            requires
                0 <= value <= crate::MAX_I32_PLUS_ONE,
                radix <= 16,
                0 <= digit < radix,
        ;
        assert(0 <= value * radix) by (nonlinear_arith)
            requires
                0 <= value,
                0 <= radix,
        ;
        let next = match value.checked_mul(radix) {
            Some(m) => match m.checked_add(digit) {
                Some(n) => n,
                None => {
                    return Err(CalcError::LiteralOutOfRange);
                },
            },
            None => {
                return Err(CalcError::LiteralOutOfRange);
            },
        };
        if next > literal_max {
            return Err(CalcError::LiteralOutOfRange);
        }
        value = next;
        i += 1;
    }
    if !seen_digit || prev_underscore {
        return Err(CalcError::InvalidLiteral);
    }
    Ok(value)
}

/// Reads a decimal literal body.
fn parse_decimal(s: &[char], start: usize, end: usize, literal_max: i64) -> (r: CalcResult<i64>)
    requires
        start <= end <= s@.len(),
        0 <= literal_max <= crate::MAX_I32_PLUS_ONE,
    ensures
        step_of(r, end) == with_end(
            token_value(s@, start as int, end as int, 10, literal_max as int),
            end as int,
        ),
        r matches Ok(v) ==> 0 <= v <= literal_max,
{
    parse_digits(s, start, end, 10, literal_max)
}

/// Reads a binary literal body.
fn parse_binary(s: &[char], start: usize, end: usize, literal_max: i64) -> (r: CalcResult<i64>)
    requires
        start <= end <= s@.len(),
        0 <= literal_max <= crate::MAX_I32_PLUS_ONE,
    ensures
        step_of(r, end) == with_end(
            token_value(s@, start as int, end as int, 2, literal_max as int),
            end as int,
        ),
        r matches Ok(v) ==> 0 <= v <= literal_max,
{
    parse_digits(s, start, end, 2, literal_max)
}

/// Reads a hexadecimal literal body.
fn parse_hex(s: &[char], start: usize, end: usize, literal_max: i64) -> (r: CalcResult<i64>)
    requires
        start <= end <= s@.len(),
        0 <= literal_max <= crate::MAX_I32_PLUS_ONE,
    ensures
        step_of(r, end) == with_end(
            token_value(s@, start as int, end as int, 16, literal_max as int),
            end as int,
        ),
        r matches Ok(v) ==> 0 <= v <= literal_max,
{
    parse_digits(s, start, end, 16, literal_max)
}

/// Moves `idx` to the end of the literal body in base `radix` that starts
/// there; `false` where a character that breaks the body comes first.
fn scan_run(s: &[char], idx: &mut usize, radix: i64) -> (ok: bool)
    requires
        *old(idx) <= s@.len(),
        radix == 2 || radix == 10 || radix == 16,
    ensures
        ok == (run_end(s@, *old(idx) as int, radix as int) is Some),
        ok ==> run_end(s@, *old(idx) as int, radix as int) == Some(*final(idx) as int),
        *old(idx) <= *final(idx) <= s@.len(),
{
    while *idx < s.len()
        invariant
            *old(idx) <= *idx <= s@.len(),
            radix == 2 || radix == 10 || radix == 16,
            run_end(s@, *old(idx) as int, radix as int) == run_end(s@, *idx as int, radix as int),
        ensures
            run_end(s@, *old(idx) as int, radix as int) == Some(*idx as int),
        decreases s@.len() - *idx,
    {
        let b = s[*idx];
        if b == '_' || digit_of(b) < radix {
            *idx += 1;
        } else if radix != 10 && (('0' <= b && b <= '9') || ('a' <= b && b <= 'z') || ('A' <= b
            && b <= 'Z')) {
            return false;
        } else {
            break;
        }
    }
    true
}

/// Reads one literal at `idx`, after any whitespace, with magnitude bound
/// `literal_max`.
pub(crate) fn parse_literal_with_max(s: &[char], idx: &mut usize, literal_max: i64) -> (r:
    CalcResult<i64>)
    requires
        *old(idx) <= s@.len(),
        0 <= literal_max <= crate::MAX_I32_PLUS_ONE,
    ensures
        step_of(r, *final(idx)) == literal_spec(s@, *old(idx) as int, literal_max as int),
        *old(idx) <= *final(idx) <= s@.len(),
        r is Ok ==> *old(idx) < *final(idx),
        r matches Ok(v) ==> 0 <= v <= literal_max,
{
    skip_ws(s, idx);
    if *idx >= s.len() {
        return Err(CalcError::InvalidLiteral);
    }
    let q = *idx;
    let value = if s[q] == '0' && q + 1 < s.len() && (s[q + 1] == 'b' || s[q + 1] == 'B') {
        *idx = q + 2;
        let start = *idx;
        if !scan_run(s, idx, 2) || *idx == start {
            return Err(CalcError::InvalidLiteral);
        }
        parse_binary(s, start, *idx, literal_max)?
    } else if s[q] == '0' && q + 1 < s.len() && (s[q + 1] == 'x' || s[q + 1] == 'X') {
        *idx = q + 2;
        let start = *idx;
        if !scan_run(s, idx, 16) || *idx == start {
            return Err(CalcError::InvalidLiteral);
        }
        parse_hex(s, start, *idx, literal_max)?
    } else {
        let start = *idx;
        let ok = scan_run(s, idx, 10);
        proof {
            lemma_run_end(s@, start as int, 10);
        }
        if *idx == start {
            return Err(CalcError::InvalidToken(s[start]));
        }
        parse_decimal(s, start, *idx, literal_max)?
    };
    if value > literal_max {
        return Err(CalcError::LiteralOutOfRange);
    }
    Ok(value)
}

/// Reads one literal at `idx` with the ordinary bound.
pub(crate) fn parse_literal(s: &[char], idx: &mut usize) -> (r: CalcResult<i64>)
    requires
        *old(idx) <= s@.len(),
    ensures
        step_of(r, *final(idx)) == literal_spec(s@, *old(idx) as int, crate::MAX_I32 as int),
        *old(idx) <= *final(idx) <= s@.len(),
        r is Ok ==> *old(idx) < *final(idx),
{
    parse_literal_with_max(s, idx, crate::MAX_I32)
}

} // verus!
