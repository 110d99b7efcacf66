//! The recursive-descent evaluator:
//!
//! ```text
//! Expression := Term (('+' | '-') Term)*
//! Term       := Factor (('*' | '%') Factor)*
//! Factor     := '-' Factor | '(' Expression ')' | Literal
//! ```
//!
//! Positions index the characters of the source text. Each spec function
//! below gives the value read at a position and the position after it.
use vstd::prelude::*;

use crate::error::{CalcError, CalcResult};
use crate::lexer::{literal_spec, parse_literal_with_max, step_of};
use crate::text::{lemma_skip_ws, skip_ws, skip_ws_spec};
use crate::{check_range, in_range, range_checked, MAX_I32, MAX_I32_PLUS_ONE, MIN_I32};

verus! {

/// Whether a sub-parse that began at `p` and ended at `e` consumed input.
/// A successful term or factor always does (the parsing functions below
/// prove it); the grammar functions test it only so that their recursion
/// visibly shrinks.
pub open spec fn advanced(s: Seq<char>, p: int, e: int) -> bool {
    p < e <= s.len()
}

/// A step with the range check applied to its value.
pub open spec fn then_checked(r: Result<(int, int), CalcError>) -> Result<(int, int), CalcError> {
    match r {
        Ok((v, e)) => match range_checked(v) {
            Ok(w) => Ok((w, e)),
            Err(x) => Err(x),
        },
        Err(x) => Err(x),
    }
}

/// `Expression` read at `p`.
pub open spec fn expression_spec(s: Seq<char>, p: nat) -> Result<(int, int), CalcError>
    decreases s.len() - p, 3int,
{
    match then_checked(term_spec(s, p)) {
        Ok((v, e)) => if advanced(s, p as int, e) {
            expression_rest(s, e as nat, v)
        } else {
            Err(CalcError::InvalidLiteral)
        },
        Err(x) => Err(x),
    }
}

/// The `(('+' | '-') Term)*` part of an expression, read at `p` with the
/// value `acc` so far.
pub open spec fn expression_rest(s: Seq<char>, p: nat, acc: int) -> Result<(int, int), CalcError>
    decreases s.len() - p, 0int,
{
    let q = skip_ws_spec(s, p as int);
    proof {
        lemma_skip_ws(s, p as int);
    }
    if q >= s.len() || (s[q] != '+' && s[q] != '-') {
        Ok((acc, q))
    } else {
        let op = s[q];
        let r = skip_ws_spec(s, q + 1);
        proof {
            lemma_skip_ws(s, q + 1);
        }
        if r >= s.len() {
            Err(CalcError::InvalidToken(op))
        } else {
            match term_spec(s, r as nat) {
                Ok((v, e)) => {
                    let next = if op == '+' {
                        acc + v
                    } else {
                        acc - v
                    };
                    match range_checked(next) {
                        Ok(w) => if advanced(s, p as int, e) {
                            expression_rest(s, e as nat, w)
                        } else {
                            Err(CalcError::InvalidLiteral)
                        },
                        Err(x) => Err(x),
                    }
                },
                Err(x) => Err(x),
            }
        }
    }
}

/// `Term` read at `p`.
pub open spec fn term_spec(s: Seq<char>, p: nat) -> Result<(int, int), CalcError>
    decreases s.len() - p, 2int,
{
    match then_checked(factor_spec(s, p, MAX_I32 as int)) {
        Ok((v, e)) => if advanced(s, p as int, e) {
            term_rest(s, e as nat, v)
        } else {
            Err(CalcError::InvalidLiteral)
        },
        Err(x) => Err(x),
    }
}

/// The `(('*' | '%') Factor)*` part of a term, read at `p` with the value
/// `acc` so far. `%` is the Euclidean remainder; a zero divisor is a
/// `RangeError`.
pub open spec fn term_rest(s: Seq<char>, p: nat, acc: int) -> Result<(int, int), CalcError>
    decreases s.len() - p, 0int,
{
    let q = skip_ws_spec(s, p as int);
    proof {
        lemma_skip_ws(s, p as int);
    }
    if q >= s.len() || (s[q] != '*' && s[q] != '%') {
        Ok((acc, q))
    } else {
        let op = s[q];
        let r = skip_ws_spec(s, q + 1);
        proof {
            lemma_skip_ws(s, q + 1);
        }
        if r >= s.len() {
            Err(CalcError::InvalidToken(op))
        } else {
            match factor_spec(s, r as nat, MAX_I32 as int) {
                Ok((v, e)) => if op == '%' && v == 0 {
                    Err(CalcError::RangeError)
                } else {
                    let next = if op == '*' {
                        acc * v
                    } else {
                        acc % v
                    };
                    match range_checked(next) {
                        Ok(w) => if advanced(s, p as int, e) {
                            term_rest(s, e as nat, w)
                        } else {
                            Err(CalcError::InvalidLiteral)
                        },
                        Err(x) => Err(x),
                    }
                },
                Err(x) => Err(x),
            }
        }
    }
}

/// `Factor` read at `p`, where a literal may be at most `max`. Only the
/// literal written directly after a unary minus gets the bound one past
/// the largest result, so that the smallest result can be written.
pub open spec fn factor_spec(s: Seq<char>, p: nat, max: int) -> Result<(int, int), CalcError>
    decreases s.len() - p, 1int,
{
    let q = skip_ws_spec(s, p as int);
    proof {
        lemma_skip_ws(s, p as int);
    }
    if q >= s.len() {
        Err(CalcError::InvalidLiteral)
    } else if s[q] == '-' {
        let r = skip_ws_spec(s, q + 1);
        proof {
            lemma_skip_ws(s, q + 1);
        }
        if r >= s.len() {
            Err(CalcError::InvalidToken('-'))
        } else {
            match factor_spec(s, r as nat, MAX_I32_PLUS_ONE as int) {
                Ok((v, e)) => match range_checked(-v) {
                    Ok(w) => Ok((w, e)),
                    Err(x) => Err(x),
                },
                Err(x) => Err(x),
            }
        }
    } else if s[q] == '(' {
        let r = skip_ws_spec(s, q + 1);
        proof {
            lemma_skip_ws(s, q + 1);
        }
        if r >= s.len() || s[r] == ')' {
            Err(CalcError::InvalidToken(')'))
        } else {
            match expression_spec(s, r as nat) {
                Ok((v, e)) => {
                    let t = skip_ws_spec(s, e);
                    if t >= s.len() || s[t] != ')' {
                        Err(CalcError::InvalidToken(')'))
                    } else {
                        Ok((v, t + 1))
                    }
                },
                Err(x) => Err(x),
            }
        }
    } else {
        literal_spec(s, q as int, max)
    }
}

/// Moves `idx` over whitespace after the operator `op` and fails with
/// `InvalidToken(op)` where the text ends there.
fn ensure_operand_after_operator(op: char, s: &[char], idx: &mut usize) -> (r: CalcResult<()>)
    requires
        *old(idx) <= s@.len(),
    ensures
        *final(idx) == skip_ws_spec(s@, *old(idx) as int),
        *old(idx) <= *final(idx) <= s@.len(),
        r is Ok <==> *final(idx) < s@.len(),
        r is Err ==> r == Err::<(), CalcError>(CalcError::InvalidToken(op)),
{
    skip_ws(s, idx);
    if *idx >= s.len() {
        return Err(CalcError::InvalidToken(op));
    }
    Ok(())
}

/// Reads an `Expression` at `idx`.
pub(crate) fn parse_expression(s: &[char], idx: &mut usize) -> (r: CalcResult<i64>)
    requires
        *old(idx) <= s@.len(),
    ensures
        step_of(r, *final(idx)) == expression_spec(s@, *old(idx) as nat),
        *old(idx) <= *final(idx) <= s@.len(),
        r matches Ok(v) ==> in_range(v as int) && *old(idx) < *final(idx),
    decreases s@.len() - *old(idx), 3int,
{
    let ghost p0 = *idx as nat;
    let first = parse_term(s, idx)?;
    let mut acc = check_range(first)?;
    loop
        invariant_except_break
            expression_spec(s@, p0) == expression_rest(s@, *idx as nat, acc as int),
        invariant
            p0 == *old(idx),
            p0 < *idx <= s@.len(),
            in_range(acc as int),
        ensures
            expression_spec(s@, p0) == Ok::<(int, int), CalcError>((acc as int, *idx as int)),
        decreases s@.len() - *idx,
    {
        let ghost p = *idx;
        skip_ws(s, idx);
        if *idx >= s.len() {
            break;
        }
        let op = s[*idx];
        if op != '+' && op != '-' {
            break;
        }
        *idx += 1;
        ensure_operand_after_operator(op, s, idx)?;
        let rhs = parse_term(s, idx)?;
        let next = if op == '+' {
            acc.checked_add(rhs)
        } else {
            acc.checked_sub(rhs)
        };
        let next = match next {
            Some(n) => n,
            None => {
                return Err(CalcError::RangeError);
            },
        };
        acc = check_range(next)?;
        assert(advanced(s@, p as int, *idx as int));
    }
    Ok(acc)
}

/// Reads a `Term` at `idx`.
fn parse_term(s: &[char], idx: &mut usize) -> (r: CalcResult<i64>)
    requires
        *old(idx) <= s@.len(),
    ensures
        step_of(r, *final(idx)) == term_spec(s@, *old(idx) as nat),
        *old(idx) <= *final(idx) <= s@.len(),
        r matches Ok(v) ==> in_range(v as int) && *old(idx) < *final(idx),
    decreases s@.len() - *old(idx), 2int,
{
    let ghost p0 = *idx as nat;
    let first = parse_factor(s, idx)?;
    let mut acc = check_range(first)?;
    loop
        invariant_except_break
            term_spec(s@, p0) == term_rest(s@, *idx as nat, acc as int),
        invariant
            p0 == *old(idx),
            p0 < *idx <= s@.len(),
            in_range(acc as int),
        ensures
            term_spec(s@, p0) == Ok::<(int, int), CalcError>((acc as int, *idx as int)),
        decreases s@.len() - *idx,
    {
        let ghost p = *idx;
        skip_ws(s, idx);
        if *idx >= s.len() {
            break;
        }
        let op = s[*idx];
        if op != '*' && op != '%' {
            break;
        }
        *idx += 1;
        ensure_operand_after_operator(op, s, idx)?;
        let rhs = parse_factor(s, idx)?;
        let next = if op == '*' {
            acc.checked_mul(rhs)
        } else {
            if rhs == 0 {
                return Err(CalcError::RangeError);
            }
            acc.checked_rem_euclid(rhs)
        };
        let next = match next {
            Some(n) => n,
            None => {
                return Err(CalcError::RangeError);
            },
        };
        acc = check_range(next)?;
        assert(advanced(s@, p as int, *idx as int));
    }
    Ok(acc)
}

/// Reads a `Factor` at `idx` with the ordinary literal bound.
fn parse_factor(s: &[char], idx: &mut usize) -> (r: CalcResult<i64>)
    requires
        *old(idx) <= s@.len(),
    ensures
        step_of(r, *final(idx)) == factor_spec(s@, *old(idx) as nat, MAX_I32 as int),
        *old(idx) <= *final(idx) <= s@.len(),
        r matches Ok(v) ==> in_range(v as int) && *old(idx) < *final(idx),
    decreases s@.len() - *old(idx), 1int,
{
    parse_factor_with_literal_max(s, idx, MAX_I32)
}

/// Reads a `Factor` at `idx`, where a literal may be at most `literal_max`.
fn parse_factor_with_literal_max(s: &[char], idx: &mut usize, literal_max: i64) -> (r: CalcResult<
    i64,
>)
    requires
        *old(idx) <= s@.len(),
        MAX_I32 <= literal_max <= MAX_I32_PLUS_ONE,
    ensures
        step_of(r, *final(idx)) == factor_spec(s@, *old(idx) as nat, literal_max as int),
        *old(idx) <= *final(idx) <= s@.len(),
        r matches Ok(v) ==> MIN_I32 <= v <= literal_max && *old(idx) < *final(idx),
    decreases s@.len() - *old(idx), 0int,
{
    skip_ws(s, idx);
    if *idx >= s.len() {
        return Err(CalcError::InvalidLiteral);
    }
    if s[*idx] == '-' {
        *idx += 1;
        ensure_operand_after_operator('-', s, idx)?;
        let value = parse_factor_with_literal_max(s, idx, MAX_I32_PLUS_ONE)?;
        let negated = match 0i64.checked_sub(value) {
            Some(n) => n,
            None => {
                return Err(CalcError::RangeError);
            },
        };
        return check_range(negated);
    }
    if s[*idx] == '(' {
        *idx += 1;
        skip_ws(s, idx);
        if *idx >= s.len() {
            return Err(CalcError::InvalidToken(')'));
        }
        if s[*idx] == ')' {
            return Err(CalcError::InvalidToken(')'));
        }
        let value = parse_expression(s, idx)?;
        skip_ws(s, idx);
        if *idx >= s.len() || s[*idx] != ')' {
            return Err(CalcError::InvalidToken(')'));
        }
        *idx += 1;
        return Ok(value);
    }
    parse_literal_with_max(s, idx, literal_max)
}

} // verus!
