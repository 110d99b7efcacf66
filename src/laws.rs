//! Properties that relate the reader and the renderer.
use vstd::prelude::*;

use crate::format::{decimal_text, digit_char, digits_of};
use crate::lexer::{
    binary_prefix_at, body_value, digit_value, hex_prefix_at, in_run, literal_spec, run_end,
    token_value,
};
use crate::text::skip_ws_spec;
use crate::{literal_only, CalcError, MAX_I32};

verus! {

/// The value that the digits of `t` spell in base `radix`; `_` adds nothing.
pub open spec fn value_of(t: Seq<char>, radix: int) -> int
    decreases t.len(),
{
    if t.len() == 0 {
        0
    } else if t.last() == '_' {
        value_of(t.drop_last(), radix)
    } else {
        value_of(t.drop_last(), radix) * radix + digit_value(t.last())
    }
}

/// A literal body in base `radix`: digits of that base and `_`, neither
/// starting nor ending with `_`, with no two `_` in a row.
pub open spec fn well_formed_body(t: Seq<char>, radix: int) -> bool {
    &&& t.len() > 0
    &&& forall|k: int| 0 <= k < t.len() ==> #[trigger] in_run(t[k], radix)
    &&& t[0] != '_'
    &&& t.last() != '_'
    &&& forall|k: int| 0 < k < t.len() ==> !(#[trigger] t[k] == '_' && t[k - 1] == '_')
}

/// The prefixes that announce a literal in base `radix`.
pub open spec fn base_prefix(prefix: Seq<char>, radix: int) -> bool {
    ||| radix == 10 && prefix == Seq::<char>::empty()
    ||| radix == 2 && (prefix == seq!['0', 'b'] || prefix == seq!['0', 'B'])
    ||| radix == 16 && (prefix == seq!['0', 'x'] || prefix == seq!['0', 'X'])
}

proof fn lemma_value_of_nonneg(t: Seq<char>, radix: int)
    requires
        radix >= 2,
    ensures
        value_of(t, radix) >= 0,
    decreases t.len(),
{
    if t.len() > 0 {
        lemma_value_of_nonneg(t.drop_last(), radix);
        let v = value_of(t.drop_last(), radix);
        assert(v * radix >= 0) by (nonlinear_arith)
            requires
                v >= 0,
                radix >= 2,
        ;
    }
}

/// Reading more of a body never lowers its value.
proof fn lemma_value_of_grows(s: Seq<char>, start: int, i: int, end: int, radix: int)
    requires
        0 <= start <= i <= end <= s.len(),
        radix >= 2,
    ensures
        value_of(s.subrange(start, i), radix) <= value_of(s.subrange(start, end), radix),
    decreases end - i,
{
    if i < end {
        lemma_value_of_grows(s, start, i, end - 1, radix);
        let t = s.subrange(start, end);
        assert(t.drop_last() =~= s.subrange(start, end - 1));
        let v = value_of(t.drop_last(), radix);
        lemma_value_of_nonneg(t.drop_last(), radix);
        assert(v <= v * radix) by (nonlinear_arith)
            requires
                v >= 0,
                radix >= 2,
        ;
    }
}

/// A well-formed body whose value is within `max` reads as that value.
proof fn lemma_body_reads(s: Seq<char>, start: int, i: int, end: int, radix: int, max: int)
    requires
        0 <= start <= i <= end <= s.len(),
        radix >= 2,
        well_formed_body(s.subrange(start, end), radix),
        value_of(s.subrange(start, end), radix) <= max,
    ensures
        body_value(s, start, i, end, radix, max, value_of(s.subrange(start, i), radix)) == Ok::<
            int,
            CalcError,
        >(value_of(s.subrange(start, end), radix)),
    decreases end - i,
{
    let t = s.subrange(start, end);
    if i < end {
        assert(in_run(t[i - start], radix));
        let u = s.subrange(start, i + 1);
        assert(u.drop_last() =~= s.subrange(start, i));
        assert(u.last() == s[i]);
        if s[i] == '_' {
            assert(i > start);
            assert(t[i - start] == '_');
            assert(!(t[i - start] == '_' && t[i - start - 1] == '_'));
        } else {
            lemma_value_of_grows(s, start, i + 1, end, radix);
        }
        lemma_body_reads(s, start, i + 1, end, radix, max);
    } else {
        assert(s.subrange(start, i) =~= t);
        assert(t.last() == s[end - 1]);
    }
}

/// A body whose characters all continue it runs to the end of the text.
proof fn lemma_run_to_end(s: Seq<char>, p: int, radix: int)
    requires
        0 <= p <= s.len(),
        forall|k: int| p <= k < s.len() ==> #[trigger] in_run(s[k], radix),
    ensures
        run_end(s, p, radix) == Some(s.len() as int),
    decreases s.len() - p,
{
    if p < s.len() {
        lemma_run_to_end(s, p + 1, radix);
    }
}

/// Every literal written as a base prefix and a well-formed body whose value
/// is within range reads back as exactly that value.
pub proof fn lemma_literal_round_trip(prefix: Seq<char>, t: Seq<char>, radix: int)
    requires
        base_prefix(prefix, radix),
        well_formed_body(t, radix),
        value_of(t, radix) <= MAX_I32,
    ensures
        literal_only(prefix + t) == Ok::<int, CalcError>(value_of(t, radix)),
{
    let s = prefix + t;
    let n = prefix.len() as int;
    assert(s.subrange(n, s.len() as int) =~= t);
    assert forall|k: int| n <= k < s.len() implies #[trigger] in_run(s[k], radix) by {
        assert(s[k] == t[k - n]);
        assert(in_run(t[k - n], radix));
    }
    assert(in_run(t[0], radix));
    assert(s[0] == '0' || in_run(s[0], radix));
    assert(skip_ws_spec(s, 0) == 0);
    lemma_run_to_end(s, n, radix);
    lemma_body_reads(s, n, n, s.len() as int, radix, MAX_I32 as int);
    assert(s.subrange(n, n) =~= Seq::<char>::empty());
    assert(token_value(s, n, s.len() as int, radix, MAX_I32 as int) == Ok::<int, CalcError>(
        value_of(t, radix),
    ));
    if radix == 10 {
        assert(!binary_prefix_at(s, 0)) by {
            if s.len() > 1 {
                assert(in_run(s[1], radix));
            }
        }
        assert(!hex_prefix_at(s, 0)) by {
            if s.len() > 1 {
                assert(in_run(s[1], radix));
            }
        }
    }
    assert(literal_spec(s, 0, MAX_I32 as int) == Ok::<(int, int), CalcError>(
        (value_of(t, radix), s.len() as int),
    ));
    assert(skip_ws_spec(s, s.len() as int) == s.len());
}

/// A digit character reads back as its digit.
proof fn lemma_digit_char(d: int)
    requires
        0 <= d < 16,
    ensures
        digit_value(digit_char(d)) == d,
        d < 10 ==> in_run(digit_char(d), 10),
{
    if d < 8 {
        if d < 4 {
            if d < 2 {
                if d == 0 {
                    assert(digit_char(0) == '0');
                } else {
                    assert(digit_char(1) == '1');
                }
            } else if d == 2 {
                assert(digit_char(2) == '2');
            } else {
                assert(digit_char(3) == '3');
            }
        } else if d < 6 {
            if d == 4 {
                assert(digit_char(4) == '4');
            } else {
                assert(digit_char(5) == '5');
            }
        } else if d == 6 {
            assert(digit_char(6) == '6');
        } else {
            assert(digit_char(7) == '7');
        }
    } else if d < 12 {
        if d == 8 {
            assert(digit_char(8) == '8');
        } else if d == 9 {
            assert(digit_char(9) == '9');
        } else if d == 10 {
            assert(digit_char(10) == 'A');
        } else {
            assert(digit_char(11) == 'B');
        }
    } else if d == 12 {
        assert(digit_char(12) == 'C');
    } else if d == 13 {
        assert(digit_char(13) == 'D');
    } else if d == 14 {
        assert(digit_char(14) == 'E');
    } else {
        assert(digit_char(15) == 'F');
    }
}

/// The decimal digits of `n` form a well-formed body that spells `n`.
proof fn lemma_decimal_digits(n: nat)
    ensures
        well_formed_body(digits_of(n, 10), 10),
        value_of(digits_of(n, 10), 10) == n,
    decreases n,
{
    let t = digits_of(n, 10);
    if n < 10 {
        lemma_digit_char(n as int);
        assert(t.drop_last() =~= Seq::<char>::empty());
        assert(t.last() == digit_char(n as int));
        assert(value_of(t, 10) == value_of(t.drop_last(), 10) * 10 + n);
    } else {
        let h = digits_of(n / 10, 10);
        lemma_decimal_digits(n / 10);
        lemma_digit_char((n % 10) as int);
        assert(t.drop_last() =~= h);
        assert forall|k: int| 0 <= k < t.len() implies #[trigger] in_run(t[k], 10) by {
            if k < h.len() {
                assert(in_run(h[k], 10));
            }
        }
        assert forall|k: int| 0 < k < t.len() implies !(#[trigger] t[k] == '_' && t[k - 1]
            == '_') by {
            assert(in_run(t[k], 10));
            if k < h.len() {
                assert(in_run(h[k], 10));
            }
        }
        assert(t[0] == h[0]);
        assert(t.last() == digit_char((n % 10) as int));
        assert((n / 10) * 10 + n % 10 == n) by (nonlinear_arith);
        assert(value_of(t, 10) == value_of(h, 10) * 10 + (n % 10));
    }
}

/// Reading back the decimal rendering of a non-negative result in range
/// gives that result.
pub proof fn lemma_decimal_round_trip(v: int)
    requires
        0 <= v <= MAX_I32,
    ensures
        literal_only(decimal_text(v)) == Ok::<int, CalcError>(v),
{
    lemma_decimal_digits(v as nat);
    assert(decimal_text(v) =~= Seq::<char>::empty() + digits_of(v as nat, 10));
    lemma_literal_round_trip(Seq::<char>::empty(), digits_of(v as nat, 10), 10);
}

} // verus!
