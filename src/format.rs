//! Rendering a result in binary, decimal and hexadecimal.
use vstd::arithmetic::div_mod::lemma_fundamental_div_mod;
use vstd::prelude::*;

use crate::error::push_char;

verus! {

/// The character of digit `d` (0 to 15); hexadecimal digits are upper case.
pub open spec fn digit_char(d: int) -> char {
    seq!['0', '1', '2', '3', '4', '5', '6', '7', '8', '9', 'A', 'B', 'C', 'D', 'E', 'F'][d]
}

/// The digits of `n` in base `radix`, most significant first, without
/// leading zeros; zero is the single digit `0`.
pub open spec fn digits_of(n: nat, radix: nat) -> Seq<char>
    decreases n,
{
    if n < radix || radix < 2 {
        seq![digit_char(n as int)]
    } else {
        proof {
            assert(n / radix < n) by (nonlinear_arith)
                requires
                    radix >= 2,
                    n >= radix,
            ;
        }
        digits_of(n / radix, radix).push(digit_char((n % radix) as int))
    }
}

/// `d` with `sep` put between each `group` characters, counted from the
/// right; unchanged when it holds at most `group` characters.
pub open spec fn grouped(d: Seq<char>, group: nat, sep: char) -> Seq<char>
    decreases d.len(),
{
    if d.len() <= group || group == 0 {
        d
    } else {
        grouped(d.subrange(0, d.len() - group), group, sep) + seq![sep] + d.subrange(
            d.len() - group,
            d.len() as int,
        )
    }
}

/// `-` for a negative value, nothing otherwise.
pub open spec fn sign_text(v: int) -> Seq<char> {
    if v < 0 {
        seq!['-']
    } else {
        seq![]
    }
}

/// The magnitude of `v`.
pub open spec fn magnitude(v: int) -> nat {
    if v < 0 {
        (-v) as nat
    } else {
        v as nat
    }
}

/// Binary text: sign, `0b`, bits grouped by four with `_`.
pub open spec fn binary_text(v: int) -> Seq<char> {
    sign_text(v) + seq!['0', 'b'] + grouped(digits_of(magnitude(v), 2), 4, '_')
}

/// Decimal text: sign and digits.
pub open spec fn decimal_text(v: int) -> Seq<char> {
    sign_text(v) + digits_of(magnitude(v), 10)
}

/// Hexadecimal text: sign, `0x`, upper-case digits.
pub open spec fn hex_text(v: int) -> Seq<char> {
    sign_text(v) + seq!['0', 'x'] + digits_of(magnitude(v), 16)
}

/// The string that holds the characters `cs`.
fn text_of(cs: &[char]) -> (r: String)
    ensures
        r@ == cs@,
{
    let mut out = String::new();
    let mut i: usize = 0;
    while i < cs.len()
        invariant
            i <= cs@.len(),
            out@ == cs@.subrange(0, i as int),
        decreases cs@.len() - i,
    {
        push_char(&mut out, cs[i]);
        i += 1;
        assert(out@ =~= cs@.subrange(0, i as int));
    }
    assert(cs@.subrange(0, cs@.len() as int) =~= cs@);
    out
}

/// The character of digit `d`.
fn digit_char_of(d: u64) -> (c: char)
    requires
        d < 16,
    ensures
        c == digit_char(d as int),
{
    match d {
        0 => '0',
        1 => '1',
        2 => '2',
        3 => '3',
        4 => '4',
        5 => '5',
        6 => '6',
        7 => '7',
        8 => '8',
        9 => '9',
        10 => 'A',
        11 => 'B',
        12 => 'C',
        13 => 'D',
        14 => 'E',
        _ => 'F',
    }
}

/// The digits of `n` in base `radix`.
fn digits(n: u64, radix: u64) -> (r: Vec<char>)
    requires
        2 <= radix <= 16,
    ensures
        r@ == digits_of(n as nat, radix as nat),
{
    let mut out: Vec<char> = Vec::new();
    let mut m = n;
    while m >= radix
        invariant
            2 <= radix <= 16,
            digits_of(n as nat, radix as nat) == digits_of(m as nat, radix as nat) + out@,
        decreases m,
    {
        let d = digit_char_of(m % radix);
        let ghost before = out@;
        out.insert(0, d);
        proof {
            let rest = digits_of((m / radix) as nat, radix as nat);
            assert(digits_of(m as nat, radix as nat) == rest.push(d));
            assert(out@ =~= seq![d] + before);
            assert(rest.push(d) + before =~= rest + out@);
        }
        m = m / radix;
    }
    let d = digit_char_of(m);
    let ghost before = out@;
    out.insert(0, d);
    assert(out@ =~= seq![d] + before);
    out
}

/// Appends the characters `cs[from..to]` to `out`.
fn push_range(out: &mut Vec<char>, cs: &[char], from: usize, to: usize)
    requires
        from <= to <= cs@.len(),
    ensures
        final(out)@ == old(out)@ + cs@.subrange(from as int, to as int),
{
    let mut i: usize = from;
    while i < to
        invariant
            from <= i <= to <= cs@.len(),
            out@ == old(out)@ + cs@.subrange(from as int, i as int),
        decreases to - i,
    {
        out.push(cs[i]);
        i += 1;
        assert(out@ =~= old(out)@ + cs@.subrange(from as int, i as int));
    }
}

/// `input` with `sep` put between each `group` characters, counted from the
/// right.
fn group_from_right(input: &[char], group: usize, sep: char) -> (r: Vec<char>)
    requires
        group > 0,
    ensures
        r@ == grouped(input@, group as nat, sep),
{
    let len = input.len();
    let mut out: Vec<char> = Vec::new();
    if len <= group {
        push_range(&mut out, input, 0, len);
        assert(out@ =~= input@);
        return out;
    }
    // The leftmost group is the one that may be short.
    let mut first = len % group;
    if first == 0 {
        first = group;
    }
    proof {
        lemma_fundamental_div_mod(len as int, group as int);
    }
    let ghost mut k: int = if len % group == 0 {
        len as int / group as int - 1
    } else {
        len as int / group as int
    };
    assert(len - first == k * group) by (nonlinear_arith)
        requires
            len == group * (len as int / group as int) + len as int % group as int,
            first == (if len as int % group as int == 0 {
                group as int
            } else {
                len as int % group as int
            }),
            k == (if len as int % group as int == 0 {
                len as int / group as int - 1
            } else {
                len as int / group as int
            }),
    ;
    push_range(&mut out, input, 0, first);
    let mut i = first;
    assert(input@.subrange(0, i as int).len() <= group);
    while i < len
        invariant
            0 < i <= len == input@.len(),
            group > 0,
            len - i == k * group,
            out@ == grouped(input@.subrange(0, i as int), group as nat, sep),
        decreases len - i,
    {
        assert(i + group <= len) by (nonlinear_arith)
            requires
                len - i == k * group,
                i < len,
                group > 0,
        ;
        let ghost before = out@;
        out.push(sep);
        push_range(&mut out, input, i, i + group);
        proof {
            let d = input@.subrange(0, i + group);
            assert(d.subrange(0, d.len() - group) =~= input@.subrange(0, i as int));
            assert(d.subrange(d.len() - group, d.len() as int) =~= input@.subrange(
                i as int,
                i + group,
            ));
            assert(out@ =~= before + seq![sep] + input@.subrange(i as int, i + group));
            k = k - 1;
            assert(len - (i + group) == k * group) by (nonlinear_arith)
                requires
                    len - i == (k + 1) * group,
            ;
        }
        i = i + group;
    }
    assert(input@.subrange(0, len as int) =~= input@);
    out
}

/// The sign and the magnitude of `value`, as characters and as a number.
fn sign_and_magnitude(value: i64) -> (r: (Vec<char>, u64))
    requires
        crate::in_range(value as int),
    ensures
        r.0@ == sign_text(value as int),
        r.1 as nat == magnitude(value as int),
{
    let mut sign: Vec<char> = Vec::new();
    if value < 0 {
        sign.push('-');
        assert(sign@ =~= seq!['-']);
        (sign, (-value) as u64)
    } else {
        assert(sign@ =~= Seq::<char>::empty());
        (sign, value as u64)
    }
}

/// Binary text of `value`: sign, `0b`, bits grouped by four with `_`.
pub(crate) fn format_binary(value: i64) -> (r: String)
    requires
        crate::in_range(value as int),
    ensures
        r@ == binary_text(value as int),
{
    let (mut out, n) = sign_and_magnitude(value);
    let ghost sign = out@;
    out.push('0');
    out.push('b');
    let bits = digits(n, 2);
    let grouped_bits = group_from_right(bits.as_slice(), 4, '_');
    push_range(&mut out, grouped_bits.as_slice(), 0, grouped_bits.len());
    assert(grouped_bits@.subrange(0, grouped_bits@.len() as int) =~= grouped_bits@);
    assert(out@ =~= sign + seq!['0', 'b'] + grouped_bits@);
    text_of(out.as_slice())
}

/// Decimal text of `value`: sign and digits.
pub(crate) fn format_decimal(value: i64) -> (r: String)
    requires
        crate::in_range(value as int),
    ensures
        r@ == decimal_text(value as int),
{
    let (mut out, n) = sign_and_magnitude(value);
    let ghost sign = out@;
    let ds = digits(n, 10);
    push_range(&mut out, ds.as_slice(), 0, ds.len());
    assert(ds@.subrange(0, ds@.len() as int) =~= ds@);
    text_of(out.as_slice())
}

/// Hexadecimal text of `value`: sign, `0x`, upper-case digits.
pub(crate) fn format_hex_string(value: i64) -> (r: String)
    requires
        crate::in_range(value as int),
    ensures
        r@ == hex_text(value as int),
{
    let (mut out, n) = sign_and_magnitude(value);
    let ghost sign = out@;
    out.push('0');
    out.push('x');
    let ds = digits(n, 16);
    push_range(&mut out, ds.as_slice(), 0, ds.len());
    assert(ds@.subrange(0, ds@.len() as int) =~= ds@);
    assert(out@ =~= sign + seq!['0', 'x'] + ds@);
    text_of(out.as_slice())
}

} // verus!
