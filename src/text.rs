//! Characters of the source text and the whitespace between tokens.
use vstd::prelude::*;
use vstd::std_specs::iter::IteratorSpec;

verus! {

/// Whitespace that may separate tokens.
pub open spec fn is_ws(c: char) -> bool {
    c == ' ' || c == '\t' || c == '\n' || c == '\r'
}

/// The first position at or after `p` that does not hold whitespace.
pub open spec fn skip_ws_spec(s: Seq<char>, p: int) -> int
    decreases s.len() - p,
{
    if 0 <= p < s.len() && is_ws(s[p]) {
        skip_ws_spec(s, p + 1)
    } else {
        p
    }
}

/// Skipping whitespace never moves backwards nor past the end, and stops on
/// a character that is not whitespace.
pub proof fn lemma_skip_ws(s: Seq<char>, p: int)
    requires
        0 <= p,
    ensures
        p <= skip_ws_spec(s, p),
        p <= s.len() ==> skip_ws_spec(s, p) <= s.len(),
        skip_ws_spec(s, p) < s.len() ==> !is_ws(s[skip_ws_spec(s, p)]),
    decreases s.len() - p,
{
    if p < s.len() && is_ws(s[p]) {
        lemma_skip_ws(s, p + 1);
    }
}

/// The characters of `input`, in order.
pub fn chars_of(input: &str) -> (r: Vec<char>)
    ensures
        r@ == input@,
{
    broadcast use vstd::string::group_string_axioms;

    let mut out: Vec<char> = Vec::new();
    for c in it: input.chars()
        invariant
            it.seq() == input@,
            out@ == it.seq().take(it.index() as int),
    {
        out.push(c);
    }
    assert(out@ == input@);
    out
}

/// Moves `idx` over the whitespace that starts there.
pub fn skip_ws(s: &[char], idx: &mut usize)
    requires
        *old(idx) <= s@.len(),
    ensures
        *final(idx) == skip_ws_spec(s@, *old(idx) as int),
        *old(idx) <= *final(idx) <= s@.len(),
{
    proof {
        lemma_skip_ws(s@, *idx as int);
    }
    while *idx < s.len()
        invariant
            *old(idx) <= *idx <= s@.len(),
            skip_ws_spec(s@, *idx as int) == skip_ws_spec(s@, *old(idx) as int),
        ensures
            skip_ws_spec(s@, *idx as int) == *idx as int,
        decreases s@.len() - *idx,
    {
        let c = s[*idx];
        if c == ' ' || c == '\t' || c == '\n' || c == '\r' {
            *idx += 1;
        } else {
            break;
        }
    }
}

} // verus!
