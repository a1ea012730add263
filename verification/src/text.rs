//! Small text helpers for the render functions: decimal formatting and
//! appending to strings.

use vstd::prelude::*;

verus! {

/// Relies on alloc::string::String::push_str: appends the characters
/// of `other`.
pub assume_specification [ String::push_str ](s: &mut String, other: &str)
    ensures
        final(s)@ == old(s)@ + other@,
;

/// The ASCII-lowercase image of one character: uppercase ASCII
/// letters move down by 32, everything else is unchanged.
pub open spec fn spec_ascii_lower_char(c: char) -> char {
    if 'A' <= c && c <= 'Z' {
        ((c as u8) + 32) as char
    } else {
        c
    }
}

/// The ASCII-lowercase image of a string.
pub open spec fn spec_ascii_lower(s: Seq<char>) -> Seq<char> {
    s.map_values(|c: char| spec_ascii_lower_char(c))
}

/// Relies on str::to_ascii_lowercase: each character is mapped to its
/// ASCII lower-case equivalent; non-ASCII characters are unchanged.
pub assume_specification [ str::to_ascii_lowercase ](s: &str) -> (r: String)
    ensures
        r@ == spec_ascii_lower(s@),
;

/// The character of a single decimal digit.
pub open spec fn spec_digit(d: nat) -> char {
    ((d + 48) as u8) as char
}

/// The decimal representation of `n`, most significant digit first.
pub open spec fn spec_dec_u64(n: nat) -> Seq<char>
    decreases n,
{
    if n < 10 {
        seq![spec_digit(n)]
    } else {
        spec_dec_u64(n / 10).push(spec_digit(n % 10))
    }
}

/// Renders `n` in decimal.
pub fn dec_u64(n: u64) -> (r: String)
    ensures
        r@ == spec_dec_u64(n as nat),
    decreases n,
{
    if n < 10 {
        let mut s = String::new();
        s.push(((n + 48) as u8) as char);
        proof {
            assert(s@ =~= seq![spec_digit(n as nat)]);
        }
        s
    } else {
        let mut s = dec_u64(n / 10);
        s.push(((n % 10 + 48) as u8) as char);
        s
    }
}

} // verus!
