//! ASCII case folding.

use vstd::prelude::*;

verus! {

/// An ASCII upper case letter in lower case; any other character as it is.
pub open spec fn lower_char(c: char) -> char {
    if 'A' <= c && c <= 'Z' {
        (c as int + 32) as char
    } else {
        c
    }
}

/// A string with its ASCII letters in lower case.
pub open spec fn lower(s: Seq<char>) -> Seq<char> {
    s.map_values(|c: char| lower_char(c))
}

/// `str::eq_ignore_ascii_case` of the standard library: the two strings are equal
/// once their ASCII letters are in lower case.
pub assume_specification[ str::eq_ignore_ascii_case ](a: &str, other: &str) -> (r: bool)
    ensures
        r == (lower(a@) == lower(other@)),
;

/// Lower case: the 26 capital letters become the small letters, 32 places on; nothing else
/// changes, and nothing is a capital letter afterwards.
pub proof fn capitals_become_small(c: char, s: Seq<char>)
    ensures
        'A' <= c && c <= 'Z' ==> lower_char(c) as int == c as int + 32,
        !('A' <= c && c <= 'Z') ==> lower_char(c) == c,
        lower_char(lower_char(c)) == lower_char(c),
        lower(s).len() == s.len(),
        lower(lower(s)) == lower(s),
        forall|k: int| 0 <= k < s.len() ==> #[trigger] lower(s)[k] == lower_char(s[k]),
{
    assert(lower(lower(s)) =~= lower(s));
}

} // verus!
