//! Small text helpers shared by the listing and codec code.

use vstd::prelude::*;

verus! {

/// An empty field stands for "no value"; any other text is kept as is.
pub fn parse_maybe_string(s: &str) -> (r: Option<String>)
    ensures
        r is Some <==> s@.len() > 0,
        r matches Some(v) ==> v@ == s@,
{
    if s.unicode_len() == 0 {
        None
    } else {
        Some(s.to_owned())
    }
}

/// The first `up_to` characters of `s`, or all of `s` when it is shorter.
pub fn str_to(s: &str, up_to: usize) -> (r: String)
    ensures
        up_to >= s@.len() ==> r@ == s@,
        up_to < s@.len() ==> r@ == s@.subrange(0, up_to as int),
{
    let n = s.unicode_len();
    if up_to >= n {
        s.to_owned()
    } else {
        let part = s.substring_char(0, up_to);
        part.to_owned()
    }
}

} // verus!
