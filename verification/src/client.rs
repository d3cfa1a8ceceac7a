//! Helpers shared by the request-building code.

use vstd::prelude::*;
use vstd::string::StrSliceExecFns;
pub mod transaction_option;

verus! {

/// Whether `s` starts with the hexadecimal prefix `0x` or `0X`.
pub open spec fn has_0x_prefix(s: Seq<char>) -> bool {
    s.len() >= 2 && s[0] == '0' && (s[1] == 'x' || s[1] == 'X')
}

/// `s` without its hexadecimal prefix, or `s` itself where it has none.
pub open spec fn without_0x(s: Seq<char>) -> Seq<char> {
    if has_0x_prefix(s) {
        s.subrange(2, s.len() as int)
    } else {
        s
    }
}

/// Remove the hexadecimal prefix "0x" or "0X".
///
/// A string without the prefix, the empty string and a single character
/// included, comes back unchanged.
pub fn remove_0x(hex: &str) -> (rest: &str)
    ensures
        rest@ == without_0x(hex@),
{
    let n: usize = hex.unicode_len();
    if n >= 2 && hex.get_char(0) == '0' {
        let second = hex.get_char(1);
        if second == 'x' || second == 'X' {
            return hex.substring_char(2, n);
        }
    }
    hex
}

} // verus!
