//! Syntactic validation of device hardware addresses.
//!
//! A canonical hardware address is six two-digit hexadecimal groups
//! separated by `:` or `-` (the separators may be mixed), 17 characters
//! in all.  Frames whose address field fails this check are still
//! aggregated, but under the shared empty-string sentinel record.

use vstd::prelude::*;
use crate::text::str_chars;

verus! {

/// `c` is a hexadecimal digit, in either case.
pub open spec fn is_hex_digit(c: char) -> bool {
    ||| 48 <= c as u32 <= 57
    ||| 65 <= c as u32 <= 70
    ||| 97 <= c as u32 <= 102
}

/// What position `i` of a well-formed address holds: a group separator
/// at every third position, a hexadecimal digit elsewhere.
pub open spec fn mac_char_ok(s: Seq<char>, i: int) -> bool {
    if i % 3 == 2 {
        s[i] == ':' || s[i] == '-'
    } else {
        is_hex_digit(s[i])
    }
}

/// `s` is a canonical hardware address: six colon- or hyphen-separated
/// two-digit hexadecimal groups.
pub open spec fn is_mac_address(s: Seq<char>) -> bool {
    s.len() == 17 && forall|i: int| 0 <= i < s.len() ==> #[trigger] mac_char_ok(s, i)
}

/// Decides whether `s` is a canonical hardware address.
pub fn is_mac(s: &str) -> (r: bool)
    ensures
        r == is_mac_address(s@),
{
    let chars = str_chars(s);
    let n = chars.len();
    if n != 17 {
        return false;
    }
    let mut i: usize = 0;
    while i < 17
        invariant
            i <= 17,
            chars@ == s@,
            chars@.len() == 17,
            forall|j: int| 0 <= j < i ==> #[trigger] mac_char_ok(s@, j),
        decreases 17 - i,
    {
        let c = chars[i];
        let ok: bool = if i % 3 == 2 {
            c == ':' || c == '-'
        } else {
            let u = c as u32;
            (48 <= u && u <= 57) || (65 <= u && u <= 70) || (97 <= u && u <= 102)
        };
        if !ok {
            assert(!mac_char_ok(s@, i as int));
            return false;
        }
        assert(mac_char_ok(s@, i as int));
        i = i + 1;
    }
    true
}

} // verus!
