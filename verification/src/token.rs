//! The native-token short circuit: the empty identifier and the
//! case-insensitive name of the native token map to a fixed built-in
//! descriptor, bypassing the cache and any upstream call.

use vstd::prelude::*;

use crate::types::FtMetadata;

verus! {

/// Whether a character spells the same letter, ignoring ASCII case.
pub open spec fn char_eq_ci(c: char, lower: char, upper: char) -> bool {
    c == lower || c == upper
}

/// Whether a token identifier names the native token: it is empty, or it
/// spells "near" in any ASCII casing.
pub open spec fn is_native_id(s: Seq<char>) -> bool {
    s.len() == 0 || (s.len() == 4 && char_eq_ci(s[0], 'n', 'N') && char_eq_ci(s[1], 'e', 'E')
        && char_eq_ci(s[2], 'a', 'A') && char_eq_ci(s[3], 'r', 'R'))
}

/// The built-in descriptor for native-token identifiers: `Some` of the
/// fixed native descriptor (24 decimal places) exactly when the identifier
/// is empty or spells "near" ignoring ASCII case, `None` otherwise.  A
/// `None` tells the caller to consult the cache and, on a miss, the
/// upstream service.
pub fn native_metadata(token_id: &str) -> (r: Option<FtMetadata>)
    ensures
        r is Some <==> is_native_id(token_id@),
        r matches Some(m) ==> m.decimals == 24 && m.name@ == "Near"@ && m.symbol@ == "NEAR"@
            && m.icon is None && m.reference is None && m.reference_hash is None,
{
    let n = token_id.unicode_len();
    if n == 0 {
        return Some(FtMetadata::near());
    }
    if n != 4 {
        return None;
    }
    let c0 = token_id.get_char(0);
    let c1 = token_id.get_char(1);
    let c2 = token_id.get_char(2);
    let c3 = token_id.get_char(3);
    if (c0 == 'n' || c0 == 'N') && (c1 == 'e' || c1 == 'E') && (c2 == 'a' || c2 == 'A') && (c3
        == 'r' || c3 == 'R') {
        Some(FtMetadata::near())
    } else {
        None
    }
}

} // verus!
