//! Identifiers of records: random version-4 UUIDs in their hyphenated form.

use vstd::prelude::*;
use uuid::Uuid;

verus! {

/// A decimal digit or a lower-case letter from `a` to `f`.
pub open spec fn is_lower_hex(c: char) -> bool {
    let n = c as u32;
    ||| 0x30 <= n <= 0x39
    ||| 0x61 <= n <= 0x66
}

/// The shape of an identifier: thirty-six characters, hyphens after the
/// eighth, twelfth, sixteenth and twentieth hexadecimal digit, lower-case
/// hexadecimal digits elsewhere, with the version digit `4` and a variant
/// digit from `8` to `b`.
pub open spec fn is_identifier(s: Seq<char>) -> bool {
    &&& s.len() == 36
    &&& forall|i: int|
        0 <= i < 36 ==> if i == 8 || i == 13 || i == 18 || i == 23 {
            #[trigger] s[i] == '-'
        } else {
            is_lower_hex(s[i])
        }
    &&& s[14] == '4'
    &&& (s[19] == '8' || s[19] == '9' || s[19] == 'a' || s[19] == 'b')
}

/// Draws a random version-4 UUID with `Uuid::new_v4` and renders it with its
/// `Display` form. Which identifier comes back is left open; the contract
/// claims only its shape: the hyphenated lower-case rendering, with the
/// version and variant digits that `new_v4` sets.
#[verifier::external_body]
pub(crate) fn new_id() -> (id: String)
    ensures
        is_identifier(id@),
{
    Uuid::new_v4().to_string()
}

} // verus!
