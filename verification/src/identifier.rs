//! Identifiers of pastes: random 128-bit values in canonical text.

use vstd::prelude::*;

verus! {

/// Whether `c` is a digit of lower-case hexadecimal notation.
pub open spec fn is_lower_hex(c: char) -> bool {
    ('0' <= c && c <= '9') || ('a' <= c && c <= 'f')
}

/// Whether `id` is a 128-bit value in canonical text: 32 lower-case hexadecimal
/// digits in groups of 8, 4, 4, 4 and 12, with a hyphen between the groups.
pub open spec fn is_canonical(id: Seq<char>) -> bool {
    &&& id.len() == 36
    &&& forall|i: int|
        0 <= i < 36 ==> if i == 8 || i == 13 || i == 18 || i == 23 {
            #[trigger] id[i] == '-'
        } else {
            is_lower_hex(id[i])
        }
}

/// Whether `id` is the canonical text of a randomly generated identifier: its
/// version digit is 4 and its variant digit is one of 8, 9, a and b.
pub open spec fn is_random_identifier(id: Seq<char>) -> bool {
    &&& is_canonical(id)
    &&& id[14] == '4'
    &&& (id[19] == '8' || id[19] == '9' || id[19] == 'a' || id[19] == 'b')
}

/// The text of the identifier that is made of sixteen random bytes: what
/// `uuid::Builder::from_random_bytes` and the `Display` of `uuid::Uuid` give
/// for them.
pub uninterp spec fn identifier_text(random: Seq<u8>) -> Seq<char>;

/// The identifier made of sixteen random bytes:
/// `uuid::Builder::from_random_bytes`, turned into a `uuid::Uuid` and rendered
/// by its `Display`.
///
/// Trusted, not proved: the text depends on the bytes alone; it is hyphenated
/// lower-case hexadecimal; and the bits that `from_random_bytes` sets show as
/// the version digit 4 and a variant digit from 8 to b.
#[verifier::external_body]
pub(crate) fn identifier_from_random(random: [u8; 16]) -> (id: String)
    ensures
        id@ == identifier_text(random@),
        is_random_identifier(id@),
{
    uuid::Builder::from_random_bytes(random).into_uuid().to_string()
}

} // verus!
