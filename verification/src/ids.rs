use vstd::prelude::*;

verus! {

/// A digit of lower-case hexadecimal.
pub open spec fn is_lower_hex_digit(c: char) -> bool {
    ('0' <= c && c <= '9') || ('a' <= c && c <= 'f')
}

/// The hyphenated lower-case text `xxxxxxxx-xxxx-4xxx-Nxxx-xxxxxxxxxxxx` of a
/// random (version 4) UUID, where `N` is one of `8`, `9`, `a`, `b`.
pub open spec fn is_uuid_v4_text(s: Seq<char>) -> bool {
    &&& s.len() == 36
    &&& forall|i: int|
        0 <= i < 36 ==> if i == 8 || i == 13 || i == 18 || i == 23 {
            s[i] == '-'
        } else {
            is_lower_hex_digit(s[i])
        }
    &&& s[14] == '4'
    &&& (s[19] == '8' || s[19] == '9' || s[19] == 'a' || s[19] == 'b')
}

/// Calls `uuid::Uuid::new_v4()` and renders it with `to_string()`.
///
/// In the uuid source, `new_v4` masks random bits so that the version digit
/// is `4` and the variant digit is one of `8`, `9`, `a`, `b`, and `Display`
/// writes the hyphenated lower-case form. The other digits come from the
/// operating system's random source: nothing is claimed of them, in
/// particular not that the text differs from any earlier one. The uuid
/// source panics when the random source fails.
#[verifier::external_body]
pub(crate) fn new_v4_text() -> (id: String)
    ensures
        is_uuid_v4_text(id@),
{
    uuid::Uuid::new_v4().to_string()
}

} // verus!
