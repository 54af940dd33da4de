//! Record identifiers: UUID text as the `uuid` crate accepts it, and fresh
//! random identifiers.

use vstd::prelude::*;
use vstd::utf8::*;

verus! {

/// An ASCII hexadecimal digit, either case.
pub open spec fn is_hex_byte(b: u8) -> bool {
    (0x30 <= b <= 0x39) || (0x41 <= b <= 0x46) || (0x61 <= b <= 0x66)
}

/// The 36-byte hyphenated form `xxxxxxxx-xxxx-xxxx-xxxx-xxxxxxxxxxxx`.
pub open spec fn is_hyphenated_uuid(b: Seq<u8>) -> bool {
    &&& b.len() == 36
    &&& forall|i: int|
        0 <= i < 36 ==> if i == 8 || i == 13 || i == 18 || i == 23 {
            #[trigger] b[i] == 0x2d
        } else {
            is_hex_byte(b[i])
        }
}

/// A lower-case ASCII hexadecimal digit.
pub open spec fn is_lower_hex_byte(b: u8) -> bool {
    (0x30 <= b <= 0x39) || (0x61 <= b <= 0x66)
}

/// The text of a random UUID (version 4, RFC 4122 variant) as `Uuid`'s
/// `Display` writes it: the hyphenated form in lower case, with `4` as the
/// version digit and `8`, `9`, `a` or `b` as the variant digit.
pub open spec fn is_v4_uuid_text(b: Seq<u8>) -> bool {
    &&& is_hyphenated_uuid(b)
    &&& forall|i: int|
        0 <= i < 36 && i != 8 && i != 13 && i != 18 && i != 23 ==> is_lower_hex_byte(#[trigger] b[i])
    &&& b[14] == 0x34
    &&& b[19] == 0x38 || b[19] == 0x39 || b[19] == 0x61 || b[19] == 0x62
}

/// `b` lower-cased in the ASCII range is `urn:uuid:`.
pub open spec fn is_urn_prefix(b: Seq<u8>) -> bool {
    &&& b.len() == 9
    &&& b[0] == 0x75 || b[0] == 0x55
    &&& b[1] == 0x72 || b[1] == 0x52
    &&& b[2] == 0x6e || b[2] == 0x4e
    &&& b[3] == 0x3a
    &&& b[4] == 0x75 || b[4] == 0x55
    &&& b[5] == 0x75 || b[5] == 0x55
    &&& b[6] == 0x69 || b[6] == 0x49
    &&& b[7] == 0x64 || b[7] == 0x44
    &&& b[8] == 0x3a
}

/// The byte strings `Uuid::parse_str` accepts: 32 hex digits; the hyphenated
/// form; the hyphenated form in braces; or `urn:uuid:` (any ASCII case)
/// followed by the hyphenated form.
pub open spec fn is_uuid_bytes(b: Seq<u8>) -> bool {
    ||| b.len() == 32 && forall|i: int| 0 <= i < 32 ==> is_hex_byte(#[trigger] b[i])
    ||| is_hyphenated_uuid(b)
    ||| b.len() == 38 && b[0] == 0x7b && b[37] == 0x7d && is_hyphenated_uuid(b.subrange(1, 37))
    ||| b.len() == 45 && is_urn_prefix(b.subrange(0, 9)) && is_hyphenated_uuid(b.subrange(9, 45))
}

/// `s` is a record identifier: text that reads as a UUID.
pub open spec fn is_uuid_text(s: Seq<char>) -> bool {
    is_uuid_bytes(encode_utf8(s))
}

/// `uuid::Uuid::parse_str(s).is_ok()`. Claimed, from the crate's parser: the
/// UTF-8 bytes of `s` have one of the four accepted shapes of `is_uuid_bytes`.
#[verifier::external_body]
fn uuid_parses(s: &str) -> (r: bool)
    ensures
        r == is_uuid_text(s@),
{
    uuid::Uuid::parse_str(s).is_ok()
}

/// `uuid::Uuid::new_v4().to_string()`: a random version-4 UUID in the
/// hyphenated form. Claimed: the text is that form in lower case (`Display`
/// writes the lower-case hyphenated form), with version digit `4` and variant
/// digit `8`, `9`, `a` or `b` (`new_v4` masks in those bits). Which UUID it is
/// depends on the operating system's random source (and the call panics if
/// there is none).
#[verifier::external_body]
fn uuid_v4_text() -> (r: String)
    ensures
        is_v4_uuid_text(encode_utf8(r@)),
{
    uuid::Uuid::new_v4().to_string()
}

/// Whether `s` is a valid record identifier (a UUID).
pub fn valid_id(s: &str) -> (r: bool)
    ensures
        r == is_uuid_text(s@),
{
    uuid_parses(s)
}

/// A fresh random identifier, a version-4 UUID; it is always a valid one.
pub fn new_id() -> (r: String)
    ensures
        is_uuid_text(r@),
        is_hyphenated_uuid(encode_utf8(r@)),
        is_v4_uuid_text(encode_utf8(r@)),
{
    uuid_v4_text()
}

} // verus!
