//! Text forms of 16-byte instance ids, through the `uuid` crate.

use vstd::prelude::*;

use crate::num::hex_bytes;

verus! {

/// The hyphenated lower-case form of a UUID: its bytes in hex, in groups of 4, 2, 2, 2 and 6
/// bytes joined by `-`, as in `67e55044-10b1-426f-9247-bb680e5fe0c8`.
pub open spec fn uuid_hyphenated(b: Seq<u8>) -> Seq<char> {
    hex_bytes(b.subrange(0, 4)) + seq!['-'] + hex_bytes(b.subrange(4, 6)) + seq!['-'] + hex_bytes(
        b.subrange(6, 8),
    ) + seq!['-'] + hex_bytes(b.subrange(8, 10)) + seq!['-'] + hex_bytes(b.subrange(10, 16))
}

/// The outcome of `uuid::Uuid::parse_str` on a text: the parsed bytes, or the text of the
/// error it reports.
pub uninterp spec fn uuid_parse_spec(text: Seq<char>) -> Result<Seq<u8>, Seq<char>>;

/// `uuid::Uuid::from_bytes(bytes).to_string()`. The crate's `Display` writes the hyphenated
/// lower-case form (`fmt.rs`: `Display` goes to `LowerHex` of `as_hyphenated`).
#[verifier::external_body]
pub fn uuid_to_text(bytes: [u8; 16]) -> (r: String)
    ensures
        r@ == uuid_hyphenated(bytes@),
{
    uuid::Uuid::from_bytes(bytes).to_string()
}

/// `uuid::Uuid::parse_str(text)`, as its bytes or the text of its error. The crate accepts the
/// simple, hyphenated, braced and URN forms in either case; that is left to the name
/// `uuid_parse_spec`, except that the hyphenated form of some bytes parses back to them.
#[verifier::external_body]
pub fn parse_uuid(text: &str) -> (r: Result<[u8; 16], String>)
    ensures
        r is Ok ==> uuid_parse_spec(text@) == Ok::<Seq<u8>, Seq<char>>(r->Ok_0@),
        r is Err ==> uuid_parse_spec(text@) == Err::<Seq<u8>, Seq<char>>(r->Err_0@),
        forall|b: Seq<u8>|
            b.len() == 16 && text@ == #[trigger] uuid_hyphenated(b) ==> r is Ok && r->Ok_0@ == b,
{
    match uuid::Uuid::parse_str(text) {
        Ok(u) => Ok(*u.as_bytes()),
        Err(e) => Err(e.to_string()),
    }
}


/// The bytes of a fresh random UUID (`uuid::Uuid::new_v4()`). Nothing is stated of them: they
/// are random.
#[verifier::external_body]
pub fn new_instance_id() -> (r: [u8; 16]) {
    *uuid::Uuid::new_v4().as_bytes()
}
} // verus!
