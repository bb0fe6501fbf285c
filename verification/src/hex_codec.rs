//! Hexadecimal text of byte strings, as the `hex` crate reads and writes it.

use vstd::prelude::*;

use crate::ber::hex2;

verus! {

/// The value of one hexadecimal digit byte (`0-9`, `a-f`, `A-F`).
pub open spec fn nibble(b: u8) -> Option<u8> {
    if 65 <= b <= 70 {
        Some((b - 55) as u8)
    } else if 97 <= b <= 102 {
        Some((b - 87) as u8)
    } else if 48 <= b <= 57 {
        Some((b - 48) as u8)
    } else {
        None
    }
}

/// An even number of hexadecimal digit bytes.
pub open spec fn is_hex_text(t: Seq<u8>) -> bool {
    t.len() % 2 == 0 && forall|i: int| 0 <= i < t.len() ==> (#[trigger] nibble(t[i])) is Some
}

/// The bytes that pairs of hexadecimal digits stand for, high digit first.
pub open spec fn hex_bytes(t: Seq<u8>) -> Seq<u8> {
    Seq::new(
        t.len() / 2,
        |i: int| (nibble(t[2 * i])->0 * 16 + nibble(t[2 * i + 1])->0) as u8,
    )
}

/// The message of `hex::FromHexError` for a text that does not decode.
pub uninterp spec fn hex_error_text(t: Seq<u8>) -> Seq<char>;

/// Lowercase hexadecimal digits of bytes, two per byte.
pub open spec fn hex_text(b: Seq<u8>) -> Seq<char>
    decreases b.len(),
{
    if b.len() == 0 {
        Seq::<char>::empty()
    } else {
        hex_text(b.drop_last()) + hex2(b.last())
    }
}

/// `hex::decode`: the bytes of an even-length text of hexadecimal digits
/// (either case), pair by pair; otherwise the message of the error
/// (`"Odd number of digits"` for an odd length, else one naming the first bad
/// character and its position, which is not stated here).
#[verifier::external_body]
pub(crate) fn hex_decode(text: &[u8]) -> (r: Result<Vec<u8>, String>)
    ensures
        r is Ok <==> is_hex_text(text@),
        r matches Ok(v) ==> v@ == hex_bytes(text@),
        r matches Err(m) ==> m@ == hex_error_text(text@),
        r matches Err(m) ==> (text@.len() % 2 != 0 ==> m@ == "Odd number of digits"@),
{
    match hex::decode(text) {
        Ok(v) => Ok(v),
        Err(e) => Err(e.to_string()),
    }
}

/// `hex::encode`: two lowercase hexadecimal digits per byte.
#[verifier::external_body]
pub(crate) fn hex_encode(data: &[u8]) -> (r: String)
    ensures
        r@ == hex_text(data@),
{
    hex::encode(data)
}

} // verus!
