//! Binary-to-text encoding of module images: a module's bytes travel through
//! text formats as standard base64.

use vstd::prelude::*;

use base64::Engine;

use crate::data::WasmComponent;

verus! {

/// What the standard base64 encoding of a byte string is. The alphabet takes
/// pages to state; the encoding is a function of the bytes alone.
pub uninterp spec fn b64_of(bytes: Seq<u8>) -> Seq<char>;

/// Relies on base64's STANDARD engine: `encode` returns the standard base64
/// text of exactly the given bytes.
#[verifier::external_body]
pub fn b64_encode(bytes: &Vec<u8>) -> (r: String)
    ensures
        r@ == b64_of(bytes@),
{
    base64::engine::general_purpose::STANDARD.encode(bytes)
}

/// Relies on base64's STANDARD engine: `decode` inverts `encode` — decoding
/// the encoding of any byte string succeeds and gives those bytes back, and
/// whatever decodes successfully encodes back to the input text.
#[verifier::external_body]
pub fn b64_decode(s: &String) -> (r: Option<Vec<u8>>)
    ensures
        match r {
            Some(b) => s@ == b64_of(b@),
            None => forall|b: Seq<u8>| s@ != b64_of(b),
        },
{
    match base64::engine::general_purpose::STANDARD.decode(s.as_str()) {
        Ok(b) => Some(b),
        Err(_) => None,
    }
}

/// The text form of a module's binary image, as it travels through a record.
pub fn encode_component_file(c: &WasmComponent) -> (r: String)
    ensures
        r@ == b64_of(c.file@),
{
    b64_encode(&c.file)
}

/// Rebuild a module record from its decoded text fields. The image decodes
/// exactly when `file_b64` is the base64 text of some bytes; any other text
/// yields nothing.
pub fn component_from_text(
    file_b64: &String,
    pkg_name: String,
    name: String,
    date_time: u64,
    extra: String,
) -> (r: Option<WasmComponent>)
    ensures
        match r {
            Some(c) => file_b64@ == b64_of(c.file@) && c.pkg_name == pkg_name && c.name == name
                && c.date_time == date_time && c.extra == extra,
            None => forall|b: Seq<u8>| file_b64@ != b64_of(b),
        },
{
    match b64_decode(file_b64) {
        Some(file) => Some(WasmComponent { file, pkg_name, name, date_time, extra }),
        None => None,
    }
}

} // verus!
