//! From the bytes of a file to its text. A file is UTF-8, with or without a
//! byte-order mark, or UTF-16 little-endian behind its byte-order mark.

use vstd::prelude::*;
use vstd::slice::slice_subrange;
use vstd::utf8::{decode_utf8, encode_utf8, encode_utf8_decode_utf8, valid_utf8};
use crate::error::Error;

verus! {

/// The error of `core::str::from_utf8`; nothing is read from it.
#[verifier::external_type_specification]
#[verifier::external_body]
pub struct ExUtf8Error(core::str::Utf8Error);

/// The error of `String::from_utf16`; nothing is read from it.
#[verifier::external_type_specification]
#[verifier::external_body]
pub struct ExFromUtf16Error(std::string::FromUtf16Error);

/// `core::str::from_utf8` succeeds on the byte sequences that are valid
/// UTF-8, and on no others; the string it gives then has exactly those bytes.
pub assume_specification[ core::str::from_utf8 ](v: &[u8]) -> (text: Result<
    &str,
    core::str::Utf8Error,
>)
    ensures
        text is Ok <==> valid_utf8(v@),
        text is Ok ==> encode_utf8(text->Ok_0@) == v@,
;

/// The text that a sequence of UTF-16 code units stands for, as
/// `String::from_utf16` decodes it; `None` where it refuses the sequence.
pub uninterp spec fn utf16_text(units: Seq<u16>) -> Option<Seq<char>>;

/// `String::from_utf16` decodes a sequence of UTF-16 code units, and fails
/// where the sequence holds invalid data.
pub assume_specification[ String::from_utf16 ](v: &[u16]) -> (text: Result<
    String,
    std::string::FromUtf16Error,
>)
    ensures
        text is Ok <==> utf16_text(v@) is Some,
        text is Ok ==> Some(text->Ok_0@) == utf16_text(v@),
;

/// The bytes begin with the UTF-16 little-endian byte-order mark.
pub open spec fn has_utf16_mark(bytes: Seq<u8>) -> bool {
    bytes.len() >= 2 && bytes[0] == 0xFF && bytes[1] == 0xFE
}

/// The bytes begin with the UTF-8 byte-order mark.
pub open spec fn has_utf8_mark(bytes: Seq<u8>) -> bool {
    bytes.len() >= 3 && bytes[0] == 0xEF && bytes[1] == 0xBB && bytes[2] == 0xBF
}

/// The code units that an even number of bytes holds, low byte first.
pub open spec fn code_units(bytes: Seq<u8>) -> Seq<u16> {
    Seq::new(bytes.len() / 2, |i: int| (bytes[2 * i] + 256 * bytes[2 * i + 1]) as u16)
}

/// The text of a file with the given bytes, without its byte-order mark;
/// `None` where the bytes are not text in the encoding that they announce.
pub open spec fn decoded(bytes: Seq<u8>) -> Option<Seq<char>> {
    if has_utf16_mark(bytes) {
        if bytes.len() % 2 != 0 {
            None
        } else {
            utf16_text(code_units(bytes.skip(2)))
        }
    } else {
        let body = if has_utf8_mark(bytes) {
            bytes.skip(3)
        } else {
            bytes
        };
        if valid_utf8(body) {
            Some(decode_utf8(body))
        } else {
            None
        }
    }
}

/// Pairs the bytes `bytes[from..]` into code units, low byte first.
fn pair_units(bytes: &[u8], from: usize) -> (units: Vec<u16>)
    requires
        from <= bytes@.len(),
        (bytes@.len() - from) % 2 == 0,
    ensures
        units@ == code_units(bytes@.skip(from as int)),
{
    let ghost body = bytes@.skip(from as int);
    let mut units: Vec<u16> = Vec::new();
    let mut i: usize = from;
    while i < bytes.len()
        invariant
            from <= i <= bytes@.len(),
            (i - from) % 2 == 0,
            (bytes@.len() - from) % 2 == 0,
            body == bytes@.skip(from as int),
            units@.len() == (i - from) / 2,
            forall|k: int| 0 <= k < units@.len() ==> units@[k] == code_units(body)[k],
        decreases bytes@.len() - i,
    {
        let low: u16 = bytes[i] as u16;
        let high: u16 = bytes[i + 1] as u16;
        units.push(low + 256 * high);
        i += 2;
    }
    assert(units@ =~= code_units(body));
    units
}

/// Detects the encoding of `bytes` and gives their text.
pub fn decode(bytes: &[u8]) -> (text: Result<String, Error>)
    ensures
        match text {
            Ok(t) => decoded(bytes@) == Some(t@),
            Err(e) => e == Error::Parse && decoded(bytes@) is None,
        },
{
    let n = bytes.len();
    if n >= 2 && bytes[0] == 0xFF && bytes[1] == 0xFE {
        if n % 2 != 0 {
            return Err(Error::Parse);
        }
        let units = pair_units(bytes, 2);
        match String::from_utf16(units.as_slice()) {
            Ok(t) => Ok(t),
            Err(_) => Err(Error::Parse),
        }
    } else {
        let from: usize = if n >= 3 && bytes[0] == 0xEF && bytes[1] == 0xBB && bytes[2] == 0xBF {
            3
        } else {
            0
        };
        let body = slice_subrange(bytes, from, n);
        assert(body@ =~= bytes@.skip(from as int));
        assert(bytes@.skip(0) =~= bytes@);
        match core::str::from_utf8(body) {
            Ok(t) => {
                proof {
                    encode_utf8_decode_utf8(t@);
                }
                Ok(t.to_owned())
            },
            Err(_) => Err(Error::Parse),
        }
    }
}

} // verus!
