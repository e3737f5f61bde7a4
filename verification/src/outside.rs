//! The calls this library makes into outside crates, each with the contract
//! that the rest of the library relies on.

use vstd::prelude::*;
use vstd::utf8::{decode_utf8, encode_utf8, valid_utf8};
#[allow(unused_imports)]
use std::str::FromStr;
#[allow(unused_imports)]
use base64::Engine;

verus! {

/// Whether the CID library parses `s` as a CID.
pub uninterp spec fn parses_as_cid(s: Seq<char>) -> bool;

/// Calls `cid::Cid::from_str` and reports whether it succeeded. The result
/// is named, not described: which strings the CID library accepts (multibase
/// decoding, version, codec and multihash checks) is not restated here.
#[verifier::external_body]
pub(crate) fn cid_parses(s: &str) -> (res: bool)
    ensures
        res == parses_as_cid(s@),
{
    cid::Cid::from_str(s).is_ok()
}

/// The character of the standard base64 alphabet for the six-bit group `c`:
/// `A`-`Z`, `a`-`z`, `0`-`9`, `+`, `/`.
pub open spec fn base64_digit(c: int) -> char {
    if c < 26 {
        (65 + c) as char
    } else if c < 52 {
        (97 + (c - 26)) as char
    } else if c < 62 {
        (48 + (c - 52)) as char
    } else if c == 62 {
        '+'
    } else {
        '/'
    }
}

/// The standard (padded) base64 encoding of `data` (RFC 4648): each group
/// of three bytes gives four characters of six bits each, high bits first;
/// a last group of one or two bytes is padded with zero bits and `=`.
pub open spec fn base64_standard(data: Seq<u8>) -> Seq<char>
    decreases data.len(),
{
    if data.len() == 0 {
        Seq::empty()
    } else if data.len() == 1 {
        let b0 = data[0] as int;
        seq![base64_digit(b0 / 4), base64_digit((b0 % 4) * 16), '=', '=']
    } else if data.len() == 2 {
        let b0 = data[0] as int;
        let b1 = data[1] as int;
        seq![base64_digit(b0 / 4), base64_digit((b0 % 4) * 16 + b1 / 16), base64_digit((b1 % 16) * 4), '=']
    } else {
        let b0 = data[0] as int;
        let b1 = data[1] as int;
        let b2 = data[2] as int;
        seq![base64_digit(b0 / 4), base64_digit((b0 % 4) * 16 + b1 / 16), base64_digit((b1 % 16) * 4 + b2 / 64),
            base64_digit(b2 % 64)] + base64_standard(data.skip(3))
    }
}

/// Calls the `base64` crate's standard engine (standard alphabet, with
/// padding) to encode `data`, which it does as `base64_standard` says.
#[verifier::external_body]
pub(crate) fn base64_encode(data: &[u8]) -> (res: String)
    ensures
        res@ == base64_standard(data@),
{
    base64::engine::general_purpose::STANDARD.encode(data)
}

/// Whether chrono's RFC 3339 parser accepts `s`.
pub uninterp spec fn parses_as_rfc3339(s: Seq<char>) -> bool;

/// Calls `chrono::DateTime::parse_from_rfc3339` and reports whether it
/// succeeded. The result is named: the grammar chrono accepts is not restated.
#[verifier::external_body]
pub(crate) fn rfc3339_parses(s: &str) -> (res: bool)
    ensures
        res == parses_as_rfc3339(s@),
{
    chrono::DateTime::parse_from_rfc3339(s).is_ok()
}


/// Calls `std::str::from_utf8`, which accepts exactly the byte slices that
/// are valid UTF-8, and copies the text it yields: on success the text's
/// UTF-8 encoding is `bytes`.
#[verifier::external_body]
pub(crate) fn utf8_text(bytes: &[u8]) -> (res: Option<String>)
    ensures
        match res {
            Some(s) => encode_utf8(s@) == bytes@,
            None => !valid_utf8(bytes@),
        },
{
    match std::str::from_utf8(bytes) {
        Ok(s) => Some(s.to_string()),
        Err(_) => None,
    }
}

/// The text that `String::from_utf8_lossy` makes of `bytes`.
pub uninterp spec fn lossy_text(bytes: Seq<u8>) -> Seq<char>;

/// Calls `String::from_utf8_lossy`, which decodes valid UTF-8 as it is and
/// puts U+FFFD in place of each invalid sequence. The result is named; only
/// the valid case is spelled out.
#[verifier::external_body]
pub(crate) fn utf8_lossy(bytes: &[u8]) -> (res: String)
    ensures
        res@ == lossy_text(bytes@),
        valid_utf8(bytes@) ==> res@ == decode_utf8(bytes@),
{
    String::from_utf8_lossy(bytes).into_owned()
}

/// Calls `std::sync::Arc::ptr_eq`: whether two handles point to one
/// allocation. Two handles of one allocation hold one value, so a `true`
/// result means the values are equal; when the result is `true` otherwise
/// is left unsaid, as it compares addresses.
#[verifier::external_body]
pub(crate) fn same_allocation<T>(a: &std::sync::Arc<T>, b: &std::sync::Arc<T>) -> (res: bool)
    ensures
        res ==> *a == *b,
{
    std::sync::Arc::ptr_eq(a, b)
}

} // verus!
