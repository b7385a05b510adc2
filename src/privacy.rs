//! Expansion of private data: a percent-encoded JSON document held as a
//! string at one of a few known places of a JSON body.
use vstd::prelude::*;
use vstd::utf8::{decode_utf8, valid_utf8};
use crate::json::{json_rendering, json_replaced, json_slot, parses_as_json, render_json, replace_in, slot_in, Slot, SlotView};

verus! {

/// Why private data could not be expanded.
#[derive(PartialEq, Eq, Structural)]
pub enum ExpansionError {
    /// The body is not JSON.
    BodyNotJson,
    /// The percent-decoded private data is not UTF-8.
    PrivateNotUtf8,
    /// The decoded private data is not JSON.
    PrivateNotJson,
}

/// Value of a hexadecimal digit, either case.
pub open spec fn hex_value(b: u8) -> Option<u8> {
    if 0x30 <= b && b <= 0x39 {
        Some((b - 0x30) as u8)
    } else if 0x61 <= b && b <= 0x66 {
        Some((b - 0x61 + 10) as u8)
    } else if 0x41 <= b && b <= 0x46 {
        Some((b - 0x41 + 10) as u8)
    } else {
        None
    }
}

/// Percent-decoding: `%` followed by two hexadecimal digits stands for the
/// byte they spell; every other byte, a lone `%` included, stands for itself.
pub open spec fn percent_decoded(s: Seq<u8>) -> Seq<u8>
    decreases s.len(),
{
    if s.len() == 0 {
        Seq::empty()
    } else if s[0] == 0x25 && s.len() >= 3 && hex_value(s[1]) is Some && hex_value(s[2]) is Some {
        seq![(hex_value(s[1])->0 * 16 + hex_value(s[2])->0) as u8] + percent_decoded(s.subrange(3, s.len() as int))
    } else {
        seq![s[0]] + percent_decoded(s.drop_first())
    }
}

/// The bytes of `s`, percent-decoded.
pub open spec fn private_bytes(s: Seq<char>) -> Seq<u8> {
    percent_decoded(vstd::utf8::encode_utf8(s))
}

/// Relies on `url::percent_encoding::percent_decode`: each `%` followed by
/// two hexadecimal digits becomes the byte they spell, all else is copied.
#[verifier::external_body]
fn percent_decode_bytes(b: &[u8]) -> (r: Vec<u8>)
    ensures
        r@ == percent_decoded(b@),
{
    url::percent_encoding::percent_decode(b).collect()
}

/// Relies on `String::from_utf8`: succeeds exactly on valid UTF-8.
#[verifier::external_body]
fn utf8_string(b: Vec<u8>) -> (r: Option<String>)
    ensures
        r is Some <==> valid_utf8(b@),
        r matches Some(s) ==> s@ == decode_utf8(b@),
{
    String::from_utf8(b).ok()
}

/// The error that decoding the private data `s` meets, if any.
pub open spec fn decode_error(s: Seq<char>) -> Option<ExpansionError> {
    if !valid_utf8(private_bytes(s)) {
        Some(ExpansionError::PrivateNotUtf8)
    } else if !parses_as_json(decode_utf8(private_bytes(s))) {
        Some(ExpansionError::PrivateNotJson)
    } else {
        None
    }
}

/// The text of the private data `s`: percent-decoded bytes read as UTF-8.
pub open spec fn private_text(s: Seq<char>) -> Seq<char> {
    decode_utf8(private_bytes(s))
}

/// Decodes private data: percent-decodes `s`, reads the bytes as UTF-8 and
/// checks that the text is JSON.
pub fn decode_private(s: &str) -> (r: Result<String, ExpansionError>)
    ensures
        match r {
            Ok(t) => decode_error(s@) is None && t@ == private_text(s@),
            Err(e) => decode_error(s@) == Some(e),
        },
{
    let bytes = percent_decode_bytes(s.as_bytes());
    match utf8_string(bytes) {
        None => Err(ExpansionError::PrivateNotUtf8),
        Some(text) => match render_json(text.as_str()) {
            Some(_) => Ok(text),
            None => Err(ExpansionError::PrivateNotJson),
        },
    }
}

/// What the expansion does with what it found at one place.
pub enum Step {
    /// Nothing there, or `null`: try the next place.
    Next,
    /// A value that is not a string: the document stays as it is.
    Keep,
    /// Private data decoded to this JSON text, to stand in place of the string.
    Put(String),
    /// Private data that could not be decoded.
    Fail(ExpansionError),
}

/// The step for what was found at one place: a missing place or `null`
/// moves on, another non-string value is kept, a string is decoded.
pub fn step_for(found: Slot) -> (r: Step)
    ensures
        match found@ {
            SlotView::Missing => r is Next,
            SlotView::Null => r is Next,
            SlotView::Other => r is Keep,
            SlotView::Text(s) => match decode_error(s) {
                Some(e) => r matches Step::Fail(f) && f == e,
                None => r matches Step::Put(t) && t@ == private_text(s),
            },
        },
{
    match found {
        Slot::Missing => Step::Next,
        Slot::Null => Step::Next,
        Slot::Other => Step::Keep,
        Slot::Text(s) => match decode_private(s.as_str()) {
            Ok(t) => Step::Put(t),
            Err(e) => Step::Fail(e),
        },
    }
}

/// The JSON pointers at which private data is looked for, in order.
pub open spec fn private_pointers() -> Seq<Seq<char>> {
    seq!["/AddDevice/DevicePrivateData"@, "/Resource/Device/DevicePrivateData"@]
}

/// Whether the document read from `text` holds nothing but `null` at `pointer`.
pub open spec fn vacant(text: Seq<char>, pointer: Seq<char>) -> bool {
    json_slot(text, pointer) is Missing || json_slot(text, pointer) is Null
}

/// The expansion of the JSON text `text`, trying the places from the `i`-th
/// on: the first place that holds something other than `null` decides.
pub open spec fn expansion_from(text: Seq<char>, i: nat) -> Result<Seq<char>, ExpansionError>
    decreases private_pointers().len() - i,
{
    if i >= private_pointers().len() {
        Ok(json_rendering(text)->0)
    } else {
        let p = private_pointers()[i as int];
        match json_slot(text, p) {
            SlotView::Missing => expansion_from(text, i + 1),
            SlotView::Null => expansion_from(text, i + 1),
            SlotView::Other => Ok(json_rendering(text)->0),
            SlotView::Text(s) => match decode_error(s) {
                Some(e) => Err(e),
                None => Ok(json_replaced(text, p, private_text(s))),
            },
        }
    }
}

/// The expansion of a body: an error where it is not JSON, else the
/// rendering of its document with the private data at the first occupied
/// place decoded and put in its place (see `expansion_from`).
pub open spec fn expansion(text: Seq<char>) -> Result<Seq<char>, ExpansionError> {
    if !parses_as_json(text) {
        Err(ExpansionError::BodyNotJson)
    } else {
        expansion_from(text, 0)
    }
}

/// Reads `text` as JSON and expands the private data in it: the first of
/// the places `/AddDevice/DevicePrivateData` and
/// `/Resource/Device/DevicePrivateData` that holds a value other than null
/// is the one used, and the places after it are not looked at. A string
/// there is decoded (see `decode_private`) and the result stands in its
/// place; a document with no private data comes back as it was read.
/// The result is rendered as compact JSON text.
pub fn expand_privates(text: &str) -> (r: Result<String, ExpansionError>)
    ensures
        match expansion(text@) {
            Ok(t) => r matches Ok(s) && s@ == t,
            Err(e) => r matches Err(f) && f == e,
        },
{
    let rendered = match render_json(text) {
        Some(t) => t,
        None => {
            return Err(ExpansionError::BodyNotJson);
        },
    };
    let pointers: [&str; 2] = ["/AddDevice/DevicePrivateData", "/Resource/Device/DevicePrivateData"];
    proof {
        reveal_strlit("/AddDevice/DevicePrivateData");
        reveal_strlit("/Resource/Device/DevicePrivateData");
    }
    assert(pointers@.map_values(|p: &str| p@) =~= private_pointers());
    let mut i: usize = 0;
    while i < 2
        invariant
            i <= 2,
            parses_as_json(text@),
            rendered@ == json_rendering(text@)->0,
            pointers@.map_values(|p: &str| p@) == private_pointers(),
            expansion(text@) == expansion_from(text@, i as nat),
        decreases 2 - i,
    {
        let pointer = pointers[i];
        assert(pointer@ == private_pointers()[i as int]);
        let found = slot_in(text, pointer);
        match step_for(found) {
            Step::Next => {},
            Step::Keep => {
                return Ok(rendered);
            },
            Step::Put(t) => {
                return Ok(replace_in(text, pointer, t.as_str()));
            },
            Step::Fail(e) => {
                return Err(e);
            },
        }
        i = i + 1;
    }
    Ok(rendered)
}

} // verus!
