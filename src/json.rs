//! JSON documents read and written by `serde_json`. The library handles a
//! JSON document as its text; what `serde_json` makes of a text is named by
//! the spec functions below.
use vstd::prelude::*;

verus! {

/// Any JSON value, kept as it was read; opaque to the proofs.
#[verifier::external_type_specification]
#[verifier::external_body]
pub struct ExJsonValue(serde_json::Value);

/// What a JSON document holds at a place.
pub enum SlotView {
    /// The place does not exist.
    Missing,
    /// `null`.
    Null,
    /// A string with these characters.
    Text(Seq<char>),
    /// Any other value.
    Other,
}

/// What stands at a place of a JSON document.
pub enum Slot {
    Missing,
    Null,
    Text(String),
    Other,
}

impl View for Slot {
    type V = SlotView;

    open spec fn view(&self) -> SlotView {
        match self {
            Slot::Missing => SlotView::Missing,
            Slot::Null => SlotView::Null,
            Slot::Text(s) => SlotView::Text(s@),
            Slot::Other => SlotView::Other,
        }
    }
}

/// The compact JSON rendering of the document that `serde_json::from_str`
/// reads from `s`, or `None` where `s` is not JSON.
pub uninterp spec fn json_rendering(s: Seq<char>) -> Option<Seq<char>>;

/// What the document read from `text` holds at the JSON pointer `pointer`.
pub uninterp spec fn json_slot(text: Seq<char>, pointer: Seq<char>) -> SlotView;

/// The compact rendering of the document read from `text` once the value at
/// the JSON pointer `pointer` has been replaced by the document read from
/// `new`; every other part of the document stays as it was.
pub uninterp spec fn json_replaced(text: Seq<char>, pointer: Seq<char>, new: Seq<char>) -> Seq<char>;

/// Whether `s` is JSON text.
pub open spec fn parses_as_json(s: Seq<char>) -> bool {
    json_rendering(s) is Some
}

/// Relies on `serde_json::from_str` into a `serde_json::Value`, and on its
/// `Display`: succeeds exactly on JSON text, and renders the value read.
#[verifier::external_body]
pub(crate) fn render_json(s: &str) -> (r: Option<String>)
    ensures
        match r {
            Some(t) => json_rendering(s@) == Some(t@),
            None => json_rendering(s@) is None,
        },
{
    serde_json::from_str::<serde_json::Value>(s).ok().map(|v| v.to_string())
}

/// Relies on `serde_json::Value::pointer`, on the value read from `text`:
/// tells apart a missing place, `null`, a string and any other value.
#[verifier::external_body]
pub(crate) fn slot_in(text: &str, pointer: &str) -> (r: Slot)
    requires
        parses_as_json(text@),
    ensures
        r@ == json_slot(text@, pointer@),
{
    let v: serde_json::Value = match serde_json::from_str(text) {
        Ok(v) => v,
        Err(_) => return Slot::Missing,
    };
    match v.pointer(pointer) {
        None => Slot::Missing,
        Some(serde_json::Value::Null) => Slot::Null,
        Some(serde_json::Value::String(s)) => Slot::Text(s.clone()),
        Some(_) => Slot::Other,
    }
}

/// Relies on `serde_json::Value::pointer_mut`, on the values read from
/// `text` and `new`: puts the second in place of what the first holds at
/// `pointer`, and renders the result.
#[verifier::external_body]
pub(crate) fn replace_in(text: &str, pointer: &str, new: &str) -> (r: String)
    requires
        parses_as_json(text@),
        parses_as_json(new@),
    ensures
        r@ == json_replaced(text@, pointer@, new@),
{
    let mut v: serde_json::Value = serde_json::from_str(text).unwrap_or(serde_json::Value::Null);
    let n: serde_json::Value = serde_json::from_str(new).unwrap_or(serde_json::Value::Null);
    if let Some(place) = v.pointer_mut(pointer) {
        *place = n;
    }
    v.to_string()
}

} // verus!
