//! Extraction of the body of one request or response.
use vstd::prelude::*;
use crate::model::{Doc, Entry};
use crate::privacy::{expand_privates, expansion, ExpansionError};

verus! {

/// Which side of an exchange a body is taken from.
#[derive(PartialEq, Eq, Structural, Clone, Copy)]
pub enum Which {
    Request,
    Response,
}

/// What a body extraction found.
pub enum BodyOutcome {
    /// The body, raw or with its private data expanded.
    Text(String),
    /// The request of this entry carried no body.
    NoPostData { entry: usize },
}

/// Why a body could not be extracted.
pub enum BodyError {
    /// There is no entry with this number; `count` entries there are.
    Index { entry: usize, count: usize },
    /// The private data of the body could not be expanded.
    Expansion(ExpansionError),
}

/// The raw text of the chosen body of `e`, or `None` for a request without
/// a body.
pub open spec fn body_text(e: Entry, which: Which) -> Option<Seq<char>> {
    match which {
        Which::Request => match e.request.post_data {
            Some(pd) => Some(pd.text@),
            None => None,
        },
        Which::Response => Some(e.response.content.text@),
    }
}

/// The body of entry `num`: the request's post data or the response's
/// content text. With `expand_private` the body is read as JSON, its private
/// data expanded, and the result rendered as JSON text; without it the raw
/// text comes back.
pub fn body(doc: &Doc, num: usize, which: Which, expand_private: bool) -> (r: Result<BodyOutcome, BodyError>)
    ensures
        (r matches Err(BodyError::Index { entry, count }) && entry == num && count == doc.log.entries@.len())
            <==> num >= doc.log.entries@.len(),
        num < doc.log.entries@.len() ==> match body_text(doc.log.entries@[num as int], which) {
            None => r matches Ok(BodyOutcome::NoPostData { entry }) && entry == num,
            Some(t) => if expand_private {
                match expansion(t) {
                    Ok(x) => r matches Ok(BodyOutcome::Text(s)) && s@ == x,
                    Err(e) => r matches Err(BodyError::Expansion(f)) && f == e,
                }
            } else {
                r matches Ok(BodyOutcome::Text(s)) && s@ == t
            },
        },
{
    if num >= doc.log.entries.len() {
        return Err(BodyError::Index { entry: num, count: doc.log.entries.len() });
    }
    let e = &doc.log.entries[num];
    let text: &String = match which {
        Which::Request => match &e.request.post_data {
            Some(pd) => &pd.text,
            None => {
                return Ok(BodyOutcome::NoPostData { entry: num });
            },
        },
        Which::Response => &e.response.content.text,
    };
    if expand_private {
        match expand_privates(text.as_str()) {
            Ok(v) => Ok(BodyOutcome::Text(v)),
            Err(err) => Err(BodyError::Expansion(err)),
        }
    } else {
        Ok(BodyOutcome::Text(text.clone()))
    }
}

} // verus!
