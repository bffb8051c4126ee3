//! JSON text, read and written by `serde_json`.
use crate::text::texts;
use vstd::prelude::*;

verus! {

/// The list of strings that a JSON text holds, where it holds one.
pub uninterp spec fn json_texts(text: Seq<char>) -> Option<Seq<Seq<char>>>;

/// The JSON text of a list of strings.
pub uninterp spec fn texts_json(list: Seq<Seq<char>>) -> Seq<char>;

/// The compact form of a JSON text, where it is one.
pub uninterp spec fn json_normal(text: Seq<char>) -> Option<Seq<char>>;

/// `serde_json::from_str` for a list of strings: which texts hold one, and which strings it
/// has, depends on the text alone.
#[verifier::external_body]
pub(crate) fn parse_texts(text: &str) -> (r: Option<Vec<String>>)
    ensures
        match r {
            Some(list) => json_texts(text@) == Some(texts(list@)),
            None => json_texts(text@) is None,
        },
{
    serde_json::from_str::<Vec<String>>(text).ok()
}

/// `serde_json::to_string` for a list of strings: it does not fail on strings, what it writes
/// depends on the list alone, and `serde_json::from_str` reads the same list back.
#[verifier::external_body]
pub(crate) fn render_texts(list: &Vec<String>) -> (r: String)
    ensures
        r@ == texts_json(texts(list@)),
        json_texts(r@) == Some(texts(list@)),
{
    match serde_json::to_string(list) {
        Ok(text) => text,
        Err(_) => String::new(),
    }
}

/// `serde_json::from_str` for any value, written out again by its `to_string`. The compact form
/// depends on the text alone.
#[verifier::external_body]
pub(crate) fn normalize_json(text: &str) -> (r: Option<String>)
    ensures
        crate::text::opt_text(r) == json_normal(text@),
{
    match serde_json::from_str::<serde_json::Value>(text) {
        Ok(value) => Some(value.to_string()),
        Err(_) => None,
    }
}

} // verus!
