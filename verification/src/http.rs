//! What an HTTP request led to, and addresses for requests.
use crate::text::{begins_with, cat, starts_with, trim, trimmed_text};
use vstd::prelude::*;

verus! {

/// What came of an HTTP request.
#[derive(Debug, Clone)]
pub enum HttpReply {
    /// A response with this status code.
    Status(u16),
    /// The server could not be reached, with the reason.
    Failed(String),
    /// The request could not be made, with the reason.
    NoClient(String),
}

/// [`HttpReply`] as plain values.
pub enum HttpReplyView {
    Status(u16),
    Failed(Seq<char>),
    NoClient(Seq<char>),
}

impl View for HttpReply {
    type V = HttpReplyView;

    open spec fn view(&self) -> HttpReplyView {
        match *self {
            HttpReply::Status(code) => HttpReplyView::Status(code),
            HttpReply::Failed(why) => HttpReplyView::Failed(why@),
            HttpReply::NoClient(why) => HttpReplyView::NoClient(why@),
        }
    }
}

/// Whether a status code reports success.
pub open spec fn success(code: u16) -> bool {
    200 <= code <= 299
}

/// An address with a scheme: `https` where it has none.
pub open spec fn with_scheme(raw: Seq<char>) -> Seq<char> {
    if begins_with(raw, "http://"@) || begins_with(raw, "https://"@) {
        raw
    } else {
        "https://"@ + raw
    }
}

pub fn add_scheme(raw: &str) -> (r: String)
    ensures
        r@ == with_scheme(raw@),
{
    if starts_with(raw, "http://") || starts_with(raw, "https://") {
        raw.to_owned()
    } else {
        cat("https://", raw)
    }
}

/// An optional text without white space around it, where something is left.
pub open spec fn filled(text: Option<Seq<char>>) -> Option<Seq<char>> {
    match text {
        Some(t) => if trimmed_text(t).len() > 0 {
            Some(trimmed_text(t))
        } else {
            None
        },
        None => None,
    }
}

pub fn trim_filled(text: Option<&str>) -> (r: Option<String>)
    ensures
        crate::text::opt_text(r) == filled(crate::text::opt_str(text)),
{
    match text {
        Some(t) => {
            let trimmed = trim(t);
            if trimmed.as_str().is_empty() {
                None
            } else {
                Some(trimmed)
            }
        },
        None => None,
    }
}

} // verus!
