//! What the S3 driver asks for and makes of the answer.
use crate::platform::error::{PlatformError, PlatformErrorView};
use crate::platform::storage_driver::{
    DriverEntry, DriverEntryView, DriverListing, DriverListingView,
};
use crate::table::{answer, done, lemma_filter_step, views};
use crate::text::{
    begins_with, cat3, drop_while, opt_str, opt_text, own_opt, same, slice_text, starts_with,
    strip_trailing, texts, to_chars,
};
use vstd::prelude::*;

verus! {

/// A listing to ask for. Without a prefix the whole bucket is listed.
#[derive(Debug, Clone)]
pub struct S3ListRequest {
    pub max_keys: i32,
    pub prefix: Option<String>,
    pub token: Option<String>,
}

/// [`S3ListRequest`] as plain values.
pub struct S3ListRequestView {
    pub max_keys: i32,
    pub prefix: Option<Seq<char>>,
    pub token: Option<Seq<char>>,
}

impl View for S3ListRequest {
    type V = S3ListRequestView;

    open spec fn view(&self) -> S3ListRequestView {
        S3ListRequestView {
            max_keys: self.max_keys,
            prefix: opt_text(self.prefix),
            token: opt_text(self.token),
        }
    }
}

/// An object of a bucket as listed.
#[derive(Debug, Clone)]
pub struct S3Object {
    pub key: Option<String>,
    pub size: Option<i64>,
    pub last_modified: Option<i64>,
}

/// [`S3Object`] as plain values.
pub struct S3ObjectView {
    pub key: Option<Seq<char>>,
    pub size: Option<i64>,
    pub last_modified: Option<i64>,
}

impl View for S3Object {
    type V = S3ObjectView;

    open spec fn view(&self) -> S3ObjectView {
        S3ObjectView {
            key: opt_text(self.key),
            size: self.size,
            last_modified: self.last_modified,
        }
    }
}

pub open spec fn page_size(limit: i32) -> i32 {
    if limit < 1 {
        1
    } else if limit > 1000 {
        1000
    } else {
        limit
    }
}

/// The request for a page of a listing: what is empty is not asked for.
pub open spec fn s3_request(
    prefix: Seq<char>,
    token: Option<Seq<char>>,
    limit: i32,
) -> S3ListRequestView {
    S3ListRequestView {
        max_keys: page_size(limit),
        prefix: if prefix.len() > 0 {
            Some(prefix)
        } else {
            None
        },
        token: match token {
            Some(t) => if t.len() > 0 {
                Some(t)
            } else {
                None
            },
            None => None,
        },
    }
}

/// The listing to ask for: between 1 and 1000 objects.
pub fn list_request(prefix: &str, token: Option<&str>, limit: i32) -> (r: S3ListRequest)
    ensures
        r@ == s3_request(prefix@, opt_str(token), limit),
{
    let max_keys: i32 = if limit < 1 {
        1
    } else if limit > 1000 {
        1000
    } else {
        limit
    };
    let asked = if prefix.is_empty() {
        None
    } else {
        Some(prefix.to_owned())
    };
    let token = match token {
        Some(t) => if t.is_empty() {
            None
        } else {
            Some(t.to_owned())
        },
        None => None,
    };
    S3ListRequest { max_keys, prefix: asked, token }
}

/// A key relative to the prefix, where it stands under it.
pub open spec fn without_prefix(key: Seq<char>, prefix: Seq<char>) -> Seq<char> {
    if begins_with(key, prefix) {
        key.skip(prefix.len() as int)
    } else {
        key
    }
}

pub fn strip_prefix(key: &str, prefix: &str) -> (out: String)
    ensures
        out@ == without_prefix(key@, prefix@),
{
    if starts_with(key, prefix) {
        let chars = to_chars(key);
        let n = to_chars(prefix).len();
        let out = slice_text(&chars, n, chars.len());
        proof {
            assert(out@ =~= key@.skip(n as int));
        }
        out
    } else {
        key.to_owned()
    }
}

/// A folder of a listing.
pub open spec fn folder_entry(folder: Seq<char>, prefix: Seq<char>) -> DriverEntryView {
    DriverEntryView {
        key: folder,
        name: drop_while(without_prefix(folder, prefix), |c: char| c == '/'),
        is_prefix: true,
        size_bytes: None,
        last_modified: None,
    }
}

/// An object of a listing.
pub open spec fn object_entry(object: S3ObjectView, prefix: Seq<char>) -> DriverEntryView {
    let key = match object.key {
        Some(k) => k,
        None => Seq::empty(),
    };
    DriverEntryView {
        key,
        name: without_prefix(key, prefix),
        is_prefix: false,
        size_bytes: object.size,
        last_modified: object.last_modified,
    }
}

/// An object that is listed: not the prefix itself.
pub open spec fn listed_object(prefix: Seq<char>) -> spec_fn(S3ObjectView) -> bool {
    |o: S3ObjectView| o.key matches Some(k) && k != prefix
}

/// What a listing shows: the folders, and after them the objects.
pub open spec fn s3_entries(
    folders: Seq<Seq<char>>,
    objects: Seq<S3ObjectView>,
    prefix: Seq<char>,
) -> Seq<DriverEntryView> {
    folders.map_values(|f: Seq<char>| folder_entry(f, prefix)) + objects.filter(
        listed_object(prefix),
    ).map_values(|o: S3ObjectView| object_entry(o, prefix))
}

/// The listing that an answer makes.
pub open spec fn s3_listing(
    folders: Seq<Seq<char>>,
    objects: Seq<S3ObjectView>,
    prefix: Seq<char>,
    next_token: Option<Seq<char>>,
) -> DriverListingView {
    DriverListingView { entries: s3_entries(folders, objects, prefix), next_token }
}

/// Makes a listing of what the storage answered.
pub fn listing(
    folders: &Vec<String>,
    objects: &Vec<S3Object>,
    prefix: &str,
    next_token: Option<&str>,
) -> (r: DriverListing)
    ensures
        r@ == s3_listing(texts(folders@), views(objects@), prefix@, opt_str(next_token)),
{
    let ghost fs = texts(folders@);
    let ghost os = views(objects@);
    let ghost p = listed_object(prefix@);
    let ghost g = |o: S3ObjectView| object_entry(o, prefix@);
    let ghost folder_part = fs.map_values(|f: Seq<char>| folder_entry(f, prefix@));
    let mut entries: Vec<DriverEntry> = Vec::new();
    let mut i: usize = 0;
    while i < folders.len()
        invariant
            fs == texts(folders@),
            folder_part == fs.map_values(|f: Seq<char>| folder_entry(f, prefix@)),
            i <= folders.len(),
            views(entries@) =~= folder_part.take(i as int),
        decreases folders.len() - i,
    {
        let folder = &folders[i];
        let bare = strip_prefix(folder.as_str(), prefix);
        let entry = DriverEntry {
            key: folder.clone(),
            name: strip_trailing(bare.as_str(), '/'),
            is_prefix: true,
            size_bytes: None,
            last_modified: None,
        };
        let ghost before = views(entries@);
        entries.push(entry);
        proof {
            assert(views(entries@) =~= before.push(entry@));
            assert(fs[i as int] == folder@);
        }
        i = i + 1;
    }
    i = 0;
    proof {
        reveal(Seq::filter);
        assert(os.take(0) =~= Seq::empty());
        assert(folder_part + Seq::<S3ObjectView>::empty().map_values(g) =~= folder_part);
        assert(views(entries@) =~= folder_part);
    }
    while i < objects.len()
        invariant
            os == views(objects@),
            p == listed_object(prefix@),
            g == (|o: S3ObjectView| object_entry(o, prefix@)),
            i <= objects.len(),
            views(entries@) == folder_part + os.take(i as int).filter(p).map_values(g),
        decreases objects.len() - i,
    {
        proof {
            lemma_filter_step(os, p, i as int);
        }
        let ghost kept = os.take(i as int).filter(p);
        if let Some(key) = &objects[i].key {
            if !same(key.as_str(), prefix) {
                let entry = DriverEntry {
                    key: key.clone(),
                    name: strip_prefix(key.as_str(), prefix),
                    is_prefix: false,
                    size_bytes: objects[i].size,
                    last_modified: objects[i].last_modified,
                };
                let ghost before = views(entries@);
                entries.push(entry);
                proof {
                    assert(views(entries@) =~= before.push(entry@));
                    assert(entry@ == g(os[i as int]));
                    assert(kept.push(os[i as int]).map_values(g) =~= kept.map_values(g).push(
                        g(os[i as int]),
                    ));
                    assert(folder_part + kept.map_values(g).push(entry@) =~= before.push(entry@));
                }
            }
        }
        i = i + 1;
    }
    proof {
        assert(os.take(i as int) =~= os);
    }
    DriverListing { entries, next_token: own_opt(next_token) }
}

pub open spec fn alphanumeric(c: char) -> bool {
    '0' <= c <= '9' || 'a' <= c <= 'z' || 'A' <= c <= 'Z'
}

/// Where a character first stands, from a position on.
pub open spec fn found_from(text: Seq<char>, c: char, i: int) -> Option<int> {
    crate::platform::ip_allowlist::position_from(text, c, i)
}

/// The vendor's code in an error report: the first thing in round brackets, where it is one word.
pub open spec fn bracketed_code(full: Seq<char>) -> Option<Seq<char>> {
    match found_from(full, '(', 0) {
        Some(start) => match found_from(full, ')', start) {
            Some(end) => {
                let code = full.subrange(start + 1, end);
                if code.len() > 0 && forall|i: int|
                    0 <= i < code.len() ==> alphanumeric(#[trigger] code[i]) {
                    Some(code)
                } else {
                    None
                }
            },
            None => None,
        },
        None => None,
    }
}

/// The first line of a text, without its line ending.
pub open spec fn first_line(text: Seq<char>) -> Seq<char> {
    match found_from(text, '\n', 0) {
        Some(i) => if i > 0 && text[i - 1] == '\r' {
            text.take(i - 1)
        } else {
            text.take(i)
        },
        None => text,
    }
}

/// What an operator is told of a storage error.
pub open spec fn s3_error(full: Seq<char>) -> Seq<char> {
    match bracketed_code(full) {
        Some(code) => code,
        None => if full.len() == 0 {
            "storage request failed"@
        } else {
            first_line(full)
        },
    }
}

fn find_from(chars: &Vec<char>, c: char, from: usize) -> (r: Option<usize>)
    requires
        from <= chars.len(),
    ensures
        match r {
            Some(i) => found_from(chars@, c, from as int) == Some(i as int) && from <= i
                < chars.len() && chars@[i as int] == c,
            None => found_from(chars@, c, from as int) is None,
        },
{
    let mut i: usize = from;
    while i < chars.len()
        invariant
            from <= i <= chars.len(),
            found_from(chars@, c, from as int) == found_from(chars@, c, i as int),
        decreases chars.len() - i,
    {
        if chars[i] == c {
            return Some(i);
        }
        i = i + 1;
    }
    None
}

fn code_in_brackets(chars: &Vec<char>) -> (r: Option<String>)
    ensures
        opt_text(r) == bracketed_code(chars@),
{
    let start: usize = match find_from(chars, '(', 0) {
        Some(i) => i,
        None => {
            return None;
        },
    };
    let end: usize = match find_from(chars, ')', start) {
        Some(i) => i,
        None => {
            return None;
        },
    };
    let ghost code = chars@.subrange(start + 1, end as int);
    if end == start + 1 {
        return None;
    }
    let mut i: usize = start + 1;
    while i < end
        invariant
            start + 1 <= i <= end < chars.len(),
            code == chars@.subrange(start + 1, end as int),
            found_from(chars@, '(', 0) == Some(start as int),
            found_from(chars@, ')', start as int) == Some(end as int),
            forall|j: int| 0 <= j < i - start - 1 ==> alphanumeric(#[trigger] code[j]),
        decreases end - i,
    {
        let c = chars[i];
        let plain = ('0' <= c && c <= '9') || ('a' <= c && c <= 'z') || ('A' <= c && c <= 'Z');
        proof {
            assert(code[i - start - 1] == c);
        }
        if !plain {
            return None;
        }
        i = i + 1;
    }
    Some(slice_text(chars, start + 1, end))
}

/// Cuts an error report of the storage down to what an operator acts on.
pub fn s3_message(full: &str) -> (r: String)
    ensures
        r@ == s3_error(full@),
{
    let chars = to_chars(full);
    if let Some(code) = code_in_brackets(&chars) {
        return code;
    }
    if chars.len() == 0 {
        return "storage request failed".to_owned();
    }
    match find_from(&chars, '\n', 0) {
        Some(i) => {
            let end: usize = if i > 0 && chars[i - 1] == '\r' {
                i - 1
            } else {
                i
            };
            proof {
                assert(chars@.subrange(0, end as int) =~= chars@.take(end as int));
            }
            slice_text(&chars, 0, end)
        },
        None => full.to_owned(),
    }
}

/// What the answer to a probe is taken as.
pub open spec fn s3_probed(bucket: Seq<char>, reply: Result<(), Seq<char>>) -> Result<
    Seq<char>,
    PlatformErrorView,
> {
    match reply {
        Ok(_) => Ok("bucket "@ + bucket + " reachable"@),
        Err(full) => Err(PlatformErrorView::BadRequest(s3_error(full))),
    }
}

/// What a probe of a bucket reports.
pub fn probe_result(bucket: &str, reply: Result<(), String>) -> (r: Result<String, PlatformError>)
    ensures
        answer(r) == s3_probed(bucket@, done(reply)),
{
    match reply {
        Ok(_) => Ok(cat3("bucket ", bucket, " reachable")),
        Err(full) => Err(PlatformError::BadRequest(s3_message(full.as_str()))),
    }
}

} // verus!
