//! What the WebDAV driver asks for and makes of the answer.
use crate::parse::{int_text, parse_i64};
use crate::platform::error::{PlatformError, PlatformErrorView};
use crate::platform::http_date::{http_date, parse_http_date};
use crate::platform::http_probe::last_before;
use crate::platform::storage_driver::{
    DriverConfig, DriverConfigView, DriverEntry, DriverEntryView, DriverListing, DriverListingView,
};
use crate::platform::storage_s3::page_size;
use crate::table::{answer, views};
use crate::text::{
    cat, cat3, decimal, decimal_text, drop_while, lowered, opt_text, same, skip_while, slice_text,
    strip_leading, strip_trailing, to_ascii_lowercase, to_chars, trim, trimmed_text,
};
use crate::platform::storage_webdav::XmlEvent::{
    Empty, End, Malformed, Other, Reference, Start, Text,
};
use quick_xml::events::Event;
use quick_xml::events::Event::{Eof, GeneralRef};
use quick_xml::Reader;
use vstd::prelude::*;
use vstd::string::*;
use vstd::utf8::*;

verus! {

/// The body of a request for the properties that a listing shows.
pub const PROPFIND_BODY: &'static str = "<?xml version=\"1.0\" encoding=\"utf-8\"?>\n<d:propfind xmlns:d=\"DAV:\">\n  <d:prop>\n    <d:resourcetype/>\n    <d:getcontentlength/>\n    <d:getlastmodified/>\n    <d:displayname/>\n  </d:prop>\n</d:propfind>";

/// A text without slashes at its two ends.
pub open spec fn without_slashes(text: Seq<char>) -> Seq<char> {
    drop_while(skip_while(text, |c: char| c == '/'), |c: char| c == '/')
}

/// A slash and a segment, where there is a segment.
pub open spec fn segment(text: Seq<char>) -> Seq<char> {
    if text.len() > 0 {
        seq!['/'] + text
    } else {
        Seq::empty()
    }
}

/// The address of a folder: endpoint, share and prefix with one slash between each two and one at
/// the end.
pub open spec fn dav_url(cfg: DriverConfigView, prefix: Seq<char>) -> Seq<char> {
    let rest = skip_while(prefix, |c: char| c == '/');
    drop_while(cfg.endpoint, |c: char| c == '/') + segment(without_slashes(cfg.bucket)) + segment(
        drop_while(rest, |c: char| c == '/'),
    ) + seq!['/']
}

proof fn lemma_stripped_ends(text: Seq<char>)
    ensures
        skip_while(text, |c: char| c == '/').len() > 0 ==> drop_while(
            skip_while(text, |c: char| c == '/'),
            |c: char| c == '/',
        ).len() > 0,
    decreases text.len(),
{
    let p = |c: char| c == '/';
    let rest = skip_while(text, p);
    lemma_skip_head(text, p);
    if rest.len() > 0 {
        lemma_drop_keeps(rest, p);
    }
}

proof fn lemma_skip_head(text: Seq<char>, p: spec_fn(char) -> bool)
    ensures
        skip_while(text, p).len() > 0 ==> !p(skip_while(text, p)[0]),
    decreases text.len(),
{
    if text.len() > 0 && p(text[0]) {
        lemma_skip_head(text.drop_first(), p);
    }
}

proof fn lemma_drop_keeps(text: Seq<char>, p: spec_fn(char) -> bool)
    requires
        text.len() > 0,
        !p(text[0]),
    ensures
        drop_while(text, p).len() > 0,
    decreases text.len(),
{
    if p(text.last()) {
        assert(text.len() > 1);
        assert(text.drop_last()[0] == text[0]);
        lemma_drop_keeps(text.drop_last(), p);
    }
}

pub fn build_url(cfg: &DriverConfig, prefix: &str) -> (r: String)
    ensures
        r@ == dav_url(cfg@, prefix@),
{
    let mut url = strip_trailing(cfg.endpoint.as_str(), '/');
    let ghost base = url@;
    let lead = strip_leading(cfg.bucket.as_str(), '/');
    let share = strip_trailing(lead.as_str(), '/');
    if !share.as_str().is_empty() {
        url.push('/');
        url.append(share.as_str());
    }
    proof {
        assert(url@ =~= base + segment(share@));
    }
    let ghost with_share = url@;
    let rest = strip_leading(prefix, '/');
    let tail = strip_trailing(rest.as_str(), '/');
    if !rest.as_str().is_empty() {
        url.push('/');
        url.append(tail.as_str());
    }
    proof {
        lemma_stripped_ends(prefix@);
        assert(url@ =~= with_share + segment(tail@));
    }
    let ghost whole = url@;
    url.push('/');
    proof {
        assert(url@ =~= whole + seq!['/']);
    }
    url
}

/// Text that bytes write, with a replacement character for what is no text.
pub uninterp spec fn lossy_text(bytes: Seq<u8>) -> Seq<char>;

/// `String::from_utf8_lossy`: the result depends on the bytes alone, and bytes that are valid UTF-8
/// are read as they are.
#[verifier::external_body]
pub(crate) fn from_utf8_lossy(bytes: &[u8]) -> (r: String)
    ensures
        r@ == lossy_text(bytes@),
        valid_utf8(bytes@) ==> r@ == decode_utf8(bytes@),
{
    String::from_utf8_lossy(bytes).into_owned()
}

/// The text that bytes write.
pub open spec fn read_text(bytes: Seq<u8>) -> Seq<char> {
    if valid_utf8(bytes) {
        decode_utf8(bytes)
    } else {
        lossy_text(bytes)
    }
}

/// What follows the last occurrence of a character, or the whole text without one.
pub open spec fn after_last(text: Seq<char>, c: char) -> Seq<char> {
    match last_before(text, c, text.len() as int) {
        Some(i) => text.skip(i + 1),
        None => text,
    }
}

fn tail_after(text: &str, c: char) -> (r: String)
    ensures
        r@ == after_last(text@, c),
{
    let chars = to_chars(text);
    match crate::platform::http_probe::find_last(&chars, c) {
        Some(i) => {
            proof {
                assert(chars@.subrange(i + 1, chars@.len() as int) =~= chars@.skip(i + 1));
            }
            slice_text(&chars, i + 1, chars.len())
        },
        None => text.to_owned(),
    }
}

/// The name of a tag without its namespace prefix, in lower case.
pub open spec fn tag_name(raw: Seq<u8>) -> Seq<char> {
    lowered(after_last(read_text(raw), ':'))
}

pub fn local_name(raw: &Vec<u8>) -> (r: String)
    ensures
        r@ == tag_name(raw@),
{
    let text = from_utf8_lossy(raw.as_slice());
    let tail = tail_after(text.as_str(), ':');
    to_ascii_lowercase(tail.as_str())
}

/// What an XML text consists of.
#[derive(Debug, Clone)]
pub enum XmlEvent {
    Start(Vec<u8>),
    Empty(Vec<u8>),
    End(Vec<u8>),
    Text(String),
    /// A reference to a character or an entity, by what stands between `&` and `;`.
    Reference(Vec<u8>),
    /// A comment, a declaration and the like.
    Other,
    /// The text is no XML from here on, with the reason.
    Malformed(String),
}

/// [`XmlEvent`] as plain values.
pub enum XmlEventView {
    Start(Seq<u8>),
    Empty(Seq<u8>),
    End(Seq<u8>),
    Text(Seq<char>),
    Reference(Seq<u8>),
    Other,
    Malformed(Seq<char>),
}

impl View for XmlEvent {
    type V = XmlEventView;

    open spec fn view(&self) -> XmlEventView {
        match *self {
            XmlEvent::Start(n) => XmlEventView::Start(n@),
            XmlEvent::Empty(n) => XmlEventView::Empty(n@),
            XmlEvent::End(n) => XmlEventView::End(n@),
            XmlEvent::Text(t) => XmlEventView::Text(t@),
            XmlEvent::Reference(n) => XmlEventView::Reference(n@),
            XmlEvent::Other => XmlEventView::Other,
            XmlEvent::Malformed(m) => XmlEventView::Malformed(m@),
        }
    }
}

/// The events of an XML text.
pub uninterp spec fn xml_events(xml: Seq<char>) -> Seq<XmlEventView>;

/// `quick_xml::Reader`, event by event up to the end of the text or the first error: which events
/// come depends on the text alone. A reference between two pieces of text is an event of its own.
#[verifier::external_body]
fn read_events(xml: &str) -> (r: Vec<XmlEvent>)
    ensures
        views(r@) == xml_events(xml@),
{
    let mut reader = Reader::from_str(xml);
    let mut out = Vec::new();
    loop {
        let event = match reader.read_event() {
            Ok(Event::Start(e)) => Start(e.name().0.to_vec()),
            Ok(Event::Empty(e)) => Empty(e.name().0.to_vec()),
            Ok(Event::End(e)) => End(e.name().0.to_vec()),
            Ok(Event::Text(e)) => Text(e.decode().unwrap_or_default().into_owned()),
            Ok(GeneralRef(e)) => Reference(e.to_vec()),
            Ok(Eof) => return out,
            Ok(_) => Other,
            Err(e) => { out.push(Malformed(e.to_string())); return out }
        };
        out.push(event);
    }
}

/// A text with its character references resolved, where all of them can be.
pub uninterp spec fn xml_unescaped(text: Seq<char>) -> Option<Seq<char>>;

/// `quick_xml::escape::unescape`: whether it succeeds, and with what, depends on the text alone.
#[verifier::external_body]
fn unescape(text: &str) -> (r: Option<String>)
    ensures
        opt_text(r) == xml_unescaped(text@),
{
    match quick_xml::escape::unescape(text) {
        Ok(t) => Some(t.into_owned()),
        Err(_) => None,
    }
}

/// One entry of a WebDAV answer.
#[derive(Debug, Clone)]
pub struct DavResponse {
    pub href: String,
    pub is_collection: bool,
    pub size: Option<i64>,
    pub last_modified: Option<i64>,
}

/// [`DavResponse`] as plain values.
pub struct DavResponseView {
    pub href: Seq<char>,
    pub is_collection: bool,
    pub size: Option<i64>,
    pub last_modified: Option<i64>,
}

impl View for DavResponse {
    type V = DavResponseView;

    open spec fn view(&self) -> DavResponseView {
        DavResponseView {
            href: self.href@,
            is_collection: self.is_collection,
            size: self.size,
            last_modified: self.last_modified,
        }
    }
}

impl DavResponse {
    /// A second copy of the value.
    pub fn copy(&self) -> (r: Self)
        ensures
            r@ == self@,
    {
        DavResponse {
            href: self.href.clone(),
            is_collection: self.is_collection,
            size: self.size,
            last_modified: self.last_modified,
        }
    }
}

pub open spec fn blank_response() -> DavResponseView {
    DavResponseView { href: Seq::empty(), is_collection: false, size: None, last_modified: None }
}

/// How far an answer has been read.
pub struct DavProgress {
    pub done: Seq<DavResponseView>,
    pub current: Option<DavResponseView>,
    pub field: Option<Seq<char>>,
    pub text: Seq<char>,
}

/// A piece of text with its character references resolved, where they can be.
pub open spec fn resolved(raw: Seq<char>) -> Seq<char> {
    match xml_unescaped(raw) {
        Some(t) => t,
        None => raw,
    }
}

/// An entry with the text of one of its properties taken in.
pub open spec fn with_field(
    r: DavResponseView,
    field: Seq<char>,
    text: Seq<char>,
) -> DavResponseView {
    if field == "href"@ {
        DavResponseView { href: text, ..r }
    } else if field == "getcontentlength"@ {
        DavResponseView { size: int_text(text), ..r }
    } else if field == "getlastmodified"@ {
        DavResponseView { last_modified: http_date(text), ..r }
    } else {
        r
    }
}

/// One more piece of the text of a property. White space around the whole does not count.
pub open spec fn with_piece(st: DavProgress, piece: Seq<char>) -> DavProgress {
    match (st.field, st.current) {
        (Some(field), Some(cur)) => {
            let text = st.text + piece;
            DavProgress { current: Some(with_field(cur, field, trimmed_text(text))), text, ..st }
        },
        _ => st,
    }
}

/// What one event adds. Namespace prefixes do not count, and what is not known is passed over.
pub open spec fn dav_step(st: DavProgress, event: XmlEventView) -> DavProgress {
    match event {
        XmlEventView::Start(raw) => {
            let name = tag_name(raw);
            if name == "response"@ {
                DavProgress { current: Some(blank_response()), ..st }
            } else if name == "href"@ || name == "getcontentlength"@ || name
                == "getlastmodified"@ {
                DavProgress { field: Some(name), text: Seq::empty(), ..st }
            } else {
                st
            }
        },
        XmlEventView::Empty(raw) => match st.current {
            Some(cur) => if tag_name(raw) == "collection"@ {
                DavProgress {
                    current: Some(DavResponseView { is_collection: true, ..cur }),
                    ..st
                }
            } else {
                st
            },
            None => st,
        },
        XmlEventView::Text(raw) => with_piece(st, resolved(raw)),
        XmlEventView::Reference(name) => with_piece(
            st,
            resolved("&"@ + lossy_text(name) + ";"@),
        ),
        XmlEventView::End(raw) => {
            let name = tag_name(raw);
            if name == "response"@ {
                match st.current {
                    Some(cur) => DavProgress { done: st.done.push(cur), current: None, ..st },
                    None => st,
                }
            } else if st.field == Some(name) {
                DavProgress { field: None, ..st }
            } else {
                st
            }
        },
        XmlEventView::Other => st,
        XmlEventView::Malformed(_) => st,
    }
}

/// The events taken in one after the other, up to the first that says that the text is no XML.
pub open spec fn dav_run(events: Seq<XmlEventView>) -> Result<DavProgress, Seq<char>>
    decreases events.len(),
{
    if events.len() == 0 {
        Ok(DavProgress { done: Seq::empty(), current: None, field: None, text: Seq::empty() })
    } else {
        match dav_run(events.drop_last()) {
            Err(why) => Err(why),
            Ok(st) => match events.last() {
                XmlEventView::Malformed(why) => Err(why),
                event => Ok(dav_step(st, event)),
            },
        }
    }
}

proof fn lemma_dav_error(events: Seq<XmlEventView>, n: int)
    requires
        0 <= n <= events.len(),
        dav_run(events.take(n)) is Err,
    ensures
        dav_run(events) == dav_run(events.take(n)),
    decreases events.len() - n,
{
    if n < events.len() {
        assert(events.take(n + 1).drop_last() =~= events.take(n));
        lemma_dav_error(events, n + 1);
    } else {
        assert(events.take(n) =~= events);
    }
}

/// Resolves the character references of a piece of text, where they can be.
fn resolve(raw: &str) -> (r: String)
    ensures
        r@ == resolved(raw@),
{
    match unescape(raw) {
        Some(t) => t,
        None => raw.to_owned(),
    }
}

/// Takes the text of one property of an entry in.
fn take_field(cur: &DavResponse, field: &str, text: &str) -> (r: DavResponse)
    ensures
        r@ == with_field(cur@, field@, trimmed_text(text@)),
{
    let text = trim(text);
    let mut next = cur.copy();
    if same(field, "href") {
        next.href = text;
    } else if same(field, "getcontentlength") {
        next.size = parse_i64(text.as_str());
    } else if same(field, "getlastmodified") {
        next.last_modified = parse_http_date(text.as_str());
    }
    next
}

/// Reads the entries out of the events of a WebDAV answer.
pub fn read_responses(events: &Vec<XmlEvent>) -> (r: Result<Vec<DavResponse>, PlatformError>)
    ensures
        match dav_run(views(events@)) {
            Ok(st) => r matches Ok(out) && views(out@) == st.done,
            Err(why) => r matches Err(e) && e@ == PlatformErrorView::BadRequest(
                "malformed WebDAV response: "@ + why,
            ),
        },
{
    let ghost all = views(events@);
    let mut out: Vec<DavResponse> = Vec::new();
    let mut current: Option<DavResponse> = None;
    let mut field: Option<String> = None;
    let mut text: String = String::new();
    let mut i: usize = 0;
    proof {
        assert(all.take(0) =~= Seq::empty());
        assert(views(out@) =~= Seq::empty());
    }
    while i < events.len()
        invariant
            all == views(events@),
            i <= events.len(),
            dav_run(all.take(i as int)) == Ok::<DavProgress, Seq<char>>(
                DavProgress {
                    done: views(out@),
                    current: match current {
                        Some(c) => Some(c@),
                        None => None,
                    },
                    field: opt_text(field),
                    text: text@,
                },
            ),
        decreases events.len() - i,
    {
        proof {
            assert(all.take(i + 1).drop_last() =~= all.take(i as int));
            assert(all.take(i + 1).last() == events@[i as int]@);
        }
        match &events[i] {
            XmlEvent::Start(raw) => {
                let name = local_name(raw);
                if same(name.as_str(), "response") {
                    current = Some(
                        DavResponse {
                            href: String::new(),
                            is_collection: false,
                            size: None,
                            last_modified: None,
                        },
                    );
                } else if same(name.as_str(), "href") || same(name.as_str(), "getcontentlength")
                    || same(name.as_str(), "getlastmodified") {
                    field = Some(name);
                    text = String::new();
                }
            },
            XmlEvent::Empty(raw) => {
                let name = local_name(raw);
                if same(name.as_str(), "collection") {
                    if let Some(cur) = &current {
                        let mut next = cur.copy();
                        next.is_collection = true;
                        current = Some(next);
                    }
                }
            },
            XmlEvent::Text(raw) => {
                if let Some(f) = &field {
                    if let Some(cur) = &current {
                        let piece = resolve(raw.as_str());
                        text = cat(text.as_str(), piece.as_str());
                        current = Some(take_field(cur, f.as_str(), text.as_str()));
                    }
                }
            },
            XmlEvent::Reference(name) => {
                if let Some(f) = &field {
                    if let Some(cur) = &current {
                        let name = from_utf8_lossy(name.as_slice());
                        let raw = cat3("&", name.as_str(), ";");
                        let piece = resolve(raw.as_str());
                        text = cat(text.as_str(), piece.as_str());
                        current = Some(take_field(cur, f.as_str(), text.as_str()));
                    }
                }
            },
            XmlEvent::End(raw) => {
                let name = local_name(raw);
                if same(name.as_str(), "response") {
                    if let Some(cur) = &current {
                        let ghost before = views(out@);
                        let done = cur.copy();
                        out.push(done);
                        proof {
                            assert(views(out@) =~= before.push(done@));
                        }
                        current = None;
                    }
                } else {
                    let closes = match &field {
                        Some(f) => same(f.as_str(), name.as_str()),
                        None => false,
                    };
                    if closes {
                        field = None;
                    }
                }
            },
            XmlEvent::Other => {},
            XmlEvent::Malformed(why) => {
                proof {
                    lemma_dav_error(all, i + 1);
                }
                return Err(
                    PlatformError::BadRequest(cat("malformed WebDAV response: ", why.as_str())),
                );
            },
        }
        i = i + 1;
    }
    proof {
        assert(all.take(i as int) =~= all);
    }
    Ok(out)
}

/// Reads the entries out of a WebDAV answer.
pub fn parse_multistatus(xml: &str) -> (r: Result<Vec<DavResponse>, PlatformError>)
    ensures
        match dav_run(xml_events(xml@)) {
            Ok(st) => r matches Ok(out) && views(out@) == st.done,
            Err(why) => r matches Err(e) && e@ == PlatformErrorView::BadRequest(
                "malformed WebDAV response: "@ + why,
            ),
        },
{
    let events = read_events(xml);
    read_responses(&events)
}

/// A digit of the standard Base64 alphabet.
pub open spec fn base64_digit(n: int) -> char {
    "ABCDEFGHIJKLMNOPQRSTUVWXYZabcdefghijklmnopqrstuvwxyz0123456789+/"@[n]
}

/// The Base64 form of bytes: four digits for three bytes, the last ones padded.
pub open spec fn base64_of(bytes: Seq<u8>) -> Seq<char>
    decreases bytes.len(),
{
    if bytes.len() == 0 {
        Seq::empty()
    } else {
        let second: int = if bytes.len() > 1 {
            bytes[1] as int
        } else {
            0
        };
        let third: int = if bytes.len() > 2 {
            bytes[2] as int
        } else {
            0
        };
        let n = bytes[0] * 65536 + second * 256 + third;
        let digits = seq![
            base64_digit(n / 262144),
            base64_digit(n / 4096 % 64),
            if bytes.len() > 1 {
                base64_digit(n / 64 % 64)
            } else {
                '='
            },
            if bytes.len() > 2 {
                base64_digit(n % 64)
            } else {
                '='
            },
        ];
        if bytes.len() <= 3 {
            digits
        } else {
            digits + base64_of(bytes.skip(3))
        }
    }
}

/// `base64::engine::general_purpose::STANDARD.encode`: the bytes of the text in Base64, with the
/// alphabet of RFC 4648 and padding.
#[verifier::external_body]
fn base64_encode(text: &str) -> (r: String)
    ensures
        r@ == base64_of(encode_utf8(text@)),
{
    base64::Engine::encode(&base64::engine::general_purpose::STANDARD, text)
}

/// The header that signs a request.
pub fn auth_header(cfg: &DriverConfig) -> (r: String)
    ensures
        r@ == "Basic "@ + base64_of(
            encode_utf8(cfg@.access_key_id + ":"@ + cfg@.secret_access_key),
        ),
{
    let raw = cat3(cfg.access_key_id.as_str(), ":", cfg.secret_access_key.as_str());
    let encoded = base64_encode(raw.as_str());
    cat("Basic ", encoded.as_str())
}

pub open spec fn hex_byte(b: u8) -> Option<u8> {
    if 48 <= b <= 57 {
        Some((b - 48) as u8)
    } else if 97 <= b <= 102 {
        Some((b - 87) as u8)
    } else if 65 <= b <= 70 {
        Some((b - 55) as u8)
    } else {
        None
    }
}

/// The byte that two characters after a percent sign stand for: two hexadecimal digits, or a plus
/// sign and one.
pub open spec fn escaped_byte(a: u8, b: u8) -> Option<u8> {
    match (hex_byte(a), hex_byte(b)) {
        (Some(x), Some(y)) => Some((x * 16 + y) as u8),
        (None, Some(y)) => if a == 43 {
            Some(y)
        } else {
            None
        },
        _ => None,
    }
}

/// Whether bytes begin with a percent sign and two characters that stand for a byte.
pub open spec fn begins_escaped(bytes: Seq<u8>) -> bool {
    bytes.len() > 2 && bytes[0] == 37 && escaped_byte(bytes[1], bytes[2]) is Some
}

/// Bytes with every escaped byte in its place. A percent sign that escapes nothing stays.
pub open spec fn unescaped_bytes(bytes: Seq<u8>) -> Seq<u8>
    decreases bytes.len(),
{
    if bytes.len() == 0 {
        Seq::empty()
    } else if begins_escaped(bytes) {
        seq![escaped_byte(bytes[1], bytes[2])->0] + unescaped_bytes(bytes.skip(3))
    } else {
        seq![bytes[0]] + unescaped_bytes(bytes.skip(1))
    }
}

/// A text with its percent escapes resolved.
pub open spec fn percent_decoded(raw: Seq<char>) -> Seq<char> {
    read_text(unescaped_bytes(encode_utf8(raw)))
}

fn hex_of(b: u8) -> (r: Option<u8>)
    ensures
        r == hex_byte(b),
        r matches Some(v) ==> v < 16,
{
    if 48 <= b && b <= 57 {
        Some(b - 48)
    } else if 97 <= b && b <= 102 {
        Some(b - 87)
    } else if 65 <= b && b <= 70 {
        Some(b - 55)
    } else {
        None
    }
}

pub fn percent_decode(raw: &str) -> (r: String)
    ensures
        r@ == percent_decoded(raw@),
{
    let bytes = raw.as_bytes();
    let mut out: Vec<u8> = Vec::new();
    let mut i: usize = 0;
    proof {
        assert(bytes@.skip(0) =~= bytes@);
        assert(out@ + unescaped_bytes(bytes@) =~= unescaped_bytes(bytes@));
    }
    while i < bytes.len()
        invariant
            bytes@ == encode_utf8(raw@),
            i <= bytes.len(),
            unescaped_bytes(bytes@) == out@ + unescaped_bytes(bytes@.skip(i as int)),
        decreases bytes.len() - i,
    {
        let ghost rest = bytes@.skip(i as int);
        let ghost before = out@;
        let mut escaped: Option<u8> = None;
        if bytes[i] == 37 && bytes.len() - i > 2 {
            proof {
                assert(rest[1] == bytes@[i + 1]);
                assert(rest[2] == bytes@[i + 2]);
            }
            let first = bytes[i + 1];
            match (hex_of(first), hex_of(bytes[i + 2])) {
                (Some(x), Some(y)) => {
                    escaped = Some(x * 16 + y);
                },
                (None, Some(y)) => {
                    if first == 43 {
                        escaped = Some(y);
                    }
                },
                _ => {},
            }
        }
        match escaped {
            Some(v) => {
                proof {
                    assert(begins_escaped(rest));
                    assert(rest.skip(3) =~= bytes@.skip(i + 3));
                }
                out.push(v);
                i = i + 3;
                proof {
                    assert(before + (seq![v] + unescaped_bytes(bytes@.skip(i as int))) =~= out@
                        + unescaped_bytes(bytes@.skip(i as int)));
                }
            },
            None => {
                proof {
                    assert(!begins_escaped(rest));
                    assert(rest.skip(1) =~= bytes@.skip(i + 1));
                }
                out.push(bytes[i]);
                proof {
                    assert(before + (seq![rest[0]] + unescaped_bytes(bytes@.skip(i + 1))) =~= out@
                        + unescaped_bytes(bytes@.skip(i + 1)));
                }
                i = i + 1;
            },
        }
    }
    proof {
        assert(bytes@.skip(i as int) =~= Seq::empty());
        assert(out@ + Seq::<u8>::empty() =~= out@);
    }
    from_utf8_lossy(out.as_slice())
}

proof fn lemma_nothing_escaped(bytes: Seq<u8>)
    requires
        forall|i: int| 0 <= i < bytes.len() ==> #[trigger] bytes[i] != 37,
    ensures
        unescaped_bytes(bytes) == bytes,
    decreases bytes.len(),
{
    if bytes.len() > 0 {
        lemma_nothing_escaped(bytes.skip(1));
        assert(seq![bytes[0]] + bytes.skip(1) =~= bytes);
    } else {
        assert(unescaped_bytes(bytes) =~= bytes);
    }
}

/// A text whose UTF-8 form has no percent sign is decoded to itself.
pub proof fn plain_text_decodes_to_itself(raw: Seq<char>)
    requires
        forall|i: int| 0 <= i < encode_utf8(raw).len() ==> #[trigger] encode_utf8(raw)[i] != 37,
    ensures
        percent_decoded(raw) == raw,
{
    lemma_nothing_escaped(encode_utf8(raw));
    encode_utf8_valid_utf8(raw);
    encode_utf8_decode_utf8(raw);
}

/// The name of an entry: the last segment of its decoded address.
pub open spec fn entry_name(href: Seq<char>) -> Seq<char> {
    after_last(drop_while(percent_decoded(href), |c: char| c == '/'), '/')
}

/// An entry of a listing under a prefix. A folder has no size and a slash after its key.
pub open spec fn dav_entry(r: DavResponseView, prefix: Seq<char>) -> DriverEntryView {
    DriverEntryView {
        key: prefix + entry_name(r.href) + if r.is_collection {
            "/"@
        } else {
            ""@
        },
        name: entry_name(r.href),
        is_prefix: r.is_collection,
        size_bytes: if r.is_collection {
            None
        } else {
            r.size
        },
        last_modified: r.last_modified,
    }
}

/// The entries that have a name.
pub open spec fn dav_entries(responses: Seq<DavResponseView>, prefix: Seq<char>) -> Seq<
    DriverEntryView,
>
    decreases responses.len(),
{
    if responses.len() == 0 {
        Seq::empty()
    } else {
        let so_far = dav_entries(responses.drop_last(), prefix);
        if entry_name(responses.last().href).len() > 0 {
            so_far.push(dav_entry(responses.last(), prefix))
        } else {
            so_far
        }
    }
}

/// The entries below the listed folder, which comes first in the answer, up to a number of them.
pub open spec fn dav_children(responses: Seq<DavResponseView>, limit: i32) -> Seq<DavResponseView> {
    let below = if responses.len() > 0 {
        responses.skip(1)
    } else {
        responses
    };
    if below.len() <= page_size(limit) {
        below
    } else {
        below.take(page_size(limit) as int)
    }
}

/// The listing that responses make: the folder itself, which comes first, is left out, and what
/// goes beyond the page.
pub open spec fn dav_listing(
    responses: Seq<DavResponseView>,
    prefix: Seq<char>,
    limit: i32,
) -> DriverListingView {
    DriverListingView {
        entries: dav_entries(dav_children(responses, limit), prefix),
        next_token: None,
    }
}

/// What the answer to a listing request is taken as.
pub open spec fn dav_listed(
    status: u16,
    body: Seq<char>,
    prefix: Seq<char>,
    limit: i32,
) -> Result<DriverListingView, PlatformErrorView> {
    if status != 207 {
        Err(PlatformErrorView::BadRequest("HTTP "@ + decimal(status as nat)))
    } else {
        match dav_run(xml_events(body)) {
            Ok(st) => Ok(dav_listing(st.done, prefix, limit)),
            Err(why) => Err(PlatformErrorView::BadRequest("malformed WebDAV response: "@ + why)),
        }
    }
}

/// What the answer to a probe is taken as.
pub open spec fn dav_probed(bucket: Seq<char>, url: Seq<char>, status: u16) -> Result<
    Seq<char>,
    PlatformErrorView,
> {
    if status == 207 {
        Ok("WebDAV share "@ + bucket + " reachable"@)
    } else {
        Err(
            PlatformErrorView::BadRequest(
                if status == 401 || status == 403 {
                    decimal(status as nat) + " — 用户名或密码被拒绝"@
                } else if status == 404 {
                    "404 — 路径不存在: "@ + url
                } else {
                    "HTTP "@ + decimal(status as nat)
                },
            ),
        )
    }
}

/// Makes a listing of the entries of an answer.
pub fn listing(responses: &Vec<DavResponse>, prefix: &str, limit: i32) -> (r: DriverListing)
    ensures
        r@ == dav_listing(views(responses@), prefix@, limit),
{
    let max: usize = if limit < 1 {
        1
    } else if limit > 1000 {
        1000
    } else {
        limit as usize
    };
    let ghost all = views(responses@);
    let ghost shown = dav_children(all, limit);
    let mut entries: Vec<DriverEntry> = Vec::new();
    let mut i: usize = 1;
    proof {
        assert(shown.take(0) =~= Seq::empty());
        assert(views(entries@) =~= Seq::empty());
    }
    while i < responses.len() && i - 1 < max
        invariant
            all == views(responses@),
            shown == dav_children(all, limit),
            max == page_size(limit),
            1 <= i,
            i - 1 <= max,
            i - 1 <= shown.len(),
            responses.len() > 0 ==> i <= responses.len(),
            views(entries@) == dav_entries(shown.take(i - 1), prefix@),
        decreases responses.len() - i,
    {
        let r = &responses[i];
        proof {
            assert(shown[i - 1] == r@);
            assert(shown.take(i as int).drop_last() =~= shown.take(i - 1));
            assert(shown.take(i as int).last() == r@);
        }
        let decoded = percent_decode(r.href.as_str());
        let bare = strip_trailing(decoded.as_str(), '/');
        let name = tail_after(bare.as_str(), '/');
        if !name.as_str().is_empty() {
            let mark = if r.is_collection {
                "/"
            } else {
                ""
            };
            let entry = DriverEntry {
                key: cat3(prefix, name.as_str(), mark),
                name,
                is_prefix: r.is_collection,
                size_bytes: if r.is_collection {
                    None
                } else {
                    r.size
                },
                last_modified: r.last_modified,
            };
            let ghost before = views(entries@);
            entries.push(entry);
            proof {
                assert(views(entries@) =~= before.push(entry@));
                assert(entry@ == dav_entry(r@, prefix@));
            }
        }
        i = i + 1;
    }
    proof {
        assert(shown.take(i - 1) =~= shown);
    }
    DriverListing { entries, next_token: None }
}

/// Makes a listing of a server's answer.
pub fn list_result(status: u16, body: &str, prefix: &str, limit: i32) -> (r: Result<
    DriverListing,
    PlatformError,
>)
    ensures
        answer(r) == dav_listed(status, body@, prefix@, limit),
{
    if status != 207 {
        let number = decimal_text(status as u64);
        return Err(PlatformError::BadRequest(cat("HTTP ", number.as_str())));
    }
    match parse_multistatus(body) {
        Ok(responses) => Ok(listing(&responses, prefix, limit)),
        Err(e) => Err(e),
    }
}

/// What a probe of a share reports, by the status of the answer.
pub fn probe_result(bucket: &str, url: &str, status: u16) -> (r: Result<String, PlatformError>)
    ensures
        answer(r) == dav_probed(bucket@, url@, status),
{
    if status == 207 {
        return Ok(cat3("WebDAV share ", bucket, " reachable"));
    }
    let number = decimal_text(status as u64);
    let message = if status == 401 || status == 403 {
        cat(number.as_str(), " — 用户名或密码被拒绝")
    } else if status == 404 {
        cat("404 — 路径不存在: ", url)
    } else {
        cat("HTTP ", number.as_str())
    };
    Err(PlatformError::BadRequest(message))
}

} // verus!
