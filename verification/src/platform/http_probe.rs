//! Probing of endpoints that an administrator configured.
use crate::http::{filled, success, trim_filled, HttpReply, HttpReplyView};
use crate::parse::{all_digits, is_digit, parse_u16, unsigned};
use crate::text::{
    begins_with, cat, cat3, contains_text, decimal, decimal_text, drop_while, holds_text, opt_str,
    opt_text, slice_text, stands_at, starts_with, strip_trailing, to_chars,
};
use vstd::prelude::*;

verus! {

/// What a probe found.
#[derive(Debug, Clone)]
pub struct ProbeReport {
    /// `not_configured`, `ok` or `error`.
    pub status: String,
    pub message: String,
}

/// [`ProbeReport`] as plain values.
pub struct ProbeReportView {
    pub status: Seq<char>,
    pub message: Seq<char>,
}

impl View for ProbeReport {
    type V = ProbeReportView;

    open spec fn view(&self) -> ProbeReportView {
        ProbeReportView {
            status: self.status@,
            message: self.message@,
        }
    }
}

/// A GET request, with a bearer token where there is one.
#[derive(Debug, Clone)]
pub struct ProbeRequest {
    pub url: String,
    pub bearer: Option<String>,
}

/// [`ProbeRequest`] as plain values.
pub struct ProbeRequestView {
    pub url: Seq<char>,
    pub bearer: Option<Seq<char>>,
}

impl View for ProbeRequest {
    type V = ProbeRequestView;

    open spec fn view(&self) -> ProbeRequestView {
        ProbeRequestView {
            url: self.url@,
            bearer: opt_text(self.bearer),
        }
    }
}

/// A host and a port to connect to.
#[derive(Debug, Clone)]
pub struct TcpTarget {
    pub host: String,
    pub port: u16,
}

/// [`TcpTarget`] as plain values.
pub struct TcpTargetView {
    pub host: Seq<char>,
    pub port: u16,
}

impl View for TcpTarget {
    type V = TcpTargetView;

    open spec fn view(&self) -> TcpTargetView {
        TcpTargetView {
            host: self.host@,
            port: self.port,
        }
    }
}

/// What a probe does next.
#[derive(Debug)]
pub enum HttpProbe {
    /// The answer is known.
    Done(ProbeReport),
    /// The request decides.
    Get(ProbeRequest),
}

/// [`HttpProbe`] as plain values.
pub enum HttpProbeView {
    Done(ProbeReportView),
    Get(ProbeRequestView),
}

impl View for HttpProbe {
    type V = HttpProbeView;

    open spec fn view(&self) -> HttpProbeView {
        match *self {
            HttpProbe::Done(r) => HttpProbeView::Done(r@),
            HttpProbe::Get(r) => HttpProbeView::Get(r@),
        }
    }
}

pub(crate) fn report(status: &str, message: &str) -> (r: ProbeReport)
    ensures
        r@ == (ProbeReportView { status: status@, message: message@ }),
{
    ProbeReport { status: status.to_owned(), message: message.to_owned() }
}

/// An address to ask by HTTP: web socket schemes become HTTP schemes, and without a scheme it is
/// plain HTTP.
pub open spec fn probe_url(raw: Seq<char>) -> Seq<char> {
    if begins_with(raw, "wss://"@) {
        "https://"@ + raw.skip("wss://"@.len() as int)
    } else if begins_with(raw, "ws://"@) {
        "http://"@ + raw.skip("ws://"@.len() as int)
    } else if begins_with(raw, "http://"@) || begins_with(raw, "https://"@) {
        raw
    } else {
        "http://"@ + raw
    }
}

pub fn normalize_probe_url(raw: &str) -> (r: String)
    ensures
        r@ == probe_url(raw@),
{
    let chars = to_chars(raw);
    if starts_with(raw, "wss://") {
        proof {
            reveal_strlit("wss://");
            assert(raw@.subrange(6, raw@.len() as int) =~= raw@.skip(6));
        }
        let rest = slice_text(&chars, 6, chars.len());
        cat("https://", rest.as_str())
    } else if starts_with(raw, "ws://") {
        proof {
            reveal_strlit("ws://");
            assert(raw@.subrange(5, raw@.len() as int) =~= raw@.skip(5));
        }
        let rest = slice_text(&chars, 5, chars.len());
        cat("http://", rest.as_str())
    } else if starts_with(raw, "http://") || starts_with(raw, "https://") {
        raw.to_owned()
    } else {
        cat("http://", raw)
    }
}

/// An endpoint that is no network address.
pub open spec fn local_socket(raw: Seq<char>) -> bool {
    begins_with(raw, "unix:"@) || holds_text(raw, ".sock"@) || begins_with(raw, "npipe:"@)
}

pub open spec fn no_endpoint() -> ProbeReportView {
    ProbeReportView {
        status: "not_configured"@,
        message: "No endpoint configured. Save an HTTP URL and probe again."@,
    }
}

/// How an endpoint is probed by HTTP.
pub open spec fn http_probe(
    endpoint: Option<Seq<char>>,
    secret: Option<Seq<char>>,
) -> HttpProbeView {
    match filled(endpoint) {
        None => HttpProbeView::Done(no_endpoint()),
        Some(raw) => if local_socket(raw) {
            HttpProbeView::Done(
                ProbeReportView {
                    status: "error"@,
                    message: "Unix/named-pipe sockets cannot be HTTP-probed. Use a TCP Docker API such as http://127.0.0.1:2375."@,
                },
            )
        } else {
            HttpProbeView::Get(ProbeRequestView { url: probe_url(raw), bearer: filled(secret) })
        },
    }
}

pub fn probe_http_endpoint(endpoint: Option<&str>, secret: Option<&str>) -> (r: HttpProbe)
    ensures
        r@ == http_probe(opt_str(endpoint), opt_str(secret)),
{
    let raw = match trim_filled(endpoint) {
        Some(raw) => raw,
        None => {
            return HttpProbe::Done(
                report(
                    "not_configured",
                    "No endpoint configured. Save an HTTP URL and probe again.",
                ),
            );
        },
    };
    if starts_with(raw.as_str(), "unix:") || contains_text(raw.as_str(), ".sock") || starts_with(
        raw.as_str(),
        "npipe:",
    ) {
        return HttpProbe::Done(
            report(
                "error",
                "Unix/named-pipe sockets cannot be HTTP-probed. Use a TCP Docker API such as http://127.0.0.1:2375.",
            ),
        );
    }
    HttpProbe::Get(
        ProbeRequest { url: normalize_probe_url(raw.as_str()), bearer: trim_filled(secret) },
    )
}

/// What the answer to a probe says.
pub open spec fn http_report(url: Seq<char>, reply: HttpReplyView) -> ProbeReportView {
    match reply {
        HttpReplyView::Status(code) => if success(code) || code == 401 || code == 403 || code
            == 404 {
            ProbeReportView {
                status: "ok"@,
                message: "Reached "@ + url + " (HTTP "@ + decimal(code as nat) + ")"@,
            }
        } else {
            ProbeReportView {
                status: "error"@,
                message: url + " returned HTTP "@ + decimal(code as nat),
            }
        },
        HttpReplyView::Failed(why) => ProbeReportView {
            status: "error"@,
            message: "Could not reach "@ + url + ": "@ + why,
        },
        HttpReplyView::NoClient(why) => ProbeReportView { status: "error"@, message: why },
    }
}

pub fn http_probe_result(url: &str, reply: &HttpReply) -> (r: ProbeReport)
    ensures
        r@ == http_report(url@, reply@),
{
    match reply {
        HttpReply::Status(code) => {
            let number = decimal_text(*code as u64);
            if (200 <= *code && *code <= 299) || *code == 401 || *code == 403 || *code == 404 {
                let head = cat3("Reached ", url, " (HTTP ");
                ProbeReport {
                    status: "ok".to_owned(),
                    message: cat3(head.as_str(), number.as_str(), ")"),
                }
            } else {
                ProbeReport {
                    status: "error".to_owned(),
                    message: cat3(url, " returned HTTP ", number.as_str()),
                }
            }
        },
        HttpReply::Failed(why) => {
            let head = cat3("Could not reach ", url, ": ");
            ProbeReport {
                status: "error".to_owned(),
                message: cat(head.as_str(), why.as_str()),
            }
        },
        HttpReply::NoClient(why) => report("error", why.as_str()),
    }
}

/// Where `part` first stands in a text, from a position on.
pub open spec fn text_from(text: Seq<char>, part: Seq<char>, i: int) -> Option<int>
    decreases text.len() + 1 - i,
{
    if i > text.len() - part.len() {
        None
    } else if stands_at(text, part, i) {
        Some(i)
    } else {
        text_from(text, part, i + 1)
    }
}

/// An endpoint without its scheme and without slashes at the end.
pub open spec fn without_scheme(raw: Seq<char>) -> Seq<char> {
    let rest = match text_from(raw, "://"@, 0) {
        Some(i) => raw.skip(i + 3),
        None => raw,
    };
    drop_while(rest, |c: char| c == '/')
}

/// Where a character last stands before a position.
pub open spec fn last_before(text: Seq<char>, c: char, n: int) -> Option<int>
    decreases n,
{
    if n <= 0 {
        None
    } else if text[n - 1] == c {
        Some(n - 1)
    } else {
        last_before(text, c, n - 1)
    }
}

/// The host and the port of an endpoint. What follows the last colon is the port where it is all
/// digits; a port that is out of range, or missing, is the default.
pub open spec fn tcp_target(raw: Seq<char>, default_port: u16) -> TcpTargetView {
    let bare = without_scheme(raw);
    match last_before(bare, ':', bare.len() as int) {
        Some(i) => if all_digits(bare.skip(i + 1)) {
            TcpTargetView {
                host: bare.take(i),
                port: match unsigned(bare.skip(i + 1)) {
                    Some(n) => if n <= 65535 {
                        n as u16
                    } else {
                        default_port
                    },
                    None => default_port,
                },
            }
        } else {
            TcpTargetView { host: bare, port: default_port }
        },
        None => TcpTargetView { host: bare, port: default_port },
    }
}

pub(crate) fn find_text(chars: &Vec<char>, part: &Vec<char>) -> (r: Option<usize>)
    ensures
        match r {
            Some(i) => text_from(chars@, part@, 0) == Some(i as int) && i + part.len()
                <= chars.len(),
            None => text_from(chars@, part@, 0) is None,
        },
{
    let mut i: usize = 0;
    while part.len() <= chars.len() && i <= chars.len() - part.len()
        invariant
            i <= chars.len() + 1,
            text_from(chars@, part@, 0) == text_from(chars@, part@, i as int),
        decreases chars.len() + 1 - i,
    {
        if crate::text::matches_at(chars, part, i) {
            return Some(i);
        }
        proof {
            assert(text_from(chars@, part@, i as int) == text_from(chars@, part@, i + 1));
        }
        if i == chars.len() {
            return None;
        }
        i = i + 1;
    }
    None
}

pub(crate) fn find_last(chars: &Vec<char>, c: char) -> (r: Option<usize>)
    ensures
        match r {
            Some(i) => last_before(chars@, c, chars@.len() as int) == Some(i as int) && i
                < chars.len(),
            None => last_before(chars@, c, chars@.len() as int) is None,
        },
{
    let mut n: usize = chars.len();
    while n > 0
        invariant
            n <= chars.len(),
            last_before(chars@, c, chars@.len() as int) == last_before(chars@, c, n as int),
        decreases n,
    {
        if chars[n - 1] == c {
            return Some(n - 1);
        }
        n = n - 1;
    }
    None
}

fn only_digits(chars: &Vec<char>, from: usize) -> (r: bool)
    requires
        from <= chars.len(),
    ensures
        r == all_digits(chars@.skip(from as int)),
{
    let ghost body = chars@.skip(from as int);
    let mut i: usize = from;
    while i < chars.len()
        invariant
            from <= i <= chars.len(),
            body == chars@.skip(from as int),
            forall|j: int| 0 <= j < i - from ==> is_digit(#[trigger] body[j]),
        decreases chars.len() - i,
    {
        let c = chars[i];
        proof {
            assert(body[i - from] == c);
        }
        if c < '0' || c > '9' {
            return false;
        }
        i = i + 1;
    }
    true
}

/// The host and the port that a TCP probe connects to; without an endpoint the answer is known.
pub fn probe_tcp_host(
    endpoint: Option<&str>,
    default_port: u16,
) -> (r: Result<TcpTarget, ProbeReport>)
    ensures
        match filled(opt_str(endpoint)) {
            Some(raw) => r matches Ok(t) && t@ == tcp_target(raw, default_port),
            None => r matches Err(e) && e@ == (ProbeReportView {
                status: "not_configured"@,
                message: "No endpoint configured."@,
            }),
        },
{
    let raw = match trim_filled(endpoint) {
        Some(raw) => raw,
        None => {
            return Err(report("not_configured", "No endpoint configured."));
        },
    };
    let chars = to_chars(raw.as_str());
    let mark = to_chars("://");
    let from: usize = match find_text(&chars, &mark) {
        Some(i) => {
            proof {
                reveal_strlit("://");
            }
            i + 3
        },
        None => 0,
    };
    let rest = slice_text(&chars, from, chars.len());
    proof {
        assert(raw@.skip(0) =~= raw@);
        assert(rest@ =~= raw@.skip(from as int));
    }
    let bare = strip_trailing(rest.as_str(), '/');
    let parts = to_chars(bare.as_str());
    match find_last(&parts, ':') {
        Some(i) => {
            if only_digits(&parts, i + 1) {
                let host = slice_text(&parts, 0, i);
                let digits = slice_text(&parts, i + 1, parts.len());
                proof {
                    assert(host@ =~= bare@.take(i as int));
                    assert(digits@ =~= bare@.skip(i + 1));
                }
                let port: u16 = match parse_u16(digits.as_str()) {
                    Some(p) => p,
                    None => default_port,
                };
                Ok(TcpTarget { host, port })
            } else {
                Ok(TcpTarget { host: bare, port: default_port })
            }
        },
        None => Ok(TcpTarget { host: bare, port: default_port }),
    }
}

/// What came of an attempt to connect.
#[derive(Debug, Clone)]
pub enum TcpReply {
    Connected,
    /// The name has no address, with the reason.
    NameFailed(String),
    /// The name was looked up and has no address.
    NoAddress,
    /// The address refused, with the reason.
    Refused(String),
}

/// What the outcome of an attempt to connect says.
pub fn tcp_probe_result(target: &TcpTarget, reply: &TcpReply) -> (r: ProbeReport)
    ensures
        ({
            let place = target@.host + ":"@ + decimal(target@.port as nat);
            r@ == match *reply {
                TcpReply::Connected => ProbeReportView {
                    status: "ok"@,
                    message: "TCP reachable at "@ + place,
                },
                TcpReply::NameFailed(why) => ProbeReportView {
                    status: "error"@,
                    message: "DNS failed for "@ + place + ": "@ + why@,
                },
                TcpReply::NoAddress => ProbeReportView {
                    status: "error"@,
                    message: "No address for "@ + place,
                },
                TcpReply::Refused(why) => ProbeReportView {
                    status: "error"@,
                    message: "TCP "@ + place + ": "@ + why@,
                },
            }
        }),
{
    let number = decimal_text(target.port as u64);
    let place = cat3(target.host.as_str(), ":", number.as_str());
    match reply {
        TcpReply::Connected => ProbeReport {
            status: "ok".to_owned(),
            message: cat("TCP reachable at ", place.as_str()),
        },
        TcpReply::NameFailed(why) => {
            let head = cat3("DNS failed for ", place.as_str(), ": ");
            ProbeReport {
                status: "error".to_owned(),
                message: cat(head.as_str(), why.as_str()),
            }
        },
        TcpReply::NoAddress => ProbeReport {
            status: "error".to_owned(),
            message: cat("No address for ", place.as_str()),
        },
        TcpReply::Refused(why) => {
            let head = cat3("TCP ", place.as_str(), ": ");
            ProbeReport {
                status: "error".to_owned(),
                message: cat(head.as_str(), why.as_str()),
            }
        },
    }
}

} // verus!
