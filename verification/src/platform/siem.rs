//! The export of logs to a security information system.
use crate::http::filled;
use crate::platform::http_probe::{
    http_probe, probe_http_endpoint, probe_tcp_host, tcp_target, HttpProbe, HttpProbeView,
    ProbeReport, ProbeReportView, TcpTarget, TcpTargetView,
};
use crate::text::{lowered, opt_str, same, to_ascii_lowercase};
use vstd::prelude::*;

verus! {

/// What a probe of a log export found.
#[derive(Debug, Clone)]
pub struct SiemStatus {
    /// `not_configured`, `ok` or `error`.
    pub status: String,
    pub message: String,
}

impl SiemStatus {
    pub fn of(report: ProbeReport) -> (r: Self)
        ensures
            r.status@ == report@.status,
            r.message@ == report@.message,
    {
        SiemStatus { status: report.status, message: report.message }
    }
}

/// What a log export is probed with.
pub struct SiemSettings<'a> {
    pub kind: Option<&'a str>,
    pub endpoint: Option<&'a str>,
    pub secret: Option<&'a str>,
}

/// How a log export is probed.
#[derive(Debug)]
pub enum SiemProbe {
    Http(HttpProbe),
    Tcp(TcpTarget),
}

/// [`SiemProbe`] as plain values.
pub enum SiemProbeView {
    Http(HttpProbeView),
    Tcp(TcpTargetView),
}

impl View for SiemProbe {
    type V = SiemProbeView;

    open spec fn view(&self) -> SiemProbeView {
        match *self {
            SiemProbe::Http(p) => SiemProbeView::Http(p@),
            SiemProbe::Tcp(t) => SiemProbeView::Tcp(t@),
        }
    }
}

/// The port of a log server that an endpoint does not name one for.
pub const SYSLOG_PORT: u16 = 514;

/// A log export is probed over TCP where it is a `syslog`, in letters of either case, else over
/// HTTP.
pub open spec fn siem_probe(
    kind: Option<Seq<char>>,
    endpoint: Option<Seq<char>>,
    secret: Option<Seq<char>>,
) -> SiemProbeView {
    if kind matches Some(k) && lowered(k) == "syslog"@ {
        match filled(endpoint) {
            Some(raw) => SiemProbeView::Tcp(tcp_target(raw, SYSLOG_PORT)),
            None => SiemProbeView::Http(
                HttpProbeView::Done(
                    ProbeReportView {
                        status: "not_configured"@,
                        message: "No endpoint configured."@,
                    },
                ),
            ),
        }
    } else {
        SiemProbeView::Http(http_probe(endpoint, secret))
    }
}

/// Probes a log export and sends nothing to it.
pub struct NoopSiemExporter;

impl NoopSiemExporter {
    pub fn probe(&self, settings: SiemSettings<'_>) -> (r: SiemProbe)
        ensures
            r@ == siem_probe(
                opt_str(settings.kind),
                opt_str(settings.endpoint),
                opt_str(settings.secret),
            ),
    {
        let syslog = match settings.kind {
            Some(k) => {
                let low = to_ascii_lowercase(k);
                same(low.as_str(), "syslog")
            },
            None => false,
        };
        if syslog {
            return match probe_tcp_host(settings.endpoint, SYSLOG_PORT) {
                Ok(target) => SiemProbe::Tcp(target),
                Err(known) => SiemProbe::Http(HttpProbe::Done(known)),
            };
        }
        SiemProbe::Http(probe_http_endpoint(settings.endpoint, settings.secret))
    }
}

} // verus!
