//! The backend for working together in real time.
use crate::platform::http_probe::{http_probe, probe_http_endpoint, HttpProbe, ProbeReport};
use crate::text::opt_str;
use vstd::prelude::*;

verus! {

/// What a probe of a collaboration backend found.
#[derive(Debug, Clone)]
pub struct CollaborationStatus {
    /// `not_configured`, `ok` or `error`.
    pub status: String,
    pub message: String,
}

impl CollaborationStatus {
    pub fn of(report: ProbeReport) -> (r: Self)
        ensures
            r.status@ == report@.status,
            r.message@ == report@.message,
    {
        CollaborationStatus { status: report.status, message: report.message }
    }
}

/// What a collaboration backend is probed with.
pub struct CollaborationSettings<'a> {
    pub provider: Option<&'a str>,
    pub endpoint: Option<&'a str>,
    pub secret: Option<&'a str>,
    pub presence: bool,
}

/// Probes a collaboration backend and shares nothing over it.
pub struct NoopCollaborationProvider;

impl NoopCollaborationProvider {
    pub fn probe(&self, settings: CollaborationSettings<'_>) -> (r: HttpProbe)
        ensures
            r@ == http_probe(opt_str(settings.endpoint), opt_str(settings.secret)),
    {
        probe_http_endpoint(settings.endpoint, settings.secret)
    }
}

} // verus!
