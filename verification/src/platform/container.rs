//! The container runtime that a group's agents run in.
use crate::platform::http_probe::{http_probe, probe_http_endpoint, HttpProbe, ProbeReport};
use crate::text::opt_str;
use vstd::prelude::*;

verus! {

/// What a probe of a container runtime found.
#[derive(Debug, Clone)]
pub struct ContainerStatus {
    /// `not_configured`, `ok` or `error`.
    pub status: String,
    pub message: String,
}

impl ContainerStatus {
    pub fn of(report: ProbeReport) -> (r: Self)
        ensures
            r.status@ == report@.status,
            r.message@ == report@.message,
    {
        ContainerStatus { status: report.status, message: report.message }
    }
}

/// What a container runtime is probed with.
pub struct ContainerSettings<'a> {
    pub runtime_kind: Option<&'a str>,
    pub endpoint: Option<&'a str>,
    pub default_image: Option<&'a str>,
    pub registry: Option<&'a str>,
    pub registry_secret: Option<&'a str>,
}

/// Probes the API of a container runtime and runs nothing in it.
pub struct NoopContainerRuntime;

impl NoopContainerRuntime {
    pub fn probe(&self, settings: ContainerSettings<'_>) -> (r: HttpProbe)
        ensures
            r@ == http_probe(opt_str(settings.endpoint), opt_str(settings.registry_secret)),
    {
        probe_http_endpoint(settings.endpoint, settings.registry_secret)
    }
}

} // verus!
