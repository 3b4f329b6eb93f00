//! The HTTP endpoints of the exporter and the fixed answers it gives.
use vstd::prelude::*;

verus! {

/// An endpoint the server mounts at the root; every one answers `GET`.
#[derive(Debug, Clone, Copy, PartialEq, Eq, Structural)]
pub enum Endpoint {
    /// `/health`: liveness check.
    Health,
    /// `/metrics`: the metrics in the Prometheus text format.
    Metrics,
    /// `/favicon.ico`: an empty answer, so browsers get no error.
    Favicon,
}

/// The path of each endpoint.
pub open spec fn endpoint_path(e: Endpoint) -> Seq<char> {
    match e {
        Endpoint::Health => "/health"@,
        Endpoint::Metrics => "/metrics"@,
        Endpoint::Favicon => "/favicon.ico"@,
    }
}

impl Endpoint {
    /// The path the endpoint is mounted at.
    pub fn path(&self) -> (p: &'static str)
        ensures
            p@ == endpoint_path(*self),
    {
        match self {
            Endpoint::Health => "/health",
            Endpoint::Metrics => "/metrics",
            Endpoint::Favicon => "/favicon.ico",
        }
    }
}

/// The endpoints the server mounts: health, metrics and favicon.
pub fn routes() -> (r: Vec<Endpoint>)
    ensures
        r@ == seq![Endpoint::Health, Endpoint::Metrics, Endpoint::Favicon],
{
    let r = vec![Endpoint::Health, Endpoint::Metrics, Endpoint::Favicon];
    assert(r@ =~= seq![Endpoint::Health, Endpoint::Metrics, Endpoint::Favicon]);
    r
}

/// The answer of the health endpoint: `ok`.
pub fn health() -> (body: &'static str)
    ensures
        body@ == "ok"@,
{
    "ok"
}

/// The favicon endpoint answers with an empty body.
pub fn favicon() {
}

} // verus!
