//! Names shared by the whole gateway.

use vstd::prelude::*;

verus! {

/// The header that marks a request as canary traffic.
pub const CANARY_HEADER: &'static str = "x-envoy";

/// The value that the canary header carries.
pub const CANARY_HEADER_VALUE: &'static str = "canary";

/// The header that names the cluster a request was routed to.
pub const CANARY_CLUSTER_HEADER: &'static str = "x-canary-cluster";

/// The header that carries the time left for a request, in milliseconds.
pub const GLOBAL_TIMEOUT_HEADER: &'static str = "x-global-timeout-remaining-ms";

/// The header that carries the identifier of a request.
pub const REQUEST_ID_HEADER: &'static str = "x-request-id";

/// A group of endpoints that serve a service.
#[derive(Debug, Clone, Copy, PartialEq, Eq, Structural)]
pub enum ClusterType {
    Stable,
    Canary,
}

impl ClusterType {
    /// The name of the cluster.
    pub open spec fn name(self) -> Seq<char> {
        match self {
            ClusterType::Stable => "stable"@,
            ClusterType::Canary => "canary"@,
        }
    }

    pub fn to_string(&self) -> (r: String)
        ensures
            r@ == self.name(),
    {
        match self {
            ClusterType::Stable => "stable".to_string(),
            ClusterType::Canary => "canary".to_string(),
        }
    }
}

/// Where a request goes.
#[derive(Debug, Clone)]
pub struct RouteTarget {
    pub service_name: String,
    pub cluster_type: ClusterType,
    pub endpoint: String,
}

} // verus!
