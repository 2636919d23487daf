//! The configuration of the gateway and of its services.

use crate::binary64::{Binary64, HALF_MAG, TENTH};
use crate::string_map::StringMap;
use crate::time::{Duration, NANOS_PER_MILLI};
use vstd::prelude::*;

verus! {

/// The characters of each text of a list.
pub open spec fn texts(v: Seq<String>) -> Seq<Seq<char>> {
    v.map_values(|s: String| s@)
}

/// Copies a list of texts.
pub fn clone_texts(v: &Vec<String>) -> (r: Vec<String>)
    ensures
        texts(r@) == texts(v@),
{
    let mut r: Vec<String> = Vec::new();
    let mut i: usize = 0;
    while i < v.len()
        invariant
            i <= v@.len(),
            r@.len() == i,
            forall|j: int| 0 <= j < i ==> (#[trigger] r@[j])@ == v@[j]@,
        decreases v@.len() - i,
    {
        r.push(v[i].clone());
        i = i + 1;
    }
    assert(texts(r@) =~= texts(v@));
    r
}

/// The endpoints of a cluster.
#[derive(Debug)]
pub struct ClusterConfig {
    pub endpoints: Vec<String>,
}

impl View for ClusterConfig {
    type V = Seq<Seq<char>>;

    open spec fn view(&self) -> Seq<Seq<char>> {
        texts(self.endpoints@)
    }
}

impl Clone for ClusterConfig {
    fn clone(&self) -> (r: Self)
        ensures
            r@ == self@,
    {
        ClusterConfig { endpoints: clone_texts(&self.endpoints) }
    }
}

/// When the circuit of a service opens, and for how long.
#[derive(Debug, Clone, Copy)]
pub struct CircuitBreakerConfig {
    pub error_threshold: Binary64,
    pub request_volume_threshold: u64,
    pub sleep_window_ms: u64,
    pub slow_call_threshold_ms: u64,
    pub slow_call_ratio_threshold: Binary64,
}

impl CircuitBreakerConfig {
    /// How long an open circuit stays open.
    pub fn sleep_window(&self) -> (r: Duration)
        ensures
            r.nanos == self.sleep_window_ms * NANOS_PER_MILLI,
    {
        Duration::from_millis(self.sleep_window_ms)
    }

    /// From which duration on a call counts as slow.
    pub fn slow_call_threshold(&self) -> (r: Duration)
        ensures
            r.nanos == self.slow_call_threshold_ms * NANOS_PER_MILLI,
    {
        Duration::from_millis(self.slow_call_threshold_ms)
    }
}

/// How the gateway treats one service.
#[derive(Debug)]
pub struct ServiceConfig {
    pub name: String,
    pub stable_cluster: ClusterConfig,
    pub canary_cluster: Option<ClusterConfig>,
    pub canary_ratio: Binary64,
    pub circuit_breaker: CircuitBreakerConfig,
    pub timeout_ms: u64,
}

/// What a service configuration says.
pub struct ServiceConfigView {
    pub name: Seq<char>,
    pub stable: Seq<Seq<char>>,
    pub canary: Option<Seq<Seq<char>>>,
    pub canary_ratio: Binary64,
    pub circuit_breaker: CircuitBreakerConfig,
    pub timeout_ms: u64,
}

/// The endpoints of a cluster that may be missing.
pub open spec fn cluster_view(c: Option<ClusterConfig>) -> Option<Seq<Seq<char>>> {
    match c {
        Some(cluster) => Some(cluster@),
        None => None,
    }
}

impl View for ServiceConfig {
    type V = ServiceConfigView;

    open spec fn view(&self) -> ServiceConfigView {
        ServiceConfigView {
            name: self.name@,
            stable: self.stable_cluster@,
            canary: cluster_view(self.canary_cluster),
            canary_ratio: self.canary_ratio,
            circuit_breaker: self.circuit_breaker,
            timeout_ms: self.timeout_ms,
        }
    }
}

impl Clone for ServiceConfig {
    fn clone(&self) -> (r: Self)
        ensures
            r@ == self@,
    {
        let canary_cluster = match &self.canary_cluster {
            Some(c) => Some(c.clone()),
            None => None,
        };
        ServiceConfig {
            name: self.name.clone(),
            stable_cluster: self.stable_cluster.clone(),
            canary_cluster,
            canary_ratio: self.canary_ratio,
            circuit_breaker: self.circuit_breaker,
            timeout_ms: self.timeout_ms,
        }
    }
}

impl ServiceConfig {
    /// How long a call to the service may take.
    pub fn timeout(&self) -> (r: Duration)
        ensures
            r.nanos == self.timeout_ms * NANOS_PER_MILLI,
    {
        Duration::from_millis(self.timeout_ms)
    }
}

/// The configuration of the whole gateway.
#[derive(Debug)]
pub struct GatewayConfig {
    pub listen_addr: String,
    pub admin_addr: String,
    pub global_timeout_ms: u64,
    pub services: StringMap<ServiceConfig>,
}

/// What a gateway configuration says.
#[verifier::ext_equal]
pub struct GatewayConfigView {
    pub listen_addr: Seq<char>,
    pub admin_addr: Seq<char>,
    pub global_timeout_ms: u64,
    pub services: Map<Seq<char>, ServiceConfigView>,
}

/// What the service configurations say.
pub open spec fn services_view(
    m: Map<Seq<char>, ServiceConfig>,
) -> Map<Seq<char>, ServiceConfigView> {
    m.map_values(|c: ServiceConfig| c@)
}

impl View for GatewayConfig {
    type V = GatewayConfigView;

    open spec fn view(&self) -> GatewayConfigView {
        GatewayConfigView {
            listen_addr: self.listen_addr@,
            admin_addr: self.admin_addr@,
            global_timeout_ms: self.global_timeout_ms,
            services: services_view(self.services@),
        }
    }
}

impl Clone for GatewayConfig {
    fn clone(&self) -> (r: Self)
        ensures
            r@ == self@,
            r.services.key_order() == self.services.key_order(),
    {
        let services = self.services.clone();
        proof {
            let a = services_view(services@);
            let b = services_view(self.services@);
            assert(a =~= b) by {
                assert forall|k: Seq<char>| a.contains_key(k) implies a[k] == b[k] by {
                    assert(self.services@.contains_key(k));
                };
            };
        }
        GatewayConfig {
            listen_addr: self.listen_addr.clone(),
            admin_addr: self.admin_addr.clone(),
            global_timeout_ms: self.global_timeout_ms,
            services,
        }
    }
}

/// The binary64 patterns of one fifth and of four fifths.
pub const FIFTH: u64 = 0x3fc9_9999_9999_999a;

pub const FOUR_FIFTHS: u64 = 0x3fe9_9999_9999_999a;

/// The circuit breaker settings that the services start with.
pub open spec fn default_breaker() -> CircuitBreakerConfig {
    CircuitBreakerConfig {
        error_threshold: Binary64 { bits: HALF_MAG },
        request_volume_threshold: 20,
        sleep_window_ms: 5000,
        slow_call_threshold_ms: 1000,
        slow_call_ratio_threshold: Binary64 { bits: FOUR_FIFTHS },
    }
}

/// A service with one stable and one canary endpoint, as the gateway starts with it.
pub open spec fn default_service(
    name: Seq<char>,
    stable: Seq<char>,
    canary: Seq<char>,
    ratio: u64,
) -> ServiceConfigView {
    ServiceConfigView {
        name,
        stable: seq![stable],
        canary: Some(seq![canary]),
        canary_ratio: Binary64 { bits: ratio },
        circuit_breaker: default_breaker(),
        timeout_ms: 3000,
    }
}

fn starting_service(name: &str, stable: &str, canary: &str, ratio: u64) -> (r: ServiceConfig)
    ensures
        r@ == default_service(name@, stable@, canary@, ratio),
{
    let s: Vec<String> = vec![stable.to_string()];
    let c: Vec<String> = vec![canary.to_string()];
    assert(texts(s@) =~= seq![stable@]);
    assert(texts(c@) =~= seq![canary@]);
    ServiceConfig {
        name: name.to_string(),
        stable_cluster: ClusterConfig { endpoints: s },
        canary_cluster: Some(ClusterConfig { endpoints: c }),
        canary_ratio: Binary64 { bits: ratio },
        circuit_breaker: CircuitBreakerConfig {
            error_threshold: Binary64 { bits: HALF_MAG },
            request_volume_threshold: 20,
            sleep_window_ms: 5000,
            slow_call_threshold_ms: 1000,
            slow_call_ratio_threshold: Binary64 { bits: FOUR_FIFTHS },
        },
        timeout_ms: 3000,
    }
}

/// The services that the gateway starts with.
pub open spec fn default_services() -> Map<Seq<char>, ServiceConfigView> {
    map![
        "user-service"@ => default_service(
            "user-service"@,
            "http://127.0.0.1:8081"@,
            "http://127.0.0.1:8082"@,
            TENTH,
        ),
        "order-service"@ => default_service(
            "order-service"@,
            "http://127.0.0.1:8091"@,
            "http://127.0.0.1:8092"@,
            FIFTH,
        ),
    ]
}

impl Default for GatewayConfig {
    fn default() -> (r: Self)
        ensures
            r@ == (GatewayConfigView {
                listen_addr: "0.0.0.0:8080"@,
                admin_addr: "0.0.0.0:9090"@,
                global_timeout_ms: 5000,
                services: default_services(),
            }),
    {
        let mut services: StringMap<ServiceConfig> = StringMap::new();
        let user = starting_service(
            "user-service",
            "http://127.0.0.1:8081",
            "http://127.0.0.1:8082",
            TENTH,
        );
        services.insert("user-service".to_string(), user);
        let order = starting_service(
            "order-service",
            "http://127.0.0.1:8091",
            "http://127.0.0.1:8092",
            FIFTH,
        );
        services.insert("order-service".to_string(), order);
        assert(services_view(services@) =~= default_services());
        GatewayConfig {
            listen_addr: "0.0.0.0:8080".to_string(),
            admin_addr: "0.0.0.0:9090".to_string(),
            global_timeout_ms: 5000,
            services,
        }
    }
}

} // verus!
