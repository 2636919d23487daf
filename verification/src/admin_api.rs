//! The administration interface: what its requests are answered, and what they change.

use crate::binary64::{
    counter_mag, is_nearest, lemma_rounded_is_nearest, quotient_mag, ratio_of_all_is_one,
    small_counters_are_exact, units, Binary64, HIDDEN_TWICE, ONE_MAG,
};
use crate::circuit_breaker::{CircuitBreaker, CircuitState, Metrics};
use crate::config::{
    texts, CircuitBreakerConfig, ClusterConfig, GatewayConfig, GatewayConfigView, ServiceConfig,
    ServiceConfigView,
};
use crate::headers::text_view;
use crate::state::{breaker_of, reconfigured, AppState};
use vstd::arithmetic::power2::pow2;
use vstd::prelude::*;

verus! {

/// The status codes of the answers.
pub const OK: u16 = 200;

pub const NOT_FOUND: u16 = 404;

/// How a service is doing.
#[derive(Debug)]
pub struct ServiceStatus {
    pub name: String,
    pub circuit_state: String,
    pub total_requests: u64,
    pub error_count: u64,
    pub slow_call_count: u64,
    pub error_rate: Binary64,
    pub config: ServiceConfig,
}

/// New breaker settings; what is missing stays as it is.
#[derive(Debug)]
pub struct UpdateCircuitBreakerRequest {
    pub error_threshold: Option<Binary64>,
    pub request_volume_threshold: Option<u64>,
    pub sleep_window_ms: Option<u64>,
    pub slow_call_threshold_ms: Option<u64>,
    pub slow_call_ratio_threshold: Option<Binary64>,
}

/// New service settings; what is missing stays as it is.
#[derive(Debug)]
pub struct UpdateServiceConfigRequest {
    pub timeout_ms: Option<u64>,
    pub canary_ratio: Option<Binary64>,
    pub stable_endpoints: Option<Vec<String>>,
    pub canary_endpoints: Option<Vec<String>>,
    pub circuit_breaker: Option<UpdateCircuitBreakerRequest>,
}

/// New settings of the whole gateway; what is missing stays as it is.
#[derive(Debug)]
pub struct UpdateGlobalConfigRequest {
    pub global_timeout_ms: Option<u64>,
}

/// An answer.
#[derive(Debug)]
pub struct ApiResponse<T> {
    pub success: bool,
    pub data: Option<T>,
    pub message: Option<String>,
}

impl<T> ApiResponse<T> {
    /// The answer gives data and no message.
    pub open spec fn gives(self, data: T) -> bool {
        self.success && self.data == Some(data) && self.message is None
    }

    /// The answer gives a message and no data.
    pub open spec fn fails_with(self, message: Seq<char>) -> bool {
        &&& !self.success
        &&& self.data is None
        &&& text_view(self.message) == Some(message)
    }

    pub fn success(data: T) -> (r: Self)
        ensures
            r.gives(data),
    {
        ApiResponse { success: true, data: Some(data), message: None }
    }

    pub fn error(message: &str) -> (r: Self)
        ensures
            r.fails_with(message@),
    {
        ApiResponse { success: false, data: None, message: Some(message.to_string()) }
    }
}

/// A setting after an update that may leave it out.
pub open spec fn updated<A>(before: A, update: Option<A>) -> A {
    match update {
        Some(value) => value,
        None => before,
    }
}

/// A list of texts after an update that may leave it out.
pub open spec fn updated_texts(
    before: Seq<Seq<char>>,
    update: Option<Vec<String>>,
) -> Seq<Seq<char>> {
    match update {
        Some(list) => texts(list@),
        None => before,
    }
}

impl UpdateCircuitBreakerRequest {
    /// The settings after the update.
    pub open spec fn applied(
        self,
        c: CircuitBreakerConfig,
    ) -> CircuitBreakerConfig {
        CircuitBreakerConfig {
            error_threshold: updated(c.error_threshold, self.error_threshold),
            request_volume_threshold: updated(
                c.request_volume_threshold,
                self.request_volume_threshold,
            ),
            sleep_window_ms: updated(c.sleep_window_ms, self.sleep_window_ms),
            slow_call_threshold_ms: updated(c.slow_call_threshold_ms, self.slow_call_threshold_ms),
            slow_call_ratio_threshold: updated(
                c.slow_call_ratio_threshold,
                self.slow_call_ratio_threshold,
            ),
        }
    }
}

impl UpdateServiceConfigRequest {
    /// The settings after the update. Canary endpoints are taken only where there is a
    /// canary cluster.
    pub open spec fn applied(
        self,
        c: ServiceConfigView,
    ) -> ServiceConfigView {
        ServiceConfigView {
            name: c.name,
            stable: updated_texts(c.stable, self.stable_endpoints),
            canary: match c.canary {
                Some(endpoints) => Some(updated_texts(endpoints, self.canary_endpoints)),
                None => None,
            },
            canary_ratio: updated(c.canary_ratio, self.canary_ratio),
            circuit_breaker: match self.circuit_breaker {
                Some(update) => update.applied(c.circuit_breaker),
                None => c.circuit_breaker,
            },
            timeout_ms: updated(c.timeout_ms, self.timeout_ms),
        }
    }

    /// Applies the update to a service configuration.
    pub fn apply(self, config: &mut ServiceConfig)
        ensures
            final(config)@ == self.applied(old(config)@),
    {
        if let Some(timeout_ms) = self.timeout_ms {
            config.timeout_ms = timeout_ms;
        }
        if let Some(canary_ratio) = self.canary_ratio {
            config.canary_ratio = canary_ratio;
        }
        if let Some(endpoints) = self.stable_endpoints {
            config.stable_cluster.endpoints = endpoints;
        }
        if let Some(endpoints) = self.canary_endpoints {
            if config.canary_cluster.is_some() {
                config.canary_cluster = Some(ClusterConfig { endpoints });
            }
        }
        if let Some(update) = self.circuit_breaker {
            if let Some(v) = update.error_threshold {
                config.circuit_breaker.error_threshold = v;
            }
            if let Some(v) = update.request_volume_threshold {
                config.circuit_breaker.request_volume_threshold = v;
            }
            if let Some(v) = update.sleep_window_ms {
                config.circuit_breaker.sleep_window_ms = v;
            }
            if let Some(v) = update.slow_call_threshold_ms {
                config.circuit_breaker.slow_call_threshold_ms = v;
            }
            if let Some(v) = update.slow_call_ratio_threshold {
                config.circuit_breaker.slow_call_ratio_threshold = v;
            }
        }
    }
}

/// The names of all services, each of them once.
pub fn list_services(state: &AppState) -> (r: ApiResponse<Vec<String>>)
    ensures
        r.success && r.message is None && r.data is Some,
        texts(r.data->0@) == state.config.services.key_order(),
        texts(r.data->0@).no_duplicates(),
        texts(r.data->0@).to_set() == state.config@.services.dom(),
{
    let names = state.config.services.keys();
    assert(state.config@.services.dom() =~= state.config.services@.dom());
    ApiResponse::success(names)
}

/// The share of failed calls; zero where there were no calls.
pub open spec fn error_share(errors: u64, total: u64) -> u64 {
    if total > 0 {
        quotient_mag(
            counter_mag(errors),
            counter_mag(total),
        ) as u64
    } else {
        0
    }
}

/// The status of a service whose breaker is `before`, and `after` once its state has
/// been brought up to date. The counts are those from before.
pub open spec fn is_status(
    status: ServiceStatus,
    name: Seq<char>,
    config: ServiceConfigView,
    before: Option<CircuitBreaker>,
    after: Option<CircuitBreaker>,
) -> bool {
    let metrics = match before {
        Some(cb) => cb.window.metrics,
        None => Metrics::zero(),
    };
    &&& status.name@ == name
    &&& status.config@ == config
    &&& status.circuit_state@ == match after {
        Some(cb) => cb.state.name(),
        None => "Unknown"@,
    }
    &&& status.total_requests == metrics.total
    &&& status.error_count == metrics.errors
    &&& status.slow_call_count == metrics.slow_calls
    &&& status.error_rate.bits == error_share(metrics.errors, metrics.total)
}

/// The breakers with that of one service brought up to date, and nothing else changed.
pub open spec fn is_refreshed(before: AppState, after: AppState, name: Seq<char>) -> bool {
    &&& after == (AppState { circuit_breakers: after.circuit_breakers, ..before })
    &&& if before.breakers().contains_key(name) {
        &&& after.breakers() == before.breakers().insert(name, after.breakers()[name])
        &&& before.breakers()[name].refreshes_to(after.breakers()[name])
    } else {
        after.breakers() == before.breakers()
    }
}

/// The status of a service. To see it brings the state of its circuit up to date.
pub fn get_service_status(state: &mut AppState, service_name: &str) -> (r: (
    u16,
    ApiResponse<ServiceStatus>,
))
    ensures
        old(state).config@.services.contains_key(service_name@) ==> {
            &&& r.0 == OK
            &&& r.1.data is Some
            &&& r.1.gives(r.1.data->0)
            &&& is_refreshed(*old(state), *final(state), service_name@)
            &&& is_status(
                r.1.data->0,
                service_name@,
                old(state).config@.services[service_name@],
                breaker_of(*old(state), service_name@),
                breaker_of(*final(state), service_name@),
            )
        },
        !old(state).config@.services.contains_key(service_name@) ==> r.0 == NOT_FOUND
            && r.1.fails_with("Service not found"@) && *final(state) == *old(state),
        old(state).wf() ==> final(state).wf(),
{
    match state.get_service(service_name) {
        Some(config) => {
            let (total, errors, slow, circuit_state) = match state.get_circuit_breaker(
                service_name,
            ) {
                Some(found) => {
                    let mut cb = found;
                    let (total, errors, slow) = cb.metrics();
                    let now = cb.state();
                    state.set_circuit_breaker(service_name, cb);
                    assert(state.breakers() =~= old(state).breakers().insert(
                        service_name@,
                        state.breakers()[service_name@],
                    ));
                    (total, errors, slow, now.to_string())
                },
                None => (0, 0, 0, "Unknown".to_string()),
            };
            let error_rate = if total > 0 {
                Binary64::ratio(errors, total)
            } else {
                Binary64 { bits: 0 }
            };
            let status = ServiceStatus {
                name: service_name.to_string(),
                circuit_state,
                total_requests: total,
                error_count: errors,
                slow_call_count: slow,
                error_rate,
                config,
            };
            (OK, ApiResponse::success(status))
        },
        None => (NOT_FOUND, ApiResponse::error("Service not found")),
    }
}

/// Changes the settings of a service, and answers with all of them.
pub fn update_service_config(
    state: &mut AppState,
    service_name: &str,
    payload: UpdateServiceConfigRequest,
) -> (r: (u16, ApiResponse<ServiceConfig>))
    ensures
        old(state).config@.services.contains_key(service_name@) ==> ({
            let now = payload.applied(old(state).config@.services[service_name@]);
            &&& r.0 == OK
            &&& r.1.data is Some
            &&& r.1.gives(r.1.data->0)
            &&& r.1.data->0@ == now
            &&& final(state).config@ == (GatewayConfigView {
                services: old(state).config@.services.insert(service_name@, now),
                ..old(state).config@
            })
            &&& final(state).breakers() == reconfigured(
                old(state).breakers(),
                service_name@,
                now.circuit_breaker,
            )
            &&& *final(state) == (AppState {
                config: final(state).config,
                circuit_breakers: final(state).circuit_breakers,
                ..*old(state)
            })
        }),
        !old(state).config@.services.contains_key(service_name@) ==> r.0 == NOT_FOUND
            && r.1.fails_with("Service not found"@) && *final(state) == *old(state),
        old(state).wf() ==> final(state).wf(),
{
    match state.get_service(service_name) {
        Some(current) => {
            let mut config = current;
            payload.apply(&mut config);
            state.update_service_config(service_name, config.clone());
            (OK, ApiResponse::success(config))
        },
        None => (NOT_FOUND, ApiResponse::error("Service not found")),
    }
}

/// Closes the circuit of a service and forgets its counts.
pub fn reset_circuit_breaker(state: &mut AppState, service_name: &str) -> (r: (
    u16,
    ApiResponse<String>,
))
    ensures
        old(state).breakers().contains_key(service_name@) ==> r.0 == OK && r.1.data is Some
            && r.1.gives(r.1.data->0) && r.1.data->0@ == "Circuit breaker reset successfully"@,
        old(state).breakers().contains_key(service_name@) ==> final(state).breakers() == old(
            state,
        ).breakers().insert(
            service_name@,
            CircuitBreaker::fresh(
                old(state).breakers()[service_name@].config,
            ),
        ),
        !old(state).breakers().contains_key(service_name@) ==> r.0 == NOT_FOUND
            && r.1.fails_with("Service not found"@) && *final(state) == *old(state),
        *final(state) == (AppState {
            circuit_breakers: final(state).circuit_breakers,
            ..*old(state)
        }),
        old(state).wf() ==> final(state).wf(),
{
    match state.get_circuit_breaker(service_name) {
        Some(found) => {
            let mut cb = found;
            cb.reset();
            state.set_circuit_breaker(service_name, cb);
            (OK, ApiResponse::success("Circuit breaker reset successfully".to_string()))
        },
        None => (NOT_FOUND, ApiResponse::error("Service not found")),
    }
}

/// The settings of the whole gateway.
pub fn get_global_config(state: &AppState) -> (r: ApiResponse<GatewayConfig>)
    ensures
        r.data is Some && r.gives(r.data->0),
        r.data->0@ == state.config@,
        r.data->0.services.key_order() == state.config.services.key_order(),
{
    ApiResponse::success(state.config.clone())
}

/// Changes the settings of the whole gateway, and answers with all of them.
pub fn update_global_config(state: &mut AppState, payload: UpdateGlobalConfigRequest) -> (r: (
    u16,
    ApiResponse<GatewayConfig>,
))
    ensures
        r.0 == OK,
        r.1.data is Some && r.1.gives(r.1.data->0),
        r.1.data->0@ == final(state).config@,
        *final(state) == (AppState {
            config: GatewayConfig {
                global_timeout_ms: updated(
                    old(state).config.global_timeout_ms,
                    payload.global_timeout_ms,
                ),
                ..old(state).config
            },
            ..*old(state)
        }),
        old(state).wf() ==> final(state).wf(),
{
    if let Some(timeout) = payload.global_timeout_ms {
        state.config.global_timeout_ms = timeout;
    }
    (OK, ApiResponse::success(state.config.clone()))
}

/// An update that leaves everything out changes nothing.
pub proof fn empty_update_changes_nothing(
    update: UpdateServiceConfigRequest,
    config: ServiceConfigView,
)
    requires
        update.timeout_ms is None,
        update.canary_ratio is None,
        update.stable_endpoints is None,
        update.canary_endpoints is None,
        update.circuit_breaker is None,
    ensures
        update.applied(config) == config,
{
}

/// To apply the same update once more changes nothing further, and no update changes
/// the name of a service or adds or removes its canary cluster.
pub proof fn updates_are_idempotent(
    update: UpdateServiceConfigRequest,
    config: ServiceConfigView,
)
    ensures
        update.applied(update.applied(config)) == update.applied(config),
        update.applied(config).name == config.name,
        update.applied(config).canary is Some <==> config.canary is Some,
{
}

/// Every breaker setting that an update names has the named value afterwards, and every one
/// that it leaves out has its old one.
pub proof fn named_breaker_settings_are_taken_over(
    update: UpdateCircuitBreakerRequest,
    c: CircuitBreakerConfig,
)
    ensures
        update.error_threshold matches Some(v) ==> update.applied(c).error_threshold == v,
        update.error_threshold is None ==> update.applied(c).error_threshold == c.error_threshold,
        update.request_volume_threshold matches Some(v) ==> update.applied(
            c,
        ).request_volume_threshold == v,
        update.request_volume_threshold is None ==> update.applied(c).request_volume_threshold
            == c.request_volume_threshold,
        update.sleep_window_ms matches Some(v) ==> update.applied(c).sleep_window_ms == v,
        update.sleep_window_ms is None ==> update.applied(c).sleep_window_ms == c.sleep_window_ms,
        update.slow_call_threshold_ms matches Some(v) ==> update.applied(c).slow_call_threshold_ms
            == v,
        update.slow_call_threshold_ms is None ==> update.applied(c).slow_call_threshold_ms
            == c.slow_call_threshold_ms,
        update.slow_call_ratio_threshold matches Some(v) ==> update.applied(
            c,
        ).slow_call_ratio_threshold == v,
        update.slow_call_ratio_threshold is None ==> update.applied(c).slow_call_ratio_threshold
            == c.slow_call_ratio_threshold,
{
}

/// Every service setting that an update names has the named value afterwards, and every one
/// that it leaves out has its old one. Canary endpoints are taken over where there is a
/// canary cluster.
pub proof fn named_service_settings_are_taken_over(
    update: UpdateServiceConfigRequest,
    c: ServiceConfigView,
)
    ensures
        update.applied(c).name == c.name,
        update.timeout_ms matches Some(v) ==> update.applied(c).timeout_ms == v,
        update.timeout_ms is None ==> update.applied(c).timeout_ms == c.timeout_ms,
        update.canary_ratio matches Some(v) ==> update.applied(c).canary_ratio == v,
        update.canary_ratio is None ==> update.applied(c).canary_ratio == c.canary_ratio,
        update.stable_endpoints matches Some(list) ==> same_texts(
            list@,
            update.applied(c).stable,
        ),
        update.stable_endpoints is None ==> update.applied(c).stable == c.stable,
        c.canary is None ==> update.applied(c).canary is None,
        c.canary is Some ==> update.applied(c).canary is Some,
        c.canary is Some && update.canary_endpoints is Some ==> same_texts(
            update.canary_endpoints->0@,
            update.applied(c).canary->0,
        ),
        c.canary is Some && update.canary_endpoints is None ==> update.applied(c).canary
            == c.canary,
        update.circuit_breaker matches Some(u) ==> {
            let now = update.applied(c).circuit_breaker;
            let before = c.circuit_breaker;
            &&& u.error_threshold matches Some(v) ==> now.error_threshold == v
            &&& u.error_threshold is None ==> now.error_threshold == before.error_threshold
            &&& u.request_volume_threshold matches Some(v) ==> now.request_volume_threshold == v
            &&& u.request_volume_threshold is None ==> now.request_volume_threshold
                == before.request_volume_threshold
            &&& u.sleep_window_ms matches Some(v) ==> now.sleep_window_ms == v
            &&& u.sleep_window_ms is None ==> now.sleep_window_ms == before.sleep_window_ms
            &&& u.slow_call_threshold_ms matches Some(v) ==> now.slow_call_threshold_ms == v
            &&& u.slow_call_threshold_ms is None ==> now.slow_call_threshold_ms
                == before.slow_call_threshold_ms
            &&& u.slow_call_ratio_threshold matches Some(v) ==> now.slow_call_ratio_threshold == v
            &&& u.slow_call_ratio_threshold is None ==> now.slow_call_ratio_threshold
                == before.slow_call_ratio_threshold
        },
        update.circuit_breaker is None ==> update.applied(c).circuit_breaker == c.circuit_breaker,
{
}

/// The texts of a list are those, one by one.
pub open spec fn same_texts(list: Seq<String>, wanted: Seq<Seq<char>>) -> bool {
    &&& list.len() == wanted.len()
    &&& forall|i: int| 0 <= i < list.len() ==> (#[trigger] list[i])@ == wanted[i]
}

/// A setting that is named takes its new value, and one that is not keeps its old one.
pub proof fn named_settings_are_taken_over(before: u64, value: u64)
    ensures
        updated(before, Some(value)) == value,
        updated(before, None) == before,
{
}

/// The status shows the counts of the breaker as they were when it was asked for, the state
/// of the circuit as it then is, and no failures where there were no calls.
pub proof fn status_shows_the_breaker(
    status: ServiceStatus,
    name: Seq<char>,
    config: ServiceConfigView,
    before: CircuitBreaker,
    after: CircuitBreaker,
)
    requires
        is_status(status, name, config, Some(before), Some(after)),
    ensures
        status.total_requests == before.window.metrics.total,
        status.error_count == before.window.metrics.errors,
        status.slow_call_count == before.window.metrics.slow_calls,
        status.circuit_state@ == after.state.name(),
        status.name@ == name,
        status.config@ == config,
        before.window.metrics.total == 0 ==> status.error_rate.bits == 0,
{
}

/// The share of failed calls is the binary64 number that is nearest to the quotient of the
/// two counts, as long as they are below 2^53. Where all calls failed it is exactly one.
pub proof fn error_share_is_nearest_to_quotient(errors: u64, total: u64)
    requires
        0 < total < HIDDEN_TWICE,
        errors < HIDDEN_TWICE,
    ensures
        is_nearest(
            error_share(errors, total) as nat,
            errors as nat * pow2(1074) * pow2(1074),
            total as nat * pow2(1074),
        ),
        error_share(total, total) == ONE_MAG,
{
    small_counters_are_exact(errors);
    small_counters_are_exact(total);
    vstd::arithmetic::power2::lemma_pow2_pos(1074);
    let d = total as nat * pow2(1074);
    assert(d > 0) by (nonlinear_arith)
        requires
            d == total as nat * pow2(1074),
            total > 0,
            pow2(1074) > 0,
    ;
    lemma_rounded_is_nearest(errors as nat * pow2(1074) * pow2(1074), d);
    ratio_of_all_is_one(total);
}

/// Looking at a service changes no other breaker, no settings, and nothing that its own
/// breaker has counted while the circuit is closed or opens.
pub proof fn looking_changes_one_breaker_at_most(
    before: AppState,
    after: AppState,
    name: Seq<char>,
    other: Seq<char>,
)
    requires
        is_refreshed(before, after, name),
    ensures
        after.config == before.config,
        after.breakers().dom() == before.breakers().dom(),
        other != name && before.breakers().contains_key(other) ==> after.breakers()[other]
            == before.breakers()[other],
        before.breakers().contains_key(name) ==> after.breakers()[name].config
            == before.breakers()[name].config,
        before.breakers().contains_key(name) && before.breakers()[name].state
            == CircuitState::Closed ==> after.breakers()[name].window
            == before.breakers()[name].window,
{
    assert(after.breakers().dom() =~= before.breakers().dom());
}

/// A service without a breaker has no known state and no calls.
pub proof fn missing_breaker_shows_nothing(
    status: ServiceStatus,
    name: Seq<char>,
    config: ServiceConfigView,
)
    requires
        is_status(status, name, config, None, None),
    ensures
        status.total_requests == 0,
        status.error_count == 0,
        status.slow_call_count == 0,
        status.error_rate.bits == 0,
        status.circuit_state@ == seq!['U', 'n', 'k', 'n', 'o', 'w', 'n'],
{
    reveal_strlit("Unknown");
    assert("Unknown"@ =~= seq!['U', 'n', 'k', 'n', 'o', 'w', 'n']);
}

} // verus!
