//! What the gateway holds while it runs.

use crate::async_logger::{
    are_ends, queue_limit, AsyncBatchLogger, BatchWorker, LogSinkConfig, LoggerStats,
    DEFAULT_BATCH_SIZE, DEFAULT_FLUSH_INTERVAL_MS, DEFAULT_QUEUE_CAPACITY,
};
use crate::circuit_breaker::{CircuitBreaker, CircuitState};
use crate::config::{
    CircuitBreakerConfig, GatewayConfig, GatewayConfigView, ServiceConfig, ServiceConfigView,
};
use crate::trace_record::TraceRecord;
use crate::trace_sampler::{
    default_sampler_config, DefaultSampler, SamplerConfig, SamplerConfigView, TraceSampler,
};
use crate::traffic_coloring::TrafficColorer;
use dashmap::DashMap;
use tokio::sync::mpsc::Receiver;
use vstd::prelude::*;

verus! {

/// `dashmap::DashMap`, a map from keys to values.
#[verifier::external_type_specification]
#[verifier::external_body]
#[verifier::reject_recursive_types(K)]
#[verifier::reject_recursive_types(V)]
#[verifier::reject_recursive_types(S)]
pub struct ExDashMap<K, V, S>(dashmap::DashMap<K, V, S>);

/// The breakers that a map holds, by the names of their services.
pub uninterp spec fn breakers_in(m: dashmap::DashMap<String, CircuitBreaker>) -> Map<
    Seq<char>,
    CircuitBreaker,
>;

/// The contents of a map without breakers.
pub open spec fn no_breakers() -> Map<Seq<char>, CircuitBreaker> {
    Map::empty()
}

/// `dashmap::DashMap::new`: a map that holds nothing.
#[verifier::external_body]
pub(crate) fn new_breakers() -> (r: DashMap<String, CircuitBreaker>)
    ensures
        breakers_in(r) == no_breakers(),
{
    DashMap::new()
}

/// `dashmap::DashMap::insert`: the breaker takes the place of an earlier one under the
/// same name, and the others stay.
#[verifier::external_body]
pub(crate) fn put_breaker(
    m: &mut DashMap<String, CircuitBreaker>,
    name: String,
    breaker: CircuitBreaker,
)
    ensures
        breakers_in(*final(m)) == breakers_in(*old(m)).insert(name@, breaker),
{
    m.insert(name, breaker);
}

/// `dashmap::DashMap::get`: a copy of the breaker under a name.
#[verifier::external_body]
pub(crate) fn find_breaker(m: &DashMap<String, CircuitBreaker>, name: &str) -> (r: Option<
    CircuitBreaker,
>)
    ensures
        match r {
            Some(breaker) => breakers_in(*m).contains_key(name@) && breaker
                == breakers_in(*m)[name@],
            None => !breakers_in(*m).contains_key(name@),
        },
{
    match m.get(name) {
        Some(entry) => Some(*entry.value()),
        None => None,
    }
}

/// How many bytes of a body are kept for a trace at most.
pub const MAX_BODY_SIZE: usize = 102_400;

/// The state of the gateway.
pub struct AppState {
    pub config: GatewayConfig,
    pub circuit_breakers: DashMap<String, CircuitBreaker>,
    pub traffic_colorer: TrafficColorer,
    pub sampler: DefaultSampler,
    pub logger: AsyncBatchLogger,
    pub max_body_size: usize,
}

/// A new breaker for each service.
pub open spec fn fresh_breakers(
    services: Map<Seq<char>, ServiceConfigView>,
) -> Map<Seq<char>, CircuitBreaker> {
    services.map_values(
        |c: ServiceConfigView| CircuitBreaker::fresh(c.circuit_breaker),
    )
}

/// The breakers after the settings of a service were changed: its breaker goes on with
/// the new settings, or begins where there was none.
pub open spec fn reconfigured(
    breakers: Map<Seq<char>, CircuitBreaker>,
    name: Seq<char>,
    config: CircuitBreakerConfig,
) -> Map<Seq<char>, CircuitBreaker> {
    breakers.insert(
        name,
        if breakers.contains_key(name) {
            CircuitBreaker { config, ..breakers[name] }
        } else {
            CircuitBreaker::fresh(config)
        },
    )
}

impl AppState {
    /// The breakers, by the names of their services.
    pub open spec fn breakers(self) -> Map<Seq<char>, CircuitBreaker> {
        breakers_in(self.circuit_breakers)
    }

    /// What every operation keeps: there is a breaker for each service, and for nothing
    /// else.
    pub open spec fn wf(self) -> bool {
        self.breakers().dom() == self.config@.services.dom()
    }

    /// A state in which nothing has happened yet.
    pub open spec fn is_fresh(
        self,
        config: GatewayConfigView,
        sampler: SamplerConfigView,
    ) -> bool {
        &&& self.config@ == config
        &&& self.breakers() == fresh_breakers(config.services)
        &&& self.sampler@ == sampler
        &&& self.logger.stats == LoggerStats::zero()
        &&& queue_limit(self.logger.sender) == DEFAULT_QUEUE_CAPACITY
        &&& self.logger.queued@.len() == 0
        &&& self.logger.wf()
        &&& self.max_body_size == MAX_BODY_SIZE
        &&& self.wf()
    }

    /// A state whose trace records are printed, with the usual sampling. With it come
    /// the queue of trace records and the worker for it.
    pub fn new(config: GatewayConfig) -> (r: (AppState, Receiver<TraceRecord>, BatchWorker))
        ensures
            r.0.is_fresh(config@, default_sampler_config()),
            are_ends(r.0.logger.sender, r.1, DEFAULT_QUEUE_CAPACITY),
            r.2.is_idle(
                LogSinkConfig::Stdout,
                DEFAULT_BATCH_SIZE,
                DEFAULT_FLUSH_INTERVAL_MS,
            ),
    {
        AppState::with_sink(config, LogSinkConfig::Stdout, SamplerConfig::default())
    }

    /// A state whose trace records go to a sink.
    pub fn with_sink(
        config: GatewayConfig,
        sink: LogSinkConfig,
        sampler_config: SamplerConfig,
    ) -> (r: (AppState, Receiver<TraceRecord>, BatchWorker))
        ensures
            r.0.is_fresh(config@, sampler_config@),
            are_ends(r.0.logger.sender, r.1, DEFAULT_QUEUE_CAPACITY),
            r.2.is_idle(
                sink,
                DEFAULT_BATCH_SIZE,
                DEFAULT_FLUSH_INTERVAL_MS,
            ),
    {
        let mut circuit_breakers = new_breakers();
        let n: usize = config.services.len();
        let ghost order = config.services.key_order();
        let ghost services = config@.services;
        let mut i: usize = 0;
        assert(breakers_in(circuit_breakers).dom() =~= order.take(0).to_set());
        while i < n
            invariant
                i <= n,
                n == order.len(),
                order == config.services.key_order(),
                services == config@.services,
                breakers_in(circuit_breakers).dom() == order.take(i as int).to_set(),
                forall|k: Seq<char>| #[trigger]
                    breakers_in(circuit_breakers).contains_key(k) ==> services.contains_key(k)
                        && breakers_in(circuit_breakers)[k] == CircuitBreaker::fresh(
                        services[k].circuit_breaker,
                    ),
            decreases n - i,
        {
            let (name, service) = config.services.entry(i);
            let cb = CircuitBreaker::new(service.circuit_breaker);
            let ghost before = breakers_in(circuit_breakers);
            put_breaker(&mut circuit_breakers, name.clone(), cb);
            proof {
                let next = order.take(i + 1);
                assert(next =~= order.take(i as int).push(name@));
                assert(next.to_set() =~= order.take(i as int).to_set().insert(name@)) by {
                    assert forall|k: Seq<char>| next.contains(k) <==> order.take(i as int).contains(
                        k,
                    ) || k == name@ by {
                        if k == name@ {
                            assert(next[i as int] == k);
                        }
                        if order.take(i as int).contains(k) {
                            let j = order.take(i as int).index_of(k);
                            assert(next[j] == k);
                        }
                    };
                };
            }
            i = i + 1;
        }
        proof {
            assert(order.take(n as int) =~= order);
            assert(services.dom() =~= config.services@.dom());
            assert(breakers_in(circuit_breakers) =~= fresh_breakers(services));
        }
        let sampler = DefaultSampler::new(sampler_config);
        let (logger, receiver, worker) = AsyncBatchLogger::new(sink);
        let state = AppState {
            config,
            circuit_breakers,
            traffic_colorer: TrafficColorer::new(),
            sampler,
            logger,
            max_body_size: MAX_BODY_SIZE,
        };
        (state, receiver, worker)
    }

    /// Changes the configuration of a service, or adds it. The breaker of a service that
    /// was there keeps its state and its counts.
    pub fn update_service_config(&mut self, service_name: &str, service_config: ServiceConfig)
        ensures
            final(self).config@ == (GatewayConfigView {
                services: old(self).config@.services.insert(service_name@, service_config@),
                ..old(self).config@
            }),
            final(self).breakers() == reconfigured(
                old(self).breakers(),
                service_name@,
                service_config.circuit_breaker,
            ),
            *final(self) == (AppState {
                config: final(self).config,
                circuit_breakers: final(self).circuit_breakers,
                ..*old(self)
            }),
            old(self).wf() ==> final(self).wf(),
    {
        let breaker_config = service_config.circuit_breaker;
        let ghost before = self.config@;
        let ghost given = service_config@;
        self.config.services.insert(service_name.to_string(), service_config);
        assert(self.config@.services =~= before.services.insert(service_name@, given));
        let cb = match find_breaker(&self.circuit_breakers, service_name) {
            Some(found) => {
                let mut cb = found;
                cb.update_config(breaker_config);
                cb
            },
            None => CircuitBreaker::new(breaker_config),
        };
        put_breaker(&mut self.circuit_breakers, service_name.to_string(), cb);
    }

    /// The configuration of a service.
    pub fn get_service(&self, name: &str) -> (r: Option<ServiceConfig>)
        ensures
            match r {
                Some(config) => self.config@.services.contains_key(name@) && config@
                    == self.config@.services[name@],
                None => !self.config@.services.contains_key(name@),
            },
    {
        match self.config.services.get(name) {
            Some(config) => Some(config.clone()),
            None => None,
        }
    }

    /// The breaker of a service, as it is now.
    pub fn get_circuit_breaker(&self, service_name: &str) -> (r: Option<CircuitBreaker>)
        ensures
            match r {
                Some(cb) => self.breakers().contains_key(service_name@) && cb
                    == self.breakers()[service_name@],
                None => !self.breakers().contains_key(service_name@),
            },
    {
        find_breaker(&self.circuit_breakers, service_name)
    }

    /// Puts a breaker back under the name of its service.
    pub fn set_circuit_breaker(&mut self, service_name: &str, cb: CircuitBreaker)
        ensures
            final(self).breakers() == old(self).breakers().insert(service_name@, cb),
            *final(self) == (AppState {
                circuit_breakers: final(self).circuit_breakers,
                ..*old(self)
            }),
            old(self).wf() && old(self).breakers().contains_key(service_name@) ==> final(self).wf(),
    {
        put_breaker(&mut self.circuit_breakers, service_name.to_string(), cb);
        assert(old(self).breakers().contains_key(service_name@) ==> self.breakers().dom() =~= old(
            self,
        ).breakers().dom());
    }

    /// The time that a request gets whose headers grant none, in milliseconds.
    pub fn global_timeout_ms(&self) -> (r: u64)
        ensures
            r == self.config.global_timeout_ms,
    {
        self.config.global_timeout_ms
    }

    /// Changes how requests are picked for tracing.
    pub fn update_sampler_config(&mut self, config: SamplerConfig)
        ensures
            final(self).sampler@ == config@,
            *final(self) == (AppState { sampler: final(self).sampler, ..*old(self) }),
    {
        self.sampler.update_config(config);
    }
}

/// The configuration of a service, where there is one.
pub open spec fn config_of(
    state: AppState,
    name: Seq<char>,
) -> Option<ServiceConfigView> {
    if state.config@.services.contains_key(name) {
        Some(state.config@.services[name])
    } else {
        None
    }
}

/// The breaker of a service, where there is one.
pub open spec fn breaker_of(state: AppState, name: Seq<char>) -> Option<CircuitBreaker> {
    if state.breakers().contains_key(name) {
        Some(state.breakers()[name])
    } else {
        None
    }
}

/// A change of the settings leaves the state of a circuit, its counts and its clock as
/// they were, and touches no other circuit.
pub proof fn settings_keep_circuit_state(
    breakers: Map<Seq<char>, CircuitBreaker>,
    name: Seq<char>,
    other: Seq<char>,
    config: CircuitBreakerConfig,
)
    requires
        breakers.contains_key(name),
    ensures
        reconfigured(breakers, name, config)[name].state == breakers[name].state,
        reconfigured(breakers, name, config)[name].window == breakers[name].window,
        reconfigured(breakers, name, config)[name].open_time == breakers[name].open_time,
        reconfigured(breakers, name, config)[name].config == config,
        other != name ==> reconfigured(breakers, name, config).contains_key(other)
            == breakers.contains_key(other),
        other != name && breakers.contains_key(other) ==> reconfigured(
            breakers,
            name,
            config,
        )[other] == breakers[other],
{
}

/// A new state has a breaker for each service and for nothing else, closed, with the
/// settings of that service and nothing counted.
pub proof fn new_breakers_are_closed(
    services: Map<Seq<char>, ServiceConfigView>,
    name: Seq<char>,
)
    ensures
        fresh_breakers(services).contains_key(name) == services.contains_key(name),
        services.contains_key(name) ==> {
            let cb = fresh_breakers(services)[name];
            &&& cb.config == services[name].circuit_breaker
            &&& cb.state == CircuitState::Closed
            &&& cb.window.metrics.total == 0
            &&& cb.window.metrics.errors == 0
            &&& cb.window.metrics.slow_calls == 0
            &&& cb.open_time is None
            &&& cb.half_open_attempts == 0
            &&& cb.half_open_success == 0
            &&& cb.admits()
        },
{
}

/// A service that was not there before gets a closed breaker with its settings and nothing
/// counted.
pub proof fn added_services_get_closed_breakers(
    breakers: Map<Seq<char>, CircuitBreaker>,
    name: Seq<char>,
    config: CircuitBreakerConfig,
)
    requires
        !breakers.contains_key(name),
    ensures
        reconfigured(breakers, name, config).contains_key(name),
        reconfigured(breakers, name, config)[name].config == config,
        reconfigured(breakers, name, config)[name].state == CircuitState::Closed,
        reconfigured(breakers, name, config)[name].window.metrics.total == 0,
        reconfigured(breakers, name, config)[name].window.metrics.errors == 0,
        reconfigured(breakers, name, config)[name].window.metrics.slow_calls == 0,
        reconfigured(breakers, name, config)[name].open_time is None,
        reconfigured(breakers, name, config)[name].half_open_attempts == 0,
        reconfigured(breakers, name, config)[name].half_open_success == 0,
        reconfigured(breakers, name, config).dom() == breakers.dom().insert(name),
{
}

} // verus!
