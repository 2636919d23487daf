//! The way of a request through the gateway: whether it is let in, where it goes and
//! with which headers, and what its outcome does to the circuit of the service.

use crate::circuit_breaker::{
    all_bad_calls_open_circuit, few_calls_keep_circuit_closed, open_circuit_waits, CircuitBreaker,
    CircuitState,
};
use crate::config::{CircuitBreakerConfig, ServiceConfig, ServiceConfigView};
use crate::headers::{
    contains_name, has_room_for, header_fields, insert_value, lemma_known_names, lemma_room,
    list_headers, lists, name_text, new_headers, no_fields, refused, values_for, with_text,
    HeadersFull,
};
use crate::random::{is_drawn_word, next_word, Draw, Generator};
use crate::span_context::cluster_in;
use crate::state::{breaker_of, config_of, AppState};
use crate::time::{age_of, is_age, is_present, present, Duration, NANOS_PER_MILLI};
use crate::timeout_budget::{
    budget_ms, granted_ms, granted_time_is_read_back, with_granted, TimeoutBudget,
};
use crate::traffic_coloring::{
    cluster_for, cluster_is_read_back, has_target, is_routable, is_routed, is_target, lemma_routed,
    propagate_canary_headers, propagated, routable_requests_have_targets, TrafficColorer,
};
use crate::types::{
    ClusterType, RouteTarget, CANARY_CLUSTER_HEADER, CANARY_HEADER, GLOBAL_TIMEOUT_HEADER,
    REQUEST_ID_HEADER,
};
use http::header::{HeaderMap, HeaderName, HeaderValue};
use std::time::Instant;
use vstd::prelude::*;
use vstd::string::StringExecFns;

verus! {

/// Why a request got no answer from its service.
#[derive(Debug, Clone, Copy, PartialEq, Eq, Structural)]
pub enum ProxyError {
    /// There is no such service.
    UnknownService,
    /// No time is left for the request.
    BudgetExpired,
    /// Less time is left than the service may take.
    BudgetTooSmall,
    /// The service has no circuit breaker.
    MissingBreaker,
    /// The circuit breaker of the service lets nothing through.
    CircuitOpen,
    /// The body of the request could not be read.
    UnreadableRequest,
    /// The service did not answer in time.
    TimedOut,
    /// The service could not be reached.
    Unreachable,
    /// The answer of the service could not be read.
    UnreadableReply,
}

impl ProxyError {
    /// The status code that the client gets.
    pub open spec fn code(self) -> u16 {
        match self {
            ProxyError::UnknownService => 404,
            ProxyError::BudgetExpired => 503,
            ProxyError::BudgetTooSmall => 503,
            ProxyError::MissingBreaker => 500,
            ProxyError::CircuitOpen => 503,
            ProxyError::UnreadableRequest => 400,
            ProxyError::TimedOut => 504,
            ProxyError::Unreachable => 502,
            ProxyError::UnreadableReply => 500,
        }
    }

    pub fn status(&self) -> (r: u16)
        ensures
            r == self.code(),
    {
        match self {
            ProxyError::UnknownService => 404,
            ProxyError::BudgetExpired => 503,
            ProxyError::BudgetTooSmall => 503,
            ProxyError::MissingBreaker => 500,
            ProxyError::CircuitOpen => 503,
            ProxyError::UnreadableRequest => 400,
            ProxyError::TimedOut => 504,
            ProxyError::Unreachable => 502,
            ProxyError::UnreadableReply => 500,
        }
    }
}

/// What the clocks say while a request asks to be let in: the age of its budget when
/// that is looked at for the first and for the second time, and for how long the
/// circuit has been open at which moment.
#[derive(Debug, Clone, Copy)]
pub struct Readings {
    pub first_age: Duration,
    pub second_age: Duration,
    pub open_for: Duration,
    pub now: Instant,
}

/// Why a request is turned away before its circuit breaker is asked, if it is.
pub open spec fn turned_away(
    config: Option<ServiceConfigView>,
    breaker: Option<CircuitBreaker>,
    budget: TimeoutBudget,
    readings: Readings,
) -> Option<ProxyError> {
    match config {
        None => Some(ProxyError::UnknownService),
        Some(c) => if budget.left(readings.first_age).nanos == 0 {
            Some(ProxyError::BudgetExpired)
        } else if budget.left(readings.second_age).nanos < c.timeout_ms * NANOS_PER_MILLI {
            Some(ProxyError::BudgetTooSmall)
        } else if breaker is None {
            Some(ProxyError::MissingBreaker)
        } else {
            None
        },
    }
}

/// Why a request is not let in, if it is not.
pub open spec fn refusal(
    config: Option<ServiceConfigView>,
    breaker: Option<CircuitBreaker>,
    budget: TimeoutBudget,
    readings: Readings,
) -> Option<ProxyError> {
    match turned_away(config, breaker, budget, readings) {
        Some(e) => Some(e),
        None => if breaker->0.refreshed(readings.open_for, readings.now).admits() {
            None
        } else {
            Some(ProxyError::CircuitOpen)
        },
    }
}

/// The breakers after a request asked to be let in. One that is turned away before does
/// not touch them.
pub open spec fn asked_breakers(
    state: AppState,
    name: Seq<char>,
    budget: TimeoutBudget,
    readings: Readings,
) -> Map<Seq<char>, CircuitBreaker> {
    if turned_away(config_of(state, name), breaker_of(state, name), budget, readings) is Some {
        state.breakers()
    } else {
        state.breakers().insert(
            name,
            state.breakers()[name].refreshed(readings.open_for, readings.now).asked(),
        )
    }
}

/// The answer to a request that asked to be let in: the configuration of its service,
/// or why it is refused.
pub open spec fn is_admission(
    before: AppState,
    after: AppState,
    name: Seq<char>,
    budget: TimeoutBudget,
    readings: Readings,
    answer: Result<ServiceConfig, ProxyError>,
) -> bool {
    &&& after == (AppState { circuit_breakers: after.circuit_breakers, ..before })
    &&& after.breakers() == asked_breakers(before, name, budget, readings)
    &&& match answer {
        Ok(config) => {
            &&& refusal(config_of(before, name), breaker_of(before, name), budget, readings) is None
            &&& Some(config@) == config_of(before, name)
        },
        Err(e) => refusal(config_of(before, name), breaker_of(before, name), budget, readings)
            == Some(e),
    }
}

/// What the clock says to a request with that budget that asks for a service.
pub open spec fn are_readings(
    state: AppState,
    name: Seq<char>,
    budget: TimeoutBudget,
    readings: Readings,
) -> bool {
    &&& is_age(budget.start_time, readings.first_age)
    &&& is_age(budget.start_time, readings.second_age)
    &&& match breaker_of(state, name) {
        Some(cb) => cb.is_reading(readings.open_for, readings.now),
        None => is_present(readings.now),
    }
}

/// The answer to a request that asked to be let in, by what the clock says.
pub open spec fn may_answer(
    before: AppState,
    after: AppState,
    name: Seq<char>,
    budget: TimeoutBudget,
    answer: Result<ServiceConfig, ProxyError>,
) -> bool {
    exists|readings: Readings| #[trigger]
        are_readings(before, name, budget, readings) && is_admission(
            before,
            after,
            name,
            budget,
            readings,
            answer,
        )
}

/// Asks for a request to be let in, with the clocks already read.
pub fn let_in_with(
    state: &mut AppState,
    service_name: &str,
    budget: &TimeoutBudget,
    readings: Readings,
) -> (r: Result<ServiceConfig, ProxyError>)
    ensures
        is_admission(*old(state), *final(state), service_name@, *budget, readings, r),
        old(state).wf() ==> final(state).wf(),
{
    let config = match state.get_service(service_name) {
        Some(config) => config,
        None => {
            return Err(ProxyError::UnknownService);
        },
    };
    if budget.remaining_after(readings.first_age).is_zero() {
        return Err(ProxyError::BudgetExpired);
    }
    if !budget.remaining_after(readings.second_age).at_least(config.timeout()) {
        return Err(ProxyError::BudgetTooSmall);
    }
    let mut cb = match state.get_circuit_breaker(service_name) {
        Some(cb) => cb,
        None => {
            return Err(ProxyError::MissingBreaker);
        },
    };
    let admitted = cb.allow_request_at(readings.open_for, readings.now);
    state.set_circuit_breaker(service_name, cb);
    if admitted {
        Ok(config)
    } else {
        Err(ProxyError::CircuitOpen)
    }
}

/// Asks for a request to be let in. The request gets the time that its headers grant,
/// or else that of the gateway.
pub fn let_in(state: &mut AppState, service_name: &str, headers: &HeaderMap) -> (r: (
    TimeoutBudget,
    Result<ServiceConfig, ProxyError>,
))
    ensures
        r.0.total_budget.nanos == budget_ms(
            header_fields(*headers),
            old(state).config.global_timeout_ms,
        ) * NANOS_PER_MILLI,
        is_present(r.0.start_time),
        may_answer(*old(state), *final(state), service_name@, r.0, r.1),
        old(state).wf() ==> final(state).wf(),
{
    let (budget, _) = TimeoutBudget::from_header_or_new(headers, state.global_timeout_ms());
    let first_age = age_of(&budget.start_time);
    let second_age = age_of(&budget.start_time);
    let (open_for, now) = match state.get_circuit_breaker(service_name) {
        Some(cb) => cb.read_clock(),
        None => (Duration { nanos: 0 }, present()),
    };
    let readings = Readings { first_age, second_age, open_for, now };
    assert(are_readings(*state, service_name@, budget, readings));
    let answer = let_in_with(state, service_name, &budget, readings);
    (budget, answer)
}

/// A request on its way to a service.
#[derive(Debug)]
pub struct Outgoing {
    pub target: RouteTarget,
    pub url: String,
    pub headers: HeaderMap,
}

/// The headers `base` together with the first value under each other name of `src`.
pub open spec fn completed(
    base: Map<Seq<char>, Seq<Seq<u8>>>,
    src: Map<Seq<char>, Seq<Seq<u8>>>,
) -> Map<Seq<char>, Seq<Seq<u8>>> {
    Map::new(
        |name: Seq<char>| base.contains_key(name) || src.contains_key(name),
        |name: Seq<char>|
            if base.contains_key(name) {
                base[name]
            } else {
                seq![src[name][0]]
            },
    )
}

/// The headers of the request as the gateway marks them: with the cluster, and with the
/// milliseconds that are left.
pub open spec fn marked(
    fields: Map<Seq<char>, Seq<Seq<u8>>>,
    cluster: ClusterType,
    ms: u64,
) -> Map<Seq<char>, Seq<Seq<u8>>> {
    with_granted(
        with_text(fields, CANARY_CLUSTER_HEADER@, cluster.name()),
        ms,
    )
}

/// The headers that the service gets: those that travel from hop to hop, the
/// milliseconds that are left, and then everything else.
pub open spec fn forwarded(
    fields: Map<Seq<char>, Seq<Seq<u8>>>,
    cluster: ClusterType,
    first_ms: u64,
    second_ms: u64,
) -> Map<Seq<char>, Seq<Seq<u8>>> {
    let src = marked(fields, cluster, first_ms);
    completed(
        with_granted(
            propagated(no_fields(), src),
            second_ms,
        ),
        src,
    )
}

/// The address of a path at an endpoint; a request without a path asks for the root.
pub open spec fn url_at(endpoint: Seq<char>, path: Option<&str>) -> Seq<char> {
    match path {
        Some(p) => endpoint + p@,
        None => endpoint + "/"@,
    }
}

/// A request that leaves for a service, when chance gives that word for the choice of
/// the cluster, and the budget has those ages when it is written down.
pub open spec fn is_outgoing(
    out: Outgoing,
    service_name: Seq<char>,
    config: ServiceConfigView,
    budget: TimeoutBudget,
    fields: Map<Seq<char>, Seq<Seq<u8>>>,
    path: Option<&str>,
    word: u64,
    ages: (Duration, Duration),
) -> bool {
    let cluster = cluster_for(fields, config, word);
    &&& is_target(out.target, service_name, config, cluster)
    &&& out.url@ == url_at(out.target.endpoint@, path)
    &&& header_fields(out.headers) == forwarded(
        fields,
        cluster,
        budget.left(ages.0).millis(),
        budget.left(ages.1).millis(),
    )
}

/// The part of `src` that a list gives, on top of `base`.
spec fn completed_by(
    base: Map<Seq<char>, Seq<Seq<u8>>>,
    entries: Seq<(HeaderName, HeaderValue)>,
) -> Map<Seq<char>, Seq<Seq<u8>>> {
    Map::new(
        |name: Seq<char>|
            base.contains_key(name) || values_for(entries, name).len() > 0,
        |name: Seq<char>|
            if base.contains_key(name) {
                base[name]
            } else {
                seq![values_for(entries, name)[0]]
            },
    )
}

/// A map that held nothing but names of those had no room for one more value.
pub open spec fn was_full_below(names: Set<Seq<char>>) -> bool {
    exists|m: HeaderMap| #[trigger] refused(m) && header_fields(m).dom().subset_of(names)
}

/// Adds the first value under each name of `src` that `dst` does not have yet.
fn complete_headers(src: &HeaderMap, dst: &mut HeaderMap) -> (r: Result<(), HeadersFull>)
    requires
        header_fields(*old(dst)).dom().subset_of(header_fields(*src).dom()),
    ensures
        has_room_for(*src, 0) ==> r is Ok,
        r is Ok ==> header_fields(*final(dst)) == completed(
            header_fields(*old(dst)),
            header_fields(*src),
        ),
        r is Err ==> was_full_below(header_fields(*src).dom()),
{
    let entries = list_headers(src);
    let ghost base = header_fields(*dst);
    let ghost fields = header_fields(*src);
    let mut i: usize = 0;
    assert(base =~= completed_by(base, entries@.take(0)));
    while i < entries.len()
        invariant
            i <= entries@.len(),
            fields == header_fields(*src),
            base.dom().subset_of(fields.dom()),
            lists(entries@, fields),
            header_fields(*dst) == completed_by(base, entries@.take(i as int)),
        decreases entries@.len() - i,
    {
        let ghost before = header_fields(*dst);
        let ghost name = name_text(entries@[i as int].0);
        proof {
            let next = entries@.take(i + 1);
            assert(next.drop_last() =~= entries@.take(i as int));
            assert(next.last() == entries@[i as int]);
            lemma_values_in_dom(entries@, fields, i as int);
            assert(before.dom().subset_of(fields.dom()));
            lemma_values_in_dom(entries@, fields, i + 1);
            assert(fields.contains_key(name)) by {
                assert(values_for(next, name).len() > 0);
            };
        }
        if !contains_name(dst, &entries[i].0) {
            proof {
                if has_room_for(*src, 0) {
                    vstd::set_lib::lemma_len_subset(before.dom(), fields.dom());
                    vstd::set_lib::lemma_len_subset(before.dom().insert(name), fields.dom());
                }
            }
            if insert_value(dst, entries[i].0.clone(), entries[i].1.clone()).is_err() {
                return Err(HeadersFull);
            }
        }
        proof {
            let next = entries@.take(i + 1);
            assert(header_fields(*dst) =~= completed_by(base, next)) by {
                assert forall|k: Seq<char>|
                    header_fields(*dst).contains_key(k) == completed_by(
                        base,
                        next,
                    ).contains_key(k) by {};
                assert forall|k: Seq<char>|
                    completed_by(base, next).contains_key(k) implies header_fields(
                    *dst,
                )[k] == completed_by(base, next)[k] by {};
            };
        }
        i = i + 1;
    }
    proof {
        assert(entries@.take(entries@.len() as int) =~= entries@);
        assert(completed_by(base, entries@) =~= completed(base, fields)) by {
            assert forall|k: Seq<char>|
                completed_by(base, entries@).contains_key(k) == completed(base, fields).contains_key(
                    k,
                ) by {
                assert(fields.contains_key(k) <==> values_for(entries@, k).len() > 0);
            };
        };
    }
    Ok(())
}

/// What a part of a list gives, the whole list gives too.
proof fn lemma_values_in_dom(
    entries: Seq<(HeaderName, HeaderValue)>,
    fields: Map<Seq<char>, Seq<Seq<u8>>>,
    n: int,
)
    requires
        0 <= n <= entries.len(),
        lists(entries, fields),
    ensures
        forall|name: Seq<char>|
            (#[trigger] values_for(entries.take(n), name)).len() > 0
                ==> fields.contains_key(name),
{
    assert forall|name: Seq<char>|
        (#[trigger] values_for(entries.take(n), name)).len()
            > 0 implies fields.contains_key(name) by {
        lemma_values_grow(entries, name, n);
        assert(values_for(entries, name).len() > 0);
    };
}

proof fn lemma_values_grow(entries: Seq<(HeaderName, HeaderValue)>, name: Seq<char>, n: int)
    requires
        0 <= n <= entries.len(),
    ensures
        values_for(entries.take(n), name).len() <= values_for(
            entries,
            name,
        ).len(),
    decreases entries.len() - n,
{
    if n < entries.len() {
        lemma_values_grow(entries, name, n + 1);
        assert(entries.take(n + 1).drop_last() =~= entries.take(n));
    } else {
        assert(entries.take(n) =~= entries);
    }
}

/// The address of a path at an endpoint.
pub fn target_url(endpoint: &str, path: Option<&str>) -> (r: String)
    ensures
        r@ == url_at(endpoint@, path),
{
    let mut url = endpoint.to_string();
    match path {
        Some(p) => {
            url.append(p);
        },
        None => {
            url.append("/");
        },
    }
    url
}

/// Why a request cannot leave for its service.
#[derive(Debug, Clone, Copy, PartialEq, Eq, Structural)]
pub enum PrepareError {
    /// The cluster that chance picked has no endpoint, and there is no stable one.
    NoEndpoint,
    /// A header map has no room for what the request must carry.
    HeadersFull,
}

/// The names that the headers of a request have once they are marked.
pub open spec fn marked_names(fields: Map<Seq<char>, Seq<Seq<u8>>>) -> Set<Seq<char>> {
    fields.dom().insert(CANARY_CLUSTER_HEADER@).insert(GLOBAL_TIMEOUT_HEADER@)
}

/// Makes a request ready to leave, with chance and the clock already read.
pub fn prepare_with(
    colorer: &TrafficColorer,
    service_name: &str,
    config: &ServiceConfig,
    budget: &TimeoutBudget,
    headers: &mut HeaderMap,
    path: Option<&str>,
    word: u64,
    ages: (Duration, Duration),
) -> (r: Result<Outgoing, PrepareError>)
    ensures
        r matches Err(PrepareError::NoEndpoint) <==> !has_target(
            config@,
            cluster_for(header_fields(*old(headers)), config@, word),
        ),
        r matches Err(PrepareError::NoEndpoint) ==> *final(headers) == *old(headers),
        r matches Err(PrepareError::HeadersFull) ==> was_full_below(
            marked_names(header_fields(*old(headers))),
        ),
        has_room_for(*old(headers), 2) ==> !(r matches Err(PrepareError::HeadersFull)),
        r matches Ok(out) ==> is_outgoing(
            out,
            service_name@,
            config@,
            *budget,
            header_fields(*old(headers)),
            path,
            word,
            ages,
        ) && header_fields(*final(headers)) == marked(
            header_fields(*old(headers)),
            out.target.cluster_type,
            budget.left(ages.0).millis(),
        ),
{
    if !colorer.can_route_with(headers, config, word) {
        return Err(PrepareError::NoEndpoint);
    }
    let target = colorer.determine_route_with(service_name, headers, config, word);
    match dispatch(colorer, target, budget, headers, path, ages) {
        Ok(out) => Ok(out),
        Err(_) => Err(PrepareError::HeadersFull),
    }
}

/// Makes a request ready to leave for a target: its address and its headers.
fn dispatch(
    colorer: &TrafficColorer,
    target: RouteTarget,
    budget: &TimeoutBudget,
    headers: &mut HeaderMap,
    path: Option<&str>,
    ages: (Duration, Duration),
) -> (r: Result<Outgoing, HeadersFull>)
    ensures
        r is Err ==> was_full_below(marked_names(header_fields(*old(headers)))),
        has_room_for(*old(headers), 2) ==> r is Ok,
        r matches Ok(out) ==> {
            &&& out.target == target
            &&& out.url@ == url_at(target.endpoint@, path)
            &&& header_fields(out.headers) == forwarded(
                header_fields(*old(headers)),
                target.cluster_type,
                budget.left(ages.0).millis(),
                budget.left(ages.1).millis(),
            )
            &&& header_fields(*final(headers)) == marked(
                header_fields(*old(headers)),
                target.cluster_type,
                budget.left(ages.0).millis(),
            )
        },
{
    let ghost h0 = *headers;
    if colorer.inject_canary_headers(headers, target.cluster_type).is_err() {
        return Err(HeadersFull);
    }
    let ghost h1 = *headers;
    proof {
        if has_room_for(h0, 2) {
            lemma_room(h0, h1, CANARY_CLUSTER_HEADER@, 1);
        }
    }
    if budget.inject_header_after(headers, ages.0).is_err() {
        return Err(HeadersFull);
    }
    let ghost h2 = *headers;
    proof {
        if has_room_for(h0, 2) {
            lemma_room(h1, h2, GLOBAL_TIMEOUT_HEADER@, 0);
        }
        granted_time_is_read_back(header_fields(h1), budget.left(ages.0).millis(), 0);
    }
    let url = target_url(target.endpoint.as_str(), path);
    let mut proxy_headers = new_headers();
    let propagation = propagate_canary_headers(headers, &mut proxy_headers);
    let ghost p1 = proxy_headers;
    proof {
        assert(propagation is Ok);
        let three = set![CANARY_HEADER@, CANARY_CLUSTER_HEADER@, REQUEST_ID_HEADER@];
        vstd::set_lib::lemma_len_subset(header_fields(p1).dom(), three);
    }
    let granting = budget.inject_header_after(&mut proxy_headers, ages.1);
    assert(granting is Ok);
    if complete_headers(headers, &mut proxy_headers).is_err() {
        return Err(HeadersFull);
    }
    Ok(Outgoing { target, url, headers: proxy_headers })
}

/// A request that leaves for a service, by what chance and the clock say; with it, what
/// becomes of the headers of the request.
pub open spec fn may_leave(
    out: Outgoing,
    service_name: Seq<char>,
    config: ServiceConfigView,
    budget: TimeoutBudget,
    before: Map<Seq<char>, Seq<Seq<u8>>>,
    after: Map<Seq<char>, Seq<Seq<u8>>>,
    path: Option<&str>,
) -> bool {
    exists|word: u64, ages: (Duration, Duration)|
        {
            &&& #[trigger] is_drawn_word(word)
            &&& #[trigger] are_ages(budget, ages)
            &&& is_outgoing(out, service_name, config, budget, before, path, word, ages)
            &&& after == marked(before, out.target.cluster_type, budget.left(ages.0).millis())
        }
}

/// The clock, asked twice for the age of the budget, gave those.
pub open spec fn are_ages(budget: TimeoutBudget, ages: (Duration, Duration)) -> bool {
    is_age(budget.start_time, ages.0) && is_age(budget.start_time, ages.1)
}

/// Chance picked a cluster for the request that leaves it without an endpoint.
pub open spec fn is_stranded(
    fields: Map<Seq<char>, Seq<Seq<u8>>>,
    config: ServiceConfigView,
) -> bool {
    exists|word: u64| #[trigger]
        is_drawn_word(word) && !has_target(config, cluster_for(fields, config, word))
}

/// What one attempt to make a request ready gave, with a source that had given nothing yet.
pub open spec fn is_one_attempt(
    colorer: TrafficColorer,
    service_name: &str,
    config: ServiceConfig,
    budget: TimeoutBudget,
    headers: HeaderMap,
    path: Option<&str>,
    r: Result<Outgoing, PrepareError>,
) -> bool {
    exists|given: &mut HeaderMap, generator: &mut Generator|
        *given == headers && (*generator)@ == Seq::<Draw>::empty() && #[trigger] call_ensures(
            prepare_from,
            (&colorer, service_name, &config, &budget, given, path, generator),
            r,
        )
}

/// Makes a request ready to leave: picks the cluster and the endpoint, marks the headers
/// of the request, and makes those that the service gets. There is one attempt, and what
/// it gives is the answer.
pub fn prepare(
    colorer: &TrafficColorer,
    service_name: &str,
    config: &ServiceConfig,
    budget: &TimeoutBudget,
    headers: &mut HeaderMap,
    path: Option<&str>,
) -> (r: Result<Outgoing, PrepareError>)
    ensures
        r matches Ok(out) ==> may_leave(
            out,
            service_name@,
            config@,
            *budget,
            header_fields(*old(headers)),
            header_fields(*final(headers)),
            path,
        ),
        r matches Err(PrepareError::NoEndpoint) ==> is_stranded(
            header_fields(*old(headers)),
            config@,
        ) && *final(headers) == *old(headers),
        r matches Err(PrepareError::HeadersFull) ==> was_full_below(
            marked_names(header_fields(*old(headers))),
        ),
        is_routable(header_fields(*old(headers)), config@) ==> !(r matches Err(
            PrepareError::NoEndpoint,
        )),
        has_room_for(*old(headers), 2) ==> !(r matches Err(PrepareError::HeadersFull)),
        is_one_attempt(*colorer, service_name, *config, *budget, *old(headers), path, r),
{
    let mut generator = Generator::new();
    prepare_from(colorer, service_name, config, budget, headers, path, &mut generator)
}

/// Makes a request ready to leave. The next word of the source decides the cluster, and
/// what it gives then the endpoint; it gives nothing more.
pub fn prepare_from(
    colorer: &TrafficColorer,
    service_name: &str,
    config: &ServiceConfig,
    budget: &TimeoutBudget,
    headers: &mut HeaderMap,
    path: Option<&str>,
    generator: &mut Generator,
) -> (r: Result<Outgoing, PrepareError>)
    ensures
        next_word(old(generator)@, final(generator)@) is Some,
        r matches Ok(out) ==> may_leave(
            out,
            service_name@,
            config@,
            *budget,
            header_fields(*old(headers)),
            header_fields(*final(headers)),
            path,
        ) && is_routed(
            out.target,
            service_name@,
            header_fields(*old(headers)),
            config@,
            old(generator)@,
            final(generator)@,
        ),
        r matches Err(PrepareError::NoEndpoint) <==> !has_target(
            config@,
            cluster_for(
                header_fields(*old(headers)),
                config@,
                next_word(old(generator)@, final(generator)@)->0,
            ),
        ),
        r matches Err(PrepareError::NoEndpoint) ==> is_stranded(
            header_fields(*old(headers)),
            config@,
        ) && *final(headers) == *old(headers),
        r matches Err(PrepareError::HeadersFull) ==> was_full_below(
            marked_names(header_fields(*old(headers))),
        ),
        is_routable(header_fields(*old(headers)), config@) ==> !(r matches Err(
            PrepareError::NoEndpoint,
        )),
        has_room_for(*old(headers), 2) ==> !(r matches Err(PrepareError::HeadersFull)),
{
    let ghost before = generator@;
    let ghost fields = header_fields(*headers);
    let word = generator.word();
    proof {
        if is_routable(fields, config@) {
            routable_requests_have_targets(fields, config@, word);
        }
    }
    if !colorer.can_route_with(headers, config, word) {
        assert(generator@.take(before.len() as int) =~= before);
        return Err(PrepareError::NoEndpoint);
    }
    let target = colorer.pick_target(service_name, headers, config, word, generator);
    proof {
        lemma_routed(target, service_name@, fields, config@, before, word, generator@);
    }
    let first = age_of(&budget.start_time);
    let second = age_of(&budget.start_time);
    assert(are_ages(*budget, (first, second)));
    match dispatch(colorer, target, budget, headers, path, (first, second)) {
        Ok(out) => {
            assert(is_outgoing(
                out,
                service_name@,
                config@,
                *budget,
                fields,
                path,
                word,
                (first, second),
            ));
            Ok(out)
        },
        Err(_) => Err(PrepareError::HeadersFull),
    }
}

/// How long a service may take: its own limit, or what is left for the request after some
/// time, whichever is shorter.
pub open spec fn time_allowed(
    config: ServiceConfigView,
    budget: TimeoutBudget,
    age: Duration,
) -> int {
    if budget.left(age).nanos < config.timeout_ms * NANOS_PER_MILLI {
        budget.left(age).nanos as int
    } else {
        config.timeout_ms * NANOS_PER_MILLI
    }
}

/// How long the service may take now.
pub fn request_timeout(config: &ServiceConfig, budget: &TimeoutBudget) -> (r: Duration)
    ensures
        exists|age: Duration| #[trigger]
            is_age(budget.start_time, age) && r.nanos == time_allowed(config@, *budget, age),
{
    let age = age_of(&budget.start_time);
    request_timeout_after(config, budget, age)
}

/// How long the service may take after some time.
pub fn request_timeout_after(config: &ServiceConfig, budget: &TimeoutBudget, age: Duration) -> (r:
    Duration)
    ensures
        r.nanos == time_allowed(config@, *budget, age),
{
    config.timeout().min(budget.remaining_after(age))
}

/// What became of a request that was sent to a service.
#[derive(Debug, Clone, Copy, PartialEq, Eq, Structural)]
pub enum Reply {
    /// The service answered, with that status code.
    Answered(u16),
    /// The service did not answer in time.
    TimedOut,
    /// The service could not be reached.
    Failed,
}

impl Reply {
    /// The service failed: it could not be reached in time, or reports an error of its
    /// own.
    pub open spec fn is_failure(self) -> bool {
        match self {
            Reply::Answered(status) => 500 <= status < 600,
            Reply::TimedOut => true,
            Reply::Failed => true,
        }
    }

    /// What the client gets: the status code of the service, or an error.
    pub open spec fn result(self) -> Result<u16, ProxyError> {
        match self {
            Reply::Answered(status) => Ok(status),
            Reply::TimedOut => Err(ProxyError::TimedOut),
            Reply::Failed => Err(ProxyError::Unreachable),
        }
    }
}

/// The breakers after a call to a service ended.
pub open spec fn settled(
    breakers: Map<Seq<char>, CircuitBreaker>,
    name: Seq<char>,
    reply: Reply,
    duration: Duration,
) -> Map<Seq<char>, CircuitBreaker> {
    if breakers.contains_key(name) {
        breakers.insert(name, breakers[name].after_call(reply.is_failure(), duration))
    } else {
        breakers
    }
}

/// Counts a call to a service that has ended, and says what the client gets.
pub fn settle(state: &mut AppState, service_name: &str, reply: Reply, duration: Duration) -> (r:
    Result<u16, ProxyError>)
    ensures
        r == reply.result(),
        final(state).breakers() == settled(old(state).breakers(), service_name@, reply, duration),
        *final(state) == (AppState {
            circuit_breakers: final(state).circuit_breakers,
            ..*old(state)
        }),
        old(state).wf() ==> final(state).wf(),
{
    let failed = match reply {
        Reply::Answered(status) => status >= 500 && status < 600,
        Reply::TimedOut => true,
        Reply::Failed => true,
    };
    if let Some(found) = state.get_circuit_breaker(service_name) {
        let mut cb = found;
        if failed {
            cb.record_error(duration);
        } else {
            cb.record_success(duration);
        }
        state.set_circuit_breaker(service_name, cb);
    }
    match reply {
        Reply::Answered(status) => Ok(status),
        Reply::TimedOut => Err(ProxyError::TimedOut),
        Reply::Failed => Err(ProxyError::Unreachable),
    }
}

/// A request that is turned away before its circuit breaker is asked leaves all
/// breakers as they were.
pub proof fn turned_away_requests_leave_no_trace(
    state: AppState,
    name: Seq<char>,
    budget: TimeoutBudget,
    readings: Readings,
)
    ensures
        turned_away(config_of(state, name), breaker_of(state, name), budget, readings) is Some
            ==> asked_breakers(state, name, budget, readings) == state.breakers(),
        forall|other: Seq<char>|
            other != name ==> (#[trigger] asked_breakers(
                state,
                name,
                budget,
                readings,
            ).contains_key(other) <==> state.breakers().contains_key(other)),
        forall|other: Seq<char>|
            other != name && state.breakers().contains_key(other) ==> #[trigger] asked_breakers(
                state,
                name,
                budget,
                readings,
            )[other] == state.breakers()[other],
{
}

/// A request for a service that is not configured is answered "not found", and no other
/// refused request is.
pub proof fn only_unknown_services_are_not_found(
    config: Option<ServiceConfigView>,
    breaker: Option<CircuitBreaker>,
    budget: TimeoutBudget,
    readings: Readings,
)
    ensures
        config is None <==> refusal(config, breaker, budget, readings) == Some(
            ProxyError::UnknownService,
        ),
        refusal(config, breaker, budget, readings) matches Some(e) ==> (config is None <==> e.code()
            == 404),
{
}

/// In a well formed state a request for a configured service is let in, or refused as
/// "unavailable", and in no other way.
pub proof fn known_services_answer_or_are_unavailable(
    state: AppState,
    name: Seq<char>,
    budget: TimeoutBudget,
    readings: Readings,
)
    requires
        state.wf(),
        state.config@.services.contains_key(name),
    ensures
        refusal(config_of(state, name), breaker_of(state, name), budget, readings) matches Some(e)
            ==> e.code() == 503,
{
    assert(state.breakers().dom().contains(name));
}

/// A request without time is refused, however quickly it is looked at.
pub proof fn spent_budget_is_refused(
    config: ServiceConfigView,
    breaker: Option<CircuitBreaker>,
    budget: TimeoutBudget,
    readings: Readings,
)
    requires
        budget.total_budget.nanos == 0,
    ensures
        refusal(Some(config), breaker, budget, readings) == Some(ProxyError::BudgetExpired),
{
}

/// A request that has less time than its service may take is refused, however quickly
/// it is looked at.
pub proof fn short_budget_is_refused(
    config: ServiceConfigView,
    breaker: Option<CircuitBreaker>,
    budget: TimeoutBudget,
    readings: Readings,
)
    requires
        budget.total_budget.nanos < config.timeout_ms * NANOS_PER_MILLI,
    ensures
        refusal(Some(config), breaker, budget, readings) == Some(ProxyError::BudgetExpired)
            || refusal(Some(config), breaker, budget, readings) == Some(ProxyError::BudgetTooSmall),
{
}

/// A request with enough time is let in while the circuit is closed and few calls were
/// counted.
pub proof fn healthy_service_lets_requests_in(
    config: ServiceConfigView,
    breaker: CircuitBreaker,
    budget: TimeoutBudget,
    readings: Readings,
)
    requires
        budget.left(readings.first_age).nanos > 0,
        budget.left(readings.second_age).nanos >= config.timeout_ms * NANOS_PER_MILLI,
        breaker.state == CircuitState::Closed,
        breaker.window.metrics.total < breaker.config.request_volume_threshold,
    ensures
        refusal(Some(config), Some(breaker), budget, readings) is None,
{
    few_calls_keep_circuit_closed(
        breaker,
        readings.open_for,
        readings.now,
    );
}

/// While the circuit of a service is open and its sleep window has not passed, no
/// request is let in, and the breakers stay as they are.
pub proof fn open_circuit_refuses_requests(
    state: AppState,
    name: Seq<char>,
    budget: TimeoutBudget,
    readings: Readings,
)
    requires
        state.breakers().contains_key(name),
        state.breakers()[name].state == CircuitState::Open,
        readings.open_for.nanos < state.breakers()[name].config.sleep_window_ms * NANOS_PER_MILLI,
    ensures
        refusal(config_of(state, name), breaker_of(state, name), budget, readings) is Some,
        asked_breakers(state, name, budget, readings) == state.breakers(),
{
    open_circuit_waits(
        state.breakers()[name],
        readings.open_for,
        readings.now,
    );
    assert(asked_breakers(state, name, budget, readings) =~= state.breakers());
}

/// The breakers after several calls to a service ended, one after the other.
pub open spec fn settled_all(
    breakers: Map<Seq<char>, CircuitBreaker>,
    name: Seq<char>,
    calls: Seq<(Reply, Duration)>,
) -> Map<Seq<char>, CircuitBreaker>
    decreases calls.len(),
{
    if calls.len() == 0 {
        breakers
    } else {
        settled(
            settled_all(breakers, name, calls.drop_last()),
            name,
            calls.last().0,
            calls.last().1,
        )
    }
}

/// All of the calls failed.
pub open spec fn all_failed(calls: Seq<(Reply, Duration)>) -> bool {
    forall|i: int| 0 <= i < calls.len() ==> (#[trigger] calls[i]).0.is_failure()
}

proof fn lemma_failures_are_counted(
    breakers: Map<Seq<char>, CircuitBreaker>,
    name: Seq<char>,
    config: CircuitBreakerConfig,
    calls: Seq<(Reply, Duration)>,
)
    requires
        breakers.contains_key(name),
        breakers[name] == CircuitBreaker::fresh(config),
        all_failed(calls),
        calls.len() <= u64::MAX,
    ensures
        settled_all(breakers, name, calls).contains_key(name),
        settled_all(breakers, name, calls)[name].state
            == CircuitState::Closed,
        settled_all(breakers, name, calls)[name].config == config,
        settled_all(breakers, name, calls)[name].window.metrics.total == calls.len(),
        settled_all(breakers, name, calls)[name].window.metrics.errors == calls.len(),
    decreases calls.len(),
{
    if calls.len() > 0 {
        assert(all_failed(calls.drop_last())) by {
            assert forall|i: int| 0 <= i < calls.drop_last().len() implies (
            #[trigger] calls.drop_last()[i]).0.is_failure() by {
                assert(calls[i].0.is_failure());
            };
        };
        lemma_failures_are_counted(breakers, name, config, calls.drop_last());
        assert(calls[calls.len() - 1].0.is_failure());
    }
}

/// A service of which enough calls failed, and none succeeded, gets no further requests,
/// unless its error threshold is above one or not a number.
pub proof fn broken_service_is_cut_off(
    breakers: Map<Seq<char>, CircuitBreaker>,
    name: Seq<char>,
    config: CircuitBreakerConfig,
    calls: Seq<(Reply, Duration)>,
    service: ServiceConfigView,
    budget: TimeoutBudget,
    readings: Readings,
)
    requires
        breakers.contains_key(name),
        breakers[name] == CircuitBreaker::fresh(config),
        all_failed(calls),
        0 < calls.len() <= u64::MAX,
        calls.len() >= config.request_volume_threshold,
        config.error_threshold.at_most_one(),
    ensures
        refusal(Some(service), Some(settled_all(breakers, name, calls)[name]), budget, readings)
            matches Some(e) && e.code() == 503,
{
    lemma_failures_are_counted(breakers, name, config, calls);
    all_bad_calls_open_circuit(
        settled_all(breakers, name, calls)[name],
        readings.open_for,
        readings.now,
    );
}

/// A call counts against its own service only.
pub proof fn calls_count_for_their_service(
    breakers: Map<Seq<char>, CircuitBreaker>,
    name: Seq<char>,
    other: Seq<char>,
    reply: Reply,
    duration: Duration,
)
    requires
        other != name,
    ensures
        settled(breakers, name, reply, duration).contains_key(other) == breakers.contains_key(
            other,
        ),
        breakers.contains_key(other) ==> settled(breakers, name, reply, duration)[other]
            == breakers[other],
{
}

/// The service sees the cluster that the request was routed to, and the next hop reads
/// exactly the milliseconds that were left.
pub proof fn forwarded_request_is_marked(
    fields: Map<Seq<char>, Seq<Seq<u8>>>,
    cluster: ClusterType,
    first_ms: u64,
    second_ms: u64,
)
    ensures
        cluster_in(forwarded(fields, cluster, first_ms, second_ms)) == Some(
            cluster,
        ),
        granted_ms(forwarded(fields, cluster, first_ms, second_ms)) == Some(
            second_ms,
        ),
{
    lemma_known_names();
    let named = with_text(fields, CANARY_CLUSTER_HEADER@, cluster.name());
    let src = marked(fields, cluster, first_ms);
    let base = propagated(no_fields(), src);
    cluster_is_read_back(fields, cluster);
    granted_time_is_read_back(named, first_ms, 0);
    granted_time_is_read_back(base, second_ms, 0);
    let out = forwarded(fields, cluster, first_ms, second_ms);
    assert(named.contains_key(CANARY_CLUSTER_HEADER@));
    assert(src.contains_key(CANARY_CLUSTER_HEADER@) && src[CANARY_CLUSTER_HEADER@]
        == named[CANARY_CLUSTER_HEADER@]);
    assert(out[CANARY_CLUSTER_HEADER@][0] == named[CANARY_CLUSTER_HEADER@][0]);
    assert(out[GLOBAL_TIMEOUT_HEADER@] == with_granted(
        base,
        second_ms,
    )[GLOBAL_TIMEOUT_HEADER@]);
}

/// The service gets every header of the request: of each its first value, except for
/// the two that the gateway writes. It gets no header beyond them.
pub proof fn forwarded_request_keeps_headers(
    fields: Map<Seq<char>, Seq<Seq<u8>>>,
    cluster: ClusterType,
    first_ms: u64,
    second_ms: u64,
    name: Seq<char>,
)
    requires
        name != CANARY_CLUSTER_HEADER@,
        name != GLOBAL_TIMEOUT_HEADER@,
    ensures
        forwarded(fields, cluster, first_ms, second_ms).contains_key(name) <==> fields.contains_key(
            name,
        ),
        fields.contains_key(name) ==> forwarded(fields, cluster, first_ms, second_ms)[name] == seq![
            fields[name][0],
        ],
{
    lemma_known_names();
}

/// A request that leaves is sent to its endpoint under its own path and query: the address
/// is the endpoint, character by character, and after it exactly the path as it came. A
/// request without a path asks for the root.
pub proof fn requests_keep_their_path(
    out: Outgoing,
    service_name: Seq<char>,
    config: ServiceConfigView,
    budget: TimeoutBudget,
    fields: Map<Seq<char>, Seq<Seq<u8>>>,
    path: Option<&str>,
    word: u64,
    ages: (Duration, Duration),
)
    requires
        is_outgoing(out, service_name, config, budget, fields, path, word, ages),
    ensures
        out.url@.take(out.target.endpoint@.len() as int) == out.target.endpoint@,
        path matches Some(p) ==> out.url@.len() == out.target.endpoint@.len() + p@.len()
            && out.url@.skip(out.target.endpoint@.len() as int) == p@,
        path is None ==> out.url@.len() == out.target.endpoint@.len() + 1 && out.url@.last() == '/',
{
    let e = out.target.endpoint@;
    assert(out.url@.take(e.len() as int) =~= e);
    reveal_strlit("/");
    if let Some(p) = path {
        assert(out.url@.skip(e.len() as int) =~= p@);
    }
}

/// Two requests that leave for the same endpoint with different paths have different
/// addresses.
pub proof fn different_paths_have_different_addresses(
    a: Outgoing,
    b: Outgoing,
    service_name: Seq<char>,
    config: ServiceConfigView,
    budget: TimeoutBudget,
    fields: Map<Seq<char>, Seq<Seq<u8>>>,
    path_a: &str,
    path_b: &str,
    words: (u64, u64),
    ages: (Duration, Duration),
)
    requires
        is_outgoing(a, service_name, config, budget, fields, Some(path_a), words.0, ages),
        is_outgoing(b, service_name, config, budget, fields, Some(path_b), words.1, ages),
        a.target.endpoint@ == b.target.endpoint@,
        a.url@ == b.url@,
    ensures
        path_a@ == path_b@,
{
    requests_keep_their_path(
        a,
        service_name,
        config,
        budget,
        fields,
        Some(path_a),
        words.0,
        ages,
    );
    requests_keep_their_path(
        b,
        service_name,
        config,
        budget,
        fields,
        Some(path_b),
        words.1,
        ages,
    );
}

/// A request is let in exactly when its service is known, time is left when that is first
/// looked at, at least as many milliseconds as the service may take are left after that,
/// and its breaker lets it pass.
pub proof fn requests_are_let_in_exactly_when_all_agree(
    config: Option<ServiceConfigView>,
    breaker: Option<CircuitBreaker>,
    budget: TimeoutBudget,
    readings: Readings,
)
    ensures
        refusal(config, breaker, budget, readings) is None <==> {
            &&& config is Some
            &&& budget.total_budget.nanos > readings.first_age.nanos
            &&& budget.left(readings.second_age).nanos >= config->0.timeout_ms * 1_000_000
            &&& breaker is Some
            &&& breaker->0.refreshed(readings.open_for, readings.now).admits()
        },
        refusal(config, breaker, budget, readings) == Some(ProxyError::CircuitOpen) ==> breaker
            is Some && !breaker->0.refreshed(readings.open_for, readings.now).admits(),
        refusal(config, breaker, budget, readings) == Some(ProxyError::MissingBreaker) ==> breaker
            is None,
        refusal(config, breaker, budget, readings) == Some(ProxyError::BudgetExpired) ==> config
            is Some && budget.total_budget.nanos <= readings.first_age.nanos,
        refusal(config, breaker, budget, readings) == Some(ProxyError::BudgetTooSmall) ==> config
            is Some && budget.left(readings.second_age).nanos < config->0.timeout_ms * 1_000_000,
{
}

/// A request that reaches its breaker is asked of it once, and of no other.
pub proof fn requests_ask_their_breaker_once(
    state: AppState,
    name: Seq<char>,
    other: Seq<char>,
    budget: TimeoutBudget,
    readings: Readings,
)
    requires
        turned_away(config_of(state, name), breaker_of(state, name), budget, readings) is None,
    ensures
        asked_breakers(state, name, budget, readings)[name]
            == state.breakers()[name].refreshed(readings.open_for, readings.now).asked(),
        asked_breakers(state, name, budget, readings).dom() == state.breakers().dom(),
        other != name ==> asked_breakers(state, name, budget, readings)[other]
            == state.breakers()[other],
{
    assert(asked_breakers(state, name, budget, readings).dom() =~= state.breakers().dom());
}

/// A call failed exactly when no answer came, or one whose status code is in the five
/// hundreds; the client gets the status code of an answer as it is.
pub proof fn failures_are_server_errors_and_missing_answers(reply: Reply)
    ensures
        match reply {
            Reply::Answered(status) => (reply.is_failure() <==> status / 100 == 5)
                && reply.result() == Ok::<u16, ProxyError>(status),
            Reply::TimedOut => reply.is_failure() && (reply.result() matches Err(e) && e.code()
                == 504),
            Reply::Failed => reply.is_failure() && (reply.result() matches Err(e) && e.code()
                == 502),
        },
{
}

/// A call to a service whose circuit is closed is counted once, as failed where it failed,
/// and as slow where it took as long as the settings say.
pub proof fn calls_are_counted_by_their_outcome(
    breakers: Map<Seq<char>, CircuitBreaker>,
    name: Seq<char>,
    reply: Reply,
    duration: Duration,
)
    requires
        breakers.contains_key(name),
        breakers[name].state == CircuitState::Closed,
        breakers[name].window.metrics.total < u64::MAX,
        breakers[name].window.metrics.errors < u64::MAX,
        breakers[name].window.metrics.slow_calls < u64::MAX,
    ensures
        ({
            let before = breakers[name].window.metrics;
            let after = settled(breakers, name, reply, duration)[name].window.metrics;
            &&& after.total == before.total + 1
            &&& after.errors == before.errors + if reply.is_failure() {
                1int
            } else {
                0
            }
            &&& after.slow_calls == before.slow_calls + if duration.nanos
                >= breakers[name].config.slow_call_threshold_ms * 1_000_000 {
                1int
            } else {
                0
            }
        }),
        settled(breakers, name, reply, duration)[name].state == CircuitState::Closed,
        settled(breakers, name, reply, duration)[name].config == breakers[name].config,
{
}

/// A call to a service whose circuit is half open counts as a success exactly when it did
/// not fail, however long it took.
pub proof fn probes_are_counted_by_their_outcome(
    breakers: Map<Seq<char>, CircuitBreaker>,
    name: Seq<char>,
    reply: Reply,
    duration: Duration,
)
    requires
        breakers.contains_key(name),
        breakers[name].state == CircuitState::HalfOpen,
        breakers[name].half_open_success < u64::MAX,
    ensures
        settled(breakers, name, reply, duration)[name].half_open_success
            == breakers[name].half_open_success + if reply.is_failure() {
            0int
        } else {
            1
        },
        settled(breakers, name, reply, duration)[name].state == CircuitState::HalfOpen,
{
}

/// A service is never given more time than its own limit or than what is left, and always
/// one of the two in full.
pub proof fn time_allowed_is_the_shorter_limit(
    config: ServiceConfigView,
    budget: TimeoutBudget,
    age: Duration,
)
    ensures
        time_allowed(config, budget, age) <= config.timeout_ms * 1_000_000,
        time_allowed(config, budget, age) <= budget.left(age).nanos,
        time_allowed(config, budget, age) == config.timeout_ms * 1_000_000 || time_allowed(
            config,
            budget,
            age,
        ) == budget.left(age).nanos,
{
}

/// The service gets the name of the cluster and the milliseconds that are left as the only
/// values under their headers, in place of whatever the request carried there.
pub proof fn forwarded_marks_stand_alone(
    fields: Map<Seq<char>, Seq<Seq<u8>>>,
    cluster: ClusterType,
    first_ms: u64,
    second_ms: u64,
)
    ensures
        forwarded(fields, cluster, first_ms, second_ms).contains_key(CANARY_CLUSTER_HEADER@),
        forwarded(fields, cluster, first_ms, second_ms)[CANARY_CLUSTER_HEADER@].len() == 1,
        forwarded(fields, cluster, first_ms, second_ms).contains_key(GLOBAL_TIMEOUT_HEADER@),
        forwarded(fields, cluster, first_ms, second_ms)[GLOBAL_TIMEOUT_HEADER@].len() == 1,
{
    lemma_known_names();
    let named = with_text(fields, CANARY_CLUSTER_HEADER@, cluster.name());
    let src = marked(fields, cluster, first_ms);
    let base = propagated(no_fields(), src);
    cluster_is_read_back(fields, cluster);
    granted_time_is_read_back(named, first_ms, 0);
    granted_time_is_read_back(base, second_ms, 0);
    assert(named.contains_key(CANARY_CLUSTER_HEADER@));
    assert(src.contains_key(CANARY_CLUSTER_HEADER@));
}

/// The headers of the request itself change under the two names that the gateway writes,
/// and nowhere else.
pub proof fn marking_touches_two_headers(
    fields: Map<Seq<char>, Seq<Seq<u8>>>,
    cluster: ClusterType,
    ms: u64,
    name: Seq<char>,
)
    requires
        name != CANARY_CLUSTER_HEADER@,
        name != GLOBAL_TIMEOUT_HEADER@,
    ensures
        marked(fields, cluster, ms).contains_key(name) == fields.contains_key(name),
        fields.contains_key(name) ==> marked(fields, cluster, ms)[name] == fields[name],
        cluster_in(marked(fields, cluster, ms)) == Some(cluster),
        granted_ms(marked(fields, cluster, ms)) == Some(ms),
{
    lemma_known_names();
    let named = with_text(fields, CANARY_CLUSTER_HEADER@, cluster.name());
    cluster_is_read_back(fields, cluster);
    granted_time_is_read_back(named, ms, 0);
    assert(named.contains_key(CANARY_CLUSTER_HEADER@));
}

/// A request that leaves was routed by its own headers, and its service gets the cluster of
/// its target and no more time than was left.
pub proof fn outgoing_requests_say_where_they_go(
    out: Outgoing,
    service_name: Seq<char>,
    config: ServiceConfigView,
    budget: TimeoutBudget,
    fields: Map<Seq<char>, Seq<Seq<u8>>>,
    path: Option<&str>,
    word: u64,
    ages: (Duration, Duration),
)
    requires
        is_outgoing(out, service_name, config, budget, fields, path, word, ages),
    ensures
        cluster_in(header_fields(out.headers)) == Some(out.target.cluster_type),
        granted_ms(header_fields(out.headers)) == Some(budget.left(ages.1).millis()),
        out.target.cluster_type == ClusterType::Canary ==> config.canary is Some,
        out.target.service_name@ == service_name,
{
    forwarded_request_is_marked(
        fields,
        out.target.cluster_type,
        budget.left(ages.0).millis(),
        budget.left(ages.1).millis(),
    );
}

/// The code tells whose fault an error is: those of the client are below five hundred, a
/// refusal that may pass is 503, and a service that answers too late or not at all is told
/// from everything else.
pub proof fn codes_tell_errors_apart(error: ProxyError)
    ensures
        400 <= error.code() < 600,
        error.code() < 500 <==> error is UnknownService || error is UnreadableRequest,
        error.code() == 404 <==> error is UnknownService,
        error.code() == 400 <==> error is UnreadableRequest,
        error.code() == 503 <==> error is BudgetExpired || error is BudgetTooSmall
            || error is CircuitOpen,
        error.code() == 504 <==> error is TimedOut,
        error.code() == 502 <==> error is Unreachable,
        error.code() == 500 <==> error is MissingBreaker || error is UnreadableReply,
{
}

} // verus!
