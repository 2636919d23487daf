//! Routing between the stable and the canary cluster of a service.

use crate::binary64::{
    clamping_is_monotone, lemma_draw_is_below_one, lemma_unit_draw, unit_units, Binary64,
};
use crate::config::{texts, ServiceConfig, ServiceConfigView};
use crate::headers::{
    copy_value, get_text, has_room_for, header_fields, is_visible_text, lemma_known_names,
    lemma_room, lemma_shown_is_visible, refused, set_text, text_round_trip, was_full, with_copied,
    with_text, HeadersFull,
};
use crate::random::{is_drawn_index, is_drawn_word, next_word, Draw, Generator};
use crate::span_context::{cluster_in, marks_canary};
use crate::text::{ascii_lower, str_eq, to_lowercase};
use crate::types::{
    ClusterType, RouteTarget, CANARY_CLUSTER_HEADER, CANARY_HEADER, CANARY_HEADER_VALUE,
    REQUEST_ID_HEADER,
};
use http::header::HeaderMap;
use vstd::prelude::*;

verus! {

/// Decides which cluster a request goes to.
#[derive(Debug)]
pub struct TrafficColorer {
    canary_header: String,
    canary_value: String,
}

/// The request is marked as canary traffic, and there is a canary cluster.
pub open spec fn may_go_canary(
    fields: Map<Seq<char>, Seq<Seq<u8>>>,
    config: ServiceConfigView,
) -> bool {
    config.canary is Some && marks_canary(fields)
}

/// The random number that a word stands for lies below a ratio, which is brought into
/// the range from zero to one first.
pub open spec fn draws_below(ratio: Binary64, word: u64) -> bool {
    !ratio.is_nan() && unit_units(word) < ratio.unit_clamped().value()
}

/// The request goes to the canary cluster, when chance gives that word.
pub open spec fn goes_canary(
    fields: Map<Seq<char>, Seq<Seq<u8>>>,
    config: ServiceConfigView,
    word: u64,
) -> bool {
    may_go_canary(fields, config) && draws_below(config.canary_ratio, word)
}

/// The cluster that a request goes to, when chance gives that word.
pub open spec fn cluster_for(
    fields: Map<Seq<char>, Seq<Seq<u8>>>,
    config: ServiceConfigView,
    word: u64,
) -> ClusterType {
    if goes_canary(fields, config, word) {
        ClusterType::Canary
    } else {
        ClusterType::Stable
    }
}

/// The endpoints of a cluster; those of the stable one where there is no canary.
pub open spec fn endpoints_of(config: ServiceConfigView, cluster: ClusterType) -> Seq<Seq<char>> {
    match (cluster, config.canary) {
        (ClusterType::Canary, Some(endpoints)) => endpoints,
        _ => config.stable,
    }
}

/// A request that goes to a cluster has an endpoint to go to: one of the cluster, or
/// else a stable one.
pub open spec fn has_target(config: ServiceConfigView, cluster: ClusterType) -> bool {
    endpoints_of(config, cluster).len() > 0 || config.stable.len() > 0
}

/// Every request that may come out has an endpoint to go to: there is a stable one, or
/// the request goes to a canary one for sure.
pub open spec fn is_routable(
    fields: Map<Seq<char>, Seq<Seq<u8>>>,
    config: ServiceConfigView,
) -> bool {
    ||| config.stable.len() > 0
    ||| {
        &&& may_go_canary(fields, config)
        &&& config.canary_ratio.is_full()
        &&& config.canary->0.len() > 0
    }
}

/// The endpoint is one of those, at the place that chance gave.
pub open spec fn is_drawn_from(endpoint: Seq<char>, endpoints: Seq<Seq<char>>) -> bool {
    exists|i: usize| #[trigger]
        is_drawn_index(endpoints.len() as usize, i) && i < endpoints.len() && endpoint
            == endpoints[i as int]
}

/// The endpoint stands at the one place that was drawn, below the number of endpoints.
pub open spec fn is_picked_by(
    endpoint: Seq<char>,
    endpoints: Seq<Seq<char>>,
    draws: Seq<Draw>,
) -> bool {
    &&& draws.len() == 1
    &&& draws[0] matches Draw::Index(len, i) && len == endpoints.len() && i < len && endpoint
        == endpoints[i as int]
}

/// The target of a request that goes to a cluster, when those draws were made for the
/// endpoint: one for a cluster with endpoints, and none for one without.
pub open spec fn is_target_by(
    target: RouteTarget,
    service_name: Seq<char>,
    config: ServiceConfigView,
    cluster: ClusterType,
    draws: Seq<Draw>,
) -> bool {
    &&& target.service_name@ == service_name
    &&& target.cluster_type == cluster
    &&& if endpoints_of(config, cluster).len() > 0 {
        is_picked_by(target.endpoint@, endpoints_of(config, cluster), draws)
    } else {
        draws.len() == 0 && config.stable.len() > 0 && target.endpoint@ == config.stable[0]
    }
}

/// The target of a request for which a source gave all that comes after `before`: its next
/// word decided the cluster, and the rest the endpoint.
pub open spec fn is_routed(
    target: RouteTarget,
    service_name: Seq<char>,
    fields: Map<Seq<char>, Seq<Seq<u8>>>,
    config: ServiceConfigView,
    before: Seq<Draw>,
    after: Seq<Draw>,
) -> bool {
    next_word(before, after) matches Some(word) && is_target_by(
        target,
        service_name,
        config,
        cluster_for(fields, config, word),
        after.skip(before.len() as int + 1),
    )
}

/// Whether a request goes to the canary cluster, as it comes out of one decision by a source
/// that had given nothing before.
pub open spec fn is_one_decision(
    colorer: TrafficColorer,
    headers: HeaderMap,
    config: ServiceConfig,
    r: bool,
) -> bool {
    exists|generator: &mut Generator|
        (*generator)@ == Seq::<Draw>::empty() && #[trigger] call_ensures(
            TrafficColorer::should_route_canary_from,
            (&colorer, &headers, &config, generator),
            r,
        )
}

/// An endpoint, as it comes out of one selection by a source that had given nothing before.
pub open spec fn is_one_selection(
    colorer: TrafficColorer,
    config: ServiceConfig,
    cluster: ClusterType,
    r: Option<String>,
) -> bool {
    exists|generator: &mut Generator|
        (*generator)@ == Seq::<Draw>::empty() && #[trigger] call_ensures(
            TrafficColorer::select_endpoint_from,
            (&colorer, &config, cluster, generator),
            r,
        )
}

/// A target, as it comes out of one choice of a route by a source that had given nothing
/// before.
pub open spec fn is_one_route(
    colorer: TrafficColorer,
    service_name: &str,
    headers: HeaderMap,
    config: ServiceConfig,
    r: RouteTarget,
) -> bool {
    exists|generator: &mut Generator|
        (*generator)@ == Seq::<Draw>::empty() && #[trigger] call_ensures(
            TrafficColorer::determine_route_from,
            (&colorer, service_name, &headers, &config, generator),
            r,
        )
}

/// A target that was picked after a word was drawn is one for which that word was next.
pub proof fn lemma_routed(
    target: RouteTarget,
    service_name: Seq<char>,
    fields: Map<Seq<char>, Seq<Seq<u8>>>,
    config: ServiceConfigView,
    before: Seq<Draw>,
    word: u64,
    after: Seq<Draw>,
)
    requires
        before.push(Draw::Word(word)).is_prefix_of(after),
        is_target_by(
            target,
            service_name,
            config,
            cluster_for(fields, config, word),
            after.skip(before.push(Draw::Word(word)).len() as int),
        ),
    ensures
        is_routed(target, service_name, fields, config, before, after),
        next_word(before, after) == Some(word),
{
    let one = before.push(Draw::Word(word));
    assert(one[before.len() as int] == Draw::Word(word));
    assert(after.take(one.len() as int) =~= one);
    assert(after[before.len() as int] == one[before.len() as int]);
    assert(after.take(before.len() as int) =~= before) by {
        assert forall|i: int| 0 <= i < before.len() implies after[i] == before[i] by {
            assert(one[i] == before[i]);
        };
    };
}

/// The target of a request that goes to a cluster: one of its endpoints, or the first
/// stable one where the cluster has none.
pub open spec fn is_target(
    target: RouteTarget,
    service_name: Seq<char>,
    config: ServiceConfigView,
    cluster: ClusterType,
) -> bool {
    &&& target.service_name@ == service_name
    &&& target.cluster_type == cluster
    &&& if endpoints_of(config, cluster).len() > 0 {
        is_drawn_from(target.endpoint@, endpoints_of(config, cluster))
    } else {
        config.stable.len() > 0 && target.endpoint@ == config.stable[0]
    }
}

impl TrafficColorer {
    #[verifier::type_invariant]
    closed spec fn inv(self) -> bool {
        &&& self.canary_header@ == CANARY_HEADER@
        &&& self.canary_value@ == CANARY_HEADER_VALUE@
    }

    /// The header that marks canary traffic, and the value that it carries.
    pub closed spec fn mark(self) -> (Seq<char>, Seq<char>) {
        (self.canary_header@, self.canary_value@)
    }

    pub fn new() -> (r: Self)
        ensures
            r.mark() == (CANARY_HEADER@, CANARY_HEADER_VALUE@),
    {
        TrafficColorer {
            canary_header: CANARY_HEADER.to_string(),
            canary_value: CANARY_HEADER_VALUE.to_string(),
        }
    }

    /// Whether the headers mark the request as canary traffic.
    pub fn is_marked(&self, headers: &HeaderMap) -> (r: bool)
        ensures
            r == marks_canary(header_fields(*headers)),
    {
        proof {
            use_type_invariant(self);
            lemma_known_names();
            reveal_strlit("canary");
            assert(vstd::utf8::is_ascii_chars("canary"@));
            assert(ascii_lower("canary"@) =~= "canary"@);
        }
        match get_text(headers, self.canary_header.as_str()) {
            Some(value) => {
                proof {
                    lemma_shown_is_visible(header_fields(*headers)[CANARY_HEADER@][0]);
                }
                str_eq(
                    to_lowercase(value.as_str()).as_str(),
                    to_lowercase(self.canary_value.as_str()).as_str(),
                )
            },
            None => false,
        }
    }

    /// Whether a request goes to the canary cluster. Without a canary cluster, or
    /// without the mark, it does not; otherwise chance decides, by the ratio.
    pub fn should_route_canary(&self, headers: &HeaderMap, service_config: &ServiceConfig) -> (r:
        bool)
        ensures
            exists|word: u64| #[trigger]
                is_drawn_word(word) && r == goes_canary(
                    header_fields(*headers),
                    service_config@,
                    word,
                ),
            is_one_decision(*self, *headers, *service_config, r),
    {
        let mut generator = Generator::new();
        self.should_route_canary_from(headers, service_config, &mut generator)
    }

    /// Whether a request goes to the canary cluster. The source gives one word for it,
    /// and that word decides.
    pub fn should_route_canary_from(
        &self,
        headers: &HeaderMap,
        service_config: &ServiceConfig,
        generator: &mut Generator,
    ) -> (r: bool)
        ensures
            exists|word: u64| #[trigger]
                is_drawn_word(word) && final(generator)@ == old(generator)@.push(Draw::Word(word))
                    && r == goes_canary(header_fields(*headers), service_config@, word),
    {
        let word = generator.word();
        self.should_route_canary_with(headers, service_config, word)
    }

    /// Whether a request goes to the canary cluster, when chance gives that word.
    pub fn should_route_canary_with(
        &self,
        headers: &HeaderMap,
        service_config: &ServiceConfig,
        word: u64,
    ) -> (r: bool)
        ensures
            r == goes_canary(header_fields(*headers), service_config@, word),
    {
        if service_config.canary_cluster.is_none() {
            return false;
        }
        if self.is_marked(headers) {
            let ratio = service_config.canary_ratio.clamp_unit();
            let draw = Binary64::unit_interval(word);
            return draw.lt(ratio);
        }
        false
    }

    /// One of the endpoints of a cluster, by chance; none where it has none.
    pub fn select_endpoint(&self, service_config: &ServiceConfig, cluster_type: ClusterType) -> (r:
        Option<String>)
        ensures
            match r {
                Some(e) => is_drawn_from(e@, endpoints_of(service_config@, cluster_type)),
                None => endpoints_of(service_config@, cluster_type).len() == 0,
            },
            is_one_selection(*self, *service_config, cluster_type, r),
    {
        let mut generator = Generator::new();
        self.select_endpoint_from(service_config, cluster_type, &mut generator)
    }

    /// One of the endpoints of a cluster. The source gives one place for it, and that place
    /// decides; it gives nothing where the cluster has no endpoints.
    pub fn select_endpoint_from(
        &self,
        service_config: &ServiceConfig,
        cluster_type: ClusterType,
        generator: &mut Generator,
    ) -> (r: Option<String>)
        ensures
            match r {
                Some(e) => is_drawn_from(e@, endpoints_of(service_config@, cluster_type))
                    && old(generator)@.is_prefix_of(final(generator)@) && is_picked_by(
                    e@,
                    endpoints_of(service_config@, cluster_type),
                    final(generator)@.skip(old(generator)@.len() as int),
                ),
                None => endpoints_of(service_config@, cluster_type).len() == 0
                    && final(generator)@ == old(generator)@,
            },
    {
        let endpoints = TrafficColorer::cluster_endpoints(service_config, cluster_type);
        if endpoints.len() == 0 {
            return None;
        }
        let i = generator.index(endpoints.len());
        proof {
            let n = endpoints_of(service_config@, cluster_type).len() as usize;
            assert(is_drawn_index(n, i));
            assert(generator@.skip(old(generator)@.len() as int) =~= seq![Draw::Index(n, i)]);
        }
        self.select_endpoint_at(service_config, cluster_type, i)
    }

    fn cluster_endpoints<'a>(service_config: &'a ServiceConfig, cluster_type: ClusterType) -> (r:
        &'a Vec<String>)
        ensures
            texts(r@) == endpoints_of(service_config@, cluster_type),
    {
        match cluster_type {
            ClusterType::Stable => &service_config.stable_cluster.endpoints,
            ClusterType::Canary => match &service_config.canary_cluster {
                Some(canary) => &canary.endpoints,
                None => &service_config.stable_cluster.endpoints,
            },
        }
    }

    /// The endpoint of a cluster at a place in its list.
    pub fn select_endpoint_at(
        &self,
        service_config: &ServiceConfig,
        cluster_type: ClusterType,
        i: usize,
    ) -> (r: Option<String>)
        ensures
            match r {
                Some(e) => i < endpoints_of(service_config@, cluster_type).len() && e@
                    == endpoints_of(service_config@, cluster_type)[i as int],
                None => i >= endpoints_of(service_config@, cluster_type).len(),
            },
    {
        let endpoints = TrafficColorer::cluster_endpoints(service_config, cluster_type);
        if i < endpoints.len() {
            Some(endpoints[i].clone())
        } else {
            None
        }
    }

    /// The cluster and the endpoint that a request goes to.
    pub fn determine_route(
        &self,
        service_name: &str,
        headers: &HeaderMap,
        service_config: &ServiceConfig,
    ) -> (r: RouteTarget)
        requires
            is_routable(header_fields(*headers), service_config@),
        ensures
            exists|word: u64| #[trigger]
                is_drawn_word(word) && is_target(
                    r,
                    service_name@,
                    service_config@,
                    cluster_for(header_fields(*headers), service_config@, word),
                ),
            is_one_route(*self, service_name, *headers, *service_config, r),
    {
        let mut generator = Generator::new();
        self.determine_route_from(service_name, headers, service_config, &mut generator)
    }

    /// The cluster and the endpoint that a request goes to. The next word of the source
    /// decides the cluster, and what it gives then the endpoint.
    pub fn determine_route_from(
        &self,
        service_name: &str,
        headers: &HeaderMap,
        service_config: &ServiceConfig,
        generator: &mut Generator,
    ) -> (r: RouteTarget)
        requires
            is_routable(header_fields(*headers), service_config@),
        ensures
            is_routed(
                r,
                service_name@,
                header_fields(*headers),
                service_config@,
                old(generator)@,
                final(generator)@,
            ),
            exists|word: u64| #[trigger]
                is_drawn_word(word) && is_target(
                    r,
                    service_name@,
                    service_config@,
                    cluster_for(header_fields(*headers), service_config@, word),
                ),
    {
        let ghost before = generator@;
        let word = generator.word();
        proof {
            routable_requests_have_targets(header_fields(*headers), service_config@, word);
        }
        let r = self.pick_target(service_name, headers, service_config, word, generator);
        proof {
            lemma_routed(
                r,
                service_name@,
                header_fields(*headers),
                service_config@,
                before,
                word,
                generator@,
            );
        }
        r
    }

    /// The cluster that a word decides on, and the endpoint that the source then picks.
    pub(crate) fn pick_target(
        &self,
        service_name: &str,
        headers: &HeaderMap,
        service_config: &ServiceConfig,
        word: u64,
        generator: &mut Generator,
    ) -> (r: RouteTarget)
        requires
            has_target(
                service_config@,
                cluster_for(header_fields(*headers), service_config@, word),
            ),
        ensures
            is_target(
                r,
                service_name@,
                service_config@,
                cluster_for(header_fields(*headers), service_config@, word),
            ),
            old(generator)@.is_prefix_of(final(generator)@),
            is_target_by(
                r,
                service_name@,
                service_config@,
                cluster_for(header_fields(*headers), service_config@, word),
                final(generator)@.skip(old(generator)@.len() as int),
            ),
    {
        let cluster_type = self.choose_cluster(headers, service_config, word);
        let endpoint = match self.select_endpoint_from(service_config, cluster_type, generator) {
            Some(e) => e,
            None => {
                assert(generator@.skip(old(generator)@.len() as int) =~= Seq::<Draw>::empty());
                service_config.stable_cluster.endpoints[0].clone()
            },
        };
        RouteTarget { service_name: service_name.to_string(), cluster_type, endpoint }
    }

    /// The cluster that a request goes to, when chance gives that word.
    fn choose_cluster(&self, headers: &HeaderMap, service_config: &ServiceConfig, word: u64) -> (r:
        ClusterType)
        ensures
            r == cluster_for(header_fields(*headers), service_config@, word),
    {
        if self.should_route_canary_with(headers, service_config, word) {
            ClusterType::Canary
        } else {
            ClusterType::Stable
        }
    }

    /// Whether a request has an endpoint to go to, when chance gives that word for the
    /// choice of the cluster.
    pub fn can_route_with(
        &self,
        headers: &HeaderMap,
        service_config: &ServiceConfig,
        word: u64,
    ) -> (r: bool)
        ensures
            r == has_target(
                service_config@,
                cluster_for(header_fields(*headers), service_config@, word),
            ),
    {
        let cluster_type = self.choose_cluster(headers, service_config, word);
        TrafficColorer::cluster_endpoints(service_config, cluster_type).len() > 0
            || service_config.stable_cluster.endpoints.len() > 0
    }

    /// The cluster and the endpoint that a request goes to, when chance gives that word
    /// for the choice of the cluster.
    pub fn determine_route_with(
        &self,
        service_name: &str,
        headers: &HeaderMap,
        service_config: &ServiceConfig,
        word: u64,
    ) -> (r: RouteTarget)
        requires
            has_target(
                service_config@,
                cluster_for(header_fields(*headers), service_config@, word),
            ),
        ensures
            is_target(
                r,
                service_name@,
                service_config@,
                cluster_for(header_fields(*headers), service_config@, word),
            ),
    {
        let mut generator = Generator::new();
        self.pick_target(service_name, headers, service_config, word, &mut generator)
    }

    /// Puts the cluster into the headers.
    pub fn inject_canary_headers(
        &self,
        request_headers: &mut HeaderMap,
        cluster_type: ClusterType,
    ) -> (r: Result<(), HeadersFull>)
        ensures
            r is Err ==> refused(*old(request_headers)),
            has_room_for(*old(request_headers), 1) ==> r is Ok,
            r is Ok ==> header_fields(*final(request_headers)) == with_text(
                header_fields(*old(request_headers)),
                CANARY_CLUSTER_HEADER@,
                cluster_type.name(),
            ),
            r is Err ==> header_fields(*final(request_headers)) == header_fields(
                *old(request_headers),
            ),
    {
        proof {
            lemma_known_names();
            lemma_cluster_names();
            text_round_trip(
                header_fields(*request_headers),
                CANARY_CLUSTER_HEADER@,
                cluster_type.name(),
            );
        }
        set_text(request_headers, CANARY_CLUSTER_HEADER, cluster_type.to_string().as_str())
    }
}

impl Clone for TrafficColorer {
    fn clone(&self) -> (r: Self)
        ensures
            r.mark() == self.mark(),
    {
        proof {
            use_type_invariant(self);
        }
        TrafficColorer {
            canary_header: self.canary_header.clone(),
            canary_value: self.canary_value.clone(),
        }
    }
}

impl Default for TrafficColorer {
    fn default() -> (r: Self)
        ensures
            r.mark() == (CANARY_HEADER@, CANARY_HEADER_VALUE@),
    {
        TrafficColorer::new()
    }
}

/// The headers `dst` with the canary mark, the cluster and the identifier of `src`.
pub open spec fn propagated(
    dst: Map<Seq<char>, Seq<Seq<u8>>>,
    src: Map<Seq<char>, Seq<Seq<u8>>>,
) -> Map<Seq<char>, Seq<Seq<u8>>> {
    with_copied(
        with_copied(with_copied(dst, src, CANARY_HEADER@), src, CANARY_CLUSTER_HEADER@),
        src,
        REQUEST_ID_HEADER@,
    )
}

/// What headers hold that could not take all three: the part that came before the one
/// that they had no room for.
pub open spec fn is_partly_propagated(
    after: Map<Seq<char>, Seq<Seq<u8>>>,
    dst: Map<Seq<char>, Seq<Seq<u8>>>,
    src: Map<Seq<char>, Seq<Seq<u8>>>,
) -> bool {
    &&& was_full(after)
    &&& {
        ||| after == dst
        ||| after == with_copied(dst, src, CANARY_HEADER@)
        ||| after == with_copied(
            with_copied(dst, src, CANARY_HEADER@),
            src,
            CANARY_CLUSTER_HEADER@,
        )
    }
}

/// Copies the canary mark, the cluster and the identifier from one request to another.
pub fn propagate_canary_headers(src: &HeaderMap, dst: &mut HeaderMap) -> (r: Result<
    (),
    HeadersFull,
>)
    ensures
        has_room_for(*old(dst), 3) ==> r is Ok,
        r is Ok ==> header_fields(*final(dst)) == propagated(
            header_fields(*old(dst)),
            header_fields(*src),
        ),
        r is Err ==> is_partly_propagated(
            header_fields(*final(dst)),
            header_fields(*old(dst)),
            header_fields(*src),
        ),
{
    proof {
        lemma_known_names();
    }
    let ghost d0 = *dst;
    if copy_value(src, dst, CANARY_HEADER).is_err() {
        return Err(HeadersFull);
    }
    let ghost d1 = *dst;
    proof {
        if has_room_for(d0, 3) {
            lemma_room(d0, d1, CANARY_HEADER@, 2);
        }
    }
    if copy_value(src, dst, CANARY_CLUSTER_HEADER).is_err() {
        return Err(HeadersFull);
    }
    proof {
        if has_room_for(d0, 3) {
            lemma_room(d1, *dst, CANARY_CLUSTER_HEADER@, 1);
        }
    }
    copy_value(src, dst, REQUEST_ID_HEADER)
}

/// The names of the clusters are visible text in lower case, and differ.
proof fn lemma_cluster_names()
    ensures
        "canary"@ != "stable"@,
        ascii_lower("canary"@) == "canary"@,
        ascii_lower("stable"@) == "stable"@,
        is_visible_text("canary"@),
        is_visible_text("stable"@),
{
    reveal_strlit("canary");
    reveal_strlit("stable");
    assert("canary"@[0] == 'c' && "stable"@[0] == 's');
    assert(ascii_lower("canary"@) =~= "canary"@);
    assert(ascii_lower("stable"@) =~= "stable"@);
}

/// A request that is not marked, or whose service has no canary cluster, always goes to
/// the stable cluster.
pub proof fn unmarked_requests_go_stable(
    fields: Map<Seq<char>, Seq<Seq<u8>>>,
    config: ServiceConfigView,
    word: u64,
)
    requires
        !marks_canary(fields) || config.canary is None,
    ensures
        cluster_for(fields, config, word) == ClusterType::Stable,
{
}

/// With a ratio of one or more every marked request goes to the canary cluster.
pub proof fn full_ratio_always_goes_canary(
    fields: Map<Seq<char>, Seq<Seq<u8>>>,
    config: ServiceConfigView,
    word: u64,
)
    requires
        config.canary_ratio.is_full(),
        may_go_canary(fields, config),
    ensures
        cluster_for(fields, config, word) == ClusterType::Canary,
{
    lemma_unit_draw(word, config.canary_ratio);
}

/// A request that is routable has an endpoint to go to, whatever chance gives.
pub proof fn routable_requests_have_targets(
    fields: Map<Seq<char>, Seq<Seq<u8>>>,
    config: ServiceConfigView,
    word: u64,
)
    requires
        is_routable(fields, config),
    ensures
        has_target(config, cluster_for(fields, config, word)),
{
    if config.stable.len() == 0 {
        full_ratio_always_goes_canary(fields, config, word);
    }
}

/// With a ratio of zero, of less, or of no number at all, no request does.
pub proof fn zero_ratio_never_goes_canary(
    fields: Map<Seq<char>, Seq<Seq<u8>>>,
    config: ServiceConfigView,
    word: u64,
)
    requires
        config.canary_ratio.is_nan() || config.canary_ratio.value() <= 0,
    ensures
        cluster_for(fields, config, word) == ClusterType::Stable,
{
    lemma_unit_draw(word, config.canary_ratio);
}

/// A larger ratio sends every request to the canary cluster that a smaller one does.
pub proof fn larger_ratio_sends_more_to_canary(small: Binary64, large: Binary64, word: u64)
    requires
        !large.is_nan(),
        small.value() <= large.value(),
        draws_below(small, word),
    ensures
        draws_below(large, word),
{
    clamping_is_monotone(small, large);
}

/// The cluster that one hop puts into the headers is the one that the next hop reads.
pub proof fn cluster_is_read_back(
    fields: Map<Seq<char>, Seq<Seq<u8>>>,
    cluster: ClusterType,
)
    ensures
        cluster_in(with_text(fields, CANARY_CLUSTER_HEADER@, cluster.name())) == Some(cluster),
{
    lemma_cluster_names();
    text_round_trip(fields, CANARY_CLUSTER_HEADER@, cluster.name());
}

/// Propagation carries over the first value of each of the three headers that the source
/// has, and leaves everything else as it was.
pub proof fn propagation_touches_three_headers(
    dst: Map<Seq<char>, Seq<Seq<u8>>>,
    src: Map<Seq<char>, Seq<Seq<u8>>>,
    name: Seq<char>,
)
    ensures
        ({
            let carried = src.contains_key(name) && (name == CANARY_HEADER@ || name
                == CANARY_CLUSTER_HEADER@ || name == REQUEST_ID_HEADER@);
            &&& carried ==> propagated(dst, src).contains_key(name) && propagated(dst, src)[name]
                == seq![src[name][0]]
            &&& !carried ==> propagated(dst, src).contains_key(name) == dst.contains_key(name)
            &&& !carried && dst.contains_key(name) ==> propagated(dst, src)[name] == dst[name]
        }),
{
}

/// The word that chance gave decides by one comparison: the number that its 53 high bits
/// stand for, a multiple of 2^-53, against the ratio. Both sides are counted in units of
/// 2^-1074.
pub proof fn words_below_ratio_go_canary(
    fields: Map<Seq<char>, Seq<Seq<u8>>>,
    config: ServiceConfigView,
    word: u64,
)
    requires
        may_go_canary(fields, config),
    ensures
        cluster_for(fields, config, word) == ClusterType::Canary <==> !config.canary_ratio.is_nan()
            && (word / 2048) as nat * vstd::arithmetic::power2::pow2(1021)
            < config.canary_ratio.value(),
{
    lemma_unit_draw(word, config.canary_ratio);
    lemma_draw_is_below_one(word);
}

/// Over a sequence of requests, of which each has the word that was drawn for it, those that
/// go to the canary cluster are exactly those that are marked, for a service with a canary
/// cluster, and whose own word lies below the ratio.
pub proof fn canary_requests_are_those_with_low_words(
    requests: Seq<(Map<Seq<char>, Seq<Seq<u8>>>, u64)>,
    config: ServiceConfigView,
)
    ensures
        forall|i: int|
            0 <= i < requests.len() ==> (cluster_for(
                (#[trigger] requests[i]).0,
                config,
                requests[i].1,
            ) == ClusterType::Canary <==> {
                &&& config.canary is Some
                &&& marks_canary(requests[i].0)
                &&& !config.canary_ratio.is_nan()
                &&& (requests[i].1 / 2048) as nat * vstd::arithmetic::power2::pow2(1021)
                    < config.canary_ratio.value()
            }),
{
    assert forall|i: int| 0 <= i < requests.len() implies (cluster_for(
        (#[trigger] requests[i]).0,
        config,
        requests[i].1,
    ) == ClusterType::Canary <==> {
        &&& config.canary is Some
        &&& marks_canary(requests[i].0)
        &&& !config.canary_ratio.is_nan()
        &&& (requests[i].1 / 2048) as nat * vstd::arithmetic::power2::pow2(1021)
            < config.canary_ratio.value()
    }) by {
        if may_go_canary(requests[i].0, config) {
            words_below_ratio_go_canary(requests[i].0, config, requests[i].1);
        }
    };
}

/// A request that was routed goes to the canary cluster exactly when it may and the one word
/// that was drawn for it lies below the ratio; no other draw has a part in that.
pub proof fn routed_request_goes_by_its_own_word(
    target: RouteTarget,
    service_name: Seq<char>,
    fields: Map<Seq<char>, Seq<Seq<u8>>>,
    config: ServiceConfigView,
    before: Seq<Draw>,
    after: Seq<Draw>,
)
    requires
        is_routed(target, service_name, fields, config, before, after),
    ensures
        before.len() < after.len() <= before.len() + 2,
        after.take(before.len() as int) == before,
        after[before.len() as int] matches Draw::Word(word) && (target.cluster_type
            == ClusterType::Canary <==> {
            &&& config.canary is Some
            &&& marks_canary(fields)
            &&& !config.canary_ratio.is_nan()
            &&& (word / 2048) as nat * vstd::arithmetic::power2::pow2(1021)
                < config.canary_ratio.value()
        }),
{
    let word = next_word(before, after)->0;
    canary_requests_are_those_with_low_words(seq![(fields, word)], config);
    assert(seq![(fields, word)][0] == (fields, word));
}

/// A request goes to an endpoint of its own cluster. Only where its cluster is empty does it
/// go to the first stable one.
pub proof fn targets_belong_to_their_cluster(
    target: RouteTarget,
    service_name: Seq<char>,
    config: ServiceConfigView,
    cluster: ClusterType,
)
    requires
        is_target(target, service_name, config, cluster),
    ensures
        target.service_name@ == service_name,
        target.cluster_type == cluster,
        cluster == ClusterType::Stable ==> config.stable.contains(target.endpoint@),
        cluster == ClusterType::Canary && config.canary is Some && config.canary->0.len() > 0
            ==> config.canary->0.contains(target.endpoint@),
        cluster == ClusterType::Canary && config.canary is Some && config.canary->0.len() == 0
            ==> target.endpoint@ == config.stable[0],
{
}

/// A request that was routed goes to the endpoint at the place that was drawn for it, below
/// the number of endpoints of its cluster. Where the canary cluster has none, nothing is
/// drawn, and the request goes to the first stable endpoint.
pub proof fn routed_request_goes_to_drawn_place(
    target: RouteTarget,
    service_name: Seq<char>,
    fields: Map<Seq<char>, Seq<Seq<u8>>>,
    config: ServiceConfigView,
    before: Seq<Draw>,
    after: Seq<Draw>,
)
    requires
        is_routed(target, service_name, fields, config, before, after),
    ensures
        target.cluster_type == ClusterType::Stable && config.stable.len() > 0 ==> after.len()
            == before.len() + 2 && (after[before.len() as int + 1] matches Draw::Index(len, i) && len
            == config.stable.len() && i < len && target.endpoint@ == config.stable[i as int]),
        target.cluster_type == ClusterType::Canary && config.canary->0.len() > 0 ==> after.len()
            == before.len() + 2 && (after[before.len() as int + 1] matches Draw::Index(len, i) && len
            == config.canary->0.len() && i < len && target.endpoint@
            == config.canary->0[i as int]),
        target.cluster_type == ClusterType::Canary && config.canary->0.len() == 0 ==> after.len()
            == before.len() + 1 && target.endpoint@ == config.stable[0],
{
    assert(after.skip(before.len() as int + 1).len() == after.len() - before.len() - 1);
}

} // verus!
