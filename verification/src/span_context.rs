//! The context of one request: its identifier, its time budget and its route.

use crate::headers::{
    field_text, get_text, has_room_for, header_fields, is_visible_text, lemma_known_names,
    lemma_room, lemma_shown_is_visible, set_text, shown_text_is_the_first_value, text_round_trip,
    was_full, with_text, HeadersFull,
};
use crate::random::{are_drawn_bytes, Draw, Generator};
use crate::text::{
    ascii_lower, hex, hex_encode, is_spelled, lemma_spelled, str_eq, to_lowercase,
};
use crate::time::{age_of, is_age, is_present, present, Duration, NANOS_PER_MILLI};
use crate::timeout_budget::{
    budget_ms, granted_ms, granted_time_is_read_back, with_granted, TimeoutBudget,
};
use crate::types::{
    ClusterType, CANARY_CLUSTER_HEADER, CANARY_HEADER, GLOBAL_TIMEOUT_HEADER, REQUEST_ID_HEADER,
};
use http::header::HeaderMap;
use std::time::Instant;
use vstd::prelude::*;

verus! {

/// What is known of the request at hand.
#[derive(Debug)]
pub struct SpanContext {
    pub request_id: String,
    pub timeout_budget: TimeoutBudget,
    pub is_canary: bool,
    pub cluster_type: Option<ClusterType>,
    pub created_at: Instant,
}

impl Clone for SpanContext {
    fn clone(&self) -> (r: Self)
        ensures
            r == *self,
    {
        SpanContext {
            request_id: self.request_id.clone(),
            timeout_budget: self.timeout_budget,
            is_canary: self.is_canary,
            cluster_type: self.cluster_type,
            created_at: self.created_at,
        }
    }
}

/// The headers mark the request as canary traffic, in letters of any case.
pub open spec fn marks_canary(fields: Map<Seq<char>, Seq<Seq<u8>>>) -> bool {
    match field_text(fields, CANARY_HEADER@) {
        Some(text) => ascii_lower(text) == "canary"@,
        None => false,
    }
}

/// The cluster that a text names, in letters of any case.
pub open spec fn cluster_named(text: Seq<char>) -> Option<ClusterType> {
    if ascii_lower(text) == "stable"@ {
        Some(ClusterType::Stable)
    } else if ascii_lower(text) == "canary"@ {
        Some(ClusterType::Canary)
    } else {
        None
    }
}

/// The cluster that the headers name.
pub open spec fn cluster_in(fields: Map<Seq<char>, Seq<Seq<u8>>>) -> Option<ClusterType> {
    match field_text(fields, CANARY_CLUSTER_HEADER@) {
        Some(text) => cluster_named(text),
        None => None,
    }
}

/// The identifier that the headers carry, or else the given one.
pub open spec fn request_id_or(
    fields: Map<Seq<char>, Seq<Seq<u8>>>,
    fallback: Seq<char>,
) -> Seq<char> {
    match field_text(fields, REQUEST_ID_HEADER@) {
        Some(text) => text,
        None => fallback,
    }
}

/// Sixteen random bytes as thirty-two hexadecimal digits.
pub open spec fn is_generated_id(id: Seq<char>) -> bool {
    exists|bytes: Seq<u8>| #[trigger]
        are_drawn_bytes(bytes) && bytes.len() == 16 && id == hex(bytes)
}

/// Text from a header is the text it was asked for, in lower case.
proof fn lemma_lower_of_field(fields: Map<Seq<char>, Seq<Seq<u8>>>, name: Seq<char>)
    ensures
        field_text(fields, name) matches Some(text) ==> vstd::utf8::is_ascii_chars(text),
{
    if field_text(fields, name) is Some {
        lemma_shown_is_visible(fields[name][0]);
    }
}

impl SpanContext {
    /// A context with its own budget, of a request that is not known to be canary.
    pub fn new(request_id: String, total_budget_ms: u64) -> (r: Self)
        ensures
            r.request_id == request_id,
            r.timeout_budget.total_budget.nanos == total_budget_ms * NANOS_PER_MILLI,
            is_present(r.timeout_budget.start_time),
            !r.is_canary,
            r.cluster_type is None,
            is_present(r.created_at),
    {
        SpanContext {
            request_id,
            timeout_budget: TimeoutBudget::new(total_budget_ms),
            is_canary: false,
            cluster_type: None,
            created_at: present(),
        }
    }

    /// The context that the headers of a request describe. A request without an
    /// identifier gets a random one.
    pub fn from_headers(headers: &HeaderMap, default_budget_ms: u64) -> (r: Self)
        ensures
            r.is_described_by(header_fields(*headers), default_budget_ms),
            is_present(r.timeout_budget.start_time),
            is_present(r.created_at),
            match field_text(header_fields(*headers), REQUEST_ID_HEADER@) {
                Some(text) => r.request_id@ == text,
                None => is_generated_id(r.request_id@),
            },
    {
        proof {
            lemma_known_names();
            lemma_lower_of_field(header_fields(*headers), CANARY_HEADER@);
            lemma_lower_of_field(header_fields(*headers), CANARY_CLUSTER_HEADER@);
        }
        let request_id = match get_text(headers, REQUEST_ID_HEADER) {
            Some(id) => id,
            None => generate_request_id(),
        };
        let (timeout_budget, _from_header) = TimeoutBudget::from_header_or_new(
            headers,
            default_budget_ms,
        );
        let is_canary = match get_text(headers, CANARY_HEADER) {
            Some(v) => str_eq(to_lowercase(v.as_str()).as_str(), "canary"),
            None => false,
        };
        let cluster_type = match get_text(headers, CANARY_CLUSTER_HEADER) {
            Some(v) => {
                let lower = to_lowercase(v.as_str());
                if str_eq(lower.as_str(), "stable") {
                    Some(ClusterType::Stable)
                } else if str_eq(lower.as_str(), "canary") {
                    Some(ClusterType::Canary)
                } else {
                    None
                }
            },
            None => None,
        };
        SpanContext {
            request_id,
            timeout_budget,
            is_canary,
            cluster_type,
            created_at: present(),
        }
    }

    /// Budget, canary mark and cluster are those that the headers give.
    pub open spec fn is_described_by(
        self,
        fields: Map<Seq<char>, Seq<Seq<u8>>>,
        default_budget_ms: u64,
    ) -> bool {
        &&& self.timeout_budget.total_budget.nanos == budget_ms(fields, default_budget_ms)
            * NANOS_PER_MILLI
        &&& self.is_canary == marks_canary(fields)
        &&& self.cluster_type == cluster_in(fields)
    }

    /// What is left of the budget now.
    pub fn remaining_budget(&self) -> (r: Duration)
        ensures
            exists|age: Duration| #[trigger]
                is_age(self.timeout_budget.start_time, age) && r == self.timeout_budget.left(age),
            r.nanos <= self.timeout_budget.total_budget.nanos,
    {
        self.timeout_budget.remaining()
    }

    /// The whole milliseconds that are left of the budget now.
    pub fn remaining_budget_ms(&self) -> (r: u64)
        ensures
            exists|age: Duration| #[trigger]
                is_age(self.timeout_budget.start_time, age) && r == self.timeout_budget.left(
                    age,
                ).millis(),
    {
        self.timeout_budget.remaining_ms()
    }

    /// Whether nothing is left of the budget now.
    pub fn is_budget_expired(&self) -> (r: bool)
        ensures
            exists|age: Duration| #[trigger]
                is_age(self.timeout_budget.start_time, age) && r == (self.timeout_budget.left(
                    age,
                ).nanos == 0),
    {
        self.timeout_budget.is_expired()
    }

    /// Whether at least `required` is left of the budget now.
    pub fn has_enough_budget(&self, required: Duration) -> (r: bool)
        ensures
            exists|age: Duration| #[trigger]
                is_age(self.timeout_budget.start_time, age) && r == (self.timeout_budget.left(
                    age,
                ).nanos >= required.nanos),
    {
        self.timeout_budget.has_enough_budget(required)
    }

    pub fn set_cluster_type(&mut self, cluster: ClusterType)
        ensures
            *final(self) == (SpanContext { cluster_type: Some(cluster), ..*old(self) }),
    {
        self.cluster_type = Some(cluster);
    }

    /// The headers with the identifier in them.
    pub open spec fn with_id(
        self,
        fields: Map<Seq<char>, Seq<Seq<u8>>>,
    ) -> Map<Seq<char>, Seq<Seq<u8>>> {
        with_text(fields, REQUEST_ID_HEADER@, self.request_id@)
    }

    /// The headers with the canary mark in them, where there is one.
    pub open spec fn with_mark(
        self,
        fields: Map<Seq<char>, Seq<Seq<u8>>>,
    ) -> Map<Seq<char>, Seq<Seq<u8>>> {
        if self.is_canary {
            with_text(fields, CANARY_HEADER@, "canary"@)
        } else {
            fields
        }
    }

    /// The headers with the cluster in them, where there is one.
    pub open spec fn with_cluster(
        self,
        fields: Map<Seq<char>, Seq<Seq<u8>>>,
    ) -> Map<Seq<char>, Seq<Seq<u8>>> {
        match self.cluster_type {
            Some(cluster) => with_text(fields, CANARY_CLUSTER_HEADER@, cluster.name()),
            None => fields,
        }
    }

    /// The headers with this context in them, when `ms` milliseconds are left.
    pub open spec fn injected(
        self,
        fields: Map<Seq<char>, Seq<Seq<u8>>>,
        ms: u64,
    ) -> Map<Seq<char>, Seq<Seq<u8>>> {
        with_granted(self.with_cluster(self.with_mark(self.with_id(fields))), ms)
    }

    /// What headers hold that could not take all of the context: the part that came
    /// before what they had no room for.
    pub open spec fn is_partly_in(
        self,
        before: Map<Seq<char>, Seq<Seq<u8>>>,
        after: Map<Seq<char>, Seq<Seq<u8>>>,
    ) -> bool {
        &&& was_full(after)
        &&& {
            ||| after == before
            ||| after == self.with_id(before)
            ||| after == self.with_mark(self.with_id(before))
            ||| after == self.with_cluster(self.with_mark(self.with_id(before)))
        }
    }

    /// Puts the context into the headers, with the time that is left now.
    pub fn inject_headers(&self, headers: &mut HeaderMap) -> (r: Result<(), HeadersFull>)
        ensures
            has_room_for(*old(headers), 4) ==> r is Ok,
            r is Ok ==> exists|age: Duration| #[trigger]
                is_age(self.timeout_budget.start_time, age) && header_fields(*final(headers))
                    == self.injected(
                    header_fields(*old(headers)),
                    self.timeout_budget.left(age).millis(),
                ),
            r is Err ==> self.is_partly_in(
                header_fields(*old(headers)),
                header_fields(*final(headers)),
            ),
    {
        let age = age_of(&self.timeout_budget.start_time);
        self.inject_headers_after(headers, age)
    }

    /// Puts the context into the headers, with the time that is left after `elapsed`.
    pub fn inject_headers_after(&self, headers: &mut HeaderMap, elapsed: Duration) -> (r: Result<
        (),
        HeadersFull,
    >)
        ensures
            has_room_for(*old(headers), 4) ==> r is Ok,
            r is Ok ==> header_fields(*final(headers)) == self.injected(
                header_fields(*old(headers)),
                self.timeout_budget.left(elapsed).millis(),
            ),
            r is Err ==> self.is_partly_in(
                header_fields(*old(headers)),
                header_fields(*final(headers)),
            ),
    {
        proof {
            lemma_known_names();
        }
        let ghost h0 = *headers;
        if set_text(headers, REQUEST_ID_HEADER, self.request_id.as_str()).is_err() {
            return Err(HeadersFull);
        }
        let ghost h1 = *headers;
        proof {
            if has_room_for(h0, 4) {
                lemma_room(h0, h1, REQUEST_ID_HEADER@, 3);
            }
        }
        if self.is_canary {
            if set_text(headers, CANARY_HEADER, "canary").is_err() {
                return Err(HeadersFull);
            }
        }
        let ghost h2 = *headers;
        proof {
            if has_room_for(h0, 4) {
                lemma_room(h1, h2, CANARY_HEADER@, 2);
            }
        }
        if let Some(cluster) = self.cluster_type {
            if set_text(headers, CANARY_CLUSTER_HEADER, cluster.to_string().as_str()).is_err() {
                return Err(HeadersFull);
            }
        }
        proof {
            if has_room_for(h0, 4) {
                lemma_room(h2, *headers, CANARY_CLUSTER_HEADER@, 1);
            }
        }
        self.timeout_budget.inject_header_after(headers, elapsed)
    }

    pub fn with_request_id(self, request_id: String) -> (r: Self)
        ensures
            r == (SpanContext { request_id, ..self }),
    {
        let mut ctx = self;
        ctx.request_id = request_id;
        ctx
    }

    pub fn with_canary(self, is_canary: bool) -> (r: Self)
        ensures
            r == (SpanContext { is_canary, ..self }),
    {
        let mut ctx = self;
        ctx.is_canary = is_canary;
        ctx
    }
}

/// A random identifier.
pub fn generate_request_id() -> (r: String)
    ensures
        is_generated_id(r@),
        r@.len() == 32,
        exists|generator: &mut Generator|
            (*generator)@ == Seq::<Draw>::empty() && #[trigger] call_ensures(
                generate_request_id_from,
                (generator,),
                r,
            ),
{
    let mut generator = Generator::new();
    generate_request_id_from(&mut generator)
}

/// A random identifier: the sixteen bytes that the generator gives next, and no others.
pub fn generate_request_id_from(generator: &mut Generator) -> (r: String)
    ensures
        is_generated_id(r@),
        r@.len() == 32,
        final(generator)@.len() == old(generator)@.len() + 1,
        final(generator)@.drop_last() == old(generator)@,
        final(generator)@.last() matches Draw::Bytes(bytes) && bytes.len() == 16 && r@ == hex(
            bytes,
        ),
{
    let ghost before = generator@;
    let bytes = generator.bytes();
    assert(generator@.drop_last() =~= before);
    let r = hex_encode(bytes.as_slice());
    assert(bytes@.len() == 16);
    r
}

/// The context of the task at hand: there is none outside of any scope, nor in a scope
/// that holds none.
pub fn try_get_span_context(current: Option<&Option<SpanContext>>) -> (r: Option<SpanContext>)
    ensures
        r == match current {
            Some(slot) => *slot,
            None => None,
        },
{
    match current {
        Some(Some(ctx)) => Some(ctx.clone()),
        _ => None,
    }
}

/// The context of the task at hand, which must have one.
pub fn get_span_context(current: Option<&Option<SpanContext>>) -> (r: SpanContext)
    requires
        current is Some,
        *current->0 is Some,
    ensures
        *current->0 == Some(r),
{
    try_get_span_context(current).unwrap()
}

/// Applies a change to the context of a scope, where it holds one.
pub fn update_span_context<F: FnOnce(&mut SpanContext)>(slot: &mut Option<SpanContext>, f: F)
    requires
        *old(slot) matches Some(before) ==> forall|c: &mut SpanContext|
            *c == before ==> f.requires((c,)),
    ensures
        *old(slot) is None ==> *final(slot) is None,
        *old(slot) matches Some(before) ==> exists|c: &mut SpanContext|
            *c == before && *final(slot) == Some(*final(c)) && #[trigger] f.ensures((c,), ()),
{
    if let Some(ctx) = slot {
        f(ctx);
    }
}

/// A context that one hop puts into headers is what the next hop reads from them: the
/// identifier, the canary mark, the cluster and the time that was left. The headers may
/// hold anything else, but no canary mark and no cluster of their own.
pub proof fn context_is_read_back(
    ctx: SpanContext,
    fields: Map<Seq<char>, Seq<Seq<u8>>>,
    ms: u64,
    fallback: Seq<char>,
)
    requires
        is_visible_text(ctx.request_id@),
        !fields.contains_key(CANARY_HEADER@),
        !fields.contains_key(CANARY_CLUSTER_HEADER@),
    ensures
        request_id_or(ctx.injected(fields, ms), fallback) == ctx.request_id@,
        marks_canary(ctx.injected(fields, ms)) == ctx.is_canary,
        cluster_in(ctx.injected(fields, ms)) == ctx.cluster_type,
        granted_ms(ctx.injected(fields, ms)) == Some(ms),
{
    lemma_known_names();
    reveal_strlit("canary");
    reveal_strlit("stable");
    assert("canary"@.len() == 6 && "stable"@.len() == 6);
    assert("canary"@[0] == 'c' && "stable"@[0] == 's');
    assert(ascii_lower("canary"@) =~= "canary"@);
    assert(ascii_lower("stable"@) =~= "stable"@);
    assert(is_visible_text("canary"@));
    assert(is_visible_text("stable"@));
    let f1 = ctx.with_id(fields);
    let f2 = ctx.with_mark(f1);
    let f3 = ctx.with_cluster(f2);
    text_round_trip(fields, REQUEST_ID_HEADER@, ctx.request_id@);
    text_round_trip(f1, CANARY_HEADER@, "canary"@);
    text_round_trip(f2, CANARY_CLUSTER_HEADER@, "canary"@);
    text_round_trip(f2, CANARY_CLUSTER_HEADER@, "stable"@);
    granted_time_is_read_back(f3, ms, 0);
}

/// A generated identifier has thirty-two digits and can travel in a header.
pub proof fn generated_ids_fit_headers(id: Seq<char>)
    requires
        is_generated_id(id),
    ensures
        id.len() == 32,
        is_visible_text(id),
{
}

/// A request is marked as canary traffic exactly when the first value of the canary header
/// is the word "canary", in letters of any case.
pub proof fn canary_marks_are_spelled_out(fields: Map<Seq<char>, Seq<Seq<u8>>>)
    ensures
        marks_canary(fields) <==> (field_text(fields, CANARY_HEADER@) matches Some(t) && is_spelled(
            t,
            seq!['c', 'a', 'n', 'a', 'r', 'y'],
            seq!['C', 'A', 'N', 'A', 'R', 'Y'],
        )),
{
    reveal_strlit("canary");
    assert("canary"@ =~= seq!['c', 'a', 'n', 'a', 'r', 'y']);
    if let Some(t) = field_text(fields, CANARY_HEADER@) {
        lemma_spelled(
            t,
            seq!['c', 'a', 'n', 'a', 'r', 'y'],
            seq!['C', 'A', 'N', 'A', 'R', 'Y'],
        );
    }
}

/// The headers name a cluster exactly when the first value of the cluster header is its
/// name, in letters of any case.
pub proof fn clusters_are_spelled_out(fields: Map<Seq<char>, Seq<Seq<u8>>>)
    ensures
        cluster_in(fields) == Some(ClusterType::Canary) <==> (field_text(
            fields,
            CANARY_CLUSTER_HEADER@,
        ) matches Some(t) && is_spelled(
            t,
            seq!['c', 'a', 'n', 'a', 'r', 'y'],
            seq!['C', 'A', 'N', 'A', 'R', 'Y'],
        )),
        cluster_in(fields) == Some(ClusterType::Stable) <==> (field_text(
            fields,
            CANARY_CLUSTER_HEADER@,
        ) matches Some(t) && is_spelled(
            t,
            seq!['s', 't', 'a', 'b', 'l', 'e'],
            seq!['S', 'T', 'A', 'B', 'L', 'E'],
        )),
{
    reveal_strlit("canary");
    reveal_strlit("stable");
    assert("canary"@ =~= seq!['c', 'a', 'n', 'a', 'r', 'y']);
    assert("stable"@ =~= seq!['s', 't', 'a', 'b', 'l', 'e']);
    assert("canary"@[0] != "stable"@[0]);
    if let Some(t) = field_text(fields, CANARY_CLUSTER_HEADER@) {
        lemma_spelled(
            t,
            seq!['c', 'a', 'n', 'a', 'r', 'y'],
            seq!['C', 'A', 'N', 'A', 'R', 'Y'],
        );
        lemma_spelled(
            t,
            seq!['s', 't', 'a', 'b', 'l', 'e'],
            seq!['S', 'T', 'A', 'B', 'L', 'E'],
        );
    }
}

/// A context takes from the headers what each of three headers says, and from no other; its
/// time is what they grant, or else the default.
pub proof fn context_follows_its_headers(
    ctx: SpanContext,
    fields: Map<Seq<char>, Seq<Seq<u8>>>,
    default_ms: u64,
)
    requires
        ctx.is_described_by(fields, default_ms),
    ensures
        ctx.is_canary <==> marks_canary(fields),
        ctx.cluster_type == cluster_in(fields),
        granted_ms(fields) matches Some(ms) ==> ctx.timeout_budget.total_budget.nanos == ms
            * 1_000_000,
        granted_ms(fields) is None ==> ctx.timeout_budget.total_budget.nanos == default_ms
            * 1_000_000,
{
}

/// Putting a context into headers changes four of them at most: the canary mark only where
/// the context has one, and the cluster only where it knows one.
pub proof fn injection_touches_four_headers(
    ctx: SpanContext,
    fields: Map<Seq<char>, Seq<Seq<u8>>>,
    ms: u64,
    name: Seq<char>,
)
    requires
        name != REQUEST_ID_HEADER@,
        name != GLOBAL_TIMEOUT_HEADER@,
        name != CANARY_HEADER@ || !ctx.is_canary,
        name != CANARY_CLUSTER_HEADER@ || ctx.cluster_type is None,
    ensures
        ctx.injected(fields, ms).contains_key(name) == fields.contains_key(name),
        fields.contains_key(name) ==> ctx.injected(fields, ms)[name] == fields[name],
{
}

/// The identifier that a request carries is kept to the byte.
pub proof fn own_identifiers_are_kept(
    fields: Map<Seq<char>, Seq<Seq<u8>>>,
    fallback: Seq<char>,
)
    ensures
        field_text(fields, REQUEST_ID_HEADER@) is Some ==> vstd::utf8::encode_utf8(
            request_id_or(fields, fallback),
        ) == fields[REQUEST_ID_HEADER@][0],
        !fields.contains_key(REQUEST_ID_HEADER@) ==> request_id_or(fields, fallback) == fallback,
{
    shown_text_is_the_first_value(fields, REQUEST_ID_HEADER@);
}

} // verus!
