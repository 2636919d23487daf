//! The record of one traced request.

use crate::headers::{
    all_visible_bytes, ascii_text, header_fields, list_headers, lists, name_str, name_text,
    value_to_str, values_for,
};
use crate::string_map::StringMap;
use crate::text::{
    contains, decimal, from_utf8_lossy, has_substring, lemma_decimal, lossy_text, lowercase,
    to_lowercase, u64_to_string,
};
use crate::time::{is_wall_time, now_ms, timestamp_of, Duration};
use crate::trace_sampler::SamplingReason;
use crate::types::ClusterType;
use http::header::{HeaderMap, HeaderName, HeaderValue};
use vstd::prelude::*;
use vstd::string::StringExecFns;

verus! {

/// A call that was made on behalf of the traced request.
#[derive(Debug, Clone)]
pub struct DownstreamCall {
    pub service_name: String,
    pub cluster_type: String,
    pub endpoint: String,
    pub method: String,
    pub path: String,
    pub status_code: u16,
    pub duration_ms: u64,
    pub is_error: bool,
    pub is_timeout: bool,
    pub request_headers: StringMap<String>,
    pub response_headers: StringMap<String>,
}

/// What is kept of a traced request.
#[derive(Debug, Clone)]
pub struct TraceRecord {
    pub trace_id: String,
    pub request_id: String,
    pub timestamp_ms: u64,
    pub duration_ms: u64,
    pub client_ip: String,
    pub method: String,
    pub path: String,
    pub status_code: u16,
    pub sampled: bool,
    pub sampling_reason: String,
    pub is_canary: bool,
    pub cluster_type: String,
    pub request_headers: StringMap<String>,
    pub request_body: Option<String>,
    pub response_headers: StringMap<String>,
    pub response_body: Option<String>,
    pub downstream_calls: Vec<DownstreamCall>,
    pub error_message: Option<String>,
}

/// The texts that a map holds.
pub open spec fn text_map(m: Map<Seq<char>, String>) -> Map<Seq<char>, Seq<char>> {
    m.map_values(|s: String| s@)
}

/// A header whose lower-case name holds none of the words for secrets.
pub open spec fn is_harmless(lower_name: Seq<char>) -> bool {
    &&& !has_substring(lower_name, "cookie"@)
    &&& !has_substring(lower_name, "authorization"@)
    &&& !has_substring(lower_name, "token"@)
}

/// The last value of a header that shows as text.
pub open spec fn last_visible(values: Seq<Seq<u8>>) -> Option<Seq<char>>
    decreases values.len(),
{
    if values.len() == 0 {
        None
    } else if all_visible_bytes(values.last()) {
        Some(ascii_text(values.last()))
    } else {
        last_visible(values.drop_last())
    }
}

/// Headers as texts: under each name the last value that shows as text. Unless all are
/// wanted, only harmless ones.
pub open spec fn shown(
    fields: Map<Seq<char>, Seq<Seq<u8>>>,
    all: bool,
) -> Map<Seq<char>, Seq<char>> {
    Map::new(
        |name: Seq<char>|
            fields.contains_key(name) && (all || is_harmless(lowercase(name))) && last_visible(
                fields[name],
            ) is Some,
        |name: Seq<char>| last_visible(fields[name])->0,
    )
}

/// What is kept of headers: under each harmless name the last value that shows as text.
pub open spec fn captured(
    fields: Map<Seq<char>, Seq<Seq<u8>>>,
) -> Map<Seq<char>, Seq<char>> {
    shown(fields, false)
}

/// A lower-case content type that is text.
pub open spec fn is_text_type(lower: Seq<char>) -> bool {
    ||| has_substring(lower, "text/"@)
    ||| has_substring(lower, "application/json"@)
    ||| has_substring(lower, "application/xml"@)
    ||| has_substring(lower, "application/x-www-form-urlencoded"@)
    ||| has_substring(lower, "application/javascript"@)
}

/// Headers whose content type is text, or that name none.
pub open spec fn says_text(headers: Map<Seq<char>, Seq<char>>) -> bool {
    headers.contains_key("content-type"@) ==> is_text_type(lowercase(headers["content-type"@]))
}

/// The part of a body that is kept.
pub open spec fn clamped(body: Seq<u8>, max_size: usize) -> Seq<u8> {
    if body.len() <= max_size {
        body
    } else {
        body.take(max_size as int)
    }
}

/// How a kept body is shown: as text, or by its length alone.
pub open spec fn shown_body(kept: Seq<u8>, is_text: bool) -> Seq<char> {
    if is_text {
        lossy_text(kept)
    } else {
        "[binary data, "@ + decimal(kept.len()) + " bytes]"@
    }
}

impl TraceRecord {
    /// The difference of two timestamps, by the arithmetic of 64-bit numbers.
    pub open spec fn span_ms(from: u64, to: u64) -> u64 {
        if to >= from {
            (to - from) as u64
        } else {
            (to - from + 0x1_0000_0000_0000_0000) as u64
        }
    }

    /// The headers of the request or of the response.
    pub open spec fn headers_of(self, is_request: bool) -> Map<Seq<char>, Seq<char>> {
        if is_request {
            text_map(self.request_headers@)
        } else {
            text_map(self.response_headers@)
        }
    }

    /// A record that begins now and holds nothing but its identifiers.
    pub fn new(trace_id: String, request_id: String) -> (r: Self)
        ensures
            r.trace_id == trace_id,
            r.request_id == request_id,
            exists|since: Option<Duration>| #[trigger]
                is_wall_time(since) && r.timestamp_ms == timestamp_of(since),
            r.is_blank(),
    {
        TraceRecord {
            trace_id,
            request_id,
            timestamp_ms: now_ms(),
            duration_ms: 0,
            client_ip: String::new(),
            method: String::new(),
            path: String::new(),
            status_code: 0,
            sampled: false,
            sampling_reason: sampling_reason_to_string(SamplingReason::NotSampled),
            is_canary: false,
            cluster_type: String::new(),
            request_headers: StringMap::new(),
            request_body: None,
            response_headers: StringMap::new(),
            response_body: None,
            downstream_calls: Vec::new(),
            error_message: None,
        }
    }

    /// Nothing but the identifiers and the timestamp was filled in.
    pub open spec fn is_blank(self) -> bool {
        &&& self.duration_ms == 0
        &&& self.client_ip@.len() == 0
        &&& self.method@.len() == 0
        &&& self.path@.len() == 0
        &&& self.status_code == 0
        &&& !self.sampled
        &&& self.sampling_reason@ == SamplingReason::NotSampled.name()
        &&& !self.is_canary
        &&& self.cluster_type@.len() == 0
        &&& self.request_headers@ == Map::<Seq<char>, String>::empty()
        &&& self.request_body is None
        &&& self.response_headers@ == Map::<Seq<char>, String>::empty()
        &&& self.response_body is None
        &&& self.downstream_calls@.len() == 0
        &&& self.error_message is None
    }

    /// Notes how long the request took, up to now.
    pub fn finish(&mut self)
        ensures
            exists|since: Option<Duration>| #[trigger]
                is_wall_time(since) && final(self).duration_ms == TraceRecord::span_ms(
                    old(self).timestamp_ms,
                    timestamp_of(since),
                ),
            *final(self) == (TraceRecord { duration_ms: final(self).duration_ms, ..*old(self) }),
    {
        let now = now_ms();
        self.finish_at(now);
    }

    /// Notes how long the request took, up to a moment. Where the clock was set back in
    /// between, the difference wraps.
    pub fn finish_at(&mut self, now: u64)
        ensures
            *final(self) == (TraceRecord {
                duration_ms: TraceRecord::span_ms(old(self).timestamp_ms, now),
                ..*old(self)
            }),
    {
        self.duration_ms = now.wrapping_sub(self.timestamp_ms);
    }

    /// Keeps the harmless headers of the request or of the response, in place of what
    /// was kept before.
    pub fn with_headers(&mut self, headers: &HeaderMap, is_request: bool)
        ensures
            final(self).headers_of(is_request) == captured(header_fields(*headers)),
            is_request ==> *final(self) == (TraceRecord {
                request_headers: final(self).request_headers,
                ..*old(self)
            }),
            !is_request ==> *final(self) == (TraceRecord {
                response_headers: final(self).response_headers,
                ..*old(self)
            }),
    {
        let map = capture_headers(headers);
        if is_request {
            self.request_headers = map;
        } else {
            self.response_headers = map;
        }
    }

    /// Keeps a body, or the first part of it; an empty one leaves the record as it was.
    pub fn set_body(&mut self, body: &[u8], is_request: bool, max_size: usize)
        ensures
            body@.len() == 0 ==> *final(self) == *old(self),
            body@.len() > 0 ==> old(self).with_body(
                *final(self),
                shown_body(clamped(body@, max_size), says_text(old(self).headers_of(is_request))),
                is_request,
            ),
    {
        if body.len() == 0 {
            return;
        }
        let kept: &[u8] = if body.len() <= max_size {
            body
        } else {
            vstd::slice::slice_subrange(body, 0, max_size)
        };
        assert(kept@ =~= clamped(body@, max_size));
        let body_str = if is_text_content(is_request, &self.request_headers, &self.response_headers) {
            from_utf8_lossy(kept)
        } else {
            binary_note(kept.len())
        };
        self.store_body(body_str, is_request);
    }

    /// `after` is this record with a text as the body of the request or of the response.
    pub open spec fn with_body(self, after: TraceRecord, text: Seq<char>, is_request: bool) -> bool {
        if is_request {
            &&& after == (TraceRecord { request_body: after.request_body, ..self })
            &&& after.request_body is Some
            &&& after.request_body->0@ == text
        } else {
            &&& after == (TraceRecord { response_body: after.response_body, ..self })
            &&& after.response_body is Some
            &&& after.response_body->0@ == text
        }
    }

    /// Keeps a text as the body of the request or of the response.
    pub fn store_body(&mut self, text: String, is_request: bool)
        ensures
            old(self).with_body(*final(self), text@, is_request),
    {
        if is_request {
            self.request_body = Some(text);
        } else {
            self.response_body = Some(text);
        }
    }

    /// Adds a call at the end of the list.
    pub fn add_downstream_call(&mut self, call: DownstreamCall)
        ensures
            final(self).downstream_calls@ == old(self).downstream_calls@.push(call),
            *final(self) == (TraceRecord {
                downstream_calls: final(self).downstream_calls,
                ..*old(self)
            }),
    {
        self.downstream_calls.push(call);
    }
}

/// The note in place of a body that is not text.
pub fn binary_note(len: usize) -> (r: String)
    ensures
        r@ == "[binary data, "@ + decimal(len as nat) + " bytes]"@,
{
    let mut s = "[binary data, ".to_string();
    s.append(u64_to_string(len as u64).as_str());
    s.append(" bytes]");
    s
}

/// What is kept of the headers of a list, so far.
spec fn captures(
    map: Map<Seq<char>, Seq<char>>,
    entries: Seq<(HeaderName, HeaderValue)>,
    all: bool,
) -> bool {
    forall|name: Seq<char>|
        {
            let last = last_visible(values_for(entries, name));
            &&& #[trigger] map.contains_key(name) <==> last is Some && (all || is_harmless(
                lowercase(name),
            ))
            &&& map.contains_key(name) ==> map[name] == last->0
        }
}

/// The harmless headers, as texts.
pub fn capture_headers(headers: &HeaderMap) -> (r: StringMap<String>)
    ensures
        text_map(r@) == captured(header_fields(*headers)),
{
    show_headers(headers, false)
}

/// The headers as texts: all of them, or the harmless ones.
pub fn show_headers(headers: &HeaderMap, all: bool) -> (r: StringMap<String>)
    ensures
        text_map(r@) == shown(header_fields(*headers), all),
{
    let entries = list_headers(headers);
    let mut map: StringMap<String> = StringMap::new();
    let mut i: usize = 0;
    assert(entries@.take(0) =~= Seq::<(HeaderName, HeaderValue)>::empty());
    while i < entries.len()
        invariant
            i <= entries@.len(),
            lists(entries@, header_fields(*headers)),
            captures(text_map(map@), entries@.take(i as int), all),
        decreases entries@.len() - i,
    {
        let ghost before = map@;
        let entry = &entries[i];
        let ghost next = entries@.take(i + 1);
        proof {
            assert(next.drop_last() =~= entries@.take(i as int));
            assert(next.last() == entries@[i as int]);
            assert forall|name: Seq<char>|
                name != name_text(entries@[i as int].0) implies values_for(next, name)
                == values_for(entries@.take(i as int), name) by {};
            let name = name_text(entries@[i as int].0);
            let values = values_for(next, name);
            assert(values.drop_last() =~= values_for(entries@.take(i as int), name));
        }
        if let Some(v) = value_to_str(&entry.1) {
            let name = name_str(&entry.0);
            if all || should_capture_header(name) {
                map.insert(name.to_string(), v.to_string());
            }
        }
        proof {
            assert(captures(text_map(map@), next, all)) by {
                assert forall|name: Seq<char>|
                    {
                        let last = last_visible(values_for(next, name));
                        &&& #[trigger] text_map(map@).contains_key(name) <==> last is Some
                            && (all || is_harmless(lowercase(name)))
                        &&& text_map(map@).contains_key(name) ==> text_map(map@)[name] == last->0
                    } by {
                    assert(text_map(before).contains_key(name) <==> before.contains_key(name));
                };
            };
        }
        i = i + 1;
    }
    assert(entries@.take(entries@.len() as int) =~= entries@);
    proof {
        let fields = header_fields(*headers);
        let m = text_map(map@);
        assert(m =~= shown(fields, all)) by {
            assert forall|name: Seq<char>|
                m.contains_key(name) == shown(fields, all).contains_key(name) by {
                if fields.contains_key(name) {
                    assert(fields[name] == values_for(entries@, name));
                } else {
                    assert(values_for(entries@, name).len() == 0);
                }
            };
        };
    }
    map
}

/// Whether a header is kept: its name must not speak of cookies, credentials or tokens.
pub fn should_capture_header(key: &str) -> (r: bool)
    ensures
        r == is_harmless(lowercase(key@)),
{
    let k = to_lowercase(key);
    !(contains(k.as_str(), "cookie") || contains(k.as_str(), "authorization") || contains(
        k.as_str(),
        "token",
    ))
}

/// Whether the body that belongs to the headers is text.
pub fn is_text_content(
    is_request: bool,
    req_headers: &StringMap<String>,
    resp_headers: &StringMap<String>,
) -> (r: bool)
    ensures
        r == says_text(
            if is_request {
                text_map(req_headers@)
            } else {
                text_map(resp_headers@)
            },
        ),
{
    let headers = if is_request {
        req_headers
    } else {
        resp_headers
    };
    if let Some(content_type) = headers.get("content-type") {
        let ct = to_lowercase(content_type.as_str());
        let s = ct.as_str();
        return contains(s, "text/") || contains(s, "application/json") || contains(
            s,
            "application/xml",
        ) || contains(s, "application/x-www-form-urlencoded") || contains(
            s,
            "application/javascript",
        );
    }
    true
}

/// The name of a cluster, or nothing.
pub fn cluster_type_to_string(cluster: Option<ClusterType>) -> (r: String)
    ensures
        r@ == match cluster {
            Some(c) => c.name(),
            None => Seq::empty(),
        },
{
    match cluster {
        Some(c) => c.to_string(),
        None => String::new(),
    }
}

/// The name of a sampling reason.
pub fn sampling_reason_to_string(reason: SamplingReason) -> (r: String)
    ensures
        r@ == reason.name(),
{
    match reason {
        SamplingReason::NotSampled => "NotSampled".to_string(),
        SamplingReason::Percentage => "Percentage".to_string(),
        SamplingReason::CanaryForced => "CanaryForced".to_string(),
        SamplingReason::UrlRegex => "UrlRegex".to_string(),
        SamplingReason::HeaderForced => "HeaderForced".to_string(),
    }
}

/// No header that speaks of cookies, credentials or tokens, in letters of any case, is
/// ever kept.
pub proof fn secrets_are_not_captured(
    fields: Map<Seq<char>, Seq<Seq<u8>>>,
    name: Seq<char>,
)
    requires
        has_substring(lowercase(name), "cookie"@) || has_substring(
            lowercase(name),
            "authorization"@,
        ) || has_substring(lowercase(name), "token"@),
    ensures
        !captured(fields).contains_key(name),
{
}

/// What is kept of a body is never longer than asked for, and is its beginning.
pub proof fn kept_body_is_a_prefix(body: Seq<u8>, max_size: usize)
    ensures
        clamped(body, max_size).len() <= max_size,
        clamped(body, max_size).is_prefix_of(body),
        body.len() <= max_size ==> clamped(body, max_size) == body,
        body.len() > max_size ==> clamped(body, max_size).len() == max_size,
{
}

/// A header is kept exactly when its name, in lower case, holds none of the three words and
/// one of its values shows as text. What is kept is the last such value.
pub proof fn harmless_headers_are_kept(
    fields: Map<Seq<char>, Seq<Seq<u8>>>,
    name: Seq<char>,
    i: int,
)
    requires
        fields.contains_key(name),
        0 <= i < fields[name].len(),
        all_visible_bytes(fields[name][i]),
        forall|j: int| i < j < fields[name].len() ==> !all_visible_bytes(#[trigger] fields[name][j]),
    ensures
        !has_substring(lowercase(name), "cookie"@) && !has_substring(
            lowercase(name),
            "authorization"@,
        ) && !has_substring(lowercase(name), "token"@) <==> captured(fields).contains_key(name),
        captured(fields).contains_key(name) ==> captured(fields)[name] == ascii_text(
            fields[name][i],
        ),
        shown(fields, true).contains_key(name),
        shown(fields, true)[name] == ascii_text(fields[name][i]),
{
    lemma_last_visible(fields[name], i);
}

/// A header of which no value shows as text is not kept, and neither is one that is not
/// there.
pub proof fn nothing_else_is_kept(
    fields: Map<Seq<char>, Seq<Seq<u8>>>,
    name: Seq<char>,
    all: bool,
)
    requires
        fields.contains_key(name) ==> forall|j: int|
            0 <= j < fields[name].len() ==> !all_visible_bytes(#[trigger] fields[name][j]),
    ensures
        !shown(fields, all).contains_key(name),
{
    if fields.contains_key(name) {
        lemma_none_visible(fields[name]);
    }
}

proof fn lemma_last_visible(values: Seq<Seq<u8>>, i: int)
    requires
        0 <= i < values.len(),
        all_visible_bytes(values[i]),
        forall|j: int| i < j < values.len() ==> !all_visible_bytes(#[trigger] values[j]),
    ensures
        last_visible(values) == Some(ascii_text(values[i])),
    decreases values.len(),
{
    if i < values.len() - 1 {
        assert(!all_visible_bytes(values[values.len() - 1]));
        let front = values.drop_last();
        assert(front[i] == values[i]);
        assert forall|j: int| i < j < front.len() implies !all_visible_bytes(#[trigger] front[j]) by {
            assert(front[j] == values[j]);
        };
        lemma_last_visible(front, i);
    }
}

proof fn lemma_none_visible(values: Seq<Seq<u8>>)
    requires
        forall|j: int| 0 <= j < values.len() ==> !all_visible_bytes(#[trigger] values[j]),
    ensures
        last_visible(values) is None,
    decreases values.len(),
{
    if values.len() > 0 {
        assert(!all_visible_bytes(values[values.len() - 1]));
        let front = values.drop_last();
        assert forall|j: int| 0 <= j < front.len() implies !all_visible_bytes(#[trigger] front[j]) by {
            assert(front[j] == values[j]);
        };
        lemma_none_visible(front);
    }
}

/// The duration of a record leads from its beginning to its end, on the circle of 64-bit
/// numbers.
pub proof fn duration_leads_to_the_end(from: u64, to: u64)
    ensures
        (from + TraceRecord::span_ms(from, to)) % 0x1_0000_0000_0000_0000 == to,
        from <= to ==> from + TraceRecord::span_ms(from, to) == to,
{
}

/// A body without a content type, or with one of the known ones in letters of any case, is
/// shown as text, and that text gives back the bytes of a valid body. Any other body is
/// shown by its length alone, so two of the same length look alike.
pub proof fn bodies_are_shown_by_their_type(
    headers: Map<Seq<char>, Seq<char>>,
    kept: Seq<u8>,
    other: Seq<u8>,
)
    ensures
        !headers.contains_key("content-type"@) ==> says_text(headers),
        headers.contains_key("content-type"@) ==> {
            let lower = lowercase(headers["content-type"@]);
            says_text(headers) <==> {
                ||| has_substring(lower, "text/"@)
                ||| has_substring(lower, "application/json"@)
                ||| has_substring(lower, "application/xml"@)
                ||| has_substring(lower, "application/x-www-form-urlencoded"@)
                ||| has_substring(lower, "application/javascript"@)
            }
        },
        vstd::utf8::valid_utf8(kept) ==> vstd::utf8::encode_utf8(shown_body(kept, true)) == kept,
        kept.len() == other.len() ==> shown_body(kept, false) == shown_body(other, false),
        kept.len() != other.len() ==> shown_body(kept, false) != shown_body(other, false),
{
    if vstd::utf8::valid_utf8(kept) {
        vstd::utf8::decode_utf8_encode_utf8(kept);
    }
    if kept.len() != other.len() {
        let front = "[binary data, "@;
        let back = " bytes]"@;
        let a = decimal(kept.len());
        let b = decimal(other.len());
        lemma_decimal(kept.len());
        lemma_decimal(other.len());
        let x = shown_body(kept, false);
        let y = shown_body(other, false);
        if x == y {
            assert(x.len() == front.len() + a.len() + back.len());
            assert(y.len() == front.len() + b.len() + back.len());
            assert(x.subrange(front.len() as int, (front.len() + a.len()) as int) =~= a);
            assert(y.subrange(front.len() as int, (front.len() + b.len()) as int) =~= b);
            assert(a == b);
        }
    }
}

} // verus!
