//! Carrying request metadata between HTTP headers and gRPC.

use crate::headers::{
    all_value_bytes, all_visible_bytes, field_text, get_text, has_room_for, header_fields,
    is_header_name, is_visible_text, lemma_known_names, lemma_room, lemma_shown_is_visible,
    new_headers, no_fields, set_text, text_round_trip, with_text,
};
use crate::string_map::StringMap;
use crate::trace_record::text_map;
use crate::types::{CANARY_CLUSTER_HEADER, CANARY_HEADER, GLOBAL_TIMEOUT_HEADER, REQUEST_ID_HEADER};
use http::header::HeaderMap;
use vstd::prelude::*;
use vstd::utf8::encode_utf8;

verus! {

/// The metadata key of the canary mark.
pub const CANARY_METADATA_KEY: &'static str = "x-envoy";

/// The metadata key of the cluster.
pub const CANARY_CLUSTER_METADATA_KEY: &'static str = "x-canary-cluster";

/// The metadata key of the remaining time.
pub const GLOBAL_TIMEOUT_METADATA_KEY: &'static str = "x-global-timeout-remaining-ms";

/// The keys that are carried over.
pub open spec fn is_carried(key: Seq<char>) -> bool {
    ||| key == CANARY_METADATA_KEY@
    ||| key == CANARY_CLUSTER_METADATA_KEY@
    ||| key == GLOBAL_TIMEOUT_METADATA_KEY@
    ||| key == REQUEST_ID_HEADER@
}

/// The metadata that headers give: under each carried key the text of the header of the
/// same name, where it shows as text.
pub open spec fn metadata_of(
    fields: Map<Seq<char>, Seq<Seq<u8>>>,
) -> Map<Seq<char>, Seq<char>> {
    Map::new(
        |key: Seq<char>| is_carried(key) && field_text(fields, key) is Some,
        |key: Seq<char>| field_text(fields, key)->0,
    )
}

/// The headers that metadata gives: under each carried key its text, where it can be a
/// header value.
pub open spec fn headers_of(metadata: Map<Seq<char>, Seq<char>>) -> Map<Seq<char>, Seq<Seq<u8>>> {
    Map::new(
        |key: Seq<char>|
            is_carried(key) && metadata.contains_key(key) && all_value_bytes(
                encode_utf8(metadata[key]),
            ),
        |key: Seq<char>| seq![encode_utf8(metadata[key])],
    )
}

/// The metadata with what one header gives.
spec fn with_header(
    metadata: Map<Seq<char>, Seq<char>>,
    fields: Map<Seq<char>, Seq<Seq<u8>>>,
    key: Seq<char>,
) -> Map<Seq<char>, Seq<char>> {
    match field_text(fields, key) {
        Some(text) => metadata.insert(key, text),
        None => metadata,
    }
}

fn carry_to_metadata(headers: &HeaderMap, name: &str, metadata: &mut StringMap<String>)
    requires
        is_header_name(name@),
        !name@.contains('"'),
    ensures
        text_map(final(metadata)@) == with_header(
            text_map(old(metadata)@),
            header_fields(*headers),
            name@,
        ),
{
    if let Some(v) = get_text(headers, name) {
        let ghost before = metadata@;
        let ghost text = v;
        metadata.insert(name.to_string(), v);
        assert(text_map(metadata@) =~= text_map(before).insert(name@, text@));
    }
}

/// The metadata for a gRPC call, from the headers of a request.
pub fn http_headers_to_grpc_metadata(headers: &HeaderMap) -> (r: StringMap<String>)
    ensures
        text_map(r@) == metadata_of(header_fields(*headers)),
{
    proof {
        lemma_known_names();
    }
    let mut metadata: StringMap<String> = StringMap::new();
    assert(text_map(metadata@) =~= Map::<Seq<char>, Seq<char>>::empty());
    carry_to_metadata(headers, CANARY_HEADER, &mut metadata);
    carry_to_metadata(headers, CANARY_CLUSTER_HEADER, &mut metadata);
    carry_to_metadata(headers, GLOBAL_TIMEOUT_HEADER, &mut metadata);
    carry_to_metadata(headers, REQUEST_ID_HEADER, &mut metadata);
    assert(text_map(metadata@) =~= metadata_of(header_fields(*headers)));
    metadata
}

/// The headers with what one key of the metadata gives.
spec fn with_key(
    fields: Map<Seq<char>, Seq<Seq<u8>>>,
    metadata: Map<Seq<char>, Seq<char>>,
    key: Seq<char>,
) -> Map<Seq<char>, Seq<Seq<u8>>> {
    if metadata.contains_key(key) {
        with_text(fields, key, metadata[key])
    } else {
        fields
    }
}

fn carry_to_headers(metadata: &StringMap<String>, key: &str, headers: &mut HeaderMap)
    requires
        is_header_name(key@),
        has_room_for(*old(headers), 1),
    ensures
        header_fields(*final(headers)) == with_key(
            header_fields(*old(headers)),
            text_map(metadata@),
            key@,
        ),
{
    if let Some(value) = metadata.get(key) {
        let _taken = set_text(headers, key, value.as_str());
    }
}

/// The headers for an HTTP request, from the metadata of a gRPC call.
pub fn grpc_metadata_to_http_headers(metadata: &StringMap<String>) -> (r: HeaderMap)
    ensures
        header_fields(r) == headers_of(text_map(metadata@)),
{
    proof {
        lemma_known_names();
    }
    let mut headers = new_headers();
    let ghost h0 = headers;
    carry_to_headers(metadata, CANARY_METADATA_KEY, &mut headers);
    let ghost h1 = headers;
    proof {
        lemma_room(h0, h1, CANARY_HEADER@, 3);
    }
    carry_to_headers(metadata, CANARY_CLUSTER_METADATA_KEY, &mut headers);
    let ghost h2 = headers;
    proof {
        lemma_room(h1, h2, CANARY_CLUSTER_HEADER@, 2);
    }
    carry_to_headers(metadata, GLOBAL_TIMEOUT_METADATA_KEY, &mut headers);
    proof {
        lemma_room(h2, headers, GLOBAL_TIMEOUT_HEADER@, 1);
    }
    carry_to_headers(metadata, REQUEST_ID_HEADER, &mut headers);
    assert(header_fields(headers) =~= headers_of(text_map(metadata@)));
    headers
}

/// Metadata that goes through headers comes back, key by key, as far as it is carried at
/// all; its carried texts must be visible ASCII.
pub proof fn metadata_survives_headers(metadata: Map<Seq<char>, Seq<char>>)
    requires
        forall|key: Seq<char>| #[trigger]
            metadata.contains_key(key) && is_carried(key) ==> is_visible_text(metadata[key]),
    ensures
        metadata_of(headers_of(metadata)) == metadata.restrict(Set::new(|k: Seq<char>| is_carried(k))),
{
    let back = metadata_of(headers_of(metadata));
    let kept = metadata.restrict(Set::new(|k: Seq<char>| is_carried(k)));
    assert forall|key: Seq<char>| #[trigger]
        kept.dom().contains(key) implies back.dom().contains(key) && back[key] == kept[key] by {
        assert(metadata.contains_key(key) && is_carried(key));
        text_round_trip(no_fields(), key, metadata[key]);
        assert(headers_of(metadata).contains_key(key));
    };
    assert forall|key: Seq<char>| #[trigger] back.dom().contains(key) implies kept.dom().contains(
        key,
    ) by {
        assert(headers_of(metadata).contains_key(key));
    };
    assert(back.dom() =~= kept.dom());
    assert(back =~= kept);
}

/// What headers give as metadata does not change on the way through headers again.
pub proof fn headers_survive_metadata(fields: Map<Seq<char>, Seq<Seq<u8>>>)
    ensures
        metadata_of(headers_of(metadata_of(fields))) == metadata_of(fields),
{
    let metadata = metadata_of(fields);
    assert forall|key: Seq<char>| #[trigger]
        metadata.contains_key(key) && is_carried(key) implies is_visible_text(metadata[key]) by {
        lemma_shown_is_visible(fields[key][0]);
    };
    metadata_survives_headers(metadata);
    assert(metadata.restrict(Set::new(|k: Seq<char>| is_carried(k))) =~= metadata);
}

/// The header of a carried key comes back from metadata with the same first value, where
/// it shows as text.
pub proof fn header_values_survive_metadata(
    fields: Map<Seq<char>, Seq<Seq<u8>>>,
    key: Seq<char>,
)
    requires
        is_carried(key),
        fields.contains_key(key),
        all_visible_bytes(fields[key][0]),
    ensures
        headers_of(metadata_of(fields)).contains_key(key),
        headers_of(metadata_of(fields))[key] == seq![fields[key][0]],
{
    lemma_shown_is_visible(fields[key][0]);
    text_round_trip(no_fields(), key, metadata_of(fields)[key]);
}

/// The canary mark, the cluster, the remaining time and the identifier of a request are
/// carried over, each under its own name, and nothing else is.
pub proof fn four_headers_are_carried(fields: Map<Seq<char>, Seq<Seq<u8>>>, name: Seq<char>)
    ensures
        ({
            let carried = name == CANARY_HEADER@ || name == CANARY_CLUSTER_HEADER@ || name
                == GLOBAL_TIMEOUT_HEADER@ || name == REQUEST_ID_HEADER@;
            &&& carried ==> (field_text(fields, name) matches Some(text) ==> metadata_of(
                fields,
            ).contains_key(name) && metadata_of(fields)[name] == text)
            &&& carried && field_text(fields, name) is None ==> !metadata_of(fields).contains_key(
                name,
            )
            &&& !carried ==> !metadata_of(fields).contains_key(name)
        }),
{
}

/// Each of the four keys of metadata becomes the header of its name with its text as the one
/// value, where the text can be a header value, and no other key does.
pub proof fn four_keys_become_headers(metadata: Map<Seq<char>, Seq<char>>, name: Seq<char>)
    ensures
        ({
            let carried = name == CANARY_HEADER@ || name == CANARY_CLUSTER_HEADER@ || name
                == GLOBAL_TIMEOUT_HEADER@ || name == REQUEST_ID_HEADER@;
            &&& carried && metadata.contains_key(name) && all_value_bytes(
                encode_utf8(metadata[name]),
            ) <==> headers_of(metadata).contains_key(name)
            &&& headers_of(metadata).contains_key(name) ==> headers_of(metadata)[name] == seq![
                encode_utf8(metadata[name]),
            ]
        }),
{
}

} // verus!
