//! HTTP headers: what a header map holds, and how text goes in and out of it.

use crate::types::{
    CANARY_CLUSTER_HEADER, CANARY_HEADER, GLOBAL_TIMEOUT_HEADER, REQUEST_ID_HEADER,
};
use http::header::{HeaderMap, HeaderName, HeaderValue};
use vstd::prelude::*;
use vstd::utf8::encode_utf8;

verus! {

/// `http::HeaderMap`, a collection of named values.
#[verifier::external_type_specification]
#[verifier::external_body]
#[verifier::reject_recursive_types(T)]
pub struct ExHeaderMap<T>(http::header::HeaderMap<T>);

/// `http::HeaderValue`, a string of bytes.
#[verifier::external_type_specification]
#[verifier::external_body]
pub struct ExHeaderValue(http::header::HeaderValue);

/// `http::HeaderName`, the name of a header.
#[verifier::external_type_specification]
#[verifier::external_body]
pub struct ExHeaderName(http::header::HeaderName);

/// The text of a header name.
pub uninterp spec fn name_text(n: http::header::HeaderName) -> Seq<char>;

/// What a header map holds: under each name its values, in the order in which they
/// came. A name that is there has at least one value.
pub uninterp spec fn header_fields(m: http::header::HeaderMap) -> Map<Seq<char>, Seq<Seq<u8>>>;

/// The bytes that a header value holds.
pub uninterp spec fn header_bytes(v: http::header::HeaderValue) -> Seq<u8>;

/// The characters of a header name in its lower-case form.
pub open spec fn is_name_char(c: char) -> bool {
    ||| 'a' <= c <= 'z'
    ||| '0' <= c <= '9'
    ||| c == '!' || c == '"' || c == '#' || c == '$' || c == '%' || c == '&' || c == '\''
    ||| c == '*' || c == '+' || c == '-' || c == '.' || c == '^' || c == '_' || c == '`'
    ||| c == '|' || c == '~'
}

/// A header name in its lower-case form.
pub open spec fn is_header_name(s: Seq<char>) -> bool {
    &&& 0 < s.len() <= 0xffff
    &&& forall|i: int| 0 <= i < s.len() ==> is_name_char(#[trigger] s[i])
}

/// The names that the gateway itself uses are header names, and differ.
pub proof fn lemma_known_names()
    ensures
        is_header_name(CANARY_HEADER@),
        is_header_name(CANARY_CLUSTER_HEADER@),
        is_header_name(GLOBAL_TIMEOUT_HEADER@),
        is_header_name(REQUEST_ID_HEADER@),
        !CANARY_HEADER@.contains('"'),
        !CANARY_CLUSTER_HEADER@.contains('"'),
        !GLOBAL_TIMEOUT_HEADER@.contains('"'),
        !REQUEST_ID_HEADER@.contains('"'),
        REQUEST_ID_HEADER@ != CANARY_HEADER@,
        REQUEST_ID_HEADER@ != CANARY_CLUSTER_HEADER@,
        REQUEST_ID_HEADER@ != GLOBAL_TIMEOUT_HEADER@,
        CANARY_HEADER@ != CANARY_CLUSTER_HEADER@,
        CANARY_HEADER@ != GLOBAL_TIMEOUT_HEADER@,
        CANARY_CLUSTER_HEADER@ != GLOBAL_TIMEOUT_HEADER@,
{
    reveal_strlit("x-envoy");
    reveal_strlit("x-canary-cluster");
    reveal_strlit("x-global-timeout-remaining-ms");
    reveal_strlit("x-request-id");
    assert(REQUEST_ID_HEADER@.len() == 12);
    assert(CANARY_HEADER@.len() == 7);
    assert(CANARY_CLUSTER_HEADER@.len() == 16);
    assert(GLOBAL_TIMEOUT_HEADER@.len() == 29);
}

/// The bytes that a header value may hold.
pub open spec fn is_value_byte(b: u8) -> bool {
    (b >= 32 && b != 127) || b == 9
}

/// The bytes that a header value may show as text.
pub open spec fn is_visible_byte(b: u8) -> bool {
    32 <= b < 127 || b == 9
}

pub open spec fn all_value_bytes(bytes: Seq<u8>) -> bool {
    forall|i: int| 0 <= i < bytes.len() ==> is_value_byte(#[trigger] bytes[i])
}

pub open spec fn all_visible_bytes(bytes: Seq<u8>) -> bool {
    forall|i: int| 0 <= i < bytes.len() ==> is_visible_byte(#[trigger] bytes[i])
}

/// ASCII bytes as text.
pub open spec fn ascii_text(bytes: Seq<u8>) -> Seq<char> {
    bytes.map_values(|b: u8| b as char)
}

/// The number of names up to which a header map takes one more in every case.
pub const MAX_NAMES: usize = 6553;

/// A header map has no room for one more value.
#[derive(Debug, Clone, Copy, PartialEq, Eq, Structural)]
pub struct HeadersFull;

/// The map was given one more value, and had no room for it.
pub closed spec fn refused(m: HeaderMap) -> bool {
    exists|
        given: &mut HeaderMap,
        name: HeaderName,
        value: HeaderValue,
        answer: Result<(), HeadersFull>,
    |
        *given == m && answer is Err && #[trigger] call_ensures(
            try_insert_value,
            (given, name, value),
            answer,
        )
}

/// A map with those fields was given one more value, and had no room for it.
pub open spec fn was_full(fields: Map<Seq<char>, Seq<Seq<u8>>>) -> bool {
    exists|m: HeaderMap| #[trigger] refused(m) && header_fields(m) == fields
}

/// The map can take `extra` more names.
pub open spec fn has_room_for(m: HeaderMap, extra: int) -> bool {
    &&& header_fields(m).dom().finite()
    &&& header_fields(m).dom().len() + extra <= MAX_NAMES + 1
}

/// The values that a list of headers gives for a name, in order.
pub open spec fn values_for(
    entries: Seq<(HeaderName, HeaderValue)>,
    name: Seq<char>,
) -> Seq<Seq<u8>>
    decreases entries.len(),
{
    if entries.len() == 0 {
        Seq::empty()
    } else {
        let before = values_for(entries.drop_last(), name);
        if name_text(entries.last().0) == name {
            before.push(header_bytes(entries.last().1))
        } else {
            before
        }
    }
}

/// The list gives exactly the headers of the map.
pub open spec fn lists(
    entries: Seq<(HeaderName, HeaderValue)>,
    fields: Map<Seq<char>, Seq<Seq<u8>>>,
) -> bool {
    &&& forall|name: Seq<char>|
        #![trigger fields.contains_key(name)]
        #![trigger values_for(entries, name)]
        fields.contains_key(name) <==> values_for(entries, name).len() > 0
    &&& forall|name: Seq<char>| #[trigger]
        fields.contains_key(name) ==> fields[name] == values_for(entries, name)
}

/// The contents of a map without headers.
pub open spec fn no_fields() -> Map<Seq<char>, Seq<Seq<u8>>> {
    Map::empty()
}

/// `http::HeaderMap::new`: a map without headers.
#[verifier::external_body]
pub(crate) fn new_headers() -> (r: HeaderMap)
    ensures
        header_fields(r) == no_fields(),
{
    HeaderMap::new()
}

/// `http::HeaderMap::get` with a lower-case name: the first of the values under it.
#[verifier::external_body]
pub(crate) fn get_value<'a>(m: &'a HeaderMap, name: &str) -> (r: Option<&'a HeaderValue>)
    requires
        is_header_name(name@),
        !name@.contains('"'),
    ensures
        match r {
            Some(v) => {
                &&& header_fields(*m).contains_key(name@)
                &&& header_fields(*m)[name@].len() > 0
                &&& header_bytes(*v) == header_fields(*m)[name@][0]
            },
            None => !header_fields(*m).contains_key(name@),
        },
{
    m.get(name)
}

/// `http::HeaderName::from_lowercase`: the name with a text that can be one.
#[verifier::external_body]
pub(crate) fn parse_name(text: &str) -> (r: HeaderName)
    requires
        is_header_name(text@),
    ensures
        name_text(r) == text@,
{
    HeaderName::from_lowercase(text.as_bytes()).unwrap()
}

/// `http::HeaderName::as_str`: the text of a name.
#[verifier::external_body]
pub(crate) fn name_str<'a>(n: &'a HeaderName) -> (r: &'a str)
    ensures
        r@ == name_text(*n),
{
    n.as_str()
}

/// `http::HeaderMap::contains_key`: whether there is any value under a name.
#[verifier::external_body]
pub(crate) fn contains_name(m: &HeaderMap, name: &HeaderName) -> (r: bool)
    ensures
        r == header_fields(*m).contains_key(name_text(*name)),
{
    m.contains_key(name)
}

/// `http::HeaderMap::try_insert`: the value takes the place of all that were under the
/// name, or the map has no room for it and holds what it held. There is room up to a
/// certain number of names in every case.
#[verifier::external_body]
fn try_insert_value(m: &mut HeaderMap, name: HeaderName, value: HeaderValue) -> (r: Result<
    (),
    HeadersFull,
>)
    ensures
        has_room_for(*old(m), 1) ==> r is Ok,
        r is Ok ==> header_fields(*final(m)) == header_fields(*old(m)).insert(
            name_text(name),
            seq![header_bytes(value)],
        ),
        r is Err ==> header_fields(*final(m)) == header_fields(*old(m)),
{
    match m.try_insert(name, value) {
        Ok(_) => Ok(()),
        Err(_) => Err(HeadersFull),
    }
}

/// Puts a value under a name, in place of all that were there.
pub(crate) fn insert_value(m: &mut HeaderMap, name: HeaderName, value: HeaderValue) -> (r: Result<
    (),
    HeadersFull,
>)
    ensures
        has_room_for(*old(m), 1) ==> r is Ok,
        r is Ok ==> header_fields(*final(m)) == header_fields(*old(m)).insert(
            name_text(name),
            seq![header_bytes(value)],
        ),
        r is Err ==> refused(*old(m)),
        r is Err ==> header_fields(*final(m)) == header_fields(*old(m)),
{
    try_insert_value(m, name, value)
}

/// `http::HeaderMap::iter`: every value with its name; the values under one name come
/// in their order. In what order the names come is left open.
#[verifier::external_body]
pub(crate) fn list_headers(m: &HeaderMap) -> (r: Vec<(HeaderName, HeaderValue)>)
    ensures
        lists(r@, header_fields(*m)),
{
    m.iter().map(|(k, v)| (k.clone(), v.clone())).collect()
}

/// `http::HeaderValue::to_str`: the text of a value that holds nothing but visible
/// ASCII and tabs.
#[verifier::external_body]
pub(crate) fn value_to_str<'a>(v: &'a HeaderValue) -> (r: Option<&'a str>)
    ensures
        match r {
            Some(s) => all_visible_bytes(header_bytes(*v)) && s@ == ascii_text(header_bytes(*v)),
            None => !all_visible_bytes(header_bytes(*v)),
        },
{
    v.to_str().ok()
}

/// `http::HeaderValue::from_str`: the value with the bytes of a text, where all of
/// them are allowed.
#[verifier::external_body]
pub(crate) fn value_from_str(s: &str) -> (r: Option<HeaderValue>)
    ensures
        match r {
            Some(v) => all_value_bytes(encode_utf8(s@)) && header_bytes(v) == encode_utf8(s@),
            None => !all_value_bytes(encode_utf8(s@)),
        },
{
    HeaderValue::from_str(s).ok()
}

/// `http::HeaderName::clone`: a name with the same text.
pub assume_specification[ <http::header::HeaderName as Clone>::clone ](
    n: &http::header::HeaderName,
) -> (r: http::header::HeaderName)
    ensures
        name_text(r) == name_text(*n),
;

/// `http::HeaderValue::clone`: a value with the same bytes.
pub assume_specification[ <http::header::HeaderValue as Clone>::clone ](
    v: &http::header::HeaderValue,
) -> (r: http::header::HeaderValue)
    ensures
        header_bytes(r) == header_bytes(*v),
;

/// The text under a name: that of its first value, where it shows as text.
pub open spec fn field_text(
    fields: Map<Seq<char>, Seq<Seq<u8>>>,
    name: Seq<char>,
) -> Option<Seq<char>> {
    if fields.contains_key(name) && all_visible_bytes(fields[name][0]) {
        Some(ascii_text(fields[name][0]))
    } else {
        None
    }
}

/// The fields with one text in place of all values under a name; unchanged where the
/// text cannot be a header value.
pub open spec fn with_text(
    fields: Map<Seq<char>, Seq<Seq<u8>>>,
    name: Seq<char>,
    text: Seq<char>,
) -> Map<Seq<char>, Seq<Seq<u8>>> {
    if all_value_bytes(encode_utf8(text)) {
        fields.insert(name, seq![encode_utf8(text)])
    } else {
        fields
    }
}

/// The fields with the first value under a name of `src`, where there is one.
pub open spec fn with_copied(
    fields: Map<Seq<char>, Seq<Seq<u8>>>,
    src: Map<Seq<char>, Seq<Seq<u8>>>,
    name: Seq<char>,
) -> Map<Seq<char>, Seq<Seq<u8>>> {
    if src.contains_key(name) {
        fields.insert(name, seq![src[name][0]])
    } else {
        fields
    }
}

/// A text of visible ASCII and tabs.
pub open spec fn is_visible_text(s: Seq<char>) -> bool {
    forall|i: int| 0 <= i < s.len() ==> (' ' <= #[trigger] s[i] <= '~' || s[i] == '\t')
}

/// An optional text, as its characters.
pub open spec fn text_view(s: Option<String>) -> Option<Seq<char>> {
    match s {
        Some(t) => Some(t@),
        None => None,
    }
}

/// Adding a name takes at most one place.
pub proof fn lemma_room(before: HeaderMap, after: HeaderMap, name: Seq<char>, extra: int)
    requires
        has_room_for(before, extra + 1),
        header_fields(after).dom().subset_of(header_fields(before).dom().insert(name)),
    ensures
        has_room_for(after, extra),
{
    let a = header_fields(before).dom().insert(name);
    let b = header_fields(after).dom();
    vstd::set_lib::lemma_len_subset(b, a);
}

/// Visible text that is put under a name is found there again.
pub proof fn text_round_trip(
    fields: Map<Seq<char>, Seq<Seq<u8>>>,
    name: Seq<char>,
    text: Seq<char>,
)
    requires
        is_visible_text(text),
    ensures
        field_text(with_text(fields, name, text), name) == Some(text),
        all_value_bytes(encode_utf8(text)),
        all_visible_bytes(encode_utf8(text)),
        ascii_text(encode_utf8(text)) == text,
{
    assert(vstd::utf8::is_ascii_chars(text)) by {
        assert forall|i: int| 0 <= i < text.len() implies '\0' <= #[trigger] text[i] <= '\u{7f}' by {};
    };
    vstd::utf8::is_ascii_chars_encode_utf8(text);
    let bytes = encode_utf8(text);
    assert forall|i: int| 0 <= i < bytes.len() implies is_visible_byte(#[trigger] bytes[i])
        && is_value_byte(bytes[i]) && bytes[i] as char == text[i] by {
        assert(text[i] as u8 == bytes[i]);
    };
    assert(ascii_text(bytes) =~= text);
}

/// Text that a header shows is visible text.
pub proof fn lemma_shown_is_visible(bytes: Seq<u8>)
    requires
        all_visible_bytes(bytes),
    ensures
        is_visible_text(ascii_text(bytes)),
        vstd::utf8::is_ascii_chars(ascii_text(bytes)),
        encode_utf8(ascii_text(bytes)) == bytes,
{
    let text = ascii_text(bytes);
    assert forall|i: int| 0 <= i < text.len() implies (' ' <= #[trigger] text[i] <= '~' || text[i]
        == '\t') && text[i] as u8 == bytes[i] by {
        assert(is_visible_byte(bytes[i]));
    };
    assert(vstd::utf8::is_ascii_chars(text)) by {
        assert forall|i: int| 0 <= i < text.len() implies '\0' <= #[trigger] text[i] <= '\u{7f}' by {};
    };
    vstd::utf8::is_ascii_chars_encode_utf8(text);
    assert(encode_utf8(text) =~= bytes) by {
        assert forall|i: int| 0 <= i < bytes.len() implies encode_utf8(text)[i] == bytes[i] by {
            assert(text[i] as u8 == encode_utf8(text)[i]);
        };
    };
}

/// The text under a name.
pub fn get_text(m: &HeaderMap, name: &str) -> (r: Option<String>)
    requires
        is_header_name(name@),
        !name@.contains('"'),
    ensures
        text_view(r) == field_text(header_fields(*m), name@),
{
    match get_value(m, name) {
        Some(v) => match value_to_str(v) {
            Some(s) => Some(s.to_string()),
            None => None,
        },
        None => None,
    }
}

/// Puts a text under a name, where it can be a header value.
pub fn set_text(m: &mut HeaderMap, name: &str, text: &str) -> (r: Result<(), HeadersFull>)
    requires
        is_header_name(name@),
    ensures
        r is Err ==> all_value_bytes(encode_utf8(text@)) && refused(*old(m)),
        has_room_for(*old(m), 1) ==> r is Ok,
        r is Ok ==> header_fields(*final(m)) == with_text(header_fields(*old(m)), name@, text@),
        r is Err ==> header_fields(*final(m)) == header_fields(*old(m)),
{
    match value_from_str(text) {
        Some(v) => insert_value(m, parse_name(name), v),
        None => Ok(()),
    }
}

/// Copies the first value under a name from one map to another.
pub fn copy_value(src: &HeaderMap, dst: &mut HeaderMap, name: &str) -> (r: Result<(), HeadersFull>)
    requires
        is_header_name(name@),
        !name@.contains('"'),
    ensures
        r is Err ==> header_fields(*src).contains_key(name@) && refused(*old(dst)),
        has_room_for(*old(dst), 1) ==> r is Ok,
        r is Ok ==> header_fields(*final(dst)) == with_copied(
            header_fields(*old(dst)),
            header_fields(*src),
            name@,
        ),
        r is Err ==> header_fields(*final(dst)) == header_fields(*old(dst)),
{
    match get_value(src, name) {
        Some(v) => insert_value(dst, parse_name(name), v.clone()),
        None => Ok(()),
    }
}

/// A text is put under its own name as the one value there, and no other name is touched. A
/// text that cannot be a header value changes nothing.
pub proof fn texts_touch_their_own_name(
    fields: Map<Seq<char>, Seq<Seq<u8>>>,
    name: Seq<char>,
    text: Seq<char>,
    other: Seq<char>,
)
    ensures
        all_value_bytes(encode_utf8(text)) ==> with_text(fields, name, text).contains_key(name)
            && with_text(fields, name, text)[name] == seq![encode_utf8(text)],
        !all_value_bytes(encode_utf8(text)) ==> with_text(fields, name, text) == fields,
        other != name ==> with_text(fields, name, text).contains_key(other) == fields.contains_key(
            other,
        ),
        other != name && fields.contains_key(other) ==> with_text(fields, name, text)[other]
            == fields[other],
{
}

/// The text under a name depends on its first value alone, and gives the bytes of that value
/// back.
pub proof fn shown_text_is_the_first_value(
    fields: Map<Seq<char>, Seq<Seq<u8>>>,
    name: Seq<char>,
)
    ensures
        field_text(fields, name) is Some <==> fields.contains_key(name) && (forall|i: int|
            0 <= i < fields[name][0].len() ==> (32 <= #[trigger] fields[name][0][i] < 127
                || fields[name][0][i] == 9)),
        field_text(fields, name) matches Some(text) ==> encode_utf8(text) == fields[name][0],
{
    if fields.contains_key(name) && all_visible_bytes(fields[name][0]) {
        lemma_shown_is_visible(fields[name][0]);
    }
    if fields.contains_key(name) {
        let first = fields[name][0];
        if forall|i: int| 0 <= i < first.len() ==> (32 <= #[trigger] first[i] < 127 || first[i] == 9) {
            assert forall|i: int| 0 <= i < first.len() implies is_visible_byte(#[trigger] first[i]) by {
            };
        }
        if all_visible_bytes(first) {
            assert forall|i: int| 0 <= i < first.len() implies (32 <= #[trigger] first[i] < 127
                || first[i] == 9) by {
                assert(is_visible_byte(first[i]));
            };
        }
    }
}

/// Copying a header takes over its first value as the one value under its name, and touches
/// no other name. A header that is not there changes nothing.
pub proof fn copies_touch_their_own_name(
    fields: Map<Seq<char>, Seq<Seq<u8>>>,
    src: Map<Seq<char>, Seq<Seq<u8>>>,
    name: Seq<char>,
    other: Seq<char>,
)
    ensures
        src.contains_key(name) ==> with_copied(fields, src, name).contains_key(name)
            && with_copied(fields, src, name)[name].len() == 1 && with_copied(
            fields,
            src,
            name,
        )[name][0] == src[name][0],
        !src.contains_key(name) ==> with_copied(fields, src, name) == fields,
        other != name ==> with_copied(fields, src, name).contains_key(other)
            == fields.contains_key(other),
        other != name && fields.contains_key(other) ==> with_copied(fields, src, name)[other]
            == fields[other],
{
}

} // verus!
