//! Header fields as the `http` crate's types hold them.

use crate::buf;
use crate::proto::events;
use crate::proto::events::HeaderPair;
use crate::proto::headers;
use crate::proto::headers::{DecodedHeader, FieldView};
use crate::proto::streams;
use crate::text;
use bytes::Bytes;
use http::header::{HeaderMap, HeaderName, HeaderValue};
use http::StatusCode;
use vstd::prelude::*;
use vstd::string::*;

verus! {

/// `http::header::HeaderMap`: a multimap from header names to values.
#[verifier::external_type_specification]
#[verifier::external_body]
#[verifier::reject_recursive_types(T)]
pub struct ExHeaderMap<T>(HeaderMap<T>);

/// `http::header::HeaderValue`: the value of a header field.
#[verifier::external_type_specification]
#[verifier::external_body]
pub struct ExHeaderValue(HeaderValue);

/// What a header map holds: for each name its values, in the order in which they
/// were added.
pub uninterp spec fn map_content(m: HeaderMap<HeaderValue>) -> Map<Seq<u8>, Seq<Seq<u8>>>;

/// Whether `b` may stand in a header name or a method: a letter, a digit, or one of
/// ``!#$%&'*+-.^_`|~``.
pub open spec fn is_token_byte(b: u8) -> bool {
    ||| 0x30 <= b <= 0x39
    ||| 0x41 <= b <= 0x5a
    ||| 0x5e <= b <= 0x7a
    ||| 0x23 <= b <= 0x27
    ||| b == 0x21
    ||| b == 0x2a
    ||| b == 0x2b
    ||| b == 0x2d
    ||| b == 0x2e
    ||| b == 0x7c
    ||| b == 0x7e
}

/// Whether `s` can be a header name.
pub open spec fn valid_name(s: Seq<u8>) -> bool {
    0 < s.len() <= 65535 && forall|i: int| 0 <= i < s.len() ==> is_token_byte(#[trigger] s[i])
}

/// Whether `s` can be a header value: no control character but the tab.
pub open spec fn valid_value(s: Seq<u8>) -> bool {
    forall|i: int|
        0 <= i < s.len() ==> (#[trigger] s[i] >= 0x20 && s[i] != 0x7f || s[i] == 0x09)
}

/// `s` with its ASCII letters in lower case.
pub open spec fn lower(s: Seq<u8>) -> Seq<u8> {
    s.map_values(
        |b: u8|
            if 0x41 <= b <= 0x5a {
                (b + 0x20) as u8
            } else {
                b
            },
    )
}

/// How many names a header map surely holds.
pub const MAX_HEADER_NAMES: usize = 6553;

/// The map with one more value for a name.
pub open spec fn appended(
    m: Map<Seq<u8>, Seq<Seq<u8>>>,
    name: Seq<u8>,
    value: Seq<u8>,
) -> Map<Seq<u8>, Seq<Seq<u8>>> {
    m.insert(
        name,
        if m.dom().contains(name) {
            m[name].push(value)
        } else {
            seq![value]
        },
    )
}

/// A map without fields.
pub open spec fn no_fields() -> Map<Seq<u8>, Seq<Seq<u8>>> {
    Map::empty()
}

/// `HeaderMap::new`: a map without fields.
#[verifier::external_body]
pub(crate) fn new_map() -> (m: HeaderMap<HeaderValue>)
    ensures
        map_content(m) == no_fields(),
{
    HeaderMap::new()
}

/// `HeaderName::from_bytes`: it succeeds on 1 to 65535 token bytes and on nothing
/// else.
#[verifier::external_body]
fn name_is_valid(name: &[u8]) -> (r: bool)
    ensures
        r == valid_name(name@),
{
    HeaderName::from_bytes(name).is_ok()
}

/// `HeaderValue::from_bytes`: it succeeds on bytes without control characters, but
/// for the tab, and on nothing else.
#[verifier::external_body]
fn value_is_valid(value: &[u8]) -> (r: bool)
    ensures
        r == valid_value(value@),
{
    HeaderValue::from_bytes(value).is_ok()
}

/// `HeaderMap::append`: the value becomes the last one of its name, which the map
/// holds in lower case. A map of many names may refuse to grow, and then panics; up to
/// [`MAX_HEADER_NAMES`] it never does.
#[verifier::external_body]
fn append(map: &mut HeaderMap<HeaderValue>, name: &[u8], value: &[u8])
    requires
        valid_name(name@),
        valid_value(value@),
        map_content(*old(map)).dom().finite(),
        map_content(*old(map)).dom().len() <= MAX_HEADER_NAMES,
    ensures
        map_content(*final(map)) == appended(map_content(*old(map)), lower(name@), value@),
{
    let name = HeaderName::from_bytes(name).unwrap();
    let value = HeaderValue::from_bytes(value).unwrap();
    map.append(name, value);
}

/// `HeaderMap::keys_len`: how many names the map holds.
#[verifier::external_body]
fn name_count(map: &HeaderMap<HeaderValue>) -> (n: usize)
    ensures
        n == map_content(*map).dom().len(),
{
    map.keys_len()
}

/// Tells the fields that are called `name` from others.
pub open spec fn called(name: Seq<u8>) -> spec_fn((Seq<u8>, Seq<u8>)) -> bool {
    |f: (Seq<u8>, Seq<u8>)| f.0 == name
}

/// The value of each field.
pub open spec fn values(fields: Seq<(Seq<u8>, Seq<u8>)>) -> Seq<Seq<u8>> {
    fields.map_values(|f: (Seq<u8>, Seq<u8>)| f.1)
}

/// The values of the fields that are called `name`, in order.
pub open spec fn values_of(fields: Seq<(Seq<u8>, Seq<u8>)>, name: Seq<u8>) -> Seq<Seq<u8>> {
    values(fields.filter(called(name)))
}

/// Whether the fields are those of a header map: each name that the map holds, with its
/// values in order, and no other. The order of the names is open.
pub open spec fn lists(
    fields: Seq<(Seq<u8>, Seq<u8>)>,
    m: Map<Seq<u8>, Seq<Seq<u8>>>,
) -> bool {
    forall|name: Seq<u8>|
        #![trigger values_of(fields, name)]
        (m.dom().contains(name) <==> values_of(fields, name).len() > 0) && (m.dom().contains(name)
            ==> m[name] == values_of(fields, name))
}

/// Whether `b` may stand in a name that a header map holds: a token byte in lower case, a
/// quotation mark, or a zero.
pub open spec fn is_map_byte(b: u8) -> bool {
    b == 0x22 || b == 0 || is_token_byte(b) && !(0x41 <= b <= 0x5a)
}

/// Whether `s` can be a value that a header map holds: no control character but the tab
/// and zeros.
pub open spec fn is_map_value(s: Seq<u8>) -> bool {
    forall|i: int|
        0 <= i < s.len() ==> (#[trigger] s[i] >= 0x20 && s[i] != 0x7f || s[i] == 0x09 || s[i]
            == 0)
}

/// Whether all names and values are such as a header map can hold.
pub open spec fn sendable(fields: Seq<(Seq<u8>, Seq<u8>)>) -> bool {
    forall|i: int|
        0 <= i < fields.len() ==> {
            &&& 0 < (#[trigger] fields[i]).0.len() <= 65535
            &&& forall|j: int| 0 <= j < fields[i].0.len() ==> is_map_byte(#[trigger] fields[i].0[j])
            &&& is_map_value(fields[i].1)
        }
}

/// Whether all names are in lower case, and none begins with a colon.
pub open spec fn plain_names(fields: Seq<(Seq<u8>, Seq<u8>)>) -> bool {
    forall|i: int|
        0 <= i < fields.len() ==> lower((#[trigger] fields[i]).0) == fields[i].0 && !(
        fields[i].0.len() > 0 && fields[i].0[0] == 0x3a)
}

/// `HeaderMap::iter`: every value with its name, the values of one name in the order in
/// which they were added. The order of the names is left open. A `HeaderName` has 1 to 65535
/// bytes, token bytes in lower case or quotation marks; where it was made of a long static
/// key, a zero stands in place of every other byte. A `HeaderValue` has no control character
/// but the tab, and the zeros of a name that it was made of.
#[verifier::external_body]
pub(crate) fn header_pairs(map: &HeaderMap<HeaderValue>) -> (fields: Vec<HeaderPair>)
    ensures
        lists(events::pairs(fields@), map_content(*map)),
        sendable(events::pairs(fields@)),
{
    map.iter()
        .map(|(k, v)| {
            (
                Bytes::copy_from_slice(k.as_str().as_bytes()),
                Bytes::copy_from_slice(v.as_bytes()),
            )
        })
        .collect()
}

/// `StatusCode::from_u16`: it succeeds on 100 to 999, and keeps the number.
#[verifier::external_body]
fn status_code(code: u16) -> (r: Option<u16>)
    ensures
        r == if 100 <= code <= 999 {
            Some(code)
        } else {
            None
        },
{
    StatusCode::from_u16(code).ok().map(|s| s.as_u16())
}

/// Whether a field goes into a header map: it is a regular field whose name and value
/// are valid. Others are left out.
pub open spec fn kept(f: FieldView) -> bool {
    !f.is_pseudo() && valid_name(f.name) && valid_value(f.value)
}

/// The header map of the first `n` fields.
pub open spec fn content_of_first(fields: Seq<FieldView>, n: int) -> Map<Seq<u8>, Seq<Seq<u8>>>
    decreases n,
{
    if n <= 0 {
        Map::empty()
    } else {
        let m = content_of_first(fields, n - 1);
        let f = fields[n - 1];
        if kept(f) {
            appended(m, lower(f.name), f.value)
        } else {
            m
        }
    }
}

/// The header map of a header list.
pub open spec fn header_content(fields: Seq<FieldView>) -> Map<Seq<u8>, Seq<Seq<u8>>> {
    content_of_first(fields, fields.len() as int)
}

/// Whether a header map surely holds the list.
pub open spec fn fits(fields: Seq<FieldView>) -> bool {
    header_content(fields).dom().len() <= MAX_HEADER_NAMES
}

proof fn lemma_content_finite(fields: Seq<FieldView>, n: int)
    ensures
        content_of_first(fields, n).dom().finite(),
        0 <= n ==> content_of_first(fields, n).dom().len() <= n,
    decreases n,
{
    if n > 0 {
        lemma_content_finite(fields, n - 1);
        let m = content_of_first(fields, n - 1);
        let f = fields[n - 1];
        if kept(f) {
            let after = appended(m, lower(f.name), f.value);
            assert(after.dom() =~= m.dom().insert(lower(f.name)));
        }
    }
}

proof fn lemma_content_grows(fields: Seq<FieldView>, i: int, n: int)
    requires
        0 <= i <= n,
    ensures
        content_of_first(fields, i).dom().len() <= content_of_first(fields, n).dom().len(),
    decreases n - i,
{
    if i < n {
        lemma_content_grows(fields, i, n - 1);
        lemma_content_finite(fields, n - 1);
        let m = content_of_first(fields, n - 1);
        let f = fields[n - 1];
        if kept(f) {
            let after = appended(m, lower(f.name), f.value);
            assert(after.dom() =~= m.dom().insert(lower(f.name)));
        }
    }
}

/// A list of at most [`MAX_HEADER_NAMES`] fields fits into a header map.
pub proof fn lemma_short_list_fits(fields: Seq<FieldView>)
    requires
        fields.len() <= MAX_HEADER_NAMES,
    ensures
        fits(fields),
{
    lemma_content_finite(fields, fields.len() as int);
}

/// Whether a header map surely holds the list.
pub fn fits_header_map(headers: &[DecodedHeader]) -> (r: bool)
    ensures
        r == fits(headers::views(headers@)),
{
    let ghost fields = headers::views(headers@);
    if headers.len() <= MAX_HEADER_NAMES {
        proof {
            lemma_short_list_fits(fields);
        }
        return true;
    }
    let mut map = new_map();
    let mut i: usize = 0;
    while i < headers.len()
        invariant
            fields == headers::views(headers@),
            i <= headers@.len(),
            map_content(map) == content_of_first(fields, i as int),
            map_content(map).dom().len() <= MAX_HEADER_NAMES,
        decreases headers@.len() - i,
    {
        proof {
            assert(fields[i as int] == headers@[i as int]@);
            lemma_content_finite(fields, i as int);
            lemma_content_grows(fields, i + 1, fields.len() as int);
        }
        add_field(&mut map, &headers[i]);
        if name_count(&map) > MAX_HEADER_NAMES {
            return false;
        }
        i = i + 1;
    }
    true
}

/// Adds a field to a header map, if the map can hold it and it is no pseudo-header.
fn add_field(map: &mut HeaderMap<HeaderValue>, dh: &DecodedHeader)
    requires
        map_content(*old(map)).dom().finite(),
        map_content(*old(map)).dom().len() <= MAX_HEADER_NAMES,
    ensures
        map_content(*final(map)) == if kept(dh@) {
            appended(map_content(*old(map)), lower(dh@.name), dh@.value)
        } else {
            map_content(*old(map))
        },
{
    let name = buf::as_slice(&dh.name);
    let value = buf::as_slice(&dh.value);
    let pseudo = name.len() > 0 && name[0] == 0x3a;
    if !pseudo && name_is_valid(name) && value_is_valid(value) {
        append(map, name, value);
    }
}

/// The header map of a header list. Pseudo-headers are left out, and so are fields
/// that the map cannot hold.
pub fn headers_to_header_map(headers: &[DecodedHeader]) -> (map: HeaderMap<HeaderValue>)
    requires
        fits(headers::views(headers@)),
    ensures
        map_content(map) == header_content(headers::views(headers@)),
{
    let ghost fields = headers::views(headers@);
    let mut map = new_map();
    let mut i: usize = 0;
    while i < headers.len()
        invariant
            fields == headers::views(headers@),
            fits(fields),
            i <= headers@.len(),
            map_content(map) == content_of_first(fields, i as int),
        decreases headers@.len() - i,
    {
        proof {
            assert(fields[i as int] == headers@[i as int]@);
            lemma_content_finite(fields, i as int);
            lemma_content_grows(fields, i as int, fields.len() as int);
        }
        add_field(&mut map, &headers[i]);
        i = i + 1;
    }
    map
}

/// The status that the first `n` fields state: that of the last `:status` field that
/// holds a number; 200 stands for a number that is no status, and for none at all.
pub open spec fn status_of_first(fields: Seq<FieldView>, n: int) -> u16
    decreases n,
{
    if n <= 0 {
        200
    } else if fields[n - 1].is(":status") {
        match text::bounded_number(fields[n - 1].value, u16::MAX as nat) {
            Some(code) => if 100 <= code <= 999 {
                code as u16
            } else {
                200
            },
            None => status_of_first(fields, n - 1),
        }
    } else {
        status_of_first(fields, n - 1)
    }
}

/// The status that a response states.
pub fn response_status(headers: &[DecodedHeader]) -> (status: u16)
    ensures
        status == status_of_first(headers::views(headers@), headers@.len() as int),
{
    let ghost fields = headers::views(headers@);
    let mut status: u16 = 200;
    let mut i: usize = 0;
    while i < headers.len()
        invariant
            fields == headers::views(headers@),
            i <= headers@.len(),
            status == status_of_first(fields, i as int),
        decreases headers@.len() - i,
    {
        let dh = &headers[i];
        assert(fields[i as int] == dh@);
        if text::is_text(buf::as_slice(&dh.name), ":status") {
            if let Some(code) = text::parse_u16(buf::as_slice(&dh.value)) {
                status = match status_code(code) {
                    Some(s) => s,
                    None => 200,
                };
            }
        }
        i = i + 1;
    }
    status
}

/// Whether no name of a header map holds a quotation mark or a zero, and no value a zero.
/// Whoever receives such a field leaves it out.
pub open spec fn clean(m: Map<Seq<u8>, Seq<Seq<u8>>>) -> bool {
    &&& forall|name: Seq<u8>| #[trigger]
        m.dom().contains(name) ==> !name.contains(0x22) && !name.contains(0)
    &&& forall|name: Seq<u8>, i: int|
        m.dom().contains(name) && 0 <= i < m[name].len() ==> !(#[trigger] m[name][i]).contains(0)
}

/// The names that a header map holds are plain.
pub(crate) proof fn lemma_sendable_is_plain(fields: Seq<(Seq<u8>, Seq<u8>)>)
    requires
        sendable(fields),
    ensures
        plain_names(fields),
{
    assert forall|i: int| 0 <= i < fields.len() implies lower((#[trigger] fields[i]).0)
        == fields[i].0 && !(fields[i].0.len() > 0 && fields[i].0[0] == 0x3a) by {
        let name = fields[i].0;
        assert(forall|j: int| 0 <= j < name.len() ==> is_map_byte(#[trigger] name[j]));
        assert(lower(name) =~= name);
    }
}

proof fn lemma_values_grow(fields: Seq<(Seq<u8>, Seq<u8>)>, i: int, name: Seq<u8>)
    requires
        0 <= i < fields.len(),
    ensures
        values_of(fields.take(i + 1), name) == if fields[i].0 == name {
            values_of(fields.take(i), name).push(fields[i].1)
        } else {
            values_of(fields.take(i), name)
        },
{
    streams::lemma_filter_take(fields, i, called(name));
    let before = fields.take(i).filter(called(name));
    assert(values(before.push(fields[i])) =~= values(before).push(fields[i].1));
}

proof fn lemma_first_fields_make(fields: Seq<(Seq<u8>, Seq<u8>)>, n: int)
    requires
        0 <= n <= fields.len(),
        plain_names(fields),
        forall|i: int|
            0 <= i < fields.len() ==> valid_name((#[trigger] fields[i]).0) && valid_value(
                fields[i].1,
            ),
    ensures
        ({
            let m = content_of_first(headers::as_received(fields), n);
            forall|name: Seq<u8>|
                #![trigger values_of(fields.take(n), name)]
                (m.dom().contains(name) <==> values_of(fields.take(n), name).len() > 0) && (
                m.dom().contains(name) ==> m[name] == values_of(fields.take(n), name))
        }),
    decreases n,
{
    let received = headers::as_received(fields);
    let m = content_of_first(received, n);
    if n == 0 {
        assert(fields.take(0) =~= Seq::empty());
        reveal(Seq::filter);
    } else {
        lemma_first_fields_make(fields, n - 1);
        let before = content_of_first(received, n - 1);
        let f = fields[n - 1];
        assert(received[n - 1].name == f.0 && received[n - 1].value == f.1);
        assert forall|name: Seq<u8>| #![trigger values_of(fields.take(n), name)] {
            &&& m.dom().contains(name) <==> values_of(fields.take(n), name).len() > 0
            &&& m.dom().contains(name) ==> m[name] == values_of(fields.take(n), name)
        } by {
            lemma_values_grow(fields, n - 1, name);
            let earlier = values_of(fields.take(n - 1), name);
            assert(before.dom().contains(name) <==> earlier.len() > 0);
            if name == f.0 && earlier.len() == 0 {
                assert(earlier.push(f.1) =~= seq![f.1]);
            }
        }
    }
}

proof fn lemma_listed_fields_pass(
    fields: Seq<(Seq<u8>, Seq<u8>)>,
    m: Map<Seq<u8>, Seq<Seq<u8>>>,
    i: int,
)
    requires
        lists(fields, m),
        sendable(fields),
        clean(m),
        0 <= i < fields.len(),
    ensures
        valid_name(fields[i].0),
        valid_value(fields[i].1),
{
    let name = fields[i].0;
    let found = fields.filter(called(name));
    assert(fields.contains(fields[i]));
    streams::lemma_filter_contains(fields, called(name), fields[i]);
    let j = found.index_of(fields[i]);
    assert(found[j] == fields[i]);
    assert(values_of(fields, name)[j] == fields[i].1);
    assert(m.dom().contains(name) && m[name] == values_of(fields, name));
    assert forall|k: int| 0 <= k < name.len() implies is_token_byte(#[trigger] name[k]) by {
        assert(name.contains(name[k]));
        assert(is_map_byte(name[k]));
    }
    let value = fields[i].1;
    assert(m[name][j] == value);
    assert forall|k: int| 0 <= k < value.len() implies (#[trigger] value[k] >= 0x20 && value[k]
        != 0x7f || value[k] == 0x09) by {
        assert(value.contains(value[k]));
    }
}

/// A header map arrives as it was sent, in whatever order its names were sent, if the
/// receiver leaves out none of its fields.
pub proof fn lemma_header_map_arrives_as_sent(
    fields: Seq<(Seq<u8>, Seq<u8>)>,
    m: Map<Seq<u8>, Seq<Seq<u8>>>,
)
    requires
        lists(fields, m),
        sendable(fields),
        clean(m),
    ensures
        header_content(headers::as_received(fields)) == m,
{
    assert forall|i: int| 0 <= i < fields.len() implies valid_name((#[trigger] fields[i]).0)
        && valid_value(fields[i].1) by {
        lemma_listed_fields_pass(fields, m, i);
    }
    let n = fields.len() as int;
    lemma_sendable_is_plain(fields);
    lemma_first_fields_make(fields, n);
    assert(fields.take(n) =~= fields);
    let made = header_content(headers::as_received(fields));
    assert forall|name: Seq<u8>| made.dom().contains(name) <==> m.dom().contains(name) by {
        assert(values_of(fields, name).len() > 0 || values_of(fields, name).len() == 0);
    }
    assert forall|name: Seq<u8>| made.dom().contains(name) implies made[name] == m[name] by {
        assert(values_of(fields, name).len() > 0);
    }
    assert(made =~= m);
}

} // verus!
