//! What header lists come to: the announced length, the status, the header map, and which fields
//! may not occur.

use crate::proto::header_map;
use crate::proto::headers;
use crate::proto::headers::FieldView;
use crate::proto::streams;
use crate::text;
use vstd::prelude::*;
use vstd::string::*;

verus! {

/// Whether a field announces a length: a content-length that is a number.
pub open spec fn announces(f: FieldView) -> bool {
    f.is("content-length") && (text::number(f.value) matches Some(n) && n <= u64::MAX)
}

/// The announced length is the number of the first content-length that is one; without such a
/// field none is announced.
pub proof fn lemma_first_length_is_announced(fields: Seq<FieldView>, i: int)
    ensures
        0 <= i < fields.len() && announces(fields[i]) && (forall|j: int|
            0 <= j < i ==> !announces(#[trigger] fields[j])) ==> headers::announced_length(fields)
            == Some(text::number(fields[i].value)->0 as u64),
        (forall|j: int| 0 <= j < fields.len() ==> !announces(#[trigger] fields[j]))
            ==> headers::announced_length(fields) is None,
{
    if 0 <= i < fields.len() && announces(fields[i]) && (forall|j: int|
        0 <= j < i ==> !announces(#[trigger] fields[j])) {
        lemma_no_length(fields, i);
        lemma_length_is_kept(fields, i + 1, fields.len() as int);
    }
    if forall|j: int| 0 <= j < fields.len() ==> !announces(#[trigger] fields[j]) {
        lemma_no_length(fields, fields.len() as int);
    }
}

proof fn lemma_no_length(fields: Seq<FieldView>, n: int)
    requires
        0 <= n <= fields.len(),
        forall|j: int| 0 <= j < n ==> !announces(#[trigger] fields[j]),
    ensures
        headers::content_length(fields, n) is None,
    decreases n,
{
    if n > 0 {
        lemma_no_length(fields, n - 1);
        assert(!announces(fields[n - 1]));
    }
}

proof fn lemma_length_is_kept(fields: Seq<FieldView>, i: int, n: int)
    requires
        0 <= i <= n,
        headers::content_length(fields, i) is Some,
    ensures
        headers::content_length(fields, n) == headers::content_length(fields, i),
    decreases n - i,
{
    if i < n {
        lemma_length_is_kept(fields, i, n - 1);
    }
}

/// The status of a response is what its last `:status` says, if that is a number of three
/// digits' size; without a `:status` it is 200.
pub proof fn lemma_last_status_counts(fields: Seq<FieldView>, i: int)
    ensures
        0 <= i < fields.len() && fields[i].is(":status") && (text::number(
            fields[i].value,
        ) matches Some(n) && 100 <= n <= 999) && (forall|j: int|
            i < j < fields.len() ==> !(#[trigger] fields[j]).is(":status"))
            ==> header_map::status_of_first(fields, fields.len() as int) == text::number(
            fields[i].value,
        )->0,
        (forall|j: int| 0 <= j < fields.len() ==> !(#[trigger] fields[j]).is(":status"))
            ==> header_map::status_of_first(fields, fields.len() as int) == 200,
{
    let n = fields.len() as int;
    if 0 <= i < n && fields[i].is(":status") && (forall|j: int|
        i < j < n ==> !(#[trigger] fields[j]).is(":status")) {
        lemma_status_is_kept(fields, i + 1, n);
    }
    if forall|j: int| 0 <= j < n ==> !(#[trigger] fields[j]).is(":status") {
        lemma_status_is_kept(fields, 0, n);
    }
}

proof fn lemma_status_is_kept(fields: Seq<FieldView>, i: int, n: int)
    requires
        0 <= i <= n <= fields.len(),
        forall|j: int| i <= j < n ==> !(#[trigger] fields[j]).is(":status"),
    ensures
        header_map::status_of_first(fields, n) == header_map::status_of_first(fields, i),
    decreases n - i,
{
    if i < n {
        lemma_status_is_kept(fields, i, n - 1);
        assert(!fields[n - 1].is(":status"));
    }
}

/// Whether a field goes into a header map under `name`: it is no pseudo-header, its name, in
/// lower case, is that name, and name and value are such as a header map takes.
pub open spec fn goes_under(name: Seq<u8>) -> spec_fn(FieldView) -> bool {
    |f: FieldView|
        {
            &&& !(f.name.len() > 0 && f.name[0] == 0x3a)
            &&& header_map::valid_name(f.name)
            &&& header_map::valid_value(f.value)
            &&& header_map::lower(f.name) == name
        }
}

/// A header map holds, under each name, the values of all the fields that go there, in the order
/// in which they came, and nothing else.
pub proof fn lemma_header_map_holds_the_fields(fields: Seq<FieldView>, name: Seq<u8>)
    ensures
        ({
            let m = header_map::header_content(fields);
            let found = fields.filter(goes_under(name)).map_values(|f: FieldView| f.value);
            &&& m.dom().contains(name) <==> found.len() > 0
            &&& m.dom().contains(name) ==> m[name] == found
        }),
{
    lemma_first_fields_are_held(fields, fields.len() as int, name);
    assert(fields.take(fields.len() as int) =~= fields);
}

proof fn lemma_first_fields_are_held(fields: Seq<FieldView>, n: int, name: Seq<u8>)
    requires
        0 <= n <= fields.len(),
    ensures
        ({
            let m = header_map::content_of_first(fields, n);
            let found = fields.take(n).filter(goes_under(name)).map_values(
                |f: FieldView| f.value,
            );
            &&& m.dom().contains(name) <==> found.len() > 0
            &&& m.dom().contains(name) ==> m[name] == found
        }),
    decreases n,
{
    let value = |f: FieldView| f.value;
    if n == 0 {
        assert(fields.take(0).filter(goes_under(name)).len() == 0) by {
            reveal(Seq::filter);
        }
    } else {
        lemma_first_fields_are_held(fields, n - 1, name);
        streams::lemma_filter_take(fields, n - 1, goes_under(name));
        let f = fields[n - 1];
        let before = fields.take(n - 1).filter(goes_under(name));
        let after = fields.take(n).filter(goes_under(name));
        if goes_under(name)(f) {
            assert(after.map_values(value) =~= before.map_values(value).push(f.value));
            if before.len() == 0 {
                assert(after.map_values(value) =~= seq![f.value]);
            }
        } else {
            assert(after == before);
        }
    }
}

/// Whether a field may not occur: its name has an upper-case letter, or it is about one
/// connection only.
pub open spec fn may_not_occur(f: FieldView) -> bool {
    &&& !(f.name.len() > 0 && f.name[0] == 0x3a)
    &&& {
        ||| exists|i: int| 0 <= i < f.name.len() && 0x41 <= #[trigger] f.name[i] <= 0x5a
        ||| f.name == "connection".spec_bytes()
        ||| f.name == "keep-alive".spec_bytes()
        ||| f.name == "proxy-connection".spec_bytes()
        ||| f.name == "transfer-encoding".spec_bytes()
        ||| f.name == "upgrade".spec_bytes()
        ||| f.name == "te".spec_bytes() && f.value != "trailers".spec_bytes()
    }
}

/// A header list is refused for its regular fields exactly if one of them may not occur.
pub proof fn lemma_fields_that_may_not_occur(fields: Seq<FieldView>)
    ensures
        headers::any_prohibited(fields) <==> exists|i: int|
            0 <= i < fields.len() && may_not_occur(#[trigger] fields[i]),
        headers::no_pseudo(fields) <==> forall|i: int|
            0 <= i < fields.len() ==> !((#[trigger] fields[i]).name.len() > 0 && fields[i].name[0]
                == 0x3a),
{
    if headers::any_prohibited(fields) {
        let i = choose|i: int|
            0 <= i < fields.len() && headers::prohibited(#[trigger] fields[i]);
        assert(may_not_occur(fields[i]));
    }
    if exists|i: int| 0 <= i < fields.len() && may_not_occur(#[trigger] fields[i]) {
        let i = choose|i: int| 0 <= i < fields.len() && may_not_occur(#[trigger] fields[i]);
        assert(headers::prohibited(fields[i]));
    }
    if headers::no_pseudo(fields) {
        assert forall|i: int| 0 <= i < fields.len() implies !((#[trigger] fields[i]).name.len() > 0
            && fields[i].name[0] == 0x3a) by {
            assert(!fields[i].is_pseudo());
        }
    }
}

/// Whether a field is a pseudo-header.
pub open spec fn pseudo(f: FieldView) -> bool {
    f.name.len() > 0 && f.name[0] == 0x3a
}

/// Whether a field with this name occurs.
pub open spec fn occurs(fields: Seq<FieldView>, name: &str) -> bool {
    exists|i: int| 0 <= i < fields.len() && (#[trigger] fields[i]).name == name.spec_bytes()
}

/// Whether pseudo-headers stand in front, and none of them twice.
pub open spec fn in_order(fields: Seq<FieldView>) -> bool {
    forall|i: int, j: int|
        0 <= i < j < fields.len() && pseudo(#[trigger] fields[j]) ==> pseudo(#[trigger] fields[i])
            && fields[i].name != fields[j].name
}

/// A request is accepted exactly if its pseudo-headers stand in front, none of them twice, and
/// are those of requests; `:path` is not empty; there is a `:method`; and there are `:scheme` and
/// `:path`, but for CONNECT, which needs neither. A response is accepted exactly if `:status`,
/// once and in front, is its only pseudo-header.
pub proof fn lemma_complete_heads_are_accepted(fields: Seq<FieldView>)
    ensures
        headers::pseudo_fault(fields, true) is None <==> {
            &&& in_order(fields)
            &&& forall|i: int|
                0 <= i < fields.len() && pseudo(#[trigger] fields[i]) ==> fields[i].name
                    == ":method".spec_bytes() || fields[i].name == ":scheme".spec_bytes()
                    || fields[i].name == ":path".spec_bytes() || fields[i].name
                    == ":authority".spec_bytes()
            &&& forall|i: int|
                0 <= i < fields.len() && (#[trigger] fields[i]).name == ":path".spec_bytes()
                    ==> fields[i].value.len() > 0
            &&& occurs(fields, ":method")
            &&& occurs(fields, ":scheme") && occurs(fields, ":path") || exists|i: int|
                0 <= i < fields.len() && (#[trigger] fields[i]).name == ":method".spec_bytes()
                    && fields[i].value == "CONNECT".spec_bytes()
        },
        headers::pseudo_fault(fields, false) is None <==> {
            &&& in_order(fields)
            &&& forall|i: int|
                0 <= i < fields.len() && pseudo(#[trigger] fields[i]) ==> fields[i].name
                    == ":status".spec_bytes()
            &&& occurs(fields, ":status")
        },
{
    headers::lemma_request_rules(fields);
    headers::lemma_response_rules(fields);
    lemma_occurrence(fields, ":method");
    lemma_occurrence(fields, ":scheme");
    lemma_occurrence(fields, ":path");
    lemma_occurrence(fields, ":status");
    lemma_order(fields);
    let connect = exists|i: int|
        0 <= i < fields.len() && (#[trigger] fields[i]).name == ":method".spec_bytes()
            && fields[i].value == "CONNECT".spec_bytes();
    assert(connect == headers::is_connect(fields)) by {
        if connect {
            let i = choose|i: int|
                0 <= i < fields.len() && (#[trigger] fields[i]).name == ":method".spec_bytes()
                    && fields[i].value == "CONNECT".spec_bytes();
            assert(fields[i].is(":method"));
        }
        if headers::is_connect(fields) {
            let i = choose|i: int|
                0 <= i < fields.len() && (#[trigger] fields[i]).is(":method") && fields[i].value
                    == "CONNECT".spec_bytes();
            assert(fields[i].name == ":method".spec_bytes());
        }
    }
    assert((forall|i: int|
        0 <= i < fields.len() && (#[trigger] fields[i]).is(":path") ==> fields[i].value.len() > 0)
        == (forall|i: int|
        0 <= i < fields.len() && (#[trigger] fields[i]).name == ":path".spec_bytes()
            ==> fields[i].value.len() > 0)) by {
        if forall|i: int|
            0 <= i < fields.len() && (#[trigger] fields[i]).is(":path") ==> fields[i].value.len()
                > 0 {
            assert forall|i: int|
                0 <= i < fields.len() && (#[trigger] fields[i]).name
                    == ":path".spec_bytes() implies fields[i].value.len() > 0 by {
                assert(fields[i].is(":path"));
            }
        }
    }
}

proof fn lemma_occurrence(fields: Seq<FieldView>, name: &str)
    ensures
        headers::has(fields, name) == occurs(fields, name),
{
    if occurs(fields, name) {
        let i = choose|i: int|
            0 <= i < fields.len() && (#[trigger] fields[i]).name == name.spec_bytes();
        assert(fields[i].is(name));
    }
    if headers::has(fields, name) {
        let i = choose|i: int| 0 <= i < fields.len() && (#[trigger] fields[i]).is(name);
        assert(fields[i].name == name.spec_bytes());
    }
}

proof fn lemma_order(fields: Seq<FieldView>)
    ensures
        in_order(fields) == (headers::pseudo_first(fields) && headers::no_pseudo_twice(fields)),
{
    if headers::pseudo_first(fields) && headers::no_pseudo_twice(fields) {
        assert forall|i: int, j: int|
            0 <= i < j < fields.len() && pseudo(#[trigger] fields[j]) implies pseudo(
            #[trigger] fields[i],
        ) && fields[i].name != fields[j].name by {
            assert(fields[j].is_pseudo());
            assert(fields[i].is_pseudo());
        }
    }
    if in_order(fields) {
        assert forall|i: int, j: int|
            0 <= i < j < fields.len() && (#[trigger] fields[j]).is_pseudo() implies (
        #[trigger] fields[i]).is_pseudo() && fields[i].name != fields[j].name by {
            assert(pseudo(fields[j]));
            assert(pseudo(fields[i]));
        }
    }
}

} // verus!
