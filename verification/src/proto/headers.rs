//! Header fields: what they may look like, and how they reach the application.

use crate::buf;
use crate::error;
use crate::error::{ErrorView, H2Error, Reason};
use crate::frame::StreamId;
use crate::text;
use bytes::Bytes;
use vstd::prelude::*;
use vstd::string::*;

verus! {

/// A header field as the header decoder gives it.
#[derive(Debug)]
pub struct DecodedHeader {
    /// The field's name.
    pub name: Bytes,
    /// The field's value.
    pub value: Bytes,
    /// Whether the field must not be put into a compression table.
    pub sensitive: bool,
}

/// A [`DecodedHeader`] as plain values.
pub struct FieldView {
    /// The field's name.
    pub name: Seq<u8>,
    /// The field's value.
    pub value: Seq<u8>,
    /// Whether the field must not be put into a compression table.
    pub sensitive: bool,
}

impl View for DecodedHeader {
    type V = FieldView;

    open spec fn view(&self) -> FieldView {
        FieldView {
            name: buf::content(self.name),
            value: buf::content(self.value),
            sensitive: self.sensitive,
        }
    }
}

impl Clone for DecodedHeader {
    fn clone(&self) -> (r: DecodedHeader)
        ensures
            r@ == self@,
    {
        DecodedHeader {
            name: self.name.clone(),
            value: self.value.clone(),
            sensitive: self.sensitive,
        }
    }
}

/// The fields of a header list as plain values.
pub open spec fn views(fields: Seq<DecodedHeader>) -> Seq<FieldView> {
    fields.map_values(|f: DecodedHeader| f@)
}

/// Fields as the receiver of a header list sees them.
pub open spec fn as_received(fields: Seq<(Seq<u8>, Seq<u8>)>) -> Seq<FieldView> {
    fields.map_values(
        |f: (Seq<u8>, Seq<u8>)| FieldView { name: f.0, value: f.1, sensitive: false },
    )
}

impl FieldView {
    /// Whether this is a pseudo-header: its name starts with a colon.
    pub open spec fn is_pseudo(self) -> bool {
        self.name.len() > 0 && self.name[0] == 0x3a
    }

    /// Whether this is the field `name`.
    pub open spec fn is(self, name: &str) -> bool {
        self.name == name.spec_bytes()
    }
}

/// Whether the field `name` is among the first `n`.
pub open spec fn seen(fields: Seq<FieldView>, n: int, name: &str) -> bool {
    exists|i: int| 0 <= i < n && (#[trigger] fields[i]).is(name)
}

/// Whether a regular field is among the first `n`.
pub open spec fn seen_regular(fields: Seq<FieldView>, n: int) -> bool {
    exists|i: int| 0 <= i < n && !(#[trigger] fields[i]).is_pseudo()
}

/// What is wrong with the field at `i` by itself and after those before it.
pub open spec fn field_fault(fields: Seq<FieldView>, i: int) -> Option<Seq<char>> {
    let f = fields[i];
    if !f.is_pseudo() {
        None
    } else if seen_regular(fields, i) {
        Some("pseudo-header after regular header"@)
    } else if f.is(":method") {
        if seen(fields, i, ":method") {
            Some("duplicate :method"@)
        } else {
            None
        }
    } else if f.is(":scheme") {
        if seen(fields, i, ":scheme") {
            Some("duplicate :scheme"@)
        } else {
            None
        }
    } else if f.is(":path") {
        if seen(fields, i, ":path") {
            Some("duplicate :path"@)
        } else if f.value.len() == 0 {
            Some("empty :path"@)
        } else {
            None
        }
    } else if f.is(":status") {
        if seen(fields, i, ":status") {
            Some("duplicate :status"@)
        } else {
            None
        }
    } else if f.is(":authority") {
        if seen(fields, i, ":authority") {
            Some("duplicate :authority"@)
        } else {
            None
        }
    } else {
        Some("unknown pseudo-header"@)
    }
}

/// What is wrong with the first field among the first `n` with which something is.
pub open spec fn first_fault(fields: Seq<FieldView>, n: int) -> Option<Seq<char>>
    decreases n,
{
    if n <= 0 {
        None
    } else {
        match first_fault(fields, n - 1) {
            Some(m) => Some(m),
            None => field_fault(fields, n - 1),
        }
    }
}

/// Whether the request asks for a tunnel.
pub open spec fn is_connect(fields: Seq<FieldView>) -> bool {
    exists|i: int|
        0 <= i < fields.len() && (#[trigger] fields[i]).is(":method") && fields[i].value
            == "CONNECT".spec_bytes()
}

/// What is missing from a request, or does not belong there.
pub open spec fn request_fault(fields: Seq<FieldView>) -> Option<Seq<char>> {
    let n = fields.len() as int;
    if seen(fields, n, ":status") {
        Some(":status not allowed in request"@)
    } else if !seen(fields, n, ":method") {
        Some("missing required :method"@)
    } else if is_connect(fields) {
        None
    } else if !seen(fields, n, ":scheme") {
        Some("missing required :scheme"@)
    } else if !seen(fields, n, ":path") {
        Some("missing required :path"@)
    } else {
        None
    }
}

/// What is missing from a response, or does not belong there.
pub open spec fn response_fault(fields: Seq<FieldView>) -> Option<Seq<char>> {
    let n = fields.len() as int;
    if seen(fields, n, ":method") || seen(fields, n, ":scheme") || seen(fields, n, ":path")
        || seen(fields, n, ":authority") {
        Some("request pseudo-headers not allowed in response"@)
    } else if !seen(fields, n, ":status") {
        Some("missing required :status"@)
    } else {
        None
    }
}

/// What is wrong with the pseudo-headers of a header list.
pub open spec fn pseudo_fault(fields: Seq<FieldView>, is_request: bool) -> Option<Seq<char>> {
    match first_fault(fields, fields.len() as int) {
        Some(m) => Some(m),
        None => if is_request {
            request_fault(fields)
        } else {
            response_fault(fields)
        },
    }
}

/// The outcome where `fault` was found: a protocol error of the connection.
pub open spec fn fault_outcome(fault: Option<Seq<char>>) -> Result<(), ErrorView> {
    match fault {
        Some(m) => Err(ErrorView::connection_msg(Reason::ProtocolError, m)),
        None => Ok(()),
    }
}

/// The names of the pseudo-headers differ.
pub(crate) proof fn lemma_names_differ()
    ensures
        ":method".spec_bytes() != ":scheme".spec_bytes(),
        ":method".spec_bytes() != ":path".spec_bytes(),
        ":method".spec_bytes() != ":status".spec_bytes(),
        ":method".spec_bytes() != ":authority".spec_bytes(),
        ":scheme".spec_bytes() != ":path".spec_bytes(),
        ":scheme".spec_bytes() != ":status".spec_bytes(),
        ":scheme".spec_bytes() != ":authority".spec_bytes(),
        ":path".spec_bytes() != ":status".spec_bytes(),
        ":path".spec_bytes() != ":authority".spec_bytes(),
        ":status".spec_bytes() != ":authority".spec_bytes(),
{
    reveal_strlit(":method");
    reveal_strlit(":scheme");
    reveal_strlit(":path");
    reveal_strlit(":status");
    reveal_strlit(":authority");
    is_ascii_spec_bytes(":method");
    is_ascii_spec_bytes(":scheme");
    is_ascii_spec_bytes(":path");
    is_ascii_spec_bytes(":status");
    is_ascii_spec_bytes(":authority");
    assert(is_ascii(":method"));
    assert(is_ascii(":scheme"));
    assert(is_ascii(":path"));
    assert(is_ascii(":status"));
    assert(is_ascii(":authority"));
    assert(":method".spec_bytes()[1] == 'm' as u8);
    assert(":scheme".spec_bytes()[1] == 's' as u8);
    assert(":path".spec_bytes()[1] == 'p' as u8);
    assert(":status".spec_bytes()[1] == 's' as u8);
    assert(":scheme".spec_bytes()[2] == 'c' as u8);
    assert(":status".spec_bytes()[2] == 't' as u8);
    assert(":authority".spec_bytes()[1] == 'a' as u8);
}

/// The names of the pseudo-headers start with a colon.
pub(crate) proof fn lemma_colon_names()
    ensures
        forall|f: FieldView|
            #![trigger f.is_pseudo()]
            f.is(":method") || f.is(":scheme") || f.is(":path") || f.is(":status") || f.is(
                ":authority",
            ) ==> f.is_pseudo(),
{
    reveal_strlit(":method");
    reveal_strlit(":scheme");
    reveal_strlit(":path");
    reveal_strlit(":status");
    reveal_strlit(":authority");
    is_ascii_spec_bytes(":method");
    is_ascii_spec_bytes(":scheme");
    is_ascii_spec_bytes(":path");
    is_ascii_spec_bytes(":status");
    is_ascii_spec_bytes(":authority");
    assert(is_ascii(":method"));
    assert(is_ascii(":scheme"));
    assert(is_ascii(":path"));
    assert(is_ascii(":status"));
    assert(is_ascii(":authority"));
}

proof fn lemma_seen_grows(fields: Seq<FieldView>, i: int, name: &str)
    requires
        0 <= i < fields.len(),
    ensures
        seen(fields, i + 1, name) == (seen(fields, i, name) || fields[i].is(name)),
{
    if seen(fields, i + 1, name) {
        let j = choose|j: int| 0 <= j < i + 1 && (#[trigger] fields[j]).is(name);
        if j < i {
            assert(seen(fields, i, name));
        }
    }
    if seen(fields, i, name) {
        let j = choose|j: int| 0 <= j < i && (#[trigger] fields[j]).is(name);
        assert(fields[j].is(name));
    }
}

proof fn lemma_fault_stays(fields: Seq<FieldView>, i: int, n: int)
    requires
        0 <= i <= n,
        first_fault(fields, i) is Some,
    ensures
        first_fault(fields, n) == first_fault(fields, i),
    decreases n - i,
{
    if i < n {
        lemma_fault_stays(fields, i, n - 1);
    }
}

fn protocol_error(message: &'static str) -> (r: Result<(), H2Error>)
    ensures
        error::outcome(r) == fault_outcome(Some(message@)),
{
    Err(H2Error::connection_msg(Reason::ProtocolError, message))
}

fn starts_with_colon(name: &Bytes) -> (r: bool)
    ensures
        r == (buf::content(*name).len() > 0 && buf::content(*name)[0] == 0x3a),
{
    let s = buf::as_slice(name);
    s.len() > 0 && s[0] == 0x3a
}

fn is_named(name: &Bytes, literal: &str) -> (r: bool)
    ensures
        r == (buf::content(*name) == literal.spec_bytes()),
{
    text::is_text(buf::as_slice(name), literal)
}

/// Validate pseudo-header ordering and required fields.
///
/// Rules:
/// 1. All pseudo-headers must appear before regular headers.
/// 2. No duplicate pseudo-headers.
/// 3. Requests: `:method`, `:scheme`, `:path` required (CONNECT exempt from
///    `:scheme`/`:path`).
/// 4. Responses: `:status` required.
pub fn validate_pseudo_headers(headers: &[DecodedHeader], is_request: bool) -> (r: Result<
    (),
    H2Error,
>)
    ensures
        error::outcome(r) == fault_outcome(pseudo_fault(views(headers@), is_request)),
{
    let ghost fields = views(headers@);
    let mut regular: bool = false;
    let mut method: bool = false;
    let mut scheme: bool = false;
    let mut path: bool = false;
    let mut status: bool = false;
    let mut authority: bool = false;
    let mut connect: bool = false;
    let mut i: usize = 0;
    while i < headers.len()
        invariant
            fields == views(headers@),
            i <= headers@.len(),
            first_fault(fields, i as int) is None,
            regular == seen_regular(fields, i as int),
            method == seen(fields, i as int, ":method"),
            scheme == seen(fields, i as int, ":scheme"),
            path == seen(fields, i as int, ":path"),
            status == seen(fields, i as int, ":status"),
            authority == seen(fields, i as int, ":authority"),
            connect == exists|j: int|
                0 <= j < i && (#[trigger] fields[j]).is(":method") && fields[j].value
                    == "CONNECT".spec_bytes(),
        decreases headers@.len() - i,
    {
        let dh = &headers[i];
        let ghost f = fields[i as int];
        proof {
            assert(f == dh@);
            lemma_names_differ();
            lemma_seen_grows(fields, i as int, ":method");
            lemma_seen_grows(fields, i as int, ":scheme");
            lemma_seen_grows(fields, i as int, ":path");
            lemma_seen_grows(fields, i as int, ":status");
            lemma_seen_grows(fields, i as int, ":authority");
            if field_fault(fields, i as int) is Some {
                lemma_fault_stays(fields, i + 1, fields.len() as int);
            }
            assert(seen_regular(fields, i + 1) == (seen_regular(fields, i as int)
                || !f.is_pseudo())) by {
                if seen_regular(fields, i as int) {
                    let j = choose|j: int| 0 <= j < i && !(#[trigger] fields[j]).is_pseudo();
                    assert(!fields[j].is_pseudo());
                }
            }
            lemma_colon_names();
        }
        if starts_with_colon(&dh.name) {
            // Pseudo-header after regular header is a protocol error
            if regular {
                return protocol_error("pseudo-header after regular header");
            }
            if is_named(&dh.name, ":method") {
                if method {
                    return protocol_error("duplicate :method");
                }
                method = true;
                connect = is_named(&dh.value, "CONNECT");
            } else if is_named(&dh.name, ":scheme") {
                if scheme {
                    return protocol_error("duplicate :scheme");
                }
                scheme = true;
            } else if is_named(&dh.name, ":path") {
                if path {
                    return protocol_error("duplicate :path");
                }
                if dh.value.is_empty() {
                    return protocol_error("empty :path");
                }
                path = true;
            } else if is_named(&dh.name, ":status") {
                if status {
                    return protocol_error("duplicate :status");
                }
                status = true;
            } else if is_named(&dh.name, ":authority") {
                if authority {
                    return protocol_error("duplicate :authority");
                }
                authority = true;
            } else {
                return protocol_error("unknown pseudo-header");
            }
        } else {
            regular = true;
        }
        i = i + 1;
    }
    if is_request {
        if status {
            return protocol_error(":status not allowed in request");
        }
        if !method {
            return protocol_error("missing required :method");
        }
        if !connect {
            if !scheme {
                return protocol_error("missing required :scheme");
            }
            if !path {
                return protocol_error("missing required :path");
            }
        }
    } else {
        // Request pseudo-headers are not allowed in responses
        if method || scheme || path || authority {
            return protocol_error("request pseudo-headers not allowed in response");
        }
        if !status {
            return protocol_error("missing required :status");
        }
    }
    Ok(())
}

/// A header list passes as a request exactly if all pseudo-headers come before the
/// regular fields, none occurs twice, all of them are known ones of requests, no
/// `:path` is empty, `:method` is there, and so are `:scheme` and `:path` unless a
/// tunnel is asked for.
pub proof fn lemma_request_rules(fields: Seq<FieldView>)
    ensures
        pseudo_fault(fields, true) is None <==> {
            &&& pseudo_first(fields)
            &&& no_pseudo_twice(fields)
            &&& forall|i: int|
                0 <= i < fields.len() && (#[trigger] fields[i]).is_pseudo() ==> fields[i].is(
                    ":method",
                ) || fields[i].is(":scheme") || fields[i].is(":path") || fields[i].is(
                    ":authority",
                )
            &&& forall|i: int|
                0 <= i < fields.len() && (#[trigger] fields[i]).is(":path") ==> fields[i].value.len()
                    > 0
            &&& has(fields, ":method")
            &&& is_connect(fields) || has(fields, ":scheme") && has(fields, ":path")
        },
{
    lemma_fault_free(fields);
    lemma_names_differ();
    lemma_colon_names();
    let n = fields.len() as int;
    if pseudo_fault(fields, true) is None {
        assert forall|i: int| 0 <= i < fields.len() && (#[trigger] fields[i]).is_pseudo() implies {
            fields[i].is(":method") || fields[i].is(":scheme") || fields[i].is(":path")
                || fields[i].is(":authority")
        } by {
            assert(!seen(fields, n, ":status"));
            assert(!fields[i].is(":status"));
            assert(field_fault(fields, i) is None);
        }
    }
    if fault_free(fields) && forall|i: int|
        0 <= i < fields.len() && (#[trigger] fields[i]).is_pseudo() ==> fields[i].is(":method")
            || fields[i].is(":scheme") || fields[i].is(":path") || fields[i].is(":authority") {
        if seen(fields, n, ":status") {
            let i = choose|i: int| 0 <= i < n && (#[trigger] fields[i]).is(":status");
            assert(fields[i].is_pseudo());
        }
    }
}

/// A header list passes as a response exactly if all pseudo-headers come before the
/// regular fields and `:status` is there once and is the only one.
pub proof fn lemma_response_rules(fields: Seq<FieldView>)
    ensures
        pseudo_fault(fields, false) is None <==> {
            &&& pseudo_first(fields)
            &&& no_pseudo_twice(fields)
            &&& forall|i: int|
                0 <= i < fields.len() && (#[trigger] fields[i]).is_pseudo() ==> fields[i].is(
                    ":status",
                )
            &&& has(fields, ":status")
        },
{
    lemma_fault_free(fields);
    lemma_names_differ();
    lemma_colon_names();
    let n = fields.len() as int;
    if pseudo_fault(fields, false) is None {
        assert forall|i: int| 0 <= i < fields.len() && (#[trigger] fields[i]).is_pseudo() implies {
            fields[i].is(":status")
        } by {
            assert(!seen(fields, n, ":method"));
            assert(!seen(fields, n, ":scheme"));
            assert(!seen(fields, n, ":path"));
            assert(!seen(fields, n, ":authority"));
            assert(field_fault(fields, i) is None);
        }
    }
    if forall|i: int|
        0 <= i < fields.len() && (#[trigger] fields[i]).is_pseudo() ==> fields[i].is(":status") {
        assert forall|name: &str|
            #![trigger seen(fields, n, name)]
            seen(fields, n, name) && (name.spec_bytes() == ":method".spec_bytes()
                || name.spec_bytes() == ":scheme".spec_bytes() || name.spec_bytes()
                == ":path".spec_bytes() || name.spec_bytes() == ":authority".spec_bytes()) implies
            false by {
            let i = choose|i: int| 0 <= i < n && (#[trigger] fields[i]).is(name);
            assert(fields[i].is_pseudo());
        }
    }
}

/// Whether the field `name` is in the list.
pub open spec fn has(fields: Seq<FieldView>, name: &str) -> bool {
    seen(fields, fields.len() as int, name)
}

/// Whether no pseudo-header comes after a regular field.
pub open spec fn pseudo_first(fields: Seq<FieldView>) -> bool {
    forall|i: int, j: int|
        0 <= i < j < fields.len() && (#[trigger] fields[j]).is_pseudo() ==> (
        #[trigger] fields[i]).is_pseudo()
}

/// Whether no two pseudo-headers have the same name.
pub open spec fn no_pseudo_twice(fields: Seq<FieldView>) -> bool {
    forall|i: int, j: int|
        0 <= i < j < fields.len() && (#[trigger] fields[j]).is_pseudo() ==> (
        #[trigger] fields[i]).name != fields[j].name
}

spec fn fault_free(fields: Seq<FieldView>) -> bool {
    &&& pseudo_first(fields)
    &&& no_pseudo_twice(fields)
    &&& forall|i: int|
        0 <= i < fields.len() && (#[trigger] fields[i]).is_pseudo() ==> fields[i].is(":method")
            || fields[i].is(":scheme") || fields[i].is(":path") || fields[i].is(":status")
            || fields[i].is(":authority")
    &&& forall|i: int|
        0 <= i < fields.len() && (#[trigger] fields[i]).is(":path") ==> fields[i].value.len() > 0
}

proof fn lemma_all_fields_pass(fields: Seq<FieldView>, n: int)
    requires
        0 <= n,
    ensures
        first_fault(fields, n) is None <==> forall|i: int|
            0 <= i < n ==> (#[trigger] field_fault(fields, i)) is None,
    decreases n,
{
    if n > 0 {
        lemma_all_fields_pass(fields, n - 1);
    }
}

proof fn lemma_fault_free(fields: Seq<FieldView>)
    ensures
        first_fault(fields, fields.len() as int) is None <==> fault_free(fields),
{
    let n = fields.len() as int;
    lemma_all_fields_pass(fields, n);
    lemma_names_differ();
    lemma_colon_names();
    if first_fault(fields, n) is None {
        assert forall|i: int, j: int|
            0 <= i < j < n && (#[trigger] fields[j]).is_pseudo() implies (
        #[trigger] fields[i]).is_pseudo() && fields[i].name != fields[j].name by {
            assert(field_fault(fields, j) is None);
            assert(!seen_regular(fields, j));
        }
        assert forall|i: int| 0 <= i < n && (#[trigger] fields[i]).is_pseudo() implies fields[i].is(
            ":method",
        ) || fields[i].is(":scheme") || fields[i].is(":path") || fields[i].is(":status")
            || fields[i].is(":authority") by {
            assert(field_fault(fields, i) is None);
        }
        assert forall|i: int| 0 <= i < n && (#[trigger] fields[i]).is(
            ":path",
        ) implies fields[i].value.len() > 0 by {
            assert(field_fault(fields, i) is None);
            assert(fields[i].is_pseudo());
        }
    }
    if fault_free(fields) {
        assert forall|j: int| 0 <= j < n implies (#[trigger] field_fault(fields, j)) is None by {
            if fields[j].is_pseudo() {
                assert(!seen_regular(fields, j));
            }
        }
    }
}

/// Whether a regular field may not be in a header list: its name has an upper-case
/// letter, or it is about the connection itself.
pub open spec fn prohibited(f: FieldView) -> bool {
    !f.is_pseudo() && {
        ||| exists|i: int| 0 <= i < f.name.len() && 0x41 <= #[trigger] f.name[i] <= 0x5a
        ||| f.is("connection")
        ||| f.is("keep-alive")
        ||| f.is("proxy-connection")
        ||| f.is("transfer-encoding")
        ||| f.is("upgrade")
        ||| f.is("te") && f.value != "trailers".spec_bytes()
    }
}

/// Whether one of the fields may not be in a header list.
pub open spec fn any_prohibited(fields: Seq<FieldView>) -> bool {
    exists|i: int| 0 <= i < fields.len() && prohibited(#[trigger] fields[i])
}

fn has_upper_case(name: &Bytes) -> (r: bool)
    ensures
        r == exists|i: int|
            0 <= i < buf::content(*name).len() && 0x41 <= #[trigger] buf::content(*name)[i]
                <= 0x5a,
{
    let s = buf::as_slice(name);
    let mut i: usize = 0;
    while i < s.len()
        invariant
            s@ == buf::content(*name),
            i <= s@.len(),
            forall|j: int| 0 <= j < i ==> !(0x41 <= #[trigger] s@[j] <= 0x5a),
        decreases s@.len() - i,
    {
        if 0x41 <= s[i] && s[i] <= 0x5a {
            assert(0x41 <= buf::content(*name)[i as int] <= 0x5a);
            return true;
        }
        i = i + 1;
    }
    false
}

fn is_prohibited(dh: &DecodedHeader) -> (r: bool)
    ensures
        r == prohibited(dh@),
{
    if starts_with_colon(&dh.name) {
        // pseudo-headers validated separately
        return false;
    }
    if has_upper_case(&dh.name) {
        return true;
    }
    if is_named(&dh.name, "connection") || is_named(&dh.name, "keep-alive") || is_named(
        &dh.name,
        "proxy-connection",
    ) || is_named(&dh.name, "transfer-encoding") || is_named(&dh.name, "upgrade") {
        return true;
    }
    // TE header is allowed only with value "trailers"
    is_named(&dh.name, "te") && !is_named(&dh.value, "trailers")
}

/// Validate regular header fields.
///
/// Checks for uppercase header names and connection-specific headers, which are
/// prohibited in HTTP/2.
pub fn validate_regular_headers(headers: &[DecodedHeader], stream_id: StreamId) -> (r: Result<
    (),
    H2Error,
>)
    ensures
        error::outcome(r) == if any_prohibited(views(headers@)) {
            Err::<(), ErrorView>(ErrorView::stream(stream_id@, Reason::ProtocolError))
        } else {
            Ok::<(), ErrorView>(())
        },
{
    let ghost fields = views(headers@);
    let mut i: usize = 0;
    while i < headers.len()
        invariant
            fields == views(headers@),
            i <= headers@.len(),
            forall|j: int| 0 <= j < i ==> !prohibited(#[trigger] fields[j]),
        decreases headers@.len() - i,
    {
        if is_prohibited(&headers[i]) {
            assert(prohibited(fields[i as int]));
            return Err(H2Error::stream(stream_id.value(), Reason::ProtocolError));
        }
        assert(!prohibited(fields[i as int]));
        i = i + 1;
    }
    Ok(())
}

/// The length that the first `n` fields announce: that of the first `content-length`
/// field that holds a number.
pub open spec fn content_length(fields: Seq<FieldView>, n: int) -> Option<nat>
    decreases n,
{
    if n <= 0 {
        None
    } else {
        match content_length(fields, n - 1) {
            Some(len) => Some(len),
            None => if fields[n - 1].is("content-length") {
                text::bounded_number(fields[n - 1].value, u64::MAX as nat)
            } else {
                None
            },
        }
    }
}

/// The length that a header list announces, as a machine number.
pub open spec fn announced_length(fields: Seq<FieldView>) -> Option<u64> {
    match content_length(fields, fields.len() as int) {
        Some(len) => Some(len as u64),
        None => None,
    }
}

proof fn lemma_length_stays(fields: Seq<FieldView>, i: int, n: int)
    requires
        0 <= i <= n,
        content_length(fields, i) is Some,
    ensures
        content_length(fields, n) == content_length(fields, i),
    decreases n - i,
{
    if i < n {
        lemma_length_stays(fields, i, n - 1);
    }
}

/// Extract the `content-length` value from decoded headers, if present.
pub fn parse_content_length(headers: &[DecodedHeader]) -> (r: Option<u64>)
    ensures
        r == announced_length(views(headers@)),
        match r {
            Some(len) => content_length(views(headers@), headers@.len() as int) == Some(len as nat),
            None => content_length(views(headers@), headers@.len() as int) is None,
        },
{
    let ghost fields = views(headers@);
    let mut i: usize = 0;
    while i < headers.len()
        invariant
            fields == views(headers@),
            i <= headers@.len(),
            content_length(fields, i as int) is None,
        decreases headers@.len() - i,
    {
        let dh = &headers[i];
        assert(fields[i as int] == dh@);
        if is_named(&dh.name, "content-length") {
            if let Some(len) = text::parse_u64(buf::as_slice(&dh.value)) {
                proof {
                    lemma_length_stays(fields, i + 1, fields.len() as int);
                }
                return Some(len);
            }
        }
        i = i + 1;
    }
    None
}

/// Whether no field is a pseudo-header: what makes a header list trailers.
pub open spec fn no_pseudo(fields: Seq<FieldView>) -> bool {
    forall|i: int| 0 <= i < fields.len() ==> !(#[trigger] fields[i]).is_pseudo()
}

/// Whether no field is a pseudo-header.
pub fn has_no_pseudo_headers(headers: &[DecodedHeader]) -> (r: bool)
    ensures
        r == no_pseudo(views(headers@)),
{
    let ghost fields = views(headers@);
    let mut i: usize = 0;
    while i < headers.len()
        invariant
            fields == views(headers@),
            i <= headers@.len(),
            forall|j: int| 0 <= j < i ==> !(#[trigger] fields[j]).is_pseudo(),
        decreases headers@.len() - i,
    {
        assert(fields[i as int] == headers@[i as int]@);
        if starts_with_colon(&headers[i].name) {
            assert(fields[i as int].is_pseudo());
            return false;
        }
        i = i + 1;
    }
    true
}

} // verus!
