//! The HTTP/1.1 message head: its grammar, the checks the proxy applies to a
//! request, the header rewriting it performs, and the text it sends on.
use vstd::prelude::*;

use crate::error::{is_protocol, protocol_error, Error};
use crate::proxy::RetryConfig;
use crate::text::{
    chars_of, decimal, eq_ic, is_digit, lemma_decimal_digits, lemma_line_endings,
    lemma_parse_decimal, eq_ignore_ascii_case, find_char, first_index, is_first_index,
    lemma_first_index_none, lemma_first_index_unique, lemma_split_at_first, lemma_split_none,
    lemma_split_nonempty, line_end_index, push_decimal, parse_unsigned, parse_unsigned_range, split_on,
    strip_crlf, strip_crlf_index, substring, trim, trim_bounds, trim_line_end, is_trimmed,
    lemma_trim_trimmed, lemma_trim_after_space, trim_end_len, trim_start_len,
};

verus! {

/// One `Name: value` header line.
#[derive(Debug)]
pub struct HttpHeader {
    pub name: String,
    pub value: String,
}

/// The request line and headers of an HTTP/1.1 request.
#[derive(Debug)]
pub struct HttpRequestHead {
    pub method: String,
    pub target: String,
    pub version: String,
    pub headers: Vec<HttpHeader>,
}

/// The status line and headers of an HTTP/1.1 response.
#[derive(Debug)]
pub struct HttpResponseHead {
    pub version: String,
    pub status: u16,
    pub reason: String,
    pub headers: Vec<HttpHeader>,
}

// ---------------------------------------------------------------------------
// Header lookup
// ---------------------------------------------------------------------------

/// `i` is the first header of `hs` whose name equals `name` up to ASCII case.
pub open spec fn is_first_named(hs: Seq<HttpHeader>, name: Seq<char>, i: int) -> bool {
    &&& 0 <= i < hs.len()
    &&& eq_ic(hs[i].name@, name)
    &&& forall|j: int| 0 <= j < i ==> !eq_ic(#[trigger] hs[j].name@, name)
}

/// The first header of `hs` named `name` (ASCII case ignored), if any.
pub open spec fn first_named(hs: Seq<HttpHeader>, name: Seq<char>) -> Option<int> {
    if exists|i: int| is_first_named(hs, name, i) {
        Some(choose|i: int| is_first_named(hs, name, i))
    } else {
        None
    }
}

/// Some header of `hs` is named `name` (ASCII case ignored).
pub open spec fn has_header(hs: Seq<HttpHeader>, name: Seq<char>) -> bool {
    exists|i: int| 0 <= i < hs.len() && eq_ic(#[trigger] hs[i].name@, name)
}

proof fn lemma_first_named_unique(hs: Seq<HttpHeader>, name: Seq<char>, i: int)
    requires
        is_first_named(hs, name, i),
    ensures
        first_named(hs, name) == Some(i),
{
    let k = choose|k: int| is_first_named(hs, name, k);
    assert(is_first_named(hs, name, k));
    if k < i {
        assert(!eq_ic(hs[k].name@, name));
    } else if i < k {
        assert(!eq_ic(hs[i].name@, name));
    }
}

/// The index of the first header named `name`, ASCII case ignored.
pub fn find_header(headers: &[HttpHeader], name: &str) -> (r: Option<usize>)
    ensures
        match r {
            Some(i) => first_named(headers@, name@) == Some(i as int) && has_header(
                headers@,
                name@,
            ),
            None => first_named(headers@, name@) is None && !has_header(headers@, name@),
        },
{
    let mut i: usize = 0;
    while i < headers.len()
        invariant
            i <= headers@.len(),
            forall|j: int| 0 <= j < i ==> !eq_ic(#[trigger] headers@[j].name@, name@),
        decreases headers@.len() - i,
    {
        if eq_ignore_ascii_case(headers[i].name.as_str(), name) {
            proof {
                lemma_first_named_unique(headers@, name@, i as int);
                assert(eq_ic(headers@[i as int].name@, name@));
            }
            return Some(i);
        }
        i = i + 1;
    }
    None
}

// ---------------------------------------------------------------------------
// Line grammar
// ---------------------------------------------------------------------------

/// The name and value of a header line: the text up to the first `':'` and
/// the text after it, each trimmed, once the whole line is trimmed.
pub open spec fn header_line_parts(line: Seq<char>) -> Option<(Seq<char>, Seq<char>)> {
    let raw = trim(line);
    match first_index(raw, ':') {
        None => None,
        Some(i) => Some(
            (trim(raw.subrange(0, i)), trim(raw.subrange(i + 1, raw.len() as int))),
        ),
    }
}

/// Parses a `Name: value` header line.
pub fn parse_header_line(line: &str) -> (r: Result<HttpHeader, Error>)
    ensures
        match header_line_parts(line@) {
            Some((name, value)) => r matches Ok(h) && h.name@ == name && h.value@ == value,
            None => r matches Err(e) && is_protocol(e, "malformed header"@),
        },
{
    let v = chars_of(line);
    let (a, b) = trim_bounds(&v, 0, v.len());
    assert(v@.subrange(0, v@.len() as int) =~= line@);
    let ghost raw = trim(line@);
    match find_char(&v, a, b, ':') {
        None => {
            proof {
                lemma_first_index_none(raw, ':');
            }
            Err(protocol_error("malformed header"))
        },
        Some(i) => {
            proof {
                lemma_first_index_unique(raw, ':', i - a);
                assert(raw.subrange(0, i - a) =~= v@.subrange(a as int, i as int));
                assert(raw.subrange(i - a + 1, raw.len() as int) =~= v@.subrange(
                    i + 1,
                    b as int,
                ));
            }
            let (na, nb) = trim_bounds(&v, a, i);
            let (va, vb) = trim_bounds(&v, i + 1, b);
            let name = substring(line, na, nb);
            let value = substring(line, va, vb);
            Ok(HttpHeader { name, value })
        },
    }
}

/// A request target must be in origin form: non-empty and starting with `/`.
pub open spec fn valid_target(target: Seq<char>) -> bool {
    target.len() > 0 && target[0] == '/'
}

/// Checks that a request target is in origin form.
pub fn validate_target(target: &str) -> (r: Result<(), Error>)
    ensures
        valid_target(target@) ==> r is Ok,
        !valid_target(target@) ==> (r matches Err(e) && is_protocol(e, "invalid request target"@)),
{
    let v = chars_of(target);
    if v.len() == 0 || v[0] != '/' {
        return Err(protocol_error("invalid request target"));
    }
    Ok(())
}

/// Outcome of parsing a request line: its method, target and version, or the
/// message of the protocol error it gives.
pub open spec fn request_line_spec(line: Seq<char>) -> Result<
    (Seq<char>, Seq<char>, Seq<char>),
    Seq<char>,
> {
    let parts = split_on(strip_crlf(line), ' ');
    if parts.len() != 3 {
        Err("invalid request line"@)
    } else if !valid_target(parts[1]) {
        Err("invalid request target"@)
    } else {
        Ok((parts[0], parts[1], parts[2]))
    }
}

/// Parses an HTTP/1.1 request line; the head it returns has no headers yet.
pub fn parse_request_line(line: &str) -> (r: Result<HttpRequestHead, Error>)
    ensures
        match request_line_spec(line@) {
            Ok((method, target, version)) => r matches Ok(h) && h.method@ == method
                && h.target@ == target && h.version@ == version && h.headers@.len() == 0,
            Err(msg) => r matches Err(e) && is_protocol(e, msg),
        },
{
    let v = chars_of(line);
    let e = strip_crlf_index(&v);
    let ghost l = strip_crlf(line@);
    assert(l =~= v@.subrange(0, e as int));
    let first = find_char(&v, 0, e, ' ');
    if first.is_none() {
        proof {
            lemma_split_none(l, ' ');
        }
        return Err(protocol_error("invalid request line"));
    }
    let i = first.unwrap();
    let ghost rest1 = l.subrange(i + 1, l.len() as int);
    proof {
        lemma_split_at_first(l, ' ', i as int);
        assert(rest1 =~= v@.subrange(i + 1, e as int));
    }
    let second = find_char(&v, i + 1, e, ' ');
    if second.is_none() {
        proof {
            lemma_split_none(rest1, ' ');
        }
        return Err(protocol_error("invalid request line"));
    }
    let j = second.unwrap();
    let ghost rest2 = rest1.subrange(j - i, rest1.len() as int);
    proof {
        lemma_split_at_first(rest1, ' ', j - i - 1);
        assert(rest2 =~= v@.subrange(j + 1, e as int));
        assert(rest1.subrange(0, j - i - 1) =~= v@.subrange(i + 1, j as int));
    }
    let third = find_char(&v, j + 1, e, ' ');
    if third.is_some() {
        proof {
            let k = third.unwrap();
            lemma_split_at_first(rest2, ' ', k - j - 1);
            lemma_split_nonempty(rest2.subrange(k - j, rest2.len() as int), ' ');
        }
        return Err(protocol_error("invalid request line"));
    }
    proof {
        lemma_split_none(rest2, ' ');
        assert(l.subrange(0, i as int) =~= v@.subrange(0, i as int));
    }
    let target = substring(line, i + 1, j);
    validate_target(target.as_str())?;
    let method = substring(line, 0, i);
    let version = substring(line, j + 1, e);
    Ok(HttpRequestHead { method, target, version, headers: Vec::new() })
}

/// The version, status code text and reason of a status line: the text up to
/// the first space, the text up to the next space (or the end), and the rest
/// (empty when there is no second space). `None` when there is no space.
pub open spec fn status_line_parts(l: Seq<char>) -> Option<(Seq<char>, Seq<char>, Seq<char>)> {
    match first_index(l, ' ') {
        None => None,
        Some(i) => {
            let rest = l.subrange(i + 1, l.len() as int);
            match first_index(rest, ' ') {
                None => Some((l.subrange(0, i), rest, Seq::empty())),
                Some(j) => Some(
                    (
                        l.subrange(0, i),
                        rest.subrange(0, j),
                        rest.subrange(j + 1, rest.len() as int),
                    ),
                ),
            }
        },
    }
}

/// Outcome of parsing a status line: version, status and reason, or the
/// message of the protocol error it gives.
pub open spec fn response_line_spec(line: Seq<char>) -> Result<
    (Seq<char>, nat, Seq<char>),
    Seq<char>,
> {
    match status_line_parts(trim_line_end(line)) {
        None => Err("invalid status line"@),
        Some((version, code, reason)) => match parse_unsigned(code, u16::MAX as nat) {
            None => Err("invalid status code"@),
            Some(status) => Ok((version, status, reason)),
        },
    }
}

/// Parses an HTTP/1.1 status line; the head it returns has no headers yet.
pub fn parse_response_line(line: &str) -> (r: Result<HttpResponseHead, Error>)
    ensures
        match response_line_spec(line@) {
            Ok((version, status, reason)) => r matches Ok(h) && h.version@ == version
                && h.status as nat == status && h.reason@ == reason && h.headers@.len() == 0,
            Err(msg) => r matches Err(e) && is_protocol(e, msg),
        },
{
    let v = chars_of(line);
    let e = line_end_index(&v);
    let ghost l = trim_line_end(line@);
    assert(l =~= v@.subrange(0, e as int));
    let first = find_char(&v, 0, e, ' ');
    if first.is_none() {
        proof {
            lemma_first_index_none(l, ' ');
        }
        return Err(protocol_error("invalid status line"));
    }
    let i = first.unwrap();
    let ghost rest = l.subrange(i + 1, l.len() as int);
    proof {
        lemma_first_index_unique(l, ' ', i as int);
        assert(rest =~= v@.subrange(i + 1, e as int));
        assert(l.subrange(0, i as int) =~= v@.subrange(0, i as int));
    }
    let second = find_char(&v, i + 1, e, ' ');
    let (code_end, reason_start) = match second {
        None => {
            proof {
                lemma_first_index_none(rest, ' ');
            }
            (e, e)
        },
        Some(j) => {
            proof {
                lemma_first_index_unique(rest, ' ', j - i - 1);
                assert(rest.subrange(0, j - i - 1) =~= v@.subrange(i + 1, j as int));
                assert(rest.subrange(j - i, rest.len() as int) =~= v@.subrange(j + 1, e as int));
            }
            (j, j + 1)
        },
    };
    assert(v@.subrange(e as int, e as int) =~= Seq::<char>::empty());
    let status = match parse_unsigned_range(&v, i + 1, code_end, 65535) {
        None => {
            return Err(protocol_error("invalid status code"));
        },
        Some(n) => n as u16,
    };
    let version = substring(line, 0, i);
    let reason = substring(line, reason_start, e);
    Ok(HttpResponseHead { version, status, reason, headers: Vec::new() })
}

// ---------------------------------------------------------------------------
// Request policy
// ---------------------------------------------------------------------------

/// The body length that the headers announce: none without a
/// `Content-Length` header, the value of the first one otherwise, or `Err`
/// when that value (trimmed) is not a `u64`.
pub open spec fn content_length_spec(hs: Seq<HttpHeader>) -> Result<Option<nat>, ()> {
    match first_named(hs, "content-length"@) {
        None => Ok(None),
        Some(i) => match parse_unsigned(trim(hs[i].value@), u64::MAX as nat) {
            Some(n) => Ok(Some(n)),
            None => Err(()),
        },
    }
}

/// Reads the `Content-Length` of a request or response head.
pub fn content_length(headers: &[HttpHeader]) -> (r: Result<Option<u64>, Error>)
    ensures
        match content_length_spec(headers@) {
            Ok(None) => r matches Ok(None),
            Ok(Some(n)) => r matches Ok(Some(m)) && m as nat == n,
            Err(()) => r matches Err(e) && is_protocol(e, "invalid content-length"@),
        },
{
    match find_header(headers, "content-length") {
        None => Ok(None),
        Some(i) => {
            let v = chars_of(headers[i].value.as_str());
            let (a, b) = trim_bounds(&v, 0, v.len());
            assert(v@.subrange(0, v@.len() as int) =~= headers@[i as int].value@);
            match parse_unsigned_range(&v, a, b, u64::MAX) {
                Some(n) => Ok(Some(n)),
                None => Err(protocol_error("invalid content-length")),
            }
        },
    }
}

/// Outcome of the check for request features the proxy does not support:
/// `Ok` or the message of the protocol error.
pub open spec fn unsupported_spec(hs: Seq<HttpHeader>) -> Result<(), Seq<char>> {
    if has_header(hs, "transfer-encoding"@) {
        Err("transfer-encoding not supported"@)
    } else if has_header(hs, "upgrade"@) {
        Err("upgrade not supported"@)
    } else {
        Ok(())
    }
}

/// Refuses requests with a chunked (or otherwise encoded) body or a protocol
/// upgrade.
pub fn reject_unsupported(head: &HttpRequestHead) -> (r: Result<(), Error>)
    ensures
        match unsupported_spec(head.headers@) {
            Ok(()) => r is Ok,
            Err(msg) => r matches Err(e) && is_protocol(e, msg),
        },
{
    if find_header(head.headers.as_slice(), "transfer-encoding").is_some() {
        return Err(protocol_error("transfer-encoding not supported"));
    }
    if find_header(head.headers.as_slice(), "upgrade").is_some() {
        return Err(protocol_error("upgrade not supported"));
    }
    Ok(())
}


// ---------------------------------------------------------------------------
// Header rewriting
// ---------------------------------------------------------------------------

/// Headers that describe one connection and must not be forwarded.
pub open spec fn is_hop_by_hop(name: Seq<char>) -> bool {
    ||| eq_ic(name, "connection"@)
    ||| eq_ic(name, "proxy-connection"@)
    ||| eq_ic(name, "keep-alive"@)
    ||| eq_ic(name, "transfer-encoding"@)
}

/// The headers of `hs` that are not hop-by-hop, in their order.
pub open spec fn end_to_end(hs: Seq<HttpHeader>) -> Seq<HttpHeader> {
    hs.filter(|h: HttpHeader| !is_hop_by_hop(h.name@))
}

fn is_hop_by_hop_name(name: &str) -> (r: bool)
    ensures
        r == is_hop_by_hop(name@),
{
    eq_ignore_ascii_case(name, "connection") || eq_ignore_ascii_case(name, "proxy-connection")
        || eq_ignore_ascii_case(name, "keep-alive") || eq_ignore_ascii_case(
        name,
        "transfer-encoding",
    )
}

/// Removes the hop-by-hop headers of a request, keeping the others in order.
pub fn strip_hop_by_hop(head: &mut HttpRequestHead)
    ensures
        final(head).headers@ == end_to_end(old(head).headers@),
        final(head).method == old(head).method,
        final(head).target == old(head).target,
        final(head).version == old(head).version,
{
    let mut headers: Vec<HttpHeader> = Vec::new();
    std::mem::swap(&mut headers, &mut head.headers);
    let ghost hs = headers@;
    let mut kept: Vec<HttpHeader> = Vec::new();
    for h in it: headers.into_iter()
        invariant
            it.seq() == hs,
            kept@ == end_to_end(hs.take(it.index())),
    {
        let ghost k = it.index();
        assert(h == hs[k]);
        let hop = is_hop_by_hop_name(h.name.as_str());
        if !hop {
            kept.push(h);
        }
        proof {
            reveal_with_fuel(Seq::<_>::filter, 1);
            assert(hs.take(k + 1).drop_last() =~= hs.take(k));
            assert(hs.take(k + 1).last() == hs[k]);
            assert(hop == is_hop_by_hop(hs[k].name@));
            assert(kept@ =~= end_to_end(hs.take(k + 1)));
        }
    }
    proof {
        assert(hs.take(hs.len() as int) =~= hs);
    }
    head.headers = kept;
}


proof fn lemma_filter_all_pass(hs: Seq<HttpHeader>)
    requires
        forall|i: int| 0 <= i < hs.len() ==> !is_hop_by_hop(#[trigger] hs[i].name@),
    ensures
        end_to_end(hs) == hs,
    decreases hs.len(),
{
    reveal_with_fuel(Seq::<_>::filter, 1);
    if hs.len() > 0 {
        assert forall|i: int| 0 <= i < hs.drop_last().len() implies !is_hop_by_hop(
            #[trigger] hs.drop_last()[i].name@,
        ) by {
            assert(hs.drop_last()[i] == hs[i]);
        }
        lemma_filter_all_pass(hs.drop_last());
        assert(!is_hop_by_hop(hs[hs.len() - 1].name@));
        assert(hs.drop_last().push(hs.last()) =~= hs);
    }
}

/// Stripping leaves no hop-by-hop header, keeps every other header, and a
/// second stripping changes nothing.
pub proof fn lemma_strip_hop_by_hop_laws(hs: Seq<HttpHeader>)
    ensures
        forall|i: int|
            0 <= i < end_to_end(hs).len() ==> !is_hop_by_hop(#[trigger] end_to_end(hs)[i].name@),
        forall|i: int|
            0 <= i < hs.len() && !is_hop_by_hop(#[trigger] hs[i].name@) ==> end_to_end(
                hs,
            ).contains(hs[i]),
        end_to_end(end_to_end(hs)) == end_to_end(hs),
{
    let pred = |h: HttpHeader| !is_hop_by_hop(h.name@);
    assert forall|i: int| 0 <= i < end_to_end(hs).len() implies !is_hop_by_hop(
        #[trigger] end_to_end(hs)[i].name@,
    ) by {
        hs.lemma_filter_pred(pred, i);
    }
    assert forall|i: int| 0 <= i < hs.len() && !is_hop_by_hop(#[trigger] hs[i].name@) implies end_to_end(
        hs,
    ).contains(hs[i]) by {
        hs.lemma_filter_contains(pred, i);
    }
    lemma_filter_all_pass(end_to_end(hs));
}

/// Stripping removes exactly the headers named, ASCII case ignored,
/// `Connection`, `Proxy-Connection`, `Keep-Alive` or `Transfer-Encoding`:
/// every other header is kept, in order, and a head with none of them passes
/// unchanged.
pub proof fn lemma_strip_keeps_end_to_end_headers(hs: Seq<HttpHeader>)
    ensures
        forall|i: int|
            0 <= i < hs.len() && !eq_ic(#[trigger] hs[i].name@, "connection"@) && !eq_ic(
                hs[i].name@,
                "proxy-connection"@,
            ) && !eq_ic(hs[i].name@, "keep-alive"@) && !eq_ic(hs[i].name@, "transfer-encoding"@)
                ==> end_to_end(hs).contains(hs[i]),
        forall|i: int|
            0 <= i < end_to_end(hs).len() ==> {
                let n = (#[trigger] end_to_end(hs)[i]).name@;
                &&& !eq_ic(n, "connection"@)
                &&& !eq_ic(n, "proxy-connection"@)
                &&& !eq_ic(n, "keep-alive"@)
                &&& !eq_ic(n, "transfer-encoding"@)
            },
        (forall|i: int|
            0 <= i < hs.len() ==> {
                let n = (#[trigger] hs[i]).name@;
                &&& !eq_ic(n, "connection"@)
                &&& !eq_ic(n, "proxy-connection"@)
                &&& !eq_ic(n, "keep-alive"@)
                &&& !eq_ic(n, "transfer-encoding"@)
            }) ==> end_to_end(hs) == hs,
{
    lemma_strip_hop_by_hop_laws(hs);
    if forall|i: int|
        0 <= i < hs.len() ==> {
            let n = (#[trigger] hs[i]).name@;
            &&& !eq_ic(n, "connection"@)
            &&& !eq_ic(n, "proxy-connection"@)
            &&& !eq_ic(n, "keep-alive"@)
            &&& !eq_ic(n, "transfer-encoding"@)
        } {
        lemma_filter_all_pass(hs);
    }
}

/// A header with the given name and value texts.
pub open spec fn is_header(h: HttpHeader, name: Seq<char>, value: Seq<char>) -> bool {
    h.name@ == name && h.value@ == value
}

/// Appends `X-Forwarded-For` (the client's address text), then
/// `X-Forwarded-Host` (the value of the first `Host` header, if there is
/// one), then `X-Forwarded-Proto: http`.
pub fn add_forwarding_headers(head: &mut HttpRequestHead, client_ip: &str)
    ensures
        ({
            let before = old(head).headers@;
            let after = final(head).headers@;
            &&& after.subrange(0, before.len() as int) == before
            &&& is_header(after[before.len() as int], "X-Forwarded-For"@, client_ip@)
            &&& match first_named(before, "host"@) {
                Some(i) => {
                    &&& after.len() == before.len() + 3
                    &&& is_header(after[before.len() + 1int], "X-Forwarded-Host"@, before[i].value@)
                    &&& is_header(after[before.len() + 2int], "X-Forwarded-Proto"@, "http"@)
                },
                None => {
                    &&& after.len() == before.len() + 2
                    &&& is_header(after[before.len() + 1int], "X-Forwarded-Proto"@, "http"@)
                },
            }
        }),
        final(head).method == old(head).method,
        final(head).target == old(head).target,
        final(head).version == old(head).version,
{
    let host = find_header(head.headers.as_slice(), "host");
    let ghost before = head.headers@;
    head.headers.push(
        HttpHeader {
            name: String::from_str("X-Forwarded-For"),
            value: String::from_str(client_ip),
        },
    );
    match host {
        Some(i) => {
            let value = head.headers[i].value.clone();
            head.headers.push(HttpHeader { name: String::from_str("X-Forwarded-Host"), value });
        },
        None => {},
    }
    head.headers.push(
        HttpHeader { name: String::from_str("X-Forwarded-Proto"), value: String::from_str("http") },
    );
    assert(head.headers@.subrange(0, before.len() as int) =~= before);
}

// ---------------------------------------------------------------------------
// Serialisation
// ---------------------------------------------------------------------------

pub open spec fn crlf() -> Seq<char> {
    seq!['\r', '\n']
}

/// One header line on the wire: `name: value` and CRLF.
pub open spec fn header_line(name: Seq<char>, value: Seq<char>) -> Seq<char> {
    name + seq![':', ' '] + value + crlf()
}

/// The header lines of `hs`, in order.
pub open spec fn headers_text(hs: Seq<HttpHeader>) -> Seq<char>
    decreases hs.len(),
{
    if hs.len() == 0 {
        Seq::empty()
    } else {
        headers_text(hs.drop_last()) + header_line(hs.last().name@, hs.last().value@)
    }
}

/// The request line on the wire.
pub open spec fn request_line_text(h: HttpRequestHead) -> Seq<char> {
    h.method@ + seq![' '] + h.target@ + seq![' '] + h.version@ + crlf()
}

/// The wire text of a request head.
pub open spec fn request_head_text(h: HttpRequestHead) -> Seq<char> {
    request_line_text(h) + headers_text(h.headers@) + crlf()
}

/// The wire text of a response head.
pub open spec fn response_head_text(h: HttpResponseHead) -> Seq<char> {
    h.version@ + seq![' '] + decimal(h.status as nat) + seq![' '] + h.reason@ + crlf()
        + headers_text(h.headers@) + crlf()
}

/// The header lines a proxy adds for a request whose headers are `hs`.
pub open spec fn forwarding_lines(hs: Seq<HttpHeader>, client_ip: Seq<char>) -> Seq<char> {
    header_line("X-Forwarded-For"@, client_ip) + match first_named(hs, "host"@) {
        Some(i) => header_line("X-Forwarded-Host"@, hs[i].value@),
        None => Seq::empty(),
    } + header_line("X-Forwarded-Proto"@, "http"@)
}

/// The text a request head is forwarded as: hop-by-hop headers dropped and
/// the forwarding headers appended.
pub open spec fn forwarded_request_text(h: HttpRequestHead, client_ip: Seq<char>) -> Seq<char> {
    let kept = end_to_end(h.headers@);
    request_line_text(h) + headers_text(kept) + forwarding_lines(kept, client_ip) + crlf()
}

pub proof fn lemma_headers_text_append(a: Seq<HttpHeader>, b: Seq<HttpHeader>)
    ensures
        headers_text(a + b) == headers_text(a) + headers_text(b),
    decreases b.len(),
{
    if b.len() == 0 {
        assert(a + b =~= a);
    } else {
        lemma_headers_text_append(a, b.drop_last());
        assert((a + b).drop_last() =~= a + b.drop_last());
        assert((a + b).last() == b.last());
    }
}

/// Headers none of which is a `Content-Length` do not change the body length
/// that the headers before them announce.
pub proof fn lemma_content_length_append(a: Seq<HttpHeader>, b: Seq<HttpHeader>)
    requires
        forall|j: int| 0 <= j < b.len() ==> !eq_ic(#[trigger] b[j].name@, "content-length"@),
    ensures
        content_length_spec(a + b) == content_length_spec(a),
{
    let cl = "content-length"@;
    match first_named(a, cl) {
        Some(i) => {
            let k = choose|k: int| is_first_named(a, cl, k);
            assert(is_first_named(a, cl, k));
            assert forall|j: int| 0 <= j < k implies !eq_ic(#[trigger] (a + b)[j].name@, cl) by {
                assert((a + b)[j] == a[j]);
            }
            assert(is_first_named(a + b, cl, k));
            lemma_first_named_unique(a + b, cl, k);
            assert((a + b)[k] == a[k]);
        },
        None => {
            assert forall|i: int| !is_first_named(a + b, cl, i) by {
                if is_first_named(a + b, cl, i) {
                    if i < a.len() {
                        assert((a + b)[i] == a[i]);
                        assert forall|j: int| 0 <= j < i implies !eq_ic(#[trigger] a[j].name@, cl) by {
                            assert((a + b)[j] == a[j]);
                        }
                        assert(is_first_named(a, cl, i));
                    } else {
                        assert((a + b)[i] == b[i - a.len()]);
                    }
                }
            }
        },
    }
}

fn push_headers(out: &mut String, headers: &Vec<HttpHeader>)
    ensures
        final(out)@ == old(out)@ + headers_text(headers@),
{
    proof {
        reveal_strlit(": ");
        reveal_strlit("\r\n");
    }
    let ghost start = out@;
    let mut i: usize = 0;
    assert(headers@.take(0) =~= Seq::<HttpHeader>::empty());
    while i < headers.len()
        invariant
            i <= headers@.len(),
            out@ == start + headers_text(headers@.take(i as int)),
            ": "@ == seq![':', ' '],
            "\r\n"@ == crlf(),
        decreases headers@.len() - i,
    {
        out.append(headers[i].name.as_str());
        out.append(": ");
        out.append(headers[i].value.as_str());
        out.append("\r\n");
        assert(headers@.take(i + 1).drop_last() =~= headers@.take(i as int));
        assert(headers@.take(i + 1).last() == headers@[i as int]);
        assert(out@ =~= start + headers_text(headers@.take(i + 1)));
        i = i + 1;
    }
    assert(headers@.take(headers@.len() as int) =~= headers@);
}

/// The text sent to the backend for a request head.
pub fn serialize_request_head(head: &HttpRequestHead) -> (r: String)
    ensures
        r@ == request_head_text(*head),
{
    proof {
        reveal_strlit(" ");
        reveal_strlit("\r\n");
    }
    let mut out = String::new();
    out.append(head.method.as_str());
    out.append(" ");
    out.append(head.target.as_str());
    out.append(" ");
    out.append(head.version.as_str());
    out.append("\r\n");
    push_headers(&mut out, &head.headers);
    out.append("\r\n");
    assert(out@ =~= request_head_text(*head));
    out
}

/// The text sent to the client for a response head.
pub fn serialize_response_head(head: &HttpResponseHead) -> (r: String)
    ensures
        r@ == response_head_text(*head),
{
    proof {
        reveal_strlit(" ");
        reveal_strlit("\r\n");
    }
    let mut out = String::new();
    out.append(head.version.as_str());
    out.append(" ");
    push_decimal(&mut out, head.status as u64);
    out.append(" ");
    out.append(head.reason.as_str());
    out.append("\r\n");
    push_headers(&mut out, &head.headers);
    out.append("\r\n");
    assert(out@ =~= response_head_text(*head));
    out
}



/// The text a request head is forwarded as, and the body length its
/// forwarded headers announce.
pub fn forward_request_head(head: HttpRequestHead, client_ip: &str) -> (r: (
    String,
    Result<Option<u64>, Error>,
))
    ensures
        r.0@ == forwarded_request_text(head, client_ip@),
        match content_length_spec(end_to_end(head.headers@)) {
            Ok(None) => r.1 matches Ok(None),
            Ok(Some(n)) => r.1 matches Ok(Some(m)) && m as nat == n,
            Err(()) => r.1 matches Err(e) && is_protocol(e, "invalid content-length"@),
        },
{
    let ghost original = head;
    let mut head = head;
    strip_hop_by_hop(&mut head);
    let ghost kept = head.headers@;
    add_forwarding_headers(&mut head, client_ip);
    proof {
        reveal_strlit("X-Forwarded-For");
        reveal_strlit("X-Forwarded-Host");
        reveal_strlit("X-Forwarded-Proto");
        reveal_strlit("content-length");
        let all = head.headers@;
        let added = all.subrange(kept.len() as int, all.len() as int);
        assert(all =~= kept + added);
        lemma_headers_text_append(kept, added);
        reveal_with_fuel(headers_text, 4);
        if first_named(kept, "host"@) is Some {
            assert(added.drop_last().drop_last().drop_last() =~= Seq::<HttpHeader>::empty());
            assert(headers_text(added) =~= forwarding_lines(kept, client_ip@));
        } else {
            assert(added.drop_last().drop_last() =~= Seq::<HttpHeader>::empty());
            assert(headers_text(added) =~= forwarding_lines(kept, client_ip@));
        }
        assert forall|j: int| 0 <= j < added.len() implies !eq_ic(
            #[trigger] added[j].name@,
            "content-length"@,
        ) by {}
        lemma_content_length_append(kept, added);
    }
    let text = serialize_request_head(&head);
    let length = content_length(head.headers.as_slice());
    (text, length)
}


// ---------------------------------------------------------------------------
// Round trips
// ---------------------------------------------------------------------------

pub open spec fn has_no(s: Seq<char>, c: char) -> bool {
    forall|i: int| 0 <= i < s.len() ==> s[i] != c
}

proof fn lemma_split_three(a: Seq<char>, b: Seq<char>, c: Seq<char>)
    requires
        has_no(a, ' '),
        has_no(b, ' '),
        has_no(c, ' '),
    ensures
        split_on(a + seq![' '] + b + seq![' '] + c, ' ') == seq![a, b, c],
{
    let s = a + seq![' '] + b + seq![' '] + c;
    assert(is_first_index(s, ' ', a.len() as int));
    lemma_split_at_first(s, ' ', a.len() as int);
    let rest = s.subrange(a.len() + 1int, s.len() as int);
    assert(s.subrange(0, a.len() as int) =~= a);
    assert(rest =~= b + seq![' '] + c);
    assert(is_first_index(rest, ' ', b.len() as int));
    lemma_split_at_first(rest, ' ', b.len() as int);
    let rest2 = rest.subrange(b.len() + 1int, rest.len() as int);
    assert(rest.subrange(0, b.len() as int) =~= b);
    assert(rest2 =~= c);
    lemma_split_none(c, ' ');
    assert(split_on(s, ' ') =~= seq![a, b, c]);
}

/// Parsing the request line the proxy writes gives back the method, target
/// and version, when none of them holds a space, the target is in origin
/// form and the version does not end in a line-ending character.
pub proof fn lemma_request_line_roundtrip(h: HttpRequestHead)
    requires
        has_no(h.method@, ' '),
        has_no(h.target@, ' '),
        has_no(h.version@, ' '),
        valid_target(h.target@),
        h.version@.len() == 0 || (h.version@.last() != '\r' && h.version@.last() != '\n'),
    ensures
        request_line_spec(request_line_text(h)) == Ok::<_, Seq<char>>(
            (h.method@, h.target@, h.version@),
        ),
{
    let body = h.method@ + seq![' '] + h.target@ + seq![' '] + h.version@;
    assert(request_line_text(h) =~= body + seq!['\r', '\n']);
    if h.version@.len() == 0 {
        assert(body.last() == ' ');
    } else {
        assert(body.last() == h.version@.last());
    }
    lemma_line_endings(body);
    lemma_split_three(h.method@, h.target@, h.version@);
}

/// Parsing the status line the proxy writes gives back the version, status
/// and reason, when the version holds no space and the reason does not end
/// in a line-ending character.
pub proof fn lemma_status_line_roundtrip(h: HttpResponseHead)
    requires
        has_no(h.version@, ' '),
        h.reason@.len() == 0 || (h.reason@.last() != '\r' && h.reason@.last() != '\n'),
    ensures
        ({
            let line = h.version@ + seq![' '] + decimal(h.status as nat) + seq![' '] + h.reason@
                + crlf();
            response_line_spec(line) == Ok::<_, Seq<char>>(
                (h.version@, h.status as nat, h.reason@),
            )
        }),
{
    let d = decimal(h.status as nat);
    let body = h.version@ + seq![' '] + d + seq![' '] + h.reason@;
    if h.reason@.len() == 0 {
        assert(body.last() == ' ');
    } else {
        assert(body.last() == h.reason@.last());
    }
    lemma_line_endings(body);
    assert(body + crlf() =~= body + seq!['\r', '\n']);
    lemma_decimal_digits(h.status as nat);
    lemma_parse_decimal(h.status as nat, u16::MAX as nat);
    assert forall|i: int| 0 <= i < d.len() implies d[i] != ' ' by {
        assert(is_digit(d[i]));
    }
    assert(is_first_index(body, ' ', h.version@.len() as int));
    lemma_first_index_unique(body, ' ', h.version@.len() as int);
    let rest = body.subrange(h.version@.len() + 1int, body.len() as int);
    assert(rest =~= d + seq![' '] + h.reason@);
    assert(is_first_index(rest, ' ', d.len() as int));
    lemma_first_index_unique(rest, ' ', d.len() as int);
    assert(body.subrange(0, h.version@.len() as int) =~= h.version@);
    assert(rest.subrange(0, d.len() as int) =~= d);
    assert(rest.subrange(d.len() + 1int, rest.len() as int) =~= h.reason@);
}

/// Parsing `name: value` gives back the name and the whole value, spaces
/// inside it included, when the name holds no `':'` and neither text starts
/// or ends with whitespace.
pub proof fn lemma_header_line_parts_roundtrip(n: Seq<char>, w: Seq<char>)
    requires
        has_no(n, ':'),
        is_trimmed(n),
        is_trimmed(w),
    ensures
        header_line_parts(n + seq![':', ' '] + w) == Some((n, w)),
{
    let line = n + seq![':', ' '] + w;
    let rest = if w.len() == 0 {
        Seq::<char>::empty()
    } else {
        seq![' '] + w
    };
    let raw = n + seq![':'] + rest;
    if w.len() == 0 {
        assert(line.last() == ' ');
        assert(line.drop_last() =~= raw);
        assert(raw.last() == ':');
        assert(trim_end_len(raw) == raw.len());
        assert(trim_end_len(line) == raw.len());
        assert(line.subrange(0, raw.len() as int) =~= raw);
    } else {
        assert(line.last() == w.last());
        assert(trim_end_len(line) == line.len());
        assert(line.subrange(0, line.len() as int) =~= raw);
    }
    if n.len() > 0 {
        assert(raw[0] == n[0]);
    } else {
        assert(raw[0] == ':');
    }
    assert(trim_start_len(raw) == 0);
    assert(raw.subrange(0, raw.len() as int) =~= raw);
    assert(trim(line) == raw);
    assert(is_first_index(raw, ':', n.len() as int));
    lemma_first_index_unique(raw, ':', n.len() as int);
    assert(raw.subrange(0, n.len() as int) =~= n);
    assert(raw.subrange(n.len() + 1int, raw.len() as int) =~= rest);
    lemma_trim_trimmed(n);
    if w.len() == 0 {
        lemma_trim_trimmed(rest);
        assert(rest =~= w);
    } else {
        lemma_trim_after_space(w);
    }
}

/// A header line as the proxy writes it is read back as the same header:
/// reading the line `name: value` and CRLF gives that name and that whole
/// value, when the name holds no `':'` and neither text starts or ends with
/// whitespace.
pub proof fn lemma_header_line_roundtrip(n: Seq<char>, w: Seq<char>)
    requires
        has_no(n, ':'),
        is_trimmed(n),
        is_trimmed(w),
    ensures
        trim_line_end(header_line(n, w)).len() != 0,
        header_line_parts(trim_line_end(header_line(n, w))) == Some((n, w)),
{
    let body = n + seq![':', ' '] + w;
    if w.len() == 0 {
        assert(body.last() == ' ');
    } else {
        assert(body.last() == w.last());
    }
    lemma_line_endings(body);
    assert(header_line(n, w) =~= body + seq!['\r', '\n']);
    lemma_header_line_parts_roundtrip(n, w);
}

// ---------------------------------------------------------------------------
// Reading a head line by line
// ---------------------------------------------------------------------------

/// The first line of a request head, once its line ending is dropped, as a
/// request line.
pub fn request_head_start(line: &str) -> (r: Result<HttpRequestHead, Error>)
    ensures
        match request_line_spec(trim_line_end(line@)) {
            Ok((method, target, version)) => r matches Ok(h) && h.method@ == method
                && h.target@ == target && h.version@ == version && h.headers@.len() == 0,
            Err(msg) => r matches Err(e) && is_protocol(e, msg),
        },
{
    let v = chars_of(line);
    let e = line_end_index(&v);
    let trimmed = substring(line, 0, e);
    parse_request_line(trimmed.as_str())
}

/// The first line of a response head, as a status line.
pub fn response_head_start(line: &str) -> (r: Result<HttpResponseHead, Error>)
    ensures
        match response_line_spec(trim_line_end(line@)) {
            Ok((version, status, reason)) => r matches Ok(h) && h.version@ == version
                && h.status as nat == status && h.reason@ == reason && h.headers@.len() == 0,
            Err(msg) => r matches Err(e) && is_protocol(e, msg),
        },
{
    let v = chars_of(line);
    let e = line_end_index(&v);
    let trimmed = substring(line, 0, e);
    parse_response_line(trimmed.as_str())
}

/// Decides what a further line of a head means, given the line and the
/// number of bytes read for it: end of input is an error, an empty line ends
/// the head (`Ok(None)`), any other line is a header.
pub fn head_line_step(line: &str, bytes_read: usize) -> (r: Result<Option<HttpHeader>, Error>)
    ensures
        bytes_read == 0 ==> (r matches Err(e) && is_protocol(e, "unexpected eof in headers"@)),
        bytes_read != 0 && trim_line_end(line@).len() == 0 ==> (r matches Ok(None)),
        bytes_read != 0 && trim_line_end(line@).len() != 0 ==> match header_line_parts(
            trim_line_end(line@),
        ) {
            Some((name, value)) => r matches Ok(Some(h)) && h.name@ == name && h.value@ == value,
            None => r matches Err(e) && is_protocol(e, "malformed header"@),
        },
{
    if bytes_read == 0 {
        return Err(protocol_error("unexpected eof in headers"));
    }
    let v = chars_of(line);
    let e = line_end_index(&v);
    if e == 0 {
        return Ok(None);
    }
    let trimmed = substring(line, 0, e);
    let header = parse_header_line(trimmed.as_str())?;
    Ok(Some(header))
}

// ---------------------------------------------------------------------------
// Retries
// ---------------------------------------------------------------------------

/// A request may be retried when its method is one of `methods` (ASCII case
/// ignored) and its body can be replayed: no `Content-Length`, or zero.
pub open spec fn retryable_spec(head: HttpRequestHead, methods: Seq<String>) -> bool {
    &&& exists|i: int| 0 <= i < methods.len() && eq_ic(#[trigger] methods[i]@, head.method@)
    &&& (content_length_spec(head.headers@) == Ok::<Option<nat>, ()>(None)
        || content_length_spec(head.headers@) == Ok::<Option<nat>, ()>(Some(0)))
}

/// Whether a failed request may be sent again.
pub fn is_request_retryable(head: &HttpRequestHead, retry: &RetryConfig) -> (r: bool)
    ensures
        r == retryable_spec(*head, retry.retryable_methods@),
{
    let methods = &retry.retryable_methods;
    let mut method_ok = false;
    let mut i: usize = 0;
    while i < methods.len()
        invariant
            i <= methods@.len(),
            method_ok == exists|j: int| 0 <= j < i && eq_ic(#[trigger] methods@[j]@, head.method@),
        decreases methods@.len() - i,
    {
        if eq_ignore_ascii_case(methods[i].as_str(), head.method.as_str()) {
            method_ok = true;
        }
        i = i + 1;
    }
    let body_replayable = match content_length(head.headers.as_slice()) {
        Ok(None) => true,
        Ok(Some(n)) => n == 0,
        Err(_) => false,
    };
    method_ok && body_replayable
}

} // verus!
