//! Replies off the wire: `{"type":"result","data":<payload>}` or
//! `{"type":"error","data":"<message>"}`. For `list` and `methods` replies
//! the peer writes its own tag in place of `result`; both are aliases of
//! the same shape. Any other tag fails deserialization.
//!
//! The `data` field of a result may be absent altogether. The [`Return`]
//! wrapper decides what that means: a call whose declared return type is
//! void accepts an absent field and an explicit `null` alike, while for
//! any other return type an absent or `null` payload is a missing field
//! and fails.

use vstd::prelude::*;

use crate::error::Error;
use crate::jsonstr::take_string;
use crate::jsonstr::take_string_at;
use crate::scan::{first_stop, scan_byte, scan_init, scan_seq, stops, value_end};
use crate::wire::{lit_pre, lit_rbrace, lit_rbrace_vec, lit_tag_list, lit_tag_methods, match_at, match_lit};

verus! {

/// `result"` — the canonical result tag with its closing quote.
pub open spec fn lit_tag_result() -> Seq<u8> {
    seq!['r' as u8, 'e' as u8, 's' as u8, 'u' as u8, 'l' as u8, 't' as u8, '"' as u8]
}

/// `error"` — the error tag with its closing quote.
pub open spec fn lit_tag_error() -> Seq<u8> {
    seq!['e' as u8, 'r' as u8, 'r' as u8, 'o' as u8, 'r' as u8, '"' as u8]
}

/// `,"data":` — opens the payload of a reply.
pub open spec fn lit_data_key() -> Seq<u8> {
    seq![
        ',' as u8,
        '"' as u8,
        'd' as u8,
        'a' as u8,
        't' as u8,
        'a' as u8,
        '"' as u8,
        ':' as u8,
    ]
}

/// `null` — the explicit empty payload.
pub open spec fn lit_null() -> Seq<u8> {
    seq!['n' as u8, 'u' as u8, 'l' as u8, 'l' as u8]
}

/// A decoded reply: either the kind-specific payload (absent when the
/// peer wrote no `data` field at all), or a peer-reported failure message.
#[derive(Debug)]
pub enum Response {
    Response(Option<Vec<u8>>),
    Error(Vec<u8>),
}

/// The mathematical value of a reply.
pub enum ResponseView {
    Response(Option<Seq<u8>>),
    Error(Seq<u8>),
}

impl View for Response {
    type V = ResponseView;

    open spec fn view(&self) -> ResponseView {
        match self {
            Response::Response(Some(p)) => ResponseView::Response(Some(p@)),
            Response::Response(None) => ResponseView::Response(None),
            Response::Error(m) => ResponseView::Error(m@),
        }
    }
}

/// Reads a result-like reply from position `j` (just after the tag's
/// closing quote): either the object ends at once and there is no payload,
/// or one `data` value runs to the closing brace.
pub open spec fn decode_result_body(s: Seq<u8>, j: int) -> Option<ResponseView> {
    if match_at(s, j, lit_rbrace()) && s.len() == j + 1 {
        Some(ResponseView::Response(None))
    } else if match_at(s, j, lit_data_key()) {
        let v = j + lit_data_key().len();
        match first_stop(scan_init(), s.skip(v)) {
            Some(d) => {
                if 0 < d && v + d < s.len() && s[v + d] == '}' as u8 && s.len() == v + d + 1 {
                    Some(ResponseView::Response(Some(s.subrange(v, v + d))))
                } else {
                    None
                }
            },
            None => None,
        }
    } else {
        None
    }
}

/// Reads an error reply from position `j`: the `data` field must be one
/// JSON string, the peer's message.
pub open spec fn decode_error_body(s: Seq<u8>, j: int) -> Option<ResponseView> {
    if match_at(s, j, lit_data_key()) {
        let v = j + lit_data_key().len();
        if v < s.len() && s[v] == '"' as u8 {
            match take_string(s.skip(v + 1)) {
                Some((msg, e)) => {
                    if v + 1 + e == s.len() - 1 && match_at(s, v + 1 + e, lit_rbrace()) {
                        Some(ResponseView::Error(msg))
                    } else {
                        None
                    }
                },
                None => None,
            }
        } else {
            None
        }
    } else {
        None
    }
}

/// Reads one reply: the tags `result`, `list` and `methods` all announce
/// the result shape, `error` announces a message, and any other tag fails.
pub open spec fn spec_decode_response(s: Seq<u8>) -> Option<ResponseView> {
    if !match_at(s, 0, lit_pre()) {
        None
    } else {
        let i = lit_pre().len() as int;
        if match_at(s, i, lit_tag_result()) {
            decode_result_body(s, i + lit_tag_result().len())
        } else if match_at(s, i, lit_tag_list()) {
            decode_result_body(s, i + lit_tag_list().len())
        } else if match_at(s, i, lit_tag_methods()) {
            decode_result_body(s, i + lit_tag_methods().len())
        } else if match_at(s, i, lit_tag_error()) {
            decode_error_body(s, i + lit_tag_error().len())
        } else {
            None
        }
    }
}

/// `result"` as bytes.
fn lit_tag_result_vec() -> (r: Vec<u8>)
    ensures
        r@ == lit_tag_result(),
{
    let mut v: Vec<u8> = Vec::new();
    v.push('r' as u8);
    v.push('e' as u8);
    v.push('s' as u8);
    v.push('u' as u8);
    v.push('l' as u8);
    v.push('t' as u8);
    v.push('"' as u8);
    proof {
        assert(v@ =~= lit_tag_result());
    }
    v
}

/// `error"` as bytes.
fn lit_tag_error_vec() -> (r: Vec<u8>)
    ensures
        r@ == lit_tag_error(),
{
    let mut v: Vec<u8> = Vec::new();
    v.push('e' as u8);
    v.push('r' as u8);
    v.push('r' as u8);
    v.push('o' as u8);
    v.push('r' as u8);
    v.push('"' as u8);
    proof {
        assert(v@ =~= lit_tag_error());
    }
    v
}

/// `,"data":` as bytes.
fn lit_data_key_vec() -> (r: Vec<u8>)
    ensures
        r@ == lit_data_key(),
{
    let mut v: Vec<u8> = Vec::new();
    v.push(',' as u8);
    v.push('"' as u8);
    v.push('d' as u8);
    v.push('a' as u8);
    v.push('t' as u8);
    v.push('a' as u8);
    v.push('"' as u8);
    v.push(':' as u8);
    proof {
        assert(v@ =~= lit_data_key());
    }
    v
}

/// Reads the result shape from position `j`, as [`decode_result_body`]
/// describes.
fn decode_result_at(s: &Vec<u8>, j: usize) -> (r: Option<Response>)
    requires
        j <= s@.len(),
    ensures
        match r {
            Some(resp) => decode_result_body(s@, j as int) == Some(resp@),
            None => decode_result_body(s@, j as int) is None,
        },
{
    let n = s.len();
    let rb = lit_rbrace_vec();
    if match_lit(s, j, &rb) && n - j == 1 {
        return Some(Response::Response(None));
    }
    let dk = lit_data_key_vec();
    if !match_lit(s, j, &dk) {
        return None;
    }
    let v = j + dk.len();
    match value_end(s, v) {
        Some(e) => {
            if e > v && s[e] == '}' as u8 && s.len() == e + 1 {
                let blob = crate::wire::copy_range(s, v, e);
                Some(Response::Response(Some(blob)))
            } else {
                None
            }
        },
        None => None,
    }
}

/// Reads one reply, exactly as [`spec_decode_response`] describes; a text
/// outside the reply grammar is a `SerializationFailure`.
pub fn decode_response(s: &Vec<u8>) -> (r: Result<Response, Error>)
    ensures
        match spec_decode_response(s@) {
            Some(v) => r matches Ok(resp) && resp@ == v,
            None => r == Err::<Response, Error>(Error::SerializationFailure),
        },
{
    let pre = crate::wire::lit_pre_vec();
    if !match_lit(s, 0, &pre) {
        return Err(Error::SerializationFailure);
    }
    let i = pre.len();
    let tres = lit_tag_result_vec();
    let tlist = crate::wire::lit_tag_list_vec();
    let tmeth = crate::wire::lit_tag_methods_vec();
    let terr = lit_tag_error_vec();
    let j: usize = if match_lit(s, i, &tres) {
        i + tres.len()
    } else if match_lit(s, i, &tlist) {
        i + tlist.len()
    } else if match_lit(s, i, &tmeth) {
        i + tmeth.len()
    } else if match_lit(s, i, &terr) {
        // The error shape: the data field is one JSON string.
        let j = i + terr.len();
        let dk = lit_data_key_vec();
        if !match_lit(s, j, &dk) {
            return Err(Error::SerializationFailure);
        }
        let v = j + dk.len();
        if !(v < s.len() && s[v] == '"' as u8) {
            return Err(Error::SerializationFailure);
        }
        match take_string_at(s, v + 1) {
            Some((msg, e)) => {
                let rb = lit_rbrace_vec();
                if e == s.len() - 1 && match_lit(s, e, &rb) {
                    return Ok(Response::Error(msg));
                }
                return Err(Error::SerializationFailure);
            },
            None => {
                return Err(Error::SerializationFailure);
            },
        }
    } else {
        return Err(Error::SerializationFailure);
    };
    match decode_result_at(s, j) {
        Some(resp) => Ok(resp),
        None => Err(Error::SerializationFailure),
    }
}

impl Response {
    /// Hands the payload to the caller, or converts a peer-reported
    /// failure into `ApplicationError` with exactly the peer's message.
    /// This is the only place a reply's error case becomes an error of
    /// this crate, and it never becomes a transport or framing error.
    pub fn into_result(self) -> (r: Result<Option<Vec<u8>>, Error>)
        ensures
            match self@ {
                ResponseView::Response(p) => {
                    &&& r matches Ok(q)
                    &&& (match (p, q) {
                        (Some(pv), Some(qv)) => qv@ == pv,
                        (None, None) => true,
                        _ => false,
                    })
                },
                ResponseView::Error(m) => {
                    &&& r matches Err(e)
                    &&& e matches Error::ApplicationError(mv)
                    &&& mv@ == m
                },
            },
    {
        match self {
            Response::Response(p) => Ok(p),
            Response::Error(m) => Err(Error::ApplicationError(m)),
        }
    }
}

/// What a return payload means for a call whose declared return type may
/// be void: an absent `data` field and an explicit `null` both stand for
/// the void value, and for a non-void return type both are a missing
/// field. `None` here is a deserialization failure.
pub open spec fn spec_return_of(data: Option<Seq<u8>>, void: bool) -> Option<Option<Seq<u8>>> {
    if void {
        match data {
            None => Some(None),
            Some(b) => {
                if b == lit_null() {
                    Some(None)
                } else {
                    None
                }
            },
        }
    } else {
        match data {
            Some(b) => {
                if b == lit_null() {
                    None
                } else {
                    Some(Some(b))
                }
            },
            None => None,
        }
    }
}

/// Wraps the raw return payload of an `invoke` reply. `None` means the
/// call's declared return type is void and the peer sent no value.
#[derive(Debug, PartialEq, Eq)]
pub struct Return(pub Option<Vec<u8>>);

impl View for Return {
    type V = Option<Seq<u8>>;

    open spec fn view(&self) -> Option<Seq<u8>> {
        match self.0 {
            Some(ref b) => Some(b@),
            None => None,
        }
    }
}

/// `null` as bytes.
fn lit_null_vec() -> (r: Vec<u8>)
    ensures
        r@ == lit_null(),
{
    let mut v: Vec<u8> = Vec::new();
    v.push('n' as u8);
    v.push('u' as u8);
    v.push('l' as u8);
    v.push('l' as u8);
    proof {
        assert(v@ =~= lit_null());
    }
    v
}

impl Return {
    /// Builds the return wrapper from a reply's payload, exactly as
    /// [`spec_return_of`] describes: `void` says whether the call's
    /// declared return type is zero-sized. A missing value for a non-void
    /// return type is a deserialization failure, not a legitimate empty
    /// return.
    pub fn from_data(data: Option<Vec<u8>>, void: bool) -> (r: Result<Return, Error>)
        ensures
            match spec_return_of(
                match data {
                    Some(ref b) => Some(b@),
                    None => None,
                },
                void,
            ) {
                Some(rv) => {
                    &&& r matches Ok(ret)
                    &&& ret@ == rv
                },
                None => r == Err::<Return, Error>(Error::SerializationFailure),
            },
    {
        let null = lit_null_vec();
        match data {
            None => {
                if void {
                    Ok(Return(None))
                } else {
                    Err(Error::SerializationFailure)
                }
            },
            Some(b) => {
                let is_null = eq_bytes(&b, &null);
                if void {
                    if is_null {
                        Ok(Return(None))
                    } else {
                        Err(Error::SerializationFailure)
                    }
                } else {
                    if is_null {
                        Err(Error::SerializationFailure)
                    } else {
                        Ok(Return(Some(b)))
                    }
                }
            },
        }
    }
}

/// Whether two byte vectors hold the same bytes.
pub fn eq_bytes(a: &Vec<u8>, b: &Vec<u8>) -> (r: bool)
    ensures
        r == (a@ == b@),
{
    if a.len() != b.len() {
        proof {
            assert(a@ != b@);
        }
        return false;
    }
    let mut i: usize = 0;
    while i < a.len()
        invariant
            0 <= i <= a@.len(),
            a@.len() == b@.len(),
            forall|j: int| 0 <= j < i ==> a@[j] == b@[j],
        decreases a@.len() - i,
    {
        if a[i] != b[i] {
            return false;
        }
        i = i + 1;
    }
    proof {
        assert(a@ =~= b@);
    }
    true
}

/// A reply with no `data` field at all decodes to the absent payload.
proof fn lemma_decode_result_absent()
    ensures
        spec_decode_response(lit_pre() + lit_tag_result() + lit_rbrace()) == Some(
            ResponseView::Response(None),
        ),
{
    let s = lit_pre() + lit_tag_result() + lit_rbrace();
    assert(s =~= Seq::<u8>::empty() + lit_pre() + (lit_tag_result() + lit_rbrace()));
    crate::wire::lemma_match_here(
        Seq::<u8>::empty(),
        lit_pre(),
        lit_tag_result() + lit_rbrace(),
    );
    assert(s =~= lit_pre() + lit_tag_result() + lit_rbrace());
    crate::wire::lemma_match_here(lit_pre(), lit_tag_result(), lit_rbrace());
    assert(s =~= (lit_pre() + lit_tag_result()) + lit_rbrace() + Seq::<u8>::empty());
    crate::wire::lemma_match_here(
        lit_pre() + lit_tag_result(),
        lit_rbrace(),
        Seq::<u8>::empty(),
    );
    assert(s.len() == lit_pre().len() + lit_tag_result().len() + 1);
}

/// A reply with `"data":null` decodes to the explicit `null` payload.
proof fn lemma_decode_result_null()
    ensures
        spec_decode_response(
            lit_pre() + lit_tag_result() + lit_data_key() + lit_null() + lit_rbrace(),
        ) == Some(ResponseView::Response(Some(lit_null()))),
{
    let s = lit_pre() + lit_tag_result() + lit_data_key() + lit_null() + lit_rbrace();
    let j = lit_pre().len() + lit_tag_result().len() as int;
    let v = j + lit_data_key().len() as int;
    assert(s =~= Seq::<u8>::empty() + lit_pre() + (lit_tag_result() + lit_data_key()
        + lit_null() + lit_rbrace()));
    crate::wire::lemma_match_here(
        Seq::<u8>::empty(),
        lit_pre(),
        lit_tag_result() + lit_data_key() + lit_null() + lit_rbrace(),
    );
    assert(s =~= lit_pre() + lit_tag_result() + (lit_data_key() + lit_null() + lit_rbrace()));
    crate::wire::lemma_match_here(
        lit_pre(),
        lit_tag_result(),
        lit_data_key() + lit_null() + lit_rbrace(),
    );
    // The object does not end right after the tag: a `,` follows.
    assert(s[j] == lit_data_key()[0]);
    crate::wire::lemma_no_match_first(s, j, lit_rbrace());
    assert(s =~= (lit_pre() + lit_tag_result()) + lit_data_key() + (lit_null() + lit_rbrace()));
    crate::wire::lemma_match_here(
        lit_pre() + lit_tag_result(),
        lit_data_key(),
        lit_null() + lit_rbrace(),
    );
    // Scanning `null}` stops on the closing brace.
    let nl = lit_null();
    assert(s.skip(v) =~= nl + lit_rbrace());
    let st0 = scan_init();
    assert(nl.len() == 4);
    let n1 = nl.drop_first();
    let n2 = n1.drop_first();
    let n3 = n2.drop_first();
    assert(n3.drop_first() =~= Seq::<u8>::empty());
    assert(!stops(st0, nl[0]) && scan_byte(st0, nl[0]) == st0);
    assert(!stops(st0, n1[0]) && scan_byte(st0, n1[0]) == st0);
    assert(!stops(st0, n2[0]) && scan_byte(st0, n2[0]) == st0);
    assert(!stops(st0, n3[0]) && scan_byte(st0, n3[0]) == st0);
    assert(scan_seq(st0, n3.drop_first()) == st0);
    assert(first_stop(st0, n3.drop_first()) is None);
    assert(scan_seq(st0, n3) == st0);
    assert(first_stop(st0, n3) is None);
    assert(scan_seq(st0, n2) == st0);
    assert(first_stop(st0, n2) is None);
    assert(scan_seq(st0, n1) == st0);
    assert(first_stop(st0, n1) is None);
    assert(scan_seq(st0, nl) == st0);
    assert(first_stop(st0, nl) is None);
    crate::scan::lemma_first_stop_app(st0, nl, lit_rbrace());
    crate::scan::lemma_scan_one(st0, '}' as u8);
    assert(stops(st0, '}' as u8));
    assert(first_stop(st0, s.skip(v)) == Some(4int));
    assert(s[v + 4] == '}' as u8);
    assert(s.len() == v + 5);
    assert(s.subrange(v, v + 4) =~= lit_null());
}

/// The void-return discipline: a reply with no `data` field and a reply
/// with `"data":null` deserialize to the same value when — and only when —
/// the call's declared return type is void; for any other return type the
/// absent field and the explicit `null` are both a missing field and fail.
pub proof fn lemma_void_return_uniform()
    ensures
        spec_decode_response(lit_pre() + lit_tag_result() + lit_rbrace()) == Some(
            ResponseView::Response(None),
        ),
        spec_decode_response(
            lit_pre() + lit_tag_result() + lit_data_key() + lit_null() + lit_rbrace(),
        ) == Some(ResponseView::Response(Some(lit_null()))),
        spec_return_of(None, true) == spec_return_of(Some(lit_null()), true),
        spec_return_of(None, true) == Some(None::<Seq<u8>>),
        spec_return_of(None, false) is None,
        spec_return_of(Some(lit_null()), false) is None,
{
    lemma_decode_result_absent();
    lemma_decode_result_null();
}

} // verus!
