//! The JSON wire grammar for requests: `{"type":"list"}`,
//! `{"type":"methods","data":{"deviceId":"<uuid>"}}` and
//! `{"type":"invoke","data":{"deviceId":"<uuid>","name":"<name>",
//! "parameters":[<value>,...]}}`.
//!
//! The encoder emits exactly this canonical form, and the decoder reads
//! exactly it back; [`lemma_decode_encode`] proves that every well-formed
//! call round-trips unchanged through its own wire shape.

use vstd::prelude::*;

use crate::call::{call_wf, Call, CallKind, CallView, Invoke, Methods};
use crate::envelope::{encode_frame, frame_of};
use crate::error::Error;
use crate::id::{valid_uuid, DeviceId};
use crate::jsonstr::{escape_byte, escape_into, escape_seq, is_hex_lower, lemma_take_string_escape, lemma_take_string_sound, take_string, take_string_at};
use crate::scan::{first_stop, lemma_first_stop_app, param_ok, param_valid, scan_init, stops, value_end};
use crate::MAX_MESSAGE_SIZE;

verus! {

/// `{"type":"` — the opening every message shares.
pub open spec fn lit_pre() -> Seq<u8> {
    seq![
        '{' as u8,
        '"' as u8,
        't' as u8,
        'y' as u8,
        'p' as u8,
        'e' as u8,
        '"' as u8,
        ':' as u8,
        '"' as u8,
    ]
}

/// `list"` — the list tag with its closing quote.
pub open spec fn lit_tag_list() -> Seq<u8> {
    seq!['l' as u8, 'i' as u8, 's' as u8, 't' as u8, '"' as u8]
}

/// `methods"` — the methods tag with its closing quote.
pub open spec fn lit_tag_methods() -> Seq<u8> {
    seq![
        'm' as u8,
        'e' as u8,
        't' as u8,
        'h' as u8,
        'o' as u8,
        'd' as u8,
        's' as u8,
        '"' as u8,
    ]
}

/// `invoke"` — the invoke tag with its closing quote.
pub open spec fn lit_tag_invoke() -> Seq<u8> {
    seq!['i' as u8, 'n' as u8, 'v' as u8, 'o' as u8, 'k' as u8, 'e' as u8, '"' as u8]
}

/// `,"data":{"deviceId":"` — opens the payload of `methods` and `invoke`.
pub open spec fn lit_data_dev() -> Seq<u8> {
    seq![
        ',' as u8,
        '"' as u8,
        'd' as u8,
        'a' as u8,
        't' as u8,
        'a' as u8,
        '"' as u8,
        ':' as u8,
        '{' as u8,
        '"' as u8,
        'd' as u8,
        'e' as u8,
        'v' as u8,
        'i' as u8,
        'c' as u8,
        'e' as u8,
        'I' as u8,
        'd' as u8,
        '"' as u8,
        ':' as u8,
        '"' as u8,
    ]
}

/// `","name":"` — closes the identifier and opens the method name.
pub open spec fn lit_name_key() -> Seq<u8> {
    seq![
        '"' as u8,
        ',' as u8,
        '"' as u8,
        'n' as u8,
        'a' as u8,
        'm' as u8,
        'e' as u8,
        '"' as u8,
        ':' as u8,
        '"' as u8,
    ]
}

/// `,"parameters":[` — follows the method name's closing quote.
pub open spec fn lit_params_tail() -> Seq<u8> {
    seq![
        ',' as u8,
        '"' as u8,
        'p' as u8,
        'a' as u8,
        'r' as u8,
        'a' as u8,
        'm' as u8,
        'e' as u8,
        't' as u8,
        'e' as u8,
        'r' as u8,
        's' as u8,
        '"' as u8,
        ':' as u8,
        '[' as u8,
    ]
}

/// `"}}` — closes the identifier and both objects of a `methods` call.
pub open spec fn lit_meth_suf() -> Seq<u8> {
    seq!['"' as u8, '}' as u8, '}' as u8]
}

/// `}}` — closes both objects of an `invoke` call.
pub open spec fn lit_obj_end() -> Seq<u8> {
    seq!['}' as u8, '}' as u8]
}

/// `}` — closes a `list` call.
pub open spec fn lit_rbrace() -> Seq<u8> {
    seq!['}' as u8]
}

/// Pre-serialized parameters joined with commas, ready to stand between
/// `[` and `]`.
pub open spec fn join_params(ps: Seq<Seq<u8>>) -> Seq<u8>
    decreases ps.len(),
{
    if ps.len() == 0 {
        Seq::empty()
    } else if ps.len() == 1 {
        ps[0]
    } else {
        ps[0] + seq![',' as u8] + join_params(ps.drop_first())
    }
}

/// Joining one more parameter appends a comma and the parameter.
pub proof fn lemma_join_append(ps: Seq<Seq<u8>>, p: Seq<u8>)
    ensures
        join_params(ps.push(p)) == if ps.len() == 0 {
            p
        } else {
            join_params(ps) + seq![',' as u8] + p
        },
    decreases ps.len(),
{
    if ps.len() == 0 {
        assert(ps.push(p).len() == 1);
        assert(ps.push(p)[0] == p);
    } else if ps.len() == 1 {
        assert(ps.push(p).drop_first() =~= seq![p]);
        assert(join_params(seq![p]) == p);
        assert(ps.push(p)[0] == ps[0]);
        assert(join_params(ps) == ps[0]);
    } else {
        assert(ps.push(p).drop_first() =~= ps.drop_first().push(p));
        assert(ps.push(p)[0] == ps[0]);
        lemma_join_append(ps.drop_first(), p);
        assert(ps[0] + seq![',' as u8] + (join_params(ps.drop_first()) + seq![',' as u8] + p)
            =~= (ps[0] + seq![',' as u8] + join_params(ps.drop_first())) + seq![',' as u8] + p);
    }
}

/// The canonical wire text of a call.
pub open spec fn spec_encode_call(c: CallView) -> Seq<u8> {
    match c {
        CallView::List => lit_pre() + lit_tag_list() + lit_rbrace(),
        CallView::Methods { device_id } => lit_pre() + lit_tag_methods() + lit_data_dev()
            + device_id + lit_meth_suf(),
        CallView::Invoke { device_id, name, parameters } => lit_pre() + lit_tag_invoke()
            + lit_data_dev() + device_id + lit_name_key() + escape_seq(name) + seq!['"' as u8]
            + lit_params_tail() + join_params(parameters) + seq![']' as u8] + lit_obj_end(),
    }
}

/// `{"type":"` pushed onto `out`.
fn push_pre(out: &mut Vec<u8>)
    ensures
        final(out)@ == old(out)@ + lit_pre(),
{
    out.push('{' as u8);
    out.push('"' as u8);
    out.push('t' as u8);
    out.push('y' as u8);
    out.push('p' as u8);
    out.push('e' as u8);
    out.push('"' as u8);
    out.push(':' as u8);
    out.push('"' as u8);
    proof {
        assert(out@ =~= old(out)@ + lit_pre());
    }
}

/// The wire text of the `list` call.
fn encode_list() -> (r: Vec<u8>)
    ensures
        r@ == spec_encode_call(CallView::List),
{
    let mut out: Vec<u8> = Vec::new();
    push_pre(&mut out);
    out.push('l' as u8);
    out.push('i' as u8);
    out.push('s' as u8);
    out.push('t' as u8);
    out.push('"' as u8);
    out.push('}' as u8);
    proof {
        assert(out@ =~= spec_encode_call(CallView::List));
    }
    out
}

/// The wire text of a `methods` call.
fn encode_methods(m: &Methods) -> (r: Vec<u8>)
    ensures
        r@ == spec_encode_call(CallView::Methods { device_id: m.device_id@ }),
{
    let mut out: Vec<u8> = Vec::new();
    push_pre(&mut out);
    out.push('m' as u8);
    out.push('e' as u8);
    out.push('t' as u8);
    out.push('h' as u8);
    out.push('o' as u8);
    out.push('d' as u8);
    out.push('s' as u8);
    out.push('"' as u8);
    proof {
        assert(out@ =~= lit_pre() + lit_tag_methods());
    }
    push_data_dev(&mut out);
    out.extend_from_slice(m.device_id.as_bytes().as_slice());
    out.push('"' as u8);
    out.push('}' as u8);
    out.push('}' as u8);
    proof {
        assert(out@ =~= spec_encode_call(CallView::Methods { device_id: m.device_id@ }));
    }
    out
}

/// The view of an `invoke` payload.
pub open spec fn invoke_view(inv: &Invoke) -> CallView {
    CallView::Invoke {
        device_id: inv.device_id@,
        name: inv.name@,
        parameters: inv.parameters.deep_view(),
    }
}

/// `","name":"` pushed onto `out`.
fn push_name_key(out: &mut Vec<u8>)
    ensures
        final(out)@ == old(out)@ + lit_name_key(),
{
    out.push('"' as u8);
    out.push(',' as u8);
    out.push('"' as u8);
    out.push('n' as u8);
    out.push('a' as u8);
    out.push('m' as u8);
    out.push('e' as u8);
    out.push('"' as u8);
    out.push(':' as u8);
    out.push('"' as u8);
    proof {
        assert(out@ =~= old(out)@ + lit_name_key());
    }
}

/// `","parameters":[` pushed onto `out` (the name's closing quote included).
fn push_params_key(out: &mut Vec<u8>)
    ensures
        final(out)@ == old(out)@ + seq!['"' as u8] + lit_params_tail(),
{
    out.push('"' as u8);
    out.push(',' as u8);
    out.push('"' as u8);
    out.push('p' as u8);
    out.push('a' as u8);
    out.push('r' as u8);
    out.push('a' as u8);
    out.push('m' as u8);
    out.push('e' as u8);
    out.push('t' as u8);
    out.push('e' as u8);
    out.push('r' as u8);
    out.push('s' as u8);
    out.push('"' as u8);
    out.push(':' as u8);
    out.push('[' as u8);
    proof {
        assert(out@ =~= old(out)@ + seq!['"' as u8] + lit_params_tail());
    }
}

/// The wire text of an `invoke` call, or `SerializationFailure` for a
/// parameter blob that is not a single embeddable JSON value.
fn encode_invoke(inv: &Invoke) -> (r: Result<Vec<u8>, Error>)
    ensures
        call_wf(invoke_view(inv)) ==> (r matches Ok(v) && v@ == spec_encode_call(
            invoke_view(inv),
        )),
        !call_wf(invoke_view(inv)) ==> r == Err::<Vec<u8>, Error>(Error::SerializationFailure),
{
    proof {
        use_type_invariant(&inv.device_id);
        inv.device_id.lemma_inv_valid();
    }
    let mut out: Vec<u8> = Vec::new();
    push_pre(&mut out);
    out.push('i' as u8);
    out.push('n' as u8);
    out.push('v' as u8);
    out.push('o' as u8);
    out.push('k' as u8);
    out.push('e' as u8);
    out.push('"' as u8);
    proof {
        assert(out@ =~= lit_pre() + lit_tag_invoke());
    }
    push_data_dev(&mut out);
    out.extend_from_slice(inv.device_id.as_bytes().as_slice());
    push_name_key(&mut out);
    let ghost head = lit_pre() + lit_tag_invoke() + lit_data_dev() + inv.device_id@
        + lit_name_key();
    proof {
        assert(out@ =~= head);
    }
    escape_into(&mut out, &inv.name);
    push_params_key(&mut out);
    let ghost head2 = head + escape_seq(inv.name@) + seq!['"' as u8] + lit_params_tail();
    proof {
        assert(out@ =~= head2);
    }
    let ghost pv = inv.parameters.deep_view();
    let n = inv.parameters.len();
    let mut j: usize = 0;
    while j < n
        invariant
            0 <= j <= n,
            n == inv.parameters@.len(),
            pv == inv.parameters.deep_view(),
            pv.len() == n,
            forall|k: int| 0 <= k < n ==> pv[k] == #[trigger] inv.parameters@[k]@,
            out@ == head2 + join_params(pv.take(j as int)),
            forall|k: int| 0 <= k < j ==> param_valid(#[trigger] pv[k]),
        decreases n - j,
    {
        let p = &inv.parameters[j];
        if !param_ok(p) {
            proof {
                assert(!param_valid(pv[j as int]));
                crate::call::lemma_invoke_not_wf(invoke_view(inv), j as int);
            }
            return Err(Error::SerializationFailure);
        }
        if j > 0 {
            out.push(',' as u8);
        }
        out.extend_from_slice(p.as_slice());
        proof {
            lemma_join_append(pv.take(j as int), pv[j as int]);
            assert(pv.take(j as int).push(pv[j as int]) =~= pv.take(j + 1));
            if j == 0 {
                assert(pv.take(0int) =~= Seq::<Seq<u8>>::empty());
            }
            assert(out@ =~= head2 + join_params(pv.take(j + 1)));
        }
        j = j + 1;
    }
    out.push(']' as u8);
    out.push('}' as u8);
    out.push('}' as u8);
    proof {
        assert(pv.take(n as int) =~= pv);
        assert(out@ =~= spec_encode_call(invoke_view(inv)));
        assert(call_wf(invoke_view(inv)));
    }
    Ok(out)
}

impl Call {
    /// The call's JSON wire text, exactly as [`spec_encode_call`] gives it.
    /// A parameter blob that is not a single embeddable JSON value cannot
    /// be represented on the wire: the call fails with
    /// `SerializationFailure` and nothing is produced.
    pub fn encode(&self) -> (r: Result<Vec<u8>, Error>)
        ensures
            call_wf(self@) ==> (r matches Ok(v) && v@ == spec_encode_call(self@)),
            !call_wf(self@) ==> r == Err::<Vec<u8>, Error>(Error::SerializationFailure),
    {
        match &self.kind {
            CallKind::List(_) => Ok(encode_list()),
            CallKind::Methods(m) => {
                proof {
                    use_type_invariant(&m.device_id);
                    m.device_id.lemma_inv_valid();
                }
                Ok(encode_methods(m))
            },
            CallKind::Invoke(inv) => encode_invoke(inv),
        }
    }
}
/// Appends `,"data":{"deviceId":"` to `out`.
fn push_data_dev(out: &mut Vec<u8>)
    ensures
        final(out)@ == old(out)@ + lit_data_dev(),
{
    out.push(',' as u8);
    out.push('"' as u8);
    out.push('d' as u8);
    out.push('a' as u8);
    out.push('t' as u8);
    out.push('a' as u8);
    out.push('"' as u8);
    out.push(':' as u8);
    out.push('{' as u8);
    out.push('"' as u8);
    out.push('d' as u8);
    out.push('e' as u8);
    out.push('v' as u8);
    out.push('i' as u8);
    out.push('c' as u8);
    out.push('e' as u8);
    out.push('I' as u8);
    out.push('d' as u8);
    out.push('"' as u8);
    out.push(':' as u8);
    out.push('"' as u8);
    proof {
        assert(out@ =~= old(out)@ + lit_data_dev());
    }
}

/// Encodes a call and wraps it in its frame: the one message handed to the
/// device for this call. An oversized message is rejected whole — nothing
/// of it is ever written — and a parameter that is not a single JSON value
/// is a serialization failure.
pub fn encode_message(call: &Call) -> (r: Result<Vec<u8>, Error>)
    ensures
        call_wf(call@) && spec_encode_call(call@).len() + 2 <= MAX_MESSAGE_SIZE ==> (r matches Ok(f)
            && f@ == frame_of(spec_encode_call(call@))),
        call_wf(call@) && spec_encode_call(call@).len() + 2 > MAX_MESSAGE_SIZE ==> r == Err::<
            Vec<u8>,
            Error,
        >(Error::MessageTooLarge),
        !call_wf(call@) ==> r == Err::<Vec<u8>, Error>(Error::SerializationFailure),
{
    match call.encode() {
        Ok(payload) => encode_frame(&payload),
        Err(e) => Err(e),
    }
}

/// Whether `lit` stands at position `i` of `s`.
pub open spec fn match_at(s: Seq<u8>, i: int, lit: Seq<u8>) -> bool {
    &&& 0 <= i
    &&& i + lit.len() <= s.len()
    &&& s.subrange(i, i + lit.len()) == lit
}

/// Decides [`match_at`].
pub(crate) fn match_lit(s: &Vec<u8>, i: usize, lit: &Vec<u8>) -> (r: bool)
    requires
        i <= s@.len(),
    ensures
        r == match_at(s@, i as int, lit@),
{
    if s.len() - i < lit.len() {
        return false;
    }
    let mut k: usize = 0;
    while k < lit.len()
        invariant
            0 <= k <= lit@.len(),
            i + lit@.len() <= s@.len(),
            s@.len() <= usize::MAX,
            forall|j: int| 0 <= j < k ==> s@[i + j] == lit@[j],
        decreases lit@.len() - k,
    {
        if s[i + k] != lit[k] {
            proof {
                assert(s@.subrange(i as int, i + lit@.len())[k as int] == s@[i + k]);
            }
            return false;
        }
        k = k + 1;
    }
    proof {
        assert(s@.subrange(i as int, i + lit@.len()) =~= lit@);
    }
    true
}

/// The bytes `s[a..b]`, copied out.
pub(crate) fn copy_range(s: &Vec<u8>, a: usize, b: usize) -> (r: Vec<u8>)
    requires
        a <= b <= s@.len(),
    ensures
        r@ == s@.subrange(a as int, b as int),
{
    let mut out: Vec<u8> = Vec::new();
    let mut i: usize = a;
    while i < b
        invariant
            a <= i <= b <= s@.len(),
            out@ == s@.subrange(a as int, i as int),
        decreases b - i,
    {
        out.push(s[i]);
        i = i + 1;
        proof {
            assert(s@.subrange(a as int, i as int) =~= s@.subrange(a as int, i - 1).push(
                s@[i - 1],
            ));
        }
    }
    out
}

/// Reads the elements of the parameter array back off the wire, starting
/// just after the opening `[`. Each element is one embedded JSON value,
/// delimited as [`first_stop`] finds it; the returned position is just
/// after the closing `]`.
pub open spec fn parse_params(s: Seq<u8>, i: int) -> Option<(Seq<Seq<u8>>, int)>
    decreases s.len() - i
        when 0 <= i <= s.len()
{
    if i < s.len() && s[i] == ']' as u8 {
        Some((Seq::<Seq<u8>>::empty(), i + 1))
    } else {
        match first_stop(scan_init(), s.skip(i)) {
            Some(d) => {
                if 0 < d && i + d < s.len() {
                    if s[i + d] == ',' as u8 {
                        match parse_params(s, i + d + 1) {
                            Some((ps, e)) => {
                                if ps.len() > 0 {
                                    Some((seq![s.subrange(i, i + d)] + ps, e))
                                } else {
                                    // A comma with nothing after it is not
                                    // a canonical parameter list.
                                    None
                                }
                            },
                            None => None,
                        }
                    } else if s[i + d] == ']' as u8 {
                        Some((seq![s.subrange(i, i + d)], i + d + 1))
                    } else {
                        None
                    }
                } else {
                    None
                }
            },
            None => None,
        }
    }
}

/// Decides [`parse_params`], copying the elements out.
fn parse_params_at(s: &Vec<u8>, i: usize) -> (r: Option<(Vec<Vec<u8>>, usize)>)
    requires
        i <= s@.len(),
    ensures
        match r {
            Some(v) => {
                &&& i < v.1 <= s@.len()
                &&& parse_params(s@, i as int) == Some((v.0.deep_view(), v.1 as int))
            },
            None => parse_params(s@, i as int) is None,
        },
    decreases s@.len() - i,
{
    if i < s.len() && s[i] == ']' as u8 {
        let ps: Vec<Vec<u8>> = Vec::new();
        proof {
            assert(ps.deep_view() =~= Seq::<Seq<u8>>::empty());
        }
        return Some((ps, i + 1));
    }
    match value_end(s, i) {
        Some(e0) => {
            if e0 == i {
                return None;
            }
            let b = s[e0];
            if b == ',' as u8 {
                match parse_params_at(s, e0 + 1) {
                    Some((mut ps, e)) => {
                        if ps.is_empty() {
                            return None;
                        }
                        let blob = copy_range(s, i, e0);
                        let ghost old_view = ps.deep_view();
                        let ghost old_seq = ps@;
                        ps.insert(0, blob);
                        proof {
                            assert(blob.deep_view() =~= blob@);
                            assert(ps.deep_view() =~= seq![blob@] + old_view) by {
                                assert(ps@[0] == blob);
                                assert(forall|k: int|
                                    1 <= k < ps@.len() ==> ps@[k] == #[trigger] old_seq[k - 1]);
                            }
                        }
                        Some((ps, e))
                    },
                    None => None,
                }
            } else if b == ']' as u8 {
                let blob = copy_range(s, i, e0);
                let mut ps: Vec<Vec<u8>> = Vec::new();
                ps.push(blob);
                proof {
                    assert(blob.deep_view() =~= blob@);
                    assert(ps.deep_view() =~= seq![blob@]);
                }
                Some((ps, e0 + 1))
            } else {
                None
            }
        },
        None => None,
    }
}

/// Reads a call back off the wire: exactly the canonical texts that
/// [`spec_encode_call`] produces are accepted — [`lemma_decode_encode`]
/// proves that every encoding is read back as its call, and
/// [`lemma_decode_call_sound`] that nothing else is accepted.
pub open spec fn spec_decode_call(s: Seq<u8>) -> Option<CallView> {
    if !match_at(s, 0, lit_pre()) {
        None
    } else {
        let i = lit_pre().len() as int;
        if match_at(s, i, lit_tag_list()) {
            let j = i + lit_tag_list().len();
            if match_at(s, j, lit_rbrace()) && s.len() == j + 1 {
                Some(CallView::List)
            } else {
                None
            }
        } else if match_at(s, i, lit_tag_methods()) {
            let j = i + lit_tag_methods().len();
            if match_at(s, j, lit_data_dev()) {
                let k = j + lit_data_dev().len();
                if k + 36 <= s.len() && valid_uuid(s.subrange(k, k + 36)) && match_at(
                    s,
                    k + 36,
                    lit_meth_suf(),
                ) && s.len() == k + 36 + 3 {
                    Some(CallView::Methods { device_id: s.subrange(k, k + 36) })
                } else {
                    None
                }
            } else {
                None
            }
        } else if match_at(s, i, lit_tag_invoke()) {
            let j = i + lit_tag_invoke().len();
            if match_at(s, j, lit_data_dev()) {
                let k = j + lit_data_dev().len();
                if k + 36 <= s.len() && valid_uuid(s.subrange(k, k + 36)) && match_at(
                    s,
                    k + 36,
                    lit_name_key(),
                ) {
                    let m = k + 36 + lit_name_key().len();
                    match take_string(s.skip(m)) {
                        Some((name, e)) => {
                            let q = m + e;
                            if match_at(s, q, lit_params_tail()) {
                                match parse_params(s, q + lit_params_tail().len()) {
                                    Some((ps, e2)) => {
                                        if match_at(s, e2, lit_obj_end()) && s.len() == e2 + 2 {
                                            Some(
                                                CallView::Invoke {
                                                    device_id: s.subrange(k, k + 36),
                                                    name,
                                                    parameters: ps,
                                                },
                                            )
                                        } else {
                                            None
                                        }
                                    },
                                    None => None,
                                }
                            } else {
                                None
                            }
                        },
                        None => None,
                    }
                } else {
                    None
                }
            } else {
                None
            }
        } else {
            None
        }
    }
}

/// `list"` as bytes.
pub(crate) fn lit_tag_list_vec() -> (r: Vec<u8>)
    ensures
        r@ == lit_tag_list(),
{
    let mut v: Vec<u8> = Vec::new();
    v.push('l' as u8);
    v.push('i' as u8);
    v.push('s' as u8);
    v.push('t' as u8);
    v.push('"' as u8);
    proof {
        assert(v@ =~= lit_tag_list());
    }
    v
}

/// `methods"` as bytes.
pub(crate) fn lit_tag_methods_vec() -> (r: Vec<u8>)
    ensures
        r@ == lit_tag_methods(),
{
    let mut v: Vec<u8> = Vec::new();
    v.push('m' as u8);
    v.push('e' as u8);
    v.push('t' as u8);
    v.push('h' as u8);
    v.push('o' as u8);
    v.push('d' as u8);
    v.push('s' as u8);
    v.push('"' as u8);
    proof {
        assert(v@ =~= lit_tag_methods());
    }
    v
}

/// `invoke"` as bytes.
fn lit_tag_invoke_vec() -> (r: Vec<u8>)
    ensures
        r@ == lit_tag_invoke(),
{
    let mut v: Vec<u8> = Vec::new();
    v.push('i' as u8);
    v.push('n' as u8);
    v.push('v' as u8);
    v.push('o' as u8);
    v.push('k' as u8);
    v.push('e' as u8);
    v.push('"' as u8);
    proof {
        assert(v@ =~= lit_tag_invoke());
    }
    v
}

/// `{"type":"` as bytes.
pub(crate) fn lit_pre_vec() -> (r: Vec<u8>)
    ensures
        r@ == lit_pre(),
{
    let mut v: Vec<u8> = Vec::new();
    push_pre(&mut v);
    proof {
        assert(v@ =~= lit_pre());
    }
    v
}

/// `,"data":{"deviceId":"` as bytes.
fn lit_data_dev_vec() -> (r: Vec<u8>)
    ensures
        r@ == lit_data_dev(),
{
    let mut v: Vec<u8> = Vec::new();
    push_data_dev(&mut v);
    proof {
        assert(v@ =~= lit_data_dev());
    }
    v
}

/// `","name":"` as bytes.
fn lit_name_key_vec() -> (r: Vec<u8>)
    ensures
        r@ == lit_name_key(),
{
    let mut v: Vec<u8> = Vec::new();
    push_name_key(&mut v);
    proof {
        assert(v@ =~= lit_name_key());
    }
    v
}

/// `,"parameters":[` as bytes.
fn lit_params_tail_vec() -> (r: Vec<u8>)
    ensures
        r@ == lit_params_tail(),
{
    let mut v: Vec<u8> = Vec::new();
    v.push(',' as u8);
    v.push('"' as u8);
    v.push('p' as u8);
    v.push('a' as u8);
    v.push('r' as u8);
    v.push('a' as u8);
    v.push('m' as u8);
    v.push('e' as u8);
    v.push('t' as u8);
    v.push('e' as u8);
    v.push('r' as u8);
    v.push('s' as u8);
    v.push('"' as u8);
    v.push(':' as u8);
    v.push('[' as u8);
    proof {
        assert(v@ =~= lit_params_tail());
    }
    v
}

/// `"}}` as bytes.
fn lit_meth_suf_vec() -> (r: Vec<u8>)
    ensures
        r@ == lit_meth_suf(),
{
    let mut v: Vec<u8> = Vec::new();
    v.push('"' as u8);
    v.push('}' as u8);
    v.push('}' as u8);
    proof {
        assert(v@ =~= lit_meth_suf());
    }
    v
}

/// `}}` as bytes.
fn lit_obj_end_vec() -> (r: Vec<u8>)
    ensures
        r@ == lit_obj_end(),
{
    let mut v: Vec<u8> = Vec::new();
    v.push('}' as u8);
    v.push('}' as u8);
    proof {
        assert(v@ =~= lit_obj_end());
    }
    v
}

/// `}` as bytes.
pub(crate) fn lit_rbrace_vec() -> (r: Vec<u8>)
    ensures
        r@ == lit_rbrace(),
{
    let mut v: Vec<u8> = Vec::new();
    v.push('}' as u8);
    proof {
        assert(v@ =~= lit_rbrace());
    }
    v
}

/// Reads a call back off the wire, exactly as [`spec_decode_call`]
/// describes.
pub fn decode_call(s: &Vec<u8>) -> (r: Option<Call>)
    ensures
        match r {
            Some(c) => spec_decode_call(s@) == Some(c@),
            None => spec_decode_call(s@) is None,
        },
{
    let pre = lit_pre_vec();
    if !match_lit(s, 0, &pre) {
        return None;
    }
    let i = pre.len();
    let tlist = lit_tag_list_vec();
    if match_lit(s, i, &tlist) {
        let j = i + tlist.len();
        let rb = lit_rbrace_vec();
        if match_lit(s, j, &rb) && s.len() == j + 1 {
            return Some(Call::list());
        }
        return None;
    }
    let tmeth = lit_tag_methods_vec();
    let tinv = lit_tag_invoke_vec();
    let dd = lit_data_dev_vec();
    if match_lit(s, i, &tmeth) {
        let j = i + tmeth.len();
        if !match_lit(s, j, &dd) {
            return None;
        }
        let k = j + dd.len();
        if s.len() - k < 36 {
            return None;
        }
        let idtext = copy_range(s, k, k + 36);
        match DeviceId::new(idtext) {
            Some(id) => {
                let suf = lit_meth_suf_vec();
                if match_lit(s, k + 36, &suf) && s.len() == k + 36 + 3 {
                    return Some(Call::methods(id));
                }
                None
            },
            None => None,
        }
    } else if match_lit(s, i, &tinv) {
        let j = i + tinv.len();
        if !match_lit(s, j, &dd) {
            return None;
        }
        let k = j + dd.len();
        if s.len() - k < 36 {
            return None;
        }
        let idtext = copy_range(s, k, k + 36);
        let id = match DeviceId::new(idtext) {
            Some(id) => id,
            None => {
                return None;
            },
        };
        let nk = lit_name_key_vec();
        if !match_lit(s, k + 36, &nk) {
            return None;
        }
        let m = k + 36 + nk.len();
        let (name, q) = match take_string_at(s, m) {
            Some(v) => v,
            None => {
                return None;
            },
        };
        let pt = lit_params_tail_vec();
        if !match_lit(s, q, &pt) {
            return None;
        }
        let (params, e2) = match parse_params_at(s, q + pt.len()) {
            Some(v) => v,
            None => {
                return None;
            },
        };
        let oe = lit_obj_end_vec();
        if !(match_lit(s, e2, &oe) && s.len() == e2 + 2) {
            return None;
        }
        Some(Call::invoke(id, name, params))
    } else {
        None
    }
}

/// A literal stands in a message right after a known prefix.
pub(crate) proof fn lemma_match_here(a: Seq<u8>, lit: Seq<u8>, b: Seq<u8>)
    ensures
        match_at(a + lit + b, a.len() as int, lit),
{
    assert((a + lit + b).subrange(a.len() as int, a.len() + lit.len() as int) =~= lit);
}

/// A literal cannot stand at a position whose first byte differs.
pub(crate) proof fn lemma_no_match_first(s: Seq<u8>, i: int, lit: Seq<u8>)
    requires
        0 <= i < s.len(),
        lit.len() > 0,
        s[i] != lit[0],
    ensures
        !match_at(s, i, lit),
{
    if match_at(s, i, lit) {
        assert(s.subrange(i, i + lit.len())[0] == s[i]);
    }
}

/// Parameters joined with commas and closed with `]` are read back exactly,
/// whatever follows the bracket.
proof fn lemma_parse_params_join(s: Seq<u8>, i: int, ps: Seq<Seq<u8>>, rest: Seq<u8>)
    requires
        0 <= i <= s.len(),
        forall|k: int| 0 <= k < ps.len() ==> param_valid(#[trigger] ps[k]),
        s.skip(i) == join_params(ps) + seq![']' as u8] + rest,
    ensures
        parse_params(s, i) == Some((ps, i + join_params(ps).len() + 1)),
    decreases ps.len(),
{
    let tail = s.skip(i);
    assert(forall|j: int| 0 <= j < tail.len() ==> tail[j] == #[trigger] s[i + j]);
    if ps.len() == 0 {
        assert(join_params(ps) =~= Seq::<u8>::empty());
        assert(tail[0] == ']' as u8);
        assert(s[i] == ']' as u8);
        assert(parse_params(s, i) == Some((Seq::<Seq<u8>>::empty(), i + 1)));
        assert(ps =~= Seq::<Seq<u8>>::empty());
    } else {
        let p = ps[0];
        assert(param_valid(p));
        let after: Seq<u8> = if ps.len() == 1 {
            seq![']' as u8] + rest
        } else {
            seq![',' as u8] + join_params(ps.drop_first()) + seq![']' as u8] + rest
        };
        assert(tail =~= p + after) by {
            if ps.len() == 1 {
                assert(join_params(ps) == p);
            } else {
                assert(join_params(ps) == p + seq![',' as u8] + join_params(ps.drop_first()));
            }
        }
        // The scan runs through the whole parameter and stops on the byte
        // right after it.
        lemma_first_stop_app(scan_init(), p, after);
        assert(after[0] == ',' as u8 || after[0] == ']' as u8);
        assert(stops(scan_init(), after[0]));
        assert(first_stop(scan_init(), after) == Some(0int));
        assert(first_stop(scan_init(), tail) == Some(p.len() as int));
        let d = p.len() as int;
        // Not the empty-array case: a valid parameter does not start with `]`.
        assert(tail[0] == p[0]);
        lemma_first_stop_app(scan_init(), Seq::<u8>::empty(), p);
        assert(!stops(scan_init(), p[0])) by {
            assert(first_stop(scan_init(), p) is None);
        }
        assert(s[i] != ']' as u8);
        assert(0 < d && i + d < s.len());
        assert(s[i + d] == after[0]);
        assert(s.subrange(i, i + d) =~= p);
        if ps.len() == 1 {
            assert(s[i + d] == ']' as u8);
            assert(parse_params(s, i) == Some((seq![p], i + d + 1)));
            assert(seq![p] =~= ps);
            assert(join_params(ps).len() == d);
        } else {
            assert(s[i + d] == ',' as u8);
            let i2 = i + d + 1;
            assert(s.skip(i2) =~= join_params(ps.drop_first()) + seq![']' as u8] + rest) by {
                assert(forall|j: int|
                    0 <= j < s.len() - i2 ==> #[trigger] s.skip(i2)[j] == tail[j + d + 1]);
            }
            lemma_parse_params_join(s, i2, ps.drop_first(), rest);
            assert(parse_params(s, i) == Some(
                (seq![p] + ps.drop_first(), i2 + join_params(ps.drop_first()).len() + 1),
            ));
            assert(seq![p] + ps.drop_first() =~= ps);
            assert(join_params(ps).len() == d + 1 + join_params(ps.drop_first()).len());
        }
    }
}

/// Round trip for the `list` call.
proof fn lemma_decode_encode_list()
    ensures
        spec_decode_call(spec_encode_call(CallView::List)) == Some(CallView::List),
{
    let s = spec_encode_call(CallView::List);
    assert(s =~= Seq::<u8>::empty() + lit_pre() + (lit_tag_list() + lit_rbrace()));
    lemma_match_here(Seq::<u8>::empty(), lit_pre(), lit_tag_list() + lit_rbrace());
    assert(s =~= lit_pre() + lit_tag_list() + lit_rbrace());
    lemma_match_here(lit_pre(), lit_tag_list(), lit_rbrace());
    assert(s =~= (lit_pre() + lit_tag_list()) + lit_rbrace() + Seq::<u8>::empty());
    lemma_match_here(lit_pre() + lit_tag_list(), lit_rbrace(), Seq::<u8>::empty());
    assert(s.len() == lit_pre().len() + lit_tag_list().len() + 1);
}

/// Round trip for a `methods` call.
proof fn lemma_decode_encode_methods(id: Seq<u8>)
    requires
        valid_uuid(id),
    ensures
        spec_decode_call(spec_encode_call(CallView::Methods { device_id: id })) == Some(
            CallView::Methods { device_id: id },
        ),
{
    let c = CallView::Methods { device_id: id };
    let s = spec_encode_call(c);
    let i = lit_pre().len() as int;
    let j = i + lit_tag_methods().len();
    let k = j + lit_data_dev().len();
    assert(s =~= Seq::<u8>::empty() + lit_pre() + (lit_tag_methods() + lit_data_dev() + id
        + lit_meth_suf()));
    lemma_match_here(
        Seq::<u8>::empty(),
        lit_pre(),
        lit_tag_methods() + lit_data_dev() + id + lit_meth_suf(),
    );
    assert(s[i] == lit_tag_methods()[0]);
    assert(s[i] == 'm' as u8);
    lemma_no_match_first(s, i, lit_tag_list());
    assert(s =~= lit_pre() + lit_tag_methods() + (lit_data_dev() + id + lit_meth_suf()));
    lemma_match_here(lit_pre(), lit_tag_methods(), lit_data_dev() + id + lit_meth_suf());
    assert(s =~= (lit_pre() + lit_tag_methods()) + lit_data_dev() + (id + lit_meth_suf()));
    lemma_match_here(lit_pre() + lit_tag_methods(), lit_data_dev(), id + lit_meth_suf());
    assert(s.subrange(k, k + 36) =~= id);
    assert(s =~= (lit_pre() + lit_tag_methods() + lit_data_dev() + id) + lit_meth_suf()
        + Seq::<u8>::empty());
    lemma_match_here(
        lit_pre() + lit_tag_methods() + lit_data_dev() + id,
        lit_meth_suf(),
        Seq::<u8>::empty(),
    );
    assert(s.len() == k + 36 + 3);
}

/// Round trip for an `invoke` call.
#[verifier::rlimit(100)]
#[verifier::spinoff_prover]
proof fn lemma_decode_encode_invoke(id: Seq<u8>, name: Seq<u8>, ps: Seq<Seq<u8>>)
    requires
        valid_uuid(id),
        forall|k: int| 0 <= k < ps.len() ==> param_valid(#[trigger] ps[k]),
    ensures
        spec_decode_call(
            spec_encode_call(CallView::Invoke { device_id: id, name, parameters: ps }),
        ) == Some(CallView::Invoke { device_id: id, name, parameters: ps }),
{
    let c = CallView::Invoke { device_id: id, name, parameters: ps };
    let s = spec_encode_call(c);
    let i = lit_pre().len() as int;
    let j = i + lit_tag_invoke().len();
    let k = j + lit_data_dev().len();
    let esc = escape_seq(name);
    let joined = join_params(ps);
    let head = lit_pre() + lit_tag_invoke() + lit_data_dev() + id + lit_name_key();
    let m = k + 36 + lit_name_key().len();
    assert(head.len() == m);
    let strrest = lit_params_tail() + joined + seq![']' as u8] + lit_obj_end();
    assert(s =~= Seq::<u8>::empty() + lit_pre() + (lit_tag_invoke() + lit_data_dev() + id
        + lit_name_key() + esc + seq!['"' as u8] + strrest));
    lemma_match_here(
        Seq::<u8>::empty(),
        lit_pre(),
        lit_tag_invoke() + lit_data_dev() + id + lit_name_key() + esc + seq!['"' as u8]
            + strrest,
    );
    assert(s[i] == lit_tag_invoke()[0]);
    assert(s[i] == 'i' as u8);
    lemma_no_match_first(s, i, lit_tag_list());
    lemma_no_match_first(s, i, lit_tag_methods());
    assert(s =~= lit_pre() + lit_tag_invoke() + (lit_data_dev() + id + lit_name_key() + esc
        + seq!['"' as u8] + strrest));
    lemma_match_here(
        lit_pre(),
        lit_tag_invoke(),
        lit_data_dev() + id + lit_name_key() + esc + seq!['"' as u8] + strrest,
    );
    assert(s =~= (lit_pre() + lit_tag_invoke()) + lit_data_dev() + (id + lit_name_key() + esc
        + seq!['"' as u8] + strrest));
    lemma_match_here(
        lit_pre() + lit_tag_invoke(),
        lit_data_dev(),
        id + lit_name_key() + esc + seq!['"' as u8] + strrest,
    );
    assert(s.subrange(k, k + 36) =~= id);
    assert(s =~= (lit_pre() + lit_tag_invoke() + lit_data_dev() + id) + lit_name_key() + (esc
        + seq!['"' as u8] + strrest));
    lemma_match_here(
        lit_pre() + lit_tag_invoke() + lit_data_dev() + id,
        lit_name_key(),
        esc + seq!['"' as u8] + strrest,
    );
    // The name reads back off the wire.
    assert(s.skip(m) =~= esc + seq!['"' as u8] + strrest);
    lemma_take_string_escape(name, strrest);
    assert(take_string(s.skip(m)) == Some((name, esc.len() + 1int)));
    let q = m + esc.len() + 1;
    // The parameter list follows.
    assert(s =~= (head + esc + seq!['"' as u8]) + lit_params_tail() + (joined
        + seq![']' as u8] + lit_obj_end()));
    lemma_match_here(
        head + esc + seq!['"' as u8],
        lit_params_tail(),
        joined + seq![']' as u8] + lit_obj_end(),
    );
    assert((head + esc + seq!['"' as u8]).len() == q);
    let pstart = q + lit_params_tail().len();
    assert(s.skip(pstart) =~= joined + seq![']' as u8] + lit_obj_end());
    lemma_parse_params_join(s, pstart, ps, lit_obj_end());
    let e2 = pstart + joined.len() + 1;
    assert(parse_params(s, pstart) == Some((ps, e2)));
    assert(s =~= (head + esc + seq!['"' as u8] + lit_params_tail() + joined + seq![']' as u8])
        + lit_obj_end() + Seq::<u8>::empty());
    lemma_match_here(
        head + esc + seq!['"' as u8] + lit_params_tail() + joined + seq![']' as u8],
        lit_obj_end(),
        Seq::<u8>::empty(),
    );
    assert(s.len() == e2 + 2);
}

/// Round trip: every well-formed call, encoded to its wire text and read
/// back, yields exactly the call it started as.
pub proof fn lemma_decode_encode(c: CallView)
    requires
        call_wf(c),
    ensures
        spec_decode_call(spec_encode_call(c)) == Some(c),
{
    match c {
        CallView::List => lemma_decode_encode_list(),
        CallView::Methods { device_id } => lemma_decode_encode_methods(device_id),
        CallView::Invoke { device_id, name, parameters } => lemma_decode_encode_invoke(
            device_id,
            name,
            parameters,
        ),
    }
}

/// No NUL byte anywhere in `s`.
pub open spec fn nul_free(s: Seq<u8>) -> bool {
    forall|i: int| 0 <= i < s.len() ==> s[i] != 0u8
}

/// NUL-freedom is preserved by concatenation.
proof fn lemma_nul_free_app(a: Seq<u8>, b: Seq<u8>)
    requires
        nul_free(a),
        nul_free(b),
    ensures
        nul_free(a + b),
{
    assert forall|i: int| 0 <= i < (a + b).len() implies (a + b)[i] != 0u8 by {
        if i < a.len() {
            assert((a + b)[i] == a[i]);
        } else {
            assert((a + b)[i] == b[i - a.len()]);
        }
    }
}

/// An escaped name holds no NUL byte: control bytes, the NUL included,
/// leave only printable escape sequences behind.
proof fn lemma_escape_nul_free(name: Seq<u8>)
    ensures
        nul_free(escape_seq(name)),
    decreases name.len(),
{
    if name.len() == 0 {
    } else {
        let b = name.first();
        lemma_escape_nul_free(name.drop_first());
        assert(nul_free(escape_byte(b))) by {
            if b == '"' as u8 {
            } else if b == '\\' as u8 {
            } else if b < 0x20 {
                assert(escape_byte(b)[4] == crate::jsonstr::hex_digit(b as int / 16));
                assert(escape_byte(b)[5] == crate::jsonstr::hex_digit(b as int % 16));
            } else {
            }
        }
        lemma_nul_free_app(escape_byte(b), escape_seq(name.drop_first()));
    }
}

/// Joined parameters hold no NUL byte: each parameter is NUL-free by
/// validity, and the separators are commas.
proof fn lemma_join_nul_free(ps: Seq<Seq<u8>>)
    requires
        forall|k: int| 0 <= k < ps.len() ==> param_valid(#[trigger] ps[k]),
    ensures
        nul_free(join_params(ps)),
    decreases ps.len(),
{
    if ps.len() == 0 {
    } else if ps.len() == 1 {
        assert(param_valid(ps[0]));
    } else {
        assert(param_valid(ps[0]));
        lemma_join_nul_free(ps.drop_first());
        lemma_nul_free_app(ps[0], seq![',' as u8]);
        lemma_nul_free_app(ps[0] + seq![',' as u8], join_params(ps.drop_first()));
        assert(ps[0] + seq![',' as u8] + join_params(ps.drop_first()) == (ps[0]
            + seq![',' as u8]) + join_params(ps.drop_first()));
    }
}

/// A canonical UUID text holds no NUL byte.
proof fn lemma_uuid_nul_free(id: Seq<u8>)
    requires
        valid_uuid(id),
    ensures
        nul_free(id),
{
    assert forall|i: int| 0 <= i < id.len() implies id[i] != 0u8 by {
        if i == 8 || i == 13 || i == 18 || i == 23 {
            assert(id[i] == '-' as u8);
        } else {
            assert(is_hex_lower(id[i]));
        }
    }
}

/// The wire text of a well-formed call holds no NUL byte, so the framing
/// NUL bytes around it are unambiguous: the reassembly discipline of
/// [`crate::envelope`] applies to every message this crate sends.
pub proof fn lemma_encode_nul_free(c: CallView)
    requires
        call_wf(c),
    ensures
        nul_free(spec_encode_call(c)),
{
    assert(nul_free(lit_pre()));
    assert(nul_free(lit_tag_list()));
    assert(nul_free(lit_tag_methods()));
    assert(nul_free(lit_tag_invoke()));
    assert(nul_free(lit_data_dev()));
    assert(nul_free(lit_name_key()));
    assert(nul_free(lit_params_tail()));
    assert(nul_free(lit_meth_suf()));
    assert(nul_free(lit_obj_end()));
    assert(nul_free(lit_rbrace()));
    match c {
        CallView::List => {
            lemma_nul_free_app(lit_pre(), lit_tag_list());
            lemma_nul_free_app(lit_pre() + lit_tag_list(), lit_rbrace());
        },
        CallView::Methods { device_id } => {
            lemma_uuid_nul_free(device_id);
            lemma_nul_free_app(lit_pre(), lit_tag_methods());
            lemma_nul_free_app(lit_pre() + lit_tag_methods(), lit_data_dev());
            lemma_nul_free_app(lit_pre() + lit_tag_methods() + lit_data_dev(), device_id);
            lemma_nul_free_app(
                lit_pre() + lit_tag_methods() + lit_data_dev() + device_id,
                lit_meth_suf(),
            );
        },
        CallView::Invoke { device_id, name, parameters } => {
            lemma_uuid_nul_free(device_id);
            lemma_escape_nul_free(name);
            lemma_join_nul_free(parameters);
            let a1 = lit_pre() + lit_tag_invoke();
            lemma_nul_free_app(lit_pre(), lit_tag_invoke());
            let a2 = a1 + lit_data_dev();
            lemma_nul_free_app(a1, lit_data_dev());
            let a3 = a2 + device_id;
            lemma_nul_free_app(a2, device_id);
            let a4 = a3 + lit_name_key();
            lemma_nul_free_app(a3, lit_name_key());
            let a5 = a4 + escape_seq(name);
            lemma_nul_free_app(a4, escape_seq(name));
            let a6 = a5 + seq!['"' as u8];
            lemma_nul_free_app(a5, seq!['"' as u8]);
            let a7 = a6 + lit_params_tail();
            lemma_nul_free_app(a6, lit_params_tail());
            let a8 = a7 + join_params(parameters);
            lemma_nul_free_app(a7, join_params(parameters));
            let a9 = a8 + seq![']' as u8];
            lemma_nul_free_app(a8, seq![']' as u8]);
            lemma_nul_free_app(a9, lit_obj_end());
        },
    }
}


/// The whole message path, end to end: the frame of a well-formed call,
/// however the device splits it into non-empty read cycles, reassembles to
/// exactly the call's wire text — the text is NUL-free, so the framing NUL
/// bytes are unambiguous — and that text reads back as exactly the call.
pub proof fn lemma_message_round_trip(c: CallView, chunks: Seq<Seq<u8>>)
    requires
        call_wf(c),
        spec_encode_call(c).len() + 2 <= MAX_MESSAGE_SIZE,
        chunks.len() > 0,
        forall|i: int| 0 <= i < chunks.len() ==> chunks[i].len() > 0,
        chunks.flatten() == frame_of(spec_encode_call(c)),
    ensures
        crate::envelope::spec_feed_all(Seq::<u8>::empty(), chunks)
            == crate::envelope::FeedOutcome::Done(spec_encode_call(c)),
        spec_decode_call(spec_encode_call(c)) == Some(c),
{
    lemma_encode_nul_free(c);
    crate::envelope::lemma_frame_reassembly(spec_encode_call(c), chunks);
    lemma_decode_encode(c);
}

/// Soundness of parameter reading: whatever [`parse_params`] accepts is
/// its result joined with commas and closed with `]` — the decoder
/// recognises no second spelling of any parameter list.
proof fn lemma_parse_params_sound(s: Seq<u8>, i: int, ps: Seq<Seq<u8>>, e: int)
    requires
        0 <= i <= s.len(),
        parse_params(s, i) == Some((ps, e)),
    ensures
        i < e <= s.len(),
        s.subrange(i, e) == join_params(ps) + seq![']' as u8],
    decreases s.len() - i,
{
    if i < s.len() && s[i] == ']' as u8 {
        assert(ps =~= Seq::<Seq<u8>>::empty());
        assert(s.subrange(i, i + 1) =~= seq![s[i]]);
        assert(join_params(ps) + seq![']' as u8] =~= seq![']' as u8]);
    } else {
        let stop = first_stop(scan_init(), s.skip(i));
        assert(stop is Some);
        let d = stop->Some_0;
        let p = s.subrange(i, i + d);
        if s[i + d] == ',' as u8 {
            let inner = parse_params(s, i + d + 1);
            assert(inner is Some);
            let (ps2, e2) = inner->Some_0;
            assert(ps2.len() > 0);
            assert(ps == seq![p] + ps2);
            assert(e == e2);
            lemma_parse_params_sound(s, i + d + 1, ps2, e2);
            assert(ps[0] == p);
            assert(ps.drop_first() =~= ps2);
            assert(ps.len() >= 2);
            assert(join_params(ps) == p + seq![',' as u8] + join_params(ps2));
            assert(s.subrange(i, e) =~= p + seq![',' as u8] + s.subrange(i + d + 1, e)) by {
                assert(forall|x: int|
                    0 <= x < e - i ==> #[trigger] s.subrange(i, e)[x] == s[i + x]);
                assert(forall|x: int|
                    0 <= x < e - (i + d + 1) ==> #[trigger] s.subrange(i + d + 1, e)[x] == s[i
                        + d + 1 + x]);
                assert(forall|x: int| 0 <= x < d ==> #[trigger] p[x] == s[i + x]);
            }
            assert((p + seq![',' as u8] + join_params(ps2)) + seq![']' as u8] =~= p
                + seq![',' as u8] + (join_params(ps2) + seq![']' as u8]));
        } else {
            assert(s[i + d] == ']' as u8);
            assert(ps == seq![p]);
            assert(e == i + d + 1);
            assert(join_params(ps) == p);
            assert(s.subrange(i, e) =~= p + seq![']' as u8]) by {
                assert(forall|x: int|
                    0 <= x < e - i ==> #[trigger] s.subrange(i, e)[x] == s[i + x]);
                assert(forall|x: int| 0 <= x < d ==> #[trigger] p[x] == s[i + x]);
            }
        }
    }
}

/// Soundness of the whole request decoder: a text the decoder accepts is
/// the canonical wire text of the call it returns. Together with
/// [`lemma_decode_encode`], the decoder accepts exactly the encoder's
/// output, and nothing else spells any call.
#[verifier::rlimit(100)]
#[verifier::spinoff_prover]
pub proof fn lemma_decode_call_sound(s: Seq<u8>, c: CallView)
    requires
        spec_decode_call(s) == Some(c),
    ensures
        s == spec_encode_call(c),
{
    assert(match_at(s, 0, lit_pre()));
    let i = lit_pre().len() as int;
    if match_at(s, i, lit_tag_list()) {
        let j = i + lit_tag_list().len();
        assert(c == CallView::List);
        assert(s =~= lit_pre() + lit_tag_list() + lit_rbrace()) by {
            assert(forall|x: int| 0 <= x < 9 ==> #[trigger] s.subrange(0, 9)[x] == s[x]);
            assert(forall|x: int| 0 <= x < 5 ==> #[trigger] s.subrange(9, 14)[x] == s[9 + x]);
            assert(forall|x: int| 0 <= x < 1 ==> #[trigger] s.subrange(14, 15)[x] == s[14 + x]);
        }
    } else if match_at(s, i, lit_tag_methods()) {
        let j = i + lit_tag_methods().len();
        assert(match_at(s, j, lit_data_dev()));
        let k = j + lit_data_dev().len();
        let id = s.subrange(k, k + 36);
        assert(c == (CallView::Methods { device_id: id }));
        assert(match_at(s, k + 36, lit_meth_suf()));
        assert(s.len() == k + 36 + 3);
        assert(s =~= lit_pre() + lit_tag_methods() + lit_data_dev() + id + lit_meth_suf()) by {
            assert(forall|x: int| 0 <= x < 9 ==> #[trigger] s.subrange(0, 9)[x] == s[x]);
            assert(forall|x: int| 0 <= x < 8 ==> #[trigger] s.subrange(i, j)[x] == s[i + x]);
            assert(forall|x: int| 0 <= x < 21 ==> #[trigger] s.subrange(j, k)[x] == s[j + x]);
            assert(forall|x: int| 0 <= x < 36 ==> #[trigger] id[x] == s[k + x]);
            assert(forall|x: int|
                0 <= x < 3 ==> #[trigger] s.subrange(k + 36, k + 39)[x] == s[k + 36 + x]);
        }
    } else {
        assert(match_at(s, i, lit_tag_invoke()));
        let j = i + lit_tag_invoke().len();
        assert(match_at(s, j, lit_data_dev()));
        let k = j + lit_data_dev().len();
        let id = s.subrange(k, k + 36);
        assert(match_at(s, k + 36, lit_name_key()));
        let m = k + 36 + lit_name_key().len();
        let ts = take_string(s.skip(m));
        assert(ts is Some);
        let (name, e) = ts->Some_0;
        lemma_take_string_sound(s.skip(m), name, e);
        let q = m + e;
        assert(match_at(s, q, lit_params_tail()));
        let pstart = q + lit_params_tail().len();
        let pp = parse_params(s, pstart);
        assert(pp is Some);
        let (ps, e2) = pp->Some_0;
        lemma_parse_params_sound(s, pstart, ps, e2);
        assert(match_at(s, e2, lit_obj_end()));
        assert(s.len() == e2 + 2);
        assert(c == (CallView::Invoke { device_id: id, name, parameters: ps }));
        let esc = escape_seq(name);
        assert(s.subrange(m, q) =~= esc + seq!['"' as u8]) by {
            assert(s.skip(m).take(e) == esc + seq!['"' as u8]);
            assert(forall|x: int|
                0 <= x < e ==> #[trigger] s.skip(m).take(e)[x] == s[m + x]);
            assert(forall|x: int| 0 <= x < e ==> #[trigger] s.subrange(m, q)[x] == s[m + x]);
        }
        assert(esc.len() + 1 == e);
        let joined = join_params(ps);
        assert(joined.len() + 1 == e2 - pstart);
        let strpart = esc + seq!['"' as u8];
        let parampart = joined + seq![']' as u8];
        assert(s =~= lit_pre() + lit_tag_invoke() + lit_data_dev() + id + lit_name_key()
            + strpart + lit_params_tail() + parampart + lit_obj_end()) by {
            assert(forall|x: int| 0 <= x < 9 ==> #[trigger] s.subrange(0, 9)[x] == s[x]);
            assert(forall|x: int| 0 <= x < 7 ==> #[trigger] s.subrange(i, j)[x] == s[i + x]);
            assert(forall|x: int| 0 <= x < 21 ==> #[trigger] s.subrange(j, k)[x] == s[j + x]);
            assert(forall|x: int| 0 <= x < 36 ==> #[trigger] id[x] == s[k + x]);
            assert(forall|x: int|
                0 <= x < 10 ==> #[trigger] s.subrange(k + 36, m)[x] == s[k + 36 + x]);
            assert(forall|x: int| 0 <= x < e ==> #[trigger] strpart[x] == s[m + x]) by {
                assert(forall|x: int|
                    0 <= x < e ==> #[trigger] s.subrange(m, q)[x] == s[m + x]);
            }
            assert(forall|x: int|
                0 <= x < 15 ==> #[trigger] s.subrange(q, pstart)[x] == s[q + x]);
            assert(forall|x: int|
                0 <= x < e2 - pstart ==> #[trigger] parampart[x] == s[pstart + x]) by {
                assert(forall|x: int|
                    0 <= x < e2 - pstart ==> #[trigger] s.subrange(pstart, e2)[x] == s[pstart
                        + x]);
            }
            assert(forall|x: int|
                0 <= x < 2 ==> #[trigger] s.subrange(e2, e2 + 2)[x] == s[e2 + x]);
        }
        assert(lit_pre() + lit_tag_invoke() + lit_data_dev() + id + lit_name_key() + strpart
            + lit_params_tail() + parampart + lit_obj_end() =~= spec_encode_call(c));
    }
}

} // verus!
