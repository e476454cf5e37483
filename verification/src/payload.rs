//! The payloads of `list` and `methods` replies: the device catalog and
//! the method catalog, read off their canonical wire texts.
//!
//! A `list` payload is an ordered sequence of
//! `{"deviceId":"<uuid>","typeNames":["<name>",...]}` records; a `methods`
//! payload is an ordered sequence of
//! `{"name":"...","returnType":"...","description":"...",
//! "parameters":[{"name":"...","description":"...","type":"..."},...]}`
//! records.

use vstd::prelude::*;

use crate::error::Error;
use crate::id::{valid_uuid, DeviceId};
use crate::jsonstr::{take_string, take_string_at};
use crate::types::{DescView, DeviceDescriptor, MethodDescView, MethodDescriptor, ParamDescView,
    ParameterDescriptor};
use crate::wire::{copy_range, match_at, match_lit};

verus! {

/// `{"deviceId":"` — opens one device record.
pub open spec fn lit_desc_open() -> Seq<u8> {
    seq![
        '{' as u8,
        '"' as u8,
        'd' as u8,
        'e' as u8,
        'v' as u8,
        'i' as u8,
        'c' as u8,
        'e' as u8,
        'I' as u8,
        'd' as u8,
        '"' as u8,
        ':' as u8,
        '"' as u8,
    ]
}

/// `","typeNames":[` — follows the identifier in a device record.
pub open spec fn lit_typenames_key() -> Seq<u8> {
    seq![
        '"' as u8,
        ',' as u8,
        '"' as u8,
        't' as u8,
        'y' as u8,
        'p' as u8,
        'e' as u8,
        'N' as u8,
        'a' as u8,
        'm' as u8,
        'e' as u8,
        's' as u8,
        '"' as u8,
        ':' as u8,
        '[' as u8,
    ]
}

/// `{"name":"` — opens one method or parameter record.
pub open spec fn lit_name_open() -> Seq<u8> {
    seq![
        '{' as u8,
        '"' as u8,
        'n' as u8,
        'a' as u8,
        'm' as u8,
        'e' as u8,
        '"' as u8,
        ':' as u8,
        '"' as u8,
    ]
}

/// `","returnType":"` — follows the name in a method record.
pub open spec fn lit_ret_key() -> Seq<u8> {
    seq![
        ',' as u8,
        '"' as u8,
        'r' as u8,
        'e' as u8,
        't' as u8,
        'u' as u8,
        'r' as u8,
        'n' as u8,
        'T' as u8,
        'y' as u8,
        'p' as u8,
        'e' as u8,
        '"' as u8,
        ':' as u8,
        '"' as u8,
    ]
}

/// `","description":"` — opens the description field.
pub open spec fn lit_descr_key() -> Seq<u8> {
    seq![
        ',' as u8,
        '"' as u8,
        'd' as u8,
        'e' as u8,
        's' as u8,
        'c' as u8,
        'r' as u8,
        'i' as u8,
        'p' as u8,
        't' as u8,
        'i' as u8,
        'o' as u8,
        'n' as u8,
        '"' as u8,
        ':' as u8,
        '"' as u8,
    ]
}

/// `","parameters":[` — opens a method record's parameter list.
pub open spec fn lit_mparams_key() -> Seq<u8> {
    seq![
        ',' as u8,
        '"' as u8,
        'p' as u8,
        'a' as u8,
        'r' as u8,
        'a' as u8,
        'm' as u8,
        'e' as u8,
        't' as u8,
        'e' as u8,
        'r' as u8,
        's' as u8,
        '"' as u8,
        ':' as u8,
        '[' as u8,
    ]
}

/// `","type":"` — opens a parameter record's type field.
pub open spec fn lit_type_key() -> Seq<u8> {
    seq![
        ',' as u8,
        '"' as u8,
        't' as u8,
        'y' as u8,
        'p' as u8,
        'e' as u8,
        '"' as u8,
        ':' as u8,
        '"' as u8,
    ]
}

/// Reads a JSON array of strings from position `i` (just after the opening
/// `[`); the returned position is just after the closing `]`.
pub open spec fn parse_strings(s: Seq<u8>, i: int) -> Option<(Seq<Seq<u8>>, int)>
    decreases s.len() - i
        when 0 <= i <= s.len()
{
    if i < s.len() && s[i] == ']' as u8 {
        Some((Seq::<Seq<u8>>::empty(), i + 1))
    } else if i < s.len() && s[i] == '"' as u8 {
        match take_string(s.skip(i + 1)) {
            Some((t, e)) => {
                let p = i + 1 + e;
                if i < p && p < s.len() {
                    if s[p] == ',' as u8 {
                        match parse_strings(s, p + 1) {
                            Some((ts, q)) => {
                                if ts.len() > 0 {
                                    Some((seq![t] + ts, q))
                                } else {
                                    None
                                }
                            },
                            None => None,
                        }
                    } else if s[p] == ']' as u8 {
                        Some((seq![t], p + 1))
                    } else {
                        None
                    }
                } else {
                    None
                }
            },
            None => None,
        }
    } else {
        None
    }
}

/// Decides [`parse_strings`], copying the strings out.
fn parse_strings_at(s: &Vec<u8>, i: usize) -> (r: Option<(Vec<Vec<u8>>, usize)>)
    requires
        i <= s@.len(),
    ensures
        match r {
            Some(v) => {
                &&& i < v.1 <= s@.len()
                &&& parse_strings(s@, i as int) == Some((v.0.deep_view(), v.1 as int))
            },
            None => parse_strings(s@, i as int) is None,
        },
    decreases s@.len() - i,
{
    if i < s.len() && s[i] == ']' as u8 {
        let ts: Vec<Vec<u8>> = Vec::new();
        proof {
            assert(ts.deep_view() =~= Seq::<Seq<u8>>::empty());
        }
        return Some((ts, i + 1));
    }
    if !(i < s.len() && s[i] == '"' as u8) {
        return None;
    }
    match take_string_at(s, i + 1) {
        Some((t, p)) => {
            if !(i < p && p < s.len()) {
                return None;
            }
            let b = s[p];
            if b == ',' as u8 {
                match parse_strings_at(s, p + 1) {
                    Some((mut ts, q)) => {
                        if ts.is_empty() {
                            return None;
                        }
                        let ghost old_view = ts.deep_view();
                        let ghost old_seq = ts@;
                        ts.insert(0, t);
                        proof {
                            let ghost tv = ts@[0].deep_view();
                            assert(ts.deep_view() =~= seq![tv] + old_view) by {
                                assert(forall|k: int|
                                    1 <= k < ts@.len() ==> ts@[k] == #[trigger] old_seq[k - 1]);
                            }
                            assert(tv =~= ts@[0]@);
                        }
                        Some((ts, q))
                    },
                    None => None,
                }
            } else if b == ']' as u8 {
                let ghost tview = t@;
                let mut ts: Vec<Vec<u8>> = Vec::new();
                ts.push(t);
                proof {
                    assert(ts@[0].deep_view() =~= tview);
                    assert(ts.deep_view() =~= seq![tview]);
                }
                Some((ts, p + 1))
            } else {
                None
            }
        },
        None => None,
    }
}

/// Reads the records of a `list` payload from position `i` (just after the
/// opening `[`); the returned position is just after the closing `]`.
pub open spec fn parse_descs(s: Seq<u8>, i: int) -> Option<(Seq<DescView>, int)>
    decreases s.len() - i
        when 0 <= i <= s.len()
{
    if i < s.len() && s[i] == ']' as u8 {
        Some((Seq::<DescView>::empty(), i + 1))
    } else if match_at(s, i, lit_desc_open()) {
        let k = i + lit_desc_open().len();
        if k + 36 <= s.len() && valid_uuid(s.subrange(k, k + 36)) && match_at(
            s,
            k + 36,
            lit_typenames_key(),
        ) {
            let q = k + 36 + lit_typenames_key().len();
            match parse_strings(s, q) {
                Some((names, p)) => {
                    if i < p && p < s.len() && s[p] == '}' as u8 {
                        let d = DescView { device_id: s.subrange(k, k + 36), type_names: names };
                        if p + 1 < s.len() && s[p + 1] == ',' as u8 {
                            match parse_descs(s, p + 2) {
                                Some((ds, e)) => {
                                    if ds.len() > 0 {
                                        Some((seq![d] + ds, e))
                                    } else {
                                        None
                                    }
                                },
                                None => None,
                            }
                        } else if p + 1 < s.len() && s[p + 1] == ']' as u8 {
                            Some((seq![d], p + 2))
                        } else {
                            None
                        }
                    } else {
                        None
                    }
                },
                None => None,
            }
        } else {
            None
        }
    } else {
        None
    }
}

/// Decides [`parse_descs`], building the descriptors.
fn parse_descs_at(s: &Vec<u8>, i: usize) -> (r: Option<(Vec<DeviceDescriptor>, usize)>)
    requires
        i <= s@.len(),
    ensures
        match r {
            Some(v) => {
                &&& i < v.1 <= s@.len()
                &&& parse_descs(s@, i as int) == Some((v.0.deep_view(), v.1 as int))
            },
            None => parse_descs(s@, i as int) is None,
        },
    decreases s@.len() - i,
{
    if i < s.len() && s[i] == ']' as u8 {
        let ds: Vec<DeviceDescriptor> = Vec::new();
        proof {
            assert(ds.deep_view() =~= Seq::<DescView>::empty());
        }
        return Some((ds, i + 1));
    }
    let dopen = lit_desc_open_vec();
    if !match_lit(s, i, &dopen) {
        return None;
    }
    let k = i + dopen.len();
    if s.len() - k < 36 {
        return None;
    }
    let idtext = copy_range(s, k, k + 36);
    let id = match DeviceId::new(idtext) {
        Some(id) => id,
        None => {
            return None;
        },
    };
    let tk = lit_typenames_key_vec();
    if !match_lit(s, k + 36, &tk) {
        return None;
    }
    let q = k + 36 + tk.len();
    let (names, p) = match parse_strings_at(s, q) {
        Some(v) => v,
        None => {
            return None;
        },
    };
    if !(p < s.len() && s[p] == '}' as u8) {
        return None;
    }
    let desc = DeviceDescriptor { device_id: id, type_names: names };
    let ghost dv = desc.deep_view();
    if p + 1 < s.len() && s[p + 1] == ',' as u8 {
        match parse_descs_at(s, p + 2) {
            Some((mut ds, e)) => {
                if ds.is_empty() {
                    return None;
                }
                let ghost old_view = ds.deep_view();
                let ghost old_seq = ds@;
                ds.insert(0, desc);
                proof {
                    assert(ds.deep_view() =~= seq![dv] + old_view) by {
                        assert(forall|j: int|
                            1 <= j < ds@.len() ==> ds@[j] == #[trigger] old_seq[j - 1]);
                    }
                }
                Some((ds, e))
            },
            None => None,
        }
    } else if p + 1 < s.len() && s[p + 1] == ']' as u8 {
        let mut ds: Vec<DeviceDescriptor> = Vec::new();
        ds.push(desc);
        proof {
            assert(ds.deep_view() =~= seq![dv]);
        }
        Some((ds, p + 2))
    } else {
        None
    }
}

/// `{"deviceId":"` as bytes.
fn lit_desc_open_vec() -> (r: Vec<u8>)
    ensures
        r@ == lit_desc_open(),
{
    let mut v: Vec<u8> = Vec::new();
    v.push('{' as u8);
    v.push('"' as u8);
    v.push('d' as u8);
    v.push('e' as u8);
    v.push('v' as u8);
    v.push('i' as u8);
    v.push('c' as u8);
    v.push('e' as u8);
    v.push('I' as u8);
    v.push('d' as u8);
    v.push('"' as u8);
    v.push(':' as u8);
    v.push('"' as u8);
    proof {
        assert(v@ =~= lit_desc_open());
    }
    v
}

/// `","typeNames":[` as bytes.
fn lit_typenames_key_vec() -> (r: Vec<u8>)
    ensures
        r@ == lit_typenames_key(),
{
    let mut v: Vec<u8> = Vec::new();
    v.push('"' as u8);
    v.push(',' as u8);
    v.push('"' as u8);
    v.push('t' as u8);
    v.push('y' as u8);
    v.push('p' as u8);
    v.push('e' as u8);
    v.push('N' as u8);
    v.push('a' as u8);
    v.push('m' as u8);
    v.push('e' as u8);
    v.push('s' as u8);
    v.push('"' as u8);
    v.push(':' as u8);
    v.push('[' as u8);
    proof {
        assert(v@ =~= lit_typenames_key());
    }
    v
}

/// The whole `list` payload: a JSON array of device records and nothing
/// else.
pub open spec fn spec_decode_list_payload(s: Seq<u8>) -> Option<Seq<DescView>> {
    if s.len() > 0 && s[0] == '[' as u8 {
        match parse_descs(s, 1) {
            Some((ds, e)) => {
                if e == s.len() {
                    Some(ds)
                } else {
                    None
                }
            },
            None => None,
        }
    } else {
        None
    }
}

/// The device catalog a `list` reply carries.
#[derive(Debug)]
pub struct List(pub Vec<DeviceDescriptor>);

impl View for List {
    type V = Seq<DescView>;

    open spec fn view(&self) -> Seq<DescView> {
        self.0.deep_view()
    }
}

/// Whether a descriptor carries the capability name `name`.
pub open spec fn desc_has_name(d: DescView, name: Seq<u8>) -> bool {
    exists|k: int| 0 <= k < d.type_names.len() && d.type_names[k] == name
}

impl List {
    /// Finds the first device whose capability-name set contains `name`,
    /// scanning in catalog order.
    pub fn find_by_name(&self, name: &Vec<u8>) -> (r: Option<usize>)
        ensures
            match r {
                Some(i) => {
                    &&& i < self@.len()
                    &&& desc_has_name(self@[i as int], name@)
                    &&& forall|j: int| 0 <= j < i ==> !desc_has_name(self@[j], name@)
                },
                None => forall|j: int| 0 <= j < self@.len() ==> !desc_has_name(self@[j], name@),
            },
    {
        let mut i: usize = 0;
        while i < self.0.len()
            invariant
                0 <= i <= self@.len(),
                self@.len() == self.0@.len(),
                self@ == self.0.deep_view(),
                forall|j: int| 0 <= j < i ==> !desc_has_name(self@[j], name@),
            decreases self@.len() - i,
        {
            let d = &self.0[i];
            proof {
                assert(self@[i as int] == d.deep_view());
            }
            if desc_contains(d, name) {
                return Some(i);
            }
            i = i + 1;
        }
        None
    }
}

/// Whether the descriptor's capability names contain `name`.
fn desc_contains(d: &DeviceDescriptor, name: &Vec<u8>) -> (r: bool)
    ensures
        r == desc_has_name(d.deep_view(), name@),
{
    let mut k: usize = 0;
    while k < d.type_names.len()
        invariant
            0 <= k <= d.type_names@.len(),
            forall|j: int| 0 <= j < k ==> d.type_names.deep_view()[j] != name@,
        decreases d.type_names@.len() - k,
    {
        proof {
            assert(d.type_names.deep_view()[k as int] =~= d.type_names@[k as int]@);
        }
        if crate::response::eq_bytes(&d.type_names[k], name) {
            proof {
                assert(d.type_names.deep_view()[k as int] == name@);
                assert(d.deep_view().type_names[k as int] == name@);
                assert(desc_has_name(d.deep_view(), name@));
            }
            return true;
        }
        k = k + 1;
    }
    false
}

/// Reads a `list` payload, exactly as [`spec_decode_list_payload`]
/// describes; a text outside the payload grammar is a
/// `SerializationFailure`.
pub fn decode_list_payload(s: &Vec<u8>) -> (r: Result<List, Error>)
    ensures
        match spec_decode_list_payload(s@) {
            Some(ds) => r matches Ok(l) && l@ == ds,
            None => r == Err::<List, Error>(Error::SerializationFailure),
        },
{
    if !(s.len() > 0 && s[0] == '[' as u8) {
        return Err(Error::SerializationFailure);
    }
    match parse_descs_at(s, 1) {
        Some((ds, e)) => {
            if e == s.len() {
                Ok(List(ds))
            } else {
                Err(Error::SerializationFailure)
            }
        },
        None => Err(Error::SerializationFailure),
    }
}

/// Reads the records of a parameter list from position `i` (just after
/// the opening `[`); the returned position is just after the closing `]`.
pub open spec fn parse_pdescs(s: Seq<u8>, i: int) -> Option<(Seq<ParamDescView>, int)>
    decreases s.len() - i
        when 0 <= i <= s.len()
{
    if i < s.len() && s[i] == ']' as u8 {
        Some((Seq::<ParamDescView>::empty(), i + 1))
    } else if match_at(s, i, lit_name_open()) {
        match take_string(s.skip(i + lit_name_open().len())) {
            Some((name, e1)) => {
                let p1 = i + lit_name_open().len() + e1;
                if i < p1 && match_at(s, p1, lit_descr_key()) {
                    match take_string(s.skip(p1 + lit_descr_key().len())) {
                        Some((descr, e2)) => {
                            let p2 = p1 + lit_descr_key().len() + e2;
                            if p1 < p2 && match_at(s, p2, lit_type_key()) {
                                match take_string(s.skip(p2 + lit_type_key().len())) {
                                    Some((ty, e3)) => {
                                        let p3 = p2 + lit_type_key().len() + e3;
                                        if p2 < p3 && p3 < s.len() && s[p3] == '}' as u8 {
                                            let d = ParamDescView { name, description: descr, ty };
                                            if p3 + 1 < s.len() && s[p3 + 1] == ',' as u8 {
                                                match parse_pdescs(s, p3 + 2) {
                                                    Some((ds, e)) => {
                                                        if ds.len() > 0 {
                                                            Some((seq![d] + ds, e))
                                                        } else {
                                                            None
                                                        }
                                                    },
                                                    None => None,
                                                }
                                            } else if p3 + 1 < s.len() && s[p3 + 1]
                                                == ']' as u8 {
                                                Some((seq![d], p3 + 2))
                                            } else {
                                                None
                                            }
                                        } else {
                                            None
                                        }
                                    },
                                    None => None,
                                }
                            } else {
                                None
                            }
                        },
                        None => None,
                    }
                } else {
                    None
                }
            },
            None => None,
        }
    } else {
        None
    }
}

/// Reads the records of a `methods` payload from position `i` (just after
/// the opening `[`); the returned position is just after the closing `]`.
pub open spec fn parse_mdescs(s: Seq<u8>, i: int) -> Option<(Seq<MethodDescView>, int)>
    decreases s.len() - i
        when 0 <= i <= s.len()
{
    if i < s.len() && s[i] == ']' as u8 {
        Some((Seq::<MethodDescView>::empty(), i + 1))
    } else if match_at(s, i, lit_name_open()) {
        match take_string(s.skip(i + lit_name_open().len())) {
            Some((name, e1)) => {
                let p1 = i + lit_name_open().len() + e1;
                if i < p1 && match_at(s, p1, lit_ret_key()) {
                    match take_string(s.skip(p1 + lit_ret_key().len())) {
                        Some((ret, e2)) => {
                            let p2 = p1 + lit_ret_key().len() + e2;
                            if p1 < p2 && match_at(s, p2, lit_descr_key()) {
                                match take_string(s.skip(p2 + lit_descr_key().len())) {
                                    Some((descr, e3)) => {
                                        let p3 = p2 + lit_descr_key().len() + e3;
                                        if p2 < p3 && match_at(s, p3, lit_mparams_key()) {
                                            match parse_pdescs(
                                                s,
                                                p3 + lit_mparams_key().len(),
                                            ) {
                                                Some((ps, p4)) => {
                                                    if p3 < p4 && p4 < s.len() && s[p4]
                                                        == '}' as u8 {
                                                        let d = MethodDescView {
                                                            name,
                                                            return_type: ret,
                                                            description: descr,
                                                            parameters: ps,
                                                        };
                                                        if p4 + 1 < s.len() && s[p4 + 1]
                                                            == ',' as u8 {
                                                            match parse_mdescs(s, p4 + 2) {
                                                                Some((ds, e)) => {
                                                                    if ds.len() > 0 {
                                                                        Some((seq![d] + ds, e))
                                                                    } else {
                                                                        None
                                                                    }
                                                                },
                                                                None => None,
                                                            }
                                                        } else if p4 + 1 < s.len() && s[p4 + 1]
                                                            == ']' as u8 {
                                                            Some((seq![d], p4 + 2))
                                                        } else {
                                                            None
                                                        }
                                                    } else {
                                                        None
                                                    }
                                                },
                                                None => None,
                                            }
                                        } else {
                                            None
                                        }
                                    },
                                    None => None,
                                }
                            } else {
                                None
                            }
                        },
                        None => None,
                    }
                } else {
                    None
                }
            },
            None => None,
        }
    } else {
        None
    }
}

/// The whole `methods` payload: a JSON array of method records and
/// nothing else.
pub open spec fn spec_decode_methods_payload(s: Seq<u8>) -> Option<Seq<MethodDescView>> {
    if s.len() > 0 && s[0] == '[' as u8 {
        match parse_mdescs(s, 1) {
            Some((ds, e)) => {
                if e == s.len() {
                    Some(ds)
                } else {
                    None
                }
            },
            None => None,
        }
    } else {
        None
    }
}

/// The method catalog a `methods` reply carries.
#[derive(Debug)]
pub struct Methods(pub Vec<MethodDescriptor>);

impl View for Methods {
    type V = Seq<MethodDescView>;

    open spec fn view(&self) -> Seq<MethodDescView> {
        self.0.deep_view()
    }
}

/// `{"name":"` as bytes.
fn lit_name_open_vec() -> (r: Vec<u8>)
    ensures
        r@ == lit_name_open(),
{
    let mut v: Vec<u8> = Vec::new();
    v.push('{' as u8);
    v.push('"' as u8);
    v.push('n' as u8);
    v.push('a' as u8);
    v.push('m' as u8);
    v.push('e' as u8);
    v.push('"' as u8);
    v.push(':' as u8);
    v.push('"' as u8);
    proof {
        assert(v@ =~= lit_name_open());
    }
    v
}

/// `","returnType":"` as bytes.
fn lit_ret_key_vec() -> (r: Vec<u8>)
    ensures
        r@ == lit_ret_key(),
{
    let mut v: Vec<u8> = Vec::new();
    v.push(',' as u8);
    v.push('"' as u8);
    v.push('r' as u8);
    v.push('e' as u8);
    v.push('t' as u8);
    v.push('u' as u8);
    v.push('r' as u8);
    v.push('n' as u8);
    v.push('T' as u8);
    v.push('y' as u8);
    v.push('p' as u8);
    v.push('e' as u8);
    v.push('"' as u8);
    v.push(':' as u8);
    v.push('"' as u8);
    proof {
        assert(v@ =~= lit_ret_key());
    }
    v
}

/// `","description":"` as bytes.
fn lit_descr_key_vec() -> (r: Vec<u8>)
    ensures
        r@ == lit_descr_key(),
{
    let mut v: Vec<u8> = Vec::new();
    v.push(',' as u8);
    v.push('"' as u8);
    v.push('d' as u8);
    v.push('e' as u8);
    v.push('s' as u8);
    v.push('c' as u8);
    v.push('r' as u8);
    v.push('i' as u8);
    v.push('p' as u8);
    v.push('t' as u8);
    v.push('i' as u8);
    v.push('o' as u8);
    v.push('n' as u8);
    v.push('"' as u8);
    v.push(':' as u8);
    v.push('"' as u8);
    proof {
        assert(v@ =~= lit_descr_key());
    }
    v
}

/// `","parameters":[` as bytes.
fn lit_mparams_key_vec() -> (r: Vec<u8>)
    ensures
        r@ == lit_mparams_key(),
{
    let mut v: Vec<u8> = Vec::new();
    v.push(',' as u8);
    v.push('"' as u8);
    v.push('p' as u8);
    v.push('a' as u8);
    v.push('r' as u8);
    v.push('a' as u8);
    v.push('m' as u8);
    v.push('e' as u8);
    v.push('t' as u8);
    v.push('e' as u8);
    v.push('r' as u8);
    v.push('s' as u8);
    v.push('"' as u8);
    v.push(':' as u8);
    v.push('[' as u8);
    proof {
        assert(v@ =~= lit_mparams_key());
    }
    v
}

/// `","type":"` as bytes.
fn lit_type_key_vec() -> (r: Vec<u8>)
    ensures
        r@ == lit_type_key(),
{
    let mut v: Vec<u8> = Vec::new();
    v.push(',' as u8);
    v.push('"' as u8);
    v.push('t' as u8);
    v.push('y' as u8);
    v.push('p' as u8);
    v.push('e' as u8);
    v.push('"' as u8);
    v.push(':' as u8);
    v.push('"' as u8);
    proof {
        assert(v@ =~= lit_type_key());
    }
    v
}

/// Decides [`parse_pdescs`], building the parameter descriptors.
fn parse_pdescs_at(s: &Vec<u8>, i: usize) -> (r: Option<(Vec<ParameterDescriptor>, usize)>)
    requires
        i <= s@.len(),
    ensures
        match r {
            Some(v) => {
                &&& i < v.1 <= s@.len()
                &&& parse_pdescs(s@, i as int) == Some((v.0.deep_view(), v.1 as int))
            },
            None => parse_pdescs(s@, i as int) is None,
        },
    decreases s@.len() - i,
{
    if i < s.len() && s[i] == ']' as u8 {
        let ds: Vec<ParameterDescriptor> = Vec::new();
        proof {
            assert(ds.deep_view() =~= Seq::<ParamDescView>::empty());
        }
        return Some((ds, i + 1));
    }
    let nopen = lit_name_open_vec();
    if !match_lit(s, i, &nopen) {
        return None;
    }
    let (name, p1) = match take_string_at(s, i + nopen.len()) {
        Some(v) => v,
        None => {
            return None;
        },
    };
    let dkey = lit_descr_key_vec();
    if !match_lit(s, p1, &dkey) {
        return None;
    }
    let (descr, p2) = match take_string_at(s, p1 + dkey.len()) {
        Some(v) => v,
        None => {
            return None;
        },
    };
    let tkey = lit_type_key_vec();
    if !match_lit(s, p2, &tkey) {
        return None;
    }
    let (ty, p3) = match take_string_at(s, p2 + tkey.len()) {
        Some(v) => v,
        None => {
            return None;
        },
    };
    if !(p3 < s.len() && s[p3] == '}' as u8) {
        return None;
    }
    let desc = ParameterDescriptor { name, description: descr, ty };
    let ghost dv = desc.deep_view();
    if p3 + 1 < s.len() && s[p3 + 1] == ',' as u8 {
        match parse_pdescs_at(s, p3 + 2) {
            Some((mut ds, e)) => {
                if ds.is_empty() {
                    return None;
                }
                let ghost old_view = ds.deep_view();
                let ghost old_seq = ds@;
                ds.insert(0, desc);
                proof {
                    assert(ds.deep_view() =~= seq![dv] + old_view) by {
                        assert(forall|j: int|
                            1 <= j < ds@.len() ==> ds@[j] == #[trigger] old_seq[j - 1]);
                    }
                }
                Some((ds, e))
            },
            None => None,
        }
    } else if p3 + 1 < s.len() && s[p3 + 1] == ']' as u8 {
        let mut ds: Vec<ParameterDescriptor> = Vec::new();
        ds.push(desc);
        proof {
            assert(ds.deep_view() =~= seq![dv]);
        }
        Some((ds, p3 + 2))
    } else {
        None
    }
}

/// Decides [`parse_mdescs`], building the method descriptors.
fn parse_mdescs_at(s: &Vec<u8>, i: usize) -> (r: Option<(Vec<MethodDescriptor>, usize)>)
    requires
        i <= s@.len(),
    ensures
        match r {
            Some(v) => {
                &&& i < v.1 <= s@.len()
                &&& parse_mdescs(s@, i as int) == Some((v.0.deep_view(), v.1 as int))
            },
            None => parse_mdescs(s@, i as int) is None,
        },
    decreases s@.len() - i,
{
    if i < s.len() && s[i] == ']' as u8 {
        let ds: Vec<MethodDescriptor> = Vec::new();
        proof {
            assert(ds.deep_view() =~= Seq::<MethodDescView>::empty());
        }
        return Some((ds, i + 1));
    }
    let nopen = lit_name_open_vec();
    if !match_lit(s, i, &nopen) {
        return None;
    }
    let (name, p1) = match take_string_at(s, i + nopen.len()) {
        Some(v) => v,
        None => {
            return None;
        },
    };
    let rkey = lit_ret_key_vec();
    if !match_lit(s, p1, &rkey) {
        return None;
    }
    let (ret, p2) = match take_string_at(s, p1 + rkey.len()) {
        Some(v) => v,
        None => {
            return None;
        },
    };
    let dkey = lit_descr_key_vec();
    if !match_lit(s, p2, &dkey) {
        return None;
    }
    let (descr, p3) = match take_string_at(s, p2 + dkey.len()) {
        Some(v) => v,
        None => {
            return None;
        },
    };
    let mkey = lit_mparams_key_vec();
    if !match_lit(s, p3, &mkey) {
        return None;
    }
    let (params, p4) = match parse_pdescs_at(s, p3 + mkey.len()) {
        Some(v) => v,
        None => {
            return None;
        },
    };
    if !(p4 < s.len() && s[p4] == '}' as u8) {
        return None;
    }
    let desc = MethodDescriptor { name, return_type: ret, description: descr, parameters: params };
    let ghost dv = desc.deep_view();
    if p4 + 1 < s.len() && s[p4 + 1] == ',' as u8 {
        match parse_mdescs_at(s, p4 + 2) {
            Some((mut ds, e)) => {
                if ds.is_empty() {
                    return None;
                }
                let ghost old_view = ds.deep_view();
                let ghost old_seq = ds@;
                ds.insert(0, desc);
                proof {
                    assert(ds.deep_view() =~= seq![dv] + old_view) by {
                        assert(forall|j: int|
                            1 <= j < ds@.len() ==> ds@[j] == #[trigger] old_seq[j - 1]);
                    }
                }
                Some((ds, e))
            },
            None => None,
        }
    } else if p4 + 1 < s.len() && s[p4 + 1] == ']' as u8 {
        let mut ds: Vec<MethodDescriptor> = Vec::new();
        ds.push(desc);
        proof {
            assert(ds.deep_view() =~= seq![dv]);
        }
        Some((ds, p4 + 2))
    } else {
        None
    }
}

/// Reads a `methods` payload, exactly as [`spec_decode_methods_payload`]
/// describes; a text outside the payload grammar is a
/// `SerializationFailure`.
pub fn decode_methods_payload(s: &Vec<u8>) -> (r: Result<Methods, Error>)
    ensures
        match spec_decode_methods_payload(s@) {
            Some(ds) => r matches Ok(m) && m@ == ds,
            None => r == Err::<Methods, Error>(Error::SerializationFailure),
        },
{
    if !(s.len() > 0 && s[0] == '[' as u8) {
        return Err(Error::SerializationFailure);
    }
    match parse_mdescs_at(s, 1) {
        Some((ds, e)) => {
            if e == s.len() {
                Ok(Methods(ds))
            } else {
                Err(Error::SerializationFailure)
            }
        },
        None => Err(Error::SerializationFailure),
    }
}

} // verus!
