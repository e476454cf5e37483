//! A byte-level scanner over JSON texts. It tracks just enough state —
//! bracket depth, whether the scanner is inside a string literal, and
//! whether the previous byte opened an escape — to find where one JSON
//! value ends inside a larger message.
//!
//! The call encoder carries pre-serialized parameters as opaque byte
//! blobs; [`param_valid`] says when such a blob can be embedded in a
//! message and recovered again, and [`value_end`] is the recovery step.

use vstd::prelude::*;

verus! {

/// The scanner's state while walking over a JSON text.
pub struct ScanState {
    pub depth: int,
    pub in_str: bool,
    pub esc: bool,
}

/// The state at the start of a JSON value: no bracket open, outside any
/// string literal.
pub open spec fn scan_init() -> ScanState {
    ScanState { depth: 0, in_str: false, esc: false }
}

/// One byte of scanning: escapes protect the next byte inside a string,
/// quotes toggle string mode, and brackets and braces outside strings
/// change the depth.
pub open spec fn scan_byte(st: ScanState, b: u8) -> ScanState {
    if st.esc {
        ScanState { depth: st.depth, in_str: st.in_str, esc: false }
    } else if st.in_str {
        if b == '\\' as u8 {
            ScanState { depth: st.depth, in_str: true, esc: true }
        } else if b == '"' as u8 {
            ScanState { depth: st.depth, in_str: false, esc: false }
        } else {
            st
        }
    } else if b == '{' as u8 || b == '[' as u8 {
        ScanState { depth: st.depth + 1, in_str: false, esc: false }
    } else if b == '}' as u8 || b == ']' as u8 {
        ScanState { depth: st.depth - 1, in_str: false, esc: false }
    } else if b == '"' as u8 {
        ScanState { depth: st.depth, in_str: true, esc: false }
    } else {
        st
    }
}

/// Scanning a whole sequence of bytes, front to back.
pub open spec fn scan_seq(st: ScanState, s: Seq<u8>) -> ScanState
    decreases s.len(),
{
    if s.len() == 0 {
        st
    } else {
        scan_seq(scan_byte(st, s.first()), s.drop_first())
    }
}

/// A byte on which a value embedded at top level ends: a separating comma
/// or a closing bracket of the surrounding message, seen outside any
/// string and outside any bracket of the value itself.
pub open spec fn stops(st: ScanState, b: u8) -> bool {
    st.depth == 0 && !st.in_str && !st.esc && (b == ',' as u8 || b == ']' as u8 || b == '}' as u8)
}

/// The position of the first byte on which scanning from `st` stops.
pub open spec fn first_stop(st: ScanState, s: Seq<u8>) -> Option<int>
    decreases s.len(),
{
    if s.len() == 0 {
        None
    } else if stops(st, s.first()) {
        Some(0int)
    } else {
        match first_stop(scan_byte(st, s.first()), s.drop_first()) {
            Some(j) => Some(j + 1),
            None => None,
        }
    }
}

/// Scanning and stop-finding on a single byte, written out.
pub proof fn lemma_scan_one(st: ScanState, b: u8)
    ensures
        scan_seq(st, seq![b]) == scan_byte(st, b),
        first_stop(st, seq![b]) == if stops(st, b) {
            Some(0int)
        } else {
            None::<int>
        },
{
    let s = seq![b];
    assert(s.first() == b);
    assert(s.drop_first() =~= Seq::<u8>::empty());
    assert(scan_seq(scan_byte(st, b), s.drop_first()) == scan_byte(st, b));
    assert(first_stop(scan_byte(st, b), s.drop_first()) is None);
}

/// Scanning distributes over concatenation.
pub proof fn lemma_scan_seq_app(st: ScanState, a: Seq<u8>, b: Seq<u8>)
    ensures
        scan_seq(st, a + b) == scan_seq(scan_seq(st, a), b),
    decreases a.len(),
{
    if a.len() == 0 {
        assert(a + b =~= b);
    } else {
        assert((a + b).drop_first() =~= a.drop_first() + b);
        lemma_scan_seq_app(scan_byte(st, a.first()), a.drop_first(), b);
    }
}

/// Finding the first stop distributes over concatenation: the stop is in
/// the first part if there is one there, and otherwise scanning carries on
/// into the second part.
pub proof fn lemma_first_stop_app(st: ScanState, a: Seq<u8>, b: Seq<u8>)
    ensures
        first_stop(st, a + b) == match first_stop(st, a) {
            Some(i) => Some(i),
            None => match first_stop(scan_seq(st, a), b) {
                Some(j) => Some(j + a.len()),
                None => None::<int>,
            },
        },
    decreases a.len(),
{
    if a.len() == 0 {
        assert(a + b =~= b);
    } else {
        assert((a + b).drop_first() =~= a.drop_first() + b);
        assert((a + b).first() == a.first());
        lemma_first_stop_app(scan_byte(st, a.first()), a.drop_first(), b);
    }
}

/// A byte blob that can stand as one element of a JSON array inside a
/// larger message and be recovered from it again: it is non-empty, it is
/// NUL-free (a NUL byte would end the message frame early), scanning it
/// returns to the initial state, and no byte of it looks like the end of
/// the embedded value. Every JSON serialization of a single value has this
/// shape.
pub open spec fn param_valid(s: Seq<u8>) -> bool {
    &&& s.len() > 0
    &&& first_stop(scan_init(), s) is None
    &&& scan_seq(scan_init(), s) == scan_init()
    &&& forall|i: int| 0 <= i < s.len() ==> s[i] != 0u8
}

/// Decides [`param_valid`] for a blob.
pub fn param_ok(s: &Vec<u8>) -> (r: bool)
    ensures
        r == param_valid(s@),
{
    let mut depth: usize = 0;
    let mut in_str: bool = false;
    let mut esc: bool = false;
    let mut i: usize = 0;
    while i < s.len()
        invariant
            0 <= i <= s@.len(),
            depth <= i,
            scan_seq(scan_init(), s@.take(i as int)) == (ScanState {
                depth: depth as int,
                in_str,
                esc,
            }),
            first_stop(scan_init(), s@.take(i as int)) is None,
            forall|j: int| 0 <= j < i ==> s@[j] != 0u8,
        decreases s@.len() - i,
    {
        let b = s[i];
        let ghost st = ScanState { depth: depth as int, in_str, esc };
        proof {
            assert(s@.take(i + 1) =~= s@.take(i as int) + seq![s@[i as int]]);
            lemma_scan_seq_app(scan_init(), s@.take(i as int), seq![s@[i as int]]);
            lemma_first_stop_app(scan_init(), s@.take(i as int), seq![s@[i as int]]);
            lemma_scan_one(st, s@[i as int]);
        }
        if b == 0u8 {
            proof {
                assert(!param_valid(s@));
            }
            return false;
        }
        if esc {
            esc = false;
        } else if in_str {
            if b == '\\' as u8 {
                esc = true;
            } else if b == '"' as u8 {
                in_str = false;
            }
        } else if b == '{' as u8 || b == '[' as u8 {
            depth = depth + 1;
        } else if b == '}' as u8 || b == ']' as u8 {
            if depth == 0 {
                proof {
                    assert(stops(st, s@[i as int]));
                    assert(first_stop(scan_init(), s@.take(i + 1)) is Some);
                    lemma_first_stop_app(scan_init(), s@.take(i + 1), s@.skip(i + 1));
                    assert(s@.take(i + 1) + s@.skip(i + 1) =~= s@);
                    assert(!param_valid(s@));
                }
                return false;
            }
            depth = depth - 1;
        } else if b == '"' as u8 {
            in_str = true;
        } else if b == ',' as u8 && depth == 0 {
            proof {
                assert(stops(st, s@[i as int]));
                assert(first_stop(scan_init(), s@.take(i + 1)) is Some);
                lemma_first_stop_app(scan_init(), s@.take(i + 1), s@.skip(i + 1));
                assert(s@.take(i + 1) + s@.skip(i + 1) =~= s@);
                assert(!param_valid(s@));
            }
            return false;
        }
        i = i + 1;
    }
    proof {
        assert(s@.take(i as int) =~= s@);
    }
    s.len() > 0 && depth == 0 && !in_str && !esc
}

/// Scans one embedded JSON value starting at `start` and returns the
/// position of the byte just after it — the comma or closing bracket of
/// the surrounding message on which the scan stopped.
pub fn value_end(s: &Vec<u8>, start: usize) -> (r: Option<usize>)
    requires
        start <= s@.len(),
    ensures
        match r {
            Some(e) => {
                &&& start <= e < s@.len()
                &&& first_stop(scan_init(), s@.skip(start as int)) == Some(e - start)
            },
            None => first_stop(scan_init(), s@.skip(start as int)) is None,
        },
{
    let ghost tail = s@.skip(start as int);
    let mut depth: usize = 0;
    let mut in_str: bool = false;
    let mut esc: bool = false;
    let mut i: usize = start;
    while i < s.len()
        invariant
            start <= i <= s@.len(),
            depth <= i - start,
            tail == s@.skip(start as int),
            scan_seq(scan_init(), tail.take(i - start)) == (ScanState {
                depth: depth as int,
                in_str,
                esc,
            }),
            first_stop(scan_init(), tail.take(i - start)) is None,
        decreases s@.len() - i,
    {
        let b = s[i];
        let ghost st = ScanState { depth: depth as int, in_str, esc };
        proof {
            assert(tail[i - start] == s@[i as int]);
            assert(tail.take(i - start + 1) =~= tail.take(i - start) + seq![tail[i - start]]);
            lemma_scan_seq_app(scan_init(), tail.take(i - start), seq![tail[i - start]]);
            lemma_first_stop_app(scan_init(), tail.take(i - start), seq![tail[i - start]]);
            lemma_scan_one(st, tail[i - start]);
        }
        let top = depth == 0 && !in_str && !esc;
        if top && (b == ',' as u8 || b == ']' as u8 || b == '}' as u8) {
            proof {
                assert(stops(st, tail[i - start]));
                lemma_first_stop_app(scan_init(), tail.take(i - start + 1), tail.skip(
                    i - start + 1,
                ));
                assert(tail.take(i - start + 1) + tail.skip(i - start + 1) =~= tail);
                assert(first_stop(scan_init(), tail) == Some(i - start));
            }
            return Some(i);
        }
        if esc {
            esc = false;
        } else if in_str {
            if b == '\\' as u8 {
                esc = true;
            } else if b == '"' as u8 {
                in_str = false;
            }
        } else if b == '{' as u8 || b == '[' as u8 {
            depth = depth + 1;
        } else if b == '}' as u8 || b == ']' as u8 {
            depth = depth - 1;
        } else if b == '"' as u8 {
            in_str = true;
        }
        i = i + 1;
    }
    proof {
        assert(tail.take(i - start) =~= tail);
    }
    None
}

} // verus!
