//! Typed views of an `invoke` return payload: the JSON integers and
//! booleans that most device methods answer with, read off their
//! canonical (minimal) decimal form.

use vstd::prelude::*;

use crate::error::Error;
use crate::response::eq_bytes;

verus! {

/// Whether `b` is a decimal digit.
pub open spec fn is_digit(b: u8) -> bool {
    '0' as u8 <= b && b <= '9' as u8
}

/// The value of a sequence of decimal digits, most significant first.
pub open spec fn digits_val(s: Seq<u8>) -> int
    decreases s.len(),
{
    if s.len() == 0 {
        0
    } else {
        digits_val(s.drop_last()) * 10 + (s.last() - '0' as u8)
    }
}

/// A canonical run of digits: non-empty, digits only, and no leading zero
/// unless the number is zero itself.
pub open spec fn canon_digits(s: Seq<u8>) -> bool {
    &&& s.len() > 0
    &&& forall|i: int| 0 <= i < s.len() ==> is_digit(#[trigger] s[i])
    &&& (s.len() == 1 || s[0] != '0' as u8)
}

/// The canonical JSON text of an `i64`: an optional minus sign on a
/// non-zero number, then its digits with no leading zero.
pub open spec fn spec_parse_i64(s: Seq<u8>) -> Option<int> {
    if s.len() > 0 && s[0] == '-' as u8 {
        let d = s.skip(1);
        if canon_digits(d) && d != seq!['0' as u8] && -digits_val(d) >= i64::MIN {
            Some(-digits_val(d))
        } else {
            None
        }
    } else {
        if canon_digits(s) && digits_val(s) <= i64::MAX {
            Some(digits_val(s))
        } else {
            None
        }
    }
}

/// The value of a digit run never shrinks as digits are appended.
proof fn lemma_digits_val_nonneg(s: Seq<u8>)
    requires
        forall|i: int| 0 <= i < s.len() ==> is_digit(#[trigger] s[i]),
    ensures
        digits_val(s) >= 0,
    decreases s.len(),
{
    if s.len() > 0 {
        lemma_digits_val_nonneg(s.drop_last());
    }
}

/// Reads the digit run `s[from..]` as a number, rejecting anything that
/// does not fit a `u64`.
fn digits_value_at(s: &Vec<u8>, from: usize) -> (r: Option<u64>)
    requires
        from <= s@.len(),
        forall|i: int| from <= i < s@.len() ==> is_digit(#[trigger] s@[i]),
    ensures
        match r {
            Some(v) => v == digits_val(s@.skip(from as int)),
            None => digits_val(s@.skip(from as int)) > u64::MAX,
        },
{
    let ghost tail = s@.skip(from as int);
    proof {
        lemma_digits_val_nonneg(tail.take(0int));
    }
    let mut acc: u64 = 0;
    let mut i: usize = from;
    while i < s.len()
        invariant
            from <= i <= s@.len(),
            tail == s@.skip(from as int),
            forall|j: int| from <= j < s@.len() ==> is_digit(#[trigger] s@[j]),
            acc == digits_val(tail.take(i - from)),
        decreases s@.len() - i,
    {
        let b = s[i];
        let d = b - '0' as u8;
        proof {
            assert(tail[i - from] == s@[i as int]);
            assert(tail.take(i - from + 1).drop_last() =~= tail.take(i - from));
            assert(tail.take(i - from + 1).last() == tail[i - from]);
            assert(digits_val(tail.take(i - from + 1)) == digits_val(tail.take(i - from)) * 10 + (
            s@[i as int] - '0' as u8));
        }
        if acc > (u64::MAX - (d as u64)) / 10 {
            proof {
                lemma_digits_final_exceeds(tail, i - from);
            }
            return None;
        }
        acc = acc * 10 + (d as u64);
        i = i + 1;
    }
    proof {
        assert(tail.take(i - from) =~= tail);
    }
    Some(acc)
}

/// Once a prefix of a digit run is too large for a `u64`, the whole run is.
proof fn lemma_digits_final_exceeds(tail: Seq<u8>, k: int)
    requires
        0 <= k < tail.len(),
        forall|i: int| 0 <= i < tail.len() ==> is_digit(#[trigger] tail[i]),
        digits_val(tail.take(k + 1)) > u64::MAX,
    ensures
        digits_val(tail) > u64::MAX,
    decreases tail.len() - k,
{
    if k + 1 == tail.len() {
        assert(tail.take(k + 1) =~= tail);
    } else {
        assert(tail.take(k + 2).drop_last() =~= tail.take(k + 1));
        assert(is_digit(tail[k + 1]));
        lemma_digits_val_nonneg(tail.take(k + 1));
        assert(digits_val(tail.take(k + 2)) == digits_val(tail.take(k + 1)) * 10 + (tail[k + 1]
            - '0' as u8));
        lemma_digits_final_exceeds(tail, k + 1);
    }
}

/// Checks that `s[from..]` is all digits, with no leading zero unless it
/// is the single digit `0`.
fn check_canon_digits(s: &Vec<u8>, from: usize) -> (r: bool)
    requires
        from <= s@.len(),
    ensures
        r == canon_digits(s@.skip(from as int)),
{
    let ghost tail = s@.skip(from as int);
    if from == s.len() {
        return false;
    }
    if s.len() - from > 1 && s[from] == '0' as u8 {
        proof {
            assert(tail[0] == s@[from as int]);
        }
        return false;
    }
    let mut i: usize = from;
    while i < s.len()
        invariant
            from <= i <= s@.len(),
            tail == s@.skip(from as int),
            forall|j: int| 0 <= j < i - from ==> is_digit(#[trigger] tail[j]),
        decreases s@.len() - i,
    {
        let b = s[i];
        proof {
            assert(tail[i - from] == s@[i as int]);
        }
        if !('0' as u8 <= b && b <= '9' as u8) {
            return false;
        }
        i = i + 1;
    }
    proof {
        assert(tail[0] == s@[from as int]);
    }
    true
}

/// Reads the canonical JSON text of an `i64`, exactly as
/// [`spec_parse_i64`] describes; anything else — a fraction, an exponent,
/// a leading zero, a value out of range — is a `SerializationFailure`.
pub fn parse_i64(s: &Vec<u8>) -> (r: Result<i64, Error>)
    ensures
        match spec_parse_i64(s@) {
            Some(v) => r matches Ok(n) && n == v,
            None => r == Err::<i64, Error>(Error::SerializationFailure),
        },
{
    let neg = s.len() > 0 && s[0] == '-' as u8;
    let from: usize = if neg {
        1
    } else {
        0
    };
    if !check_canon_digits(s, from) {
        return Err(Error::SerializationFailure);
    }
    let ghost d = s@.skip(from as int);
    proof {
        if !neg {
            assert(d =~= s@);
        }
        lemma_digits_val_nonneg(d);
    }
    if neg && s.len() == 2 && s[1] == '0' as u8 {
        // "-0" is not canonical.
        proof {
            assert(d =~= seq!['0' as u8]);
        }
        return Err(Error::SerializationFailure);
    }
    proof {
        if neg && d == seq!['0' as u8] {
            assert(s@.len() == 2 && s@[1] == '0' as u8);
        }
        assert forall|i: int| from <= i < s@.len() implies is_digit(#[trigger] s@[i]) by {
            assert(d[i - from] == s@[i]);
            assert(is_digit(d[i - from]));
        }
    }
    let mag = match digits_value_at(s, from) {
        Some(v) => v,
        None => {
            proof {
                assert(digits_val(d) > u64::MAX);
            }
            return Err(Error::SerializationFailure);
        },
    };
    if neg {
        if mag > 9223372036854775808u64 {
            return Err(Error::SerializationFailure);
        }
        if mag == 9223372036854775808u64 {
            return Ok(i64::MIN);
        }
        Ok(-(mag as i64))
    } else {
        if mag > 9223372036854775807u64 {
            return Err(Error::SerializationFailure);
        }
        Ok(mag as i64)
    }
}

/// `true` as bytes.
fn lit_true_vec() -> (r: Vec<u8>)
    ensures
        r@ == seq!['t' as u8, 'r' as u8, 'u' as u8, 'e' as u8],
{
    let mut v: Vec<u8> = Vec::new();
    v.push('t' as u8);
    v.push('r' as u8);
    v.push('u' as u8);
    v.push('e' as u8);
    proof {
        assert(v@ =~= seq!['t' as u8, 'r' as u8, 'u' as u8, 'e' as u8]);
    }
    v
}

/// `false` as bytes.
fn lit_false_vec() -> (r: Vec<u8>)
    ensures
        r@ == seq!['f' as u8, 'a' as u8, 'l' as u8, 's' as u8, 'e' as u8],
{
    let mut v: Vec<u8> = Vec::new();
    v.push('f' as u8);
    v.push('a' as u8);
    v.push('l' as u8);
    v.push('s' as u8);
    v.push('e' as u8);
    proof {
        assert(v@ =~= seq!['f' as u8, 'a' as u8, 'l' as u8, 's' as u8, 'e' as u8]);
    }
    v
}

/// The JSON text of a boolean.
pub open spec fn spec_parse_bool(s: Seq<u8>) -> Option<bool> {
    if s == seq!['t' as u8, 'r' as u8, 'u' as u8, 'e' as u8] {
        Some(true)
    } else if s == seq!['f' as u8, 'a' as u8, 'l' as u8, 's' as u8, 'e' as u8] {
        Some(false)
    } else {
        None
    }
}

/// Reads a JSON boolean; anything else is a `SerializationFailure`.
pub fn parse_bool(s: &Vec<u8>) -> (r: Result<bool, Error>)
    ensures
        match spec_parse_bool(s@) {
            Some(v) => r matches Ok(b) && b == v,
            None => r == Err::<bool, Error>(Error::SerializationFailure),
        },
{
    let t = lit_true_vec();
    if eq_bytes(s, &t) {
        return Ok(true);
    }
    let f = lit_false_vec();
    if eq_bytes(s, &f) {
        return Ok(false);
    }
    Err(Error::SerializationFailure)
}

} // verus!
