//! JSON string literals on the wire: escaping a name for embedding between
//! quotes, and taking an escaped string back off the wire.
//!
//! The encoder emits the canonical escapes only — `\"` and `\\`, and
//! `\u00xx` for control bytes — and the decoder accepts exactly those, so
//! that every name round-trips unchanged.

use vstd::prelude::*;

verus! {

/// The lower-case hex digit for `n`.
pub open spec fn hex_digit(n: int) -> u8 {
    if n < 10 {
        ('0' as u8 + n) as u8
    } else {
        ('a' as u8 + (n - 10)) as u8
    }
}

/// Whether `b` is a lower-case hex digit.
pub open spec fn is_hex_lower(b: u8) -> bool {
    ('0' as u8 <= b && b <= '9' as u8) || ('a' as u8 <= b && b <= 'f' as u8)
}

/// The value of the hex digit `b`.
pub open spec fn hex_val(b: u8) -> int {
    if b <= '9' as u8 {
        b - '0' as u8
    } else {
        b - 'a' as u8 + 10
    }
}

proof fn lemma_hex_digit(n: int)
    requires
        0 <= n < 16,
    ensures
        is_hex_lower(hex_digit(n)),
        hex_val(hex_digit(n)) == n,
{
}

/// How one byte of a name appears inside a quoted JSON string: quotes and
/// backslashes are escaped, control bytes become `\u00xx`, and every other
/// byte stands for itself.
pub open spec fn escape_byte(b: u8) -> Seq<u8> {
    if b == '"' as u8 {
        seq!['\\' as u8, '"' as u8]
    } else if b == '\\' as u8 {
        seq!['\\' as u8, '\\' as u8]
    } else if b < 0x20 {
        seq![
            '\\' as u8,
            'u' as u8,
            '0' as u8,
            '0' as u8,
            hex_digit(b as int / 16),
            hex_digit(b as int % 16),
        ]
    } else {
        seq![b]
    }
}

/// A whole name, escaped byte for byte.
pub open spec fn escape_seq(s: Seq<u8>) -> Seq<u8>
    decreases s.len(),
{
    if s.len() == 0 {
        Seq::empty()
    } else {
        escape_byte(s.first()) + escape_seq(s.drop_first())
    }
}

/// Escaping distributes over concatenation.
pub proof fn lemma_escape_app(a: Seq<u8>, b: Seq<u8>)
    ensures
        escape_seq(a + b) == escape_seq(a) + escape_seq(b),
    decreases a.len(),
{
    if a.len() == 0 {
        assert(a + b =~= b);
        assert(escape_seq(a) + escape_seq(b) =~= escape_seq(b));
    } else {
        assert((a + b).drop_first() =~= a.drop_first() + b);
        lemma_escape_app(a.drop_first(), b);
        assert(escape_byte(a.first()) + (escape_seq(a.drop_first()) + escape_seq(b))
            =~= (escape_byte(a.first()) + escape_seq(a.drop_first())) + escape_seq(b));
    }
}

/// Escaping a single byte.
pub proof fn lemma_escape_one(b: u8)
    ensures
        escape_seq(seq![b]) == escape_byte(b),
{
    assert(seq![b].drop_first() =~= Seq::<u8>::empty());
    assert(escape_byte(b) + escape_seq(seq![b].drop_first()) =~= escape_byte(b));
}

/// Reads a quoted string's content from the front of `s`, which starts just
/// after the opening quote. Returns the unescaped content and the number of
/// bytes consumed, the closing quote included. Only the canonical escapes
/// are accepted, and raw control bytes are rejected.
pub open spec fn take_string(s: Seq<u8>) -> Option<(Seq<u8>, int)>
    decreases s.len(),
{
    if s.len() == 0 {
        None
    } else if s.first() == '"' as u8 {
        Some((Seq::empty(), 1int))
    } else if s.first() == '\\' as u8 {
        if s.len() >= 2 && s[1] == '"' as u8 {
            match take_string(s.skip(2)) {
                Some((t, e)) => Some((seq!['"' as u8] + t, e + 2)),
                None => None,
            }
        } else if s.len() >= 2 && s[1] == '\\' as u8 {
            match take_string(s.skip(2)) {
                Some((t, e)) => Some((seq!['\\' as u8] + t, e + 2)),
                None => None,
            }
        } else if s.len() >= 6 && s[1] == 'u' as u8 && s[2] == '0' as u8 && s[3] == '0' as u8
            && is_hex_lower(s[4]) && is_hex_lower(s[5]) && hex_val(s[4]) * 16 + hex_val(s[5])
            < 0x20 {
            match take_string(s.skip(6)) {
                Some((t, e)) => Some(
                    (seq![(hex_val(s[4]) * 16 + hex_val(s[5])) as u8] + t, e + 6),
                ),
                None => None,
            }
        } else {
            None
        }
    } else if s.first() < 0x20 {
        None
    } else {
        match take_string(s.skip(1)) {
            Some((t, e)) => Some((seq![s.first()] + t, e + 1)),
            None => None,
        }
    }
}

/// Round trip: a name that was escaped and closed with a quote is read back
/// unchanged, and exactly the escaped name and its closing quote are
/// consumed, whatever follows.
pub proof fn lemma_take_string_escape(name: Seq<u8>, rest: Seq<u8>)
    ensures
        take_string(escape_seq(name) + seq!['"' as u8] + rest) == Some(
            (name, escape_seq(name).len() + 1int),
        ),
    decreases name.len(),
{
    let s = escape_seq(name) + seq!['"' as u8] + rest;
    if name.len() == 0 {
        assert(s.first() == '"' as u8);
        assert(name =~= Seq::<u8>::empty());
    } else {
        let b = name.first();
        let tailname = name.drop_first();
        let tail = escape_seq(tailname) + seq!['"' as u8] + rest;
        assert(escape_seq(name) == escape_byte(b) + escape_seq(tailname));
        assert(s =~= escape_byte(b) + tail);
        lemma_take_string_escape(tailname, rest);
        if b == '"' as u8 {
            assert(s.first() == '\\' as u8);
            assert(s[1] == '"' as u8);
            assert(s.skip(2) =~= tail);
            assert(seq!['"' as u8] + tailname =~= name);
        } else if b == '\\' as u8 {
            assert(s.first() == '\\' as u8);
            assert(s[1] == '\\' as u8);
            assert(s.skip(2) =~= tail);
            assert(seq!['\\' as u8] + tailname =~= name);
        } else if b < 0x20 {
            lemma_hex_digit(b as int / 16);
            lemma_hex_digit(b as int % 16);
            assert(s.first() == '\\' as u8);
            assert(s[1] == 'u' as u8);
            assert(s[2] == '0' as u8);
            assert(s[3] == '0' as u8);
            assert(s[4] == hex_digit(b as int / 16));
            assert(s[5] == hex_digit(b as int % 16));
            assert(hex_val(s[4]) * 16 + hex_val(s[5]) == b as int);
            assert(s.skip(6) =~= tail);
            assert(seq![(hex_val(s[4]) * 16 + hex_val(s[5])) as u8] + tailname =~= name);
        } else {
            assert(s.first() == b);
            assert(s.skip(1) =~= tail);
            assert(seq![b] + tailname =~= name);
        }
    }
}

/// Appends the escaped form of `s` to `out`.
pub fn escape_into(out: &mut Vec<u8>, s: &Vec<u8>)
    ensures
        final(out)@ == old(out)@ + escape_seq(s@),
{
    let mut i: usize = 0;
    while i < s.len()
        invariant
            0 <= i <= s@.len(),
            out@ == old(out)@ + escape_seq(s@.take(i as int)),
        decreases s@.len() - i,
    {
        let b = s[i];
        proof {
            assert(s@.take(i + 1) =~= s@.take(i as int) + seq![s@[i as int]]);
            lemma_escape_app(s@.take(i as int), seq![s@[i as int]]);
            lemma_escape_one(s@[i as int]);
        }
        if b == '"' as u8 {
            out.push('\\' as u8);
            out.push('"' as u8);
        } else if b == '\\' as u8 {
            out.push('\\' as u8);
            out.push('\\' as u8);
        } else if b < 0x20 {
            out.push('\\' as u8);
            out.push('u' as u8);
            out.push('0' as u8);
            out.push('0' as u8);
            let hi = b / 16;
            let lo = b % 16;
            if hi < 10 {
                out.push('0' as u8 + hi);
            } else {
                out.push('a' as u8 + (hi - 10));
            }
            if lo < 10 {
                out.push('0' as u8 + lo);
            } else {
                out.push('a' as u8 + (lo - 10));
            }
        } else {
            out.push(b);
        }
        proof {
            assert(out@ =~= old(out)@ + escape_seq(s@.take(i + 1)));
        }
        i = i + 1;
    }
    proof {
        assert(s@.take(i as int) =~= s@);
    }
}

/// Reads a quoted string's content starting at `start` in `s` (just after
/// the opening quote), exactly as [`take_string`] describes. On success the
/// returned position is just after the closing quote.
pub fn take_string_at(s: &Vec<u8>, start: usize) -> (r: Option<(Vec<u8>, usize)>)
    requires
        start <= s@.len(),
    ensures
        match r {
            Some(v) => {
                &&& start < v.1 <= s@.len()
                &&& take_string(s@.skip(start as int)) == Some((v.0@, v.1 - start))
            },
            None => take_string(s@.skip(start as int)) is None,
        },
    decreases s@.len() - start,
{
    let ghost tail = s@.skip(start as int);
    if start >= s.len() {
        return None;
    }
    let b = s[start];
    proof {
        assert(tail.first() == s@[start as int]);
    }
    if b == '"' as u8 {
        return Some((Vec::new(), start + 1));
    }
    if b == '\\' as u8 {
        if start + 1 >= s.len() {
            return None;
        }
        let c = s[start + 1];
        proof {
            assert(tail[1] == s@[start + 1]);
        }
        if c == '"' as u8 || c == '\\' as u8 {
            proof {
                assert(tail.skip(2) =~= s@.skip(start + 2));
            }
            match take_string_at(s, start + 2) {
                Some((mut t, e)) => {
                    t.insert(0, c);
                    proof {
                        assert(t@ =~= seq![c] + t@.skip(1));
                    }
                    return Some((t, e));
                },
                None => {
                    return None;
                },
            }
        }
        if c == 'u' as u8 {
            if s.len() - start < 6 {
                proof {
                    assert(tail.len() < 6);
                }
                return None;
            }
            proof {
                assert(tail[2] == s@[start + 2]);
                assert(tail[3] == s@[start + 3]);
                assert(tail[4] == s@[start + 4]);
                assert(tail[5] == s@[start + 5]);
            }
            if s[start + 2] != '0' as u8 || s[start + 3] != '0' as u8 {
                return None;
            }
            let h1 = s[start + 4];
            let h0 = s[start + 5];
            let v1: u8 = if '0' as u8 <= h1 && h1 <= '9' as u8 {
                h1 - '0' as u8
            } else if 'a' as u8 <= h1 && h1 <= 'f' as u8 {
                h1 - 'a' as u8 + 10
            } else {
                return None;
            };
            let v0: u8 = if '0' as u8 <= h0 && h0 <= '9' as u8 {
                h0 - '0' as u8
            } else if 'a' as u8 <= h0 && h0 <= 'f' as u8 {
                h0 - 'a' as u8 + 10
            } else {
                return None;
            };
            let v = v1 * 16 + v0;
            if v >= 0x20 {
                return None;
            }
            proof {
                assert(tail.skip(6) =~= s@.skip(start + 6));
            }
            match take_string_at(s, start + 6) {
                Some((mut t, e)) => {
                    t.insert(0, v);
                    proof {
                        assert(t@ =~= seq![v] + t@.skip(1));
                    }
                    return Some((t, e));
                },
                None => {
                    return None;
                },
            }
        }
        return None;
    }
    if b < 0x20 {
        return None;
    }
    proof {
        assert(tail.skip(1) =~= s@.skip(start + 1));
    }
    match take_string_at(s, start + 1) {
        Some((mut t, e)) => {
            t.insert(0, b);
            proof {
                assert(t@ =~= seq![b] + t@.skip(1));
            }
            Some((t, e))
        },
        None => None,
    }
}

/// Lower-case hex digits are read back to the value they encode.
proof fn lemma_hex_digit_inv(h: u8)
    requires
        is_hex_lower(h),
    ensures
        0 <= hex_val(h) < 16,
        hex_digit(hex_val(h)) == h,
{
}

/// Soundness of string reading: whatever [`take_string`] accepts is the
/// canonical escape of what it returns — the decoder recognises no second
/// spelling of any name.
pub proof fn lemma_take_string_sound(s: Seq<u8>, t: Seq<u8>, e: int)
    requires
        take_string(s) == Some((t, e)),
    ensures
        0 < e <= s.len(),
        s.take(e) == escape_seq(t) + seq!['"' as u8],
    decreases s.len(),
{
    if s.first() == '"' as u8 {
        assert(t =~= Seq::<u8>::empty());
        assert(escape_seq(t) + seq!['"' as u8] =~= seq!['"' as u8]);
        assert(s.take(1) =~= seq![s.first()]);
    } else if s.first() == '\\' as u8 {
        if s.len() >= 2 && s[1] == '"' as u8 {
            let inner = take_string(s.skip(2));
            assert(inner is Some);
            let (t2, e2) = inner->Some_0;
            assert(t == seq!['"' as u8] + t2);
            assert(e == e2 + 2);
            lemma_take_string_sound(s.skip(2), t2, e2);
            assert(t.first() == '"' as u8);
            assert(t.drop_first() =~= t2);
            assert(escape_seq(t) == escape_byte('"' as u8) + escape_seq(t2));
            assert(s.take(e) =~= escape_seq(t) + seq!['"' as u8]) by {
                assert(s.take(e) =~= s.take(2) + s.skip(2).take(e2));
                assert(s.take(2) =~= seq!['\\' as u8, '"' as u8]);
                assert(escape_byte('"' as u8) =~= seq!['\\' as u8, '"' as u8]);
            }
        } else if s.len() >= 2 && s[1] == '\\' as u8 {
            let inner = take_string(s.skip(2));
            assert(inner is Some);
            let (t2, e2) = inner->Some_0;
            assert(t == seq!['\\' as u8] + t2);
            assert(e == e2 + 2);
            lemma_take_string_sound(s.skip(2), t2, e2);
            assert(t.first() == '\\' as u8);
            assert(t.drop_first() =~= t2);
            assert(escape_seq(t) == escape_byte('\\' as u8) + escape_seq(t2));
            assert(s.take(e) =~= escape_seq(t) + seq!['"' as u8]) by {
                assert(s.take(e) =~= s.take(2) + s.skip(2).take(e2));
                assert(s.take(2) =~= seq!['\\' as u8, '\\' as u8]);
                assert(escape_byte('\\' as u8) =~= seq!['\\' as u8, '\\' as u8]);
            }
        } else if s.len() >= 6 && s[1] == 'u' as u8 && s[2] == '0' as u8 && s[3] == '0' as u8
            && is_hex_lower(s[4]) && is_hex_lower(s[5]) && hex_val(s[4]) * 16 + hex_val(s[5])
            < 0x20 {
            let inner = take_string(s.skip(6));
            assert(inner is Some);
            let (t2, e2) = inner->Some_0;
            let v = hex_val(s[4]) * 16 + hex_val(s[5]);
            let b = v as u8;
            assert(t == seq![b] + t2);
            assert(e == e2 + 6);
            lemma_take_string_sound(s.skip(6), t2, e2);
            lemma_hex_digit_inv(s[4]);
            lemma_hex_digit_inv(s[5]);
            assert(0 <= v < 0x20);
            assert(b as int == v);
            assert(b as int / 16 == hex_val(s[4]));
            assert(b as int % 16 == hex_val(s[5]));
            assert(t.first() == b);
            assert(t.drop_first() =~= t2);
            assert(escape_seq(t) == escape_byte(b) + escape_seq(t2));
            assert(escape_byte(b) =~= seq![
                '\\' as u8,
                'u' as u8,
                '0' as u8,
                '0' as u8,
                s[4],
                s[5],
            ]);
            assert(s.take(e) =~= escape_seq(t) + seq!['"' as u8]) by {
                assert(s.take(e) =~= s.take(6) + s.skip(6).take(e2));
                assert(s.take(6) =~= seq![
                    '\\' as u8,
                    'u' as u8,
                    '0' as u8,
                    '0' as u8,
                    s[4],
                    s[5],
                ]);
            }
        } else {
            assert(false);
        }
    } else {
        let inner = take_string(s.skip(1));
        assert(inner is Some);
        let (t2, e2) = inner->Some_0;
        assert(t == seq![s.first()] + t2);
        assert(e == e2 + 1);
        lemma_take_string_sound(s.skip(1), t2, e2);
        assert(t.first() == s.first());
        assert(t.drop_first() =~= t2);
        assert(escape_seq(t) == escape_byte(s.first()) + escape_seq(t2));
        assert(escape_byte(s.first()) =~= seq![s.first()]);
        assert(s.take(e) =~= escape_seq(t) + seq!['"' as u8]) by {
            assert(s.take(e) =~= s.take(1) + s.skip(1).take(e2));
            assert(s.take(1) =~= seq![s.first()]);
        }
    }
}

} // verus!
