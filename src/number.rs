//! Unsigned identifiers in the reference table: decimal digits, or hex digits
//! after a `0x` prefix, with an optional `+` sign, that fit in a `u64`.
use vstd::prelude::*;
use vstd::utf8::encode_utf8;

verus! {

/// The value of one ASCII digit in the given radix (10 or 16).
pub open spec fn digit_of(b: u8, radix: nat) -> Option<nat> {
    if 48 <= b <= 57 && (b - 48) < radix {
        Some((b - 48) as nat)
    } else if radix == 16 && 97 <= b <= 102 {
        Some((b - 87) as nat)
    } else if radix == 16 && 65 <= b <= 70 {
        Some((b - 55) as nat)
    } else {
        None
    }
}

/// The value of a run of digits, most significant first; `None` if any byte
/// is not a digit.
pub open spec fn digits_value(s: Seq<u8>, radix: nat) -> Option<nat>
    decreases s.len(),
{
    if s.len() == 0 {
        Some(0)
    } else {
        match (digits_value(s.drop_last(), radix), digit_of(s.last(), radix)) {
            (Some(v), Some(d)) => Some(v * radix + d),
            _ => None,
        }
    }
}

/// An optional `+` followed by at least one digit.
pub open spec fn unsigned_value(s: Seq<u8>, radix: nat) -> Option<nat> {
    let body = if s.len() > 0 && s[0] == 43 {
        s.drop_first()
    } else {
        s
    };
    if body.len() == 0 {
        None
    } else {
        digits_value(body, radix)
    }
}

/// Whether the bytes start with `0x`.
pub open spec fn has_hex_prefix(s: Seq<u8>) -> bool {
    s.len() >= 2 && s[0] == 48 && s[1] == 120
}

/// The identifier written by the bytes `s`, if they write one that fits.
pub open spec fn field_number(s: Seq<u8>) -> Option<u64> {
    let v = if has_hex_prefix(s) {
        unsigned_value(s.skip(2), 16)
    } else {
        unsigned_value(s, 10)
    };
    fitting(v)
}

/// A value, if it fits in a `u64`.
pub open spec fn fitting(v: Option<nat>) -> Option<u64> {
    match v {
        Some(n) => if n <= u64::MAX {
            Some(n as u64)
        } else {
            None
        },
        None => None,
    }
}

/// The value of a prefix of a digit run is at most the value of the run.
proof fn lemma_digits_prefix(t: Seq<u8>, radix: nat, k: int)
    requires
        0 <= k <= t.len(),
        radix >= 1,
        digits_value(t, radix) is Some,
    ensures
        digits_value(t.take(k), radix) is Some,
        digits_value(t.take(k), radix)->0 <= digits_value(t, radix)->0,
    decreases t.len(),
{
    if k == t.len() {
        assert(t.take(k) =~= t);
    } else {
        let u = t.drop_last();
        lemma_digits_prefix(u, radix, k);
        assert(u.take(k) =~= t.take(k));
        let v = digits_value(u, radix)->0;
        let d = digit_of(t.last(), radix)->0;
        assert(v * radix + d >= v) by (nonlinear_arith)
            requires
                radix >= 1,
        ;
    }
}

/// The value of the digits `x[lo..]`, or `None` if one is not a digit or the
/// value does not fit.
fn parse_digits(x: &[u8], lo: usize, radix: u64) -> (r: Option<u64>)
    requires
        lo <= x@.len(),
        radix == 10 || radix == 16,
    ensures
        r == fitting(digits_value(x@.subrange(lo as int, x@.len() as int), radix as nat)),
{
    let ghost t = x@.subrange(lo as int, x@.len() as int);
    let mut acc: u64 = 0;
    let mut i: usize = lo;
    proof {
        assert(x@.subrange(lo as int, lo as int) =~= Seq::<u8>::empty());
    }
    while i < x.len()
        invariant
            lo <= i <= x@.len(),
            t == x@.subrange(lo as int, x@.len() as int),
            radix == 10 || radix == 16,
            digits_value(x@.subrange(lo as int, i as int), radix as nat) == Some(acc as nat),
        decreases x@.len() - i,
    {
        let b = x[i];
        let d: u64 = if 48 <= b && b <= 57 && ((b - 48) as u64) < radix {
            (b - 48) as u64
        } else if radix == 16 && 97 <= b && b <= 102 {
            (b - 87) as u64
        } else if radix == 16 && 65 <= b && b <= 70 {
            (b - 55) as u64
        } else {
            proof {
                let p = x@.subrange(lo as int, i + 1);
                assert(p.drop_last() =~= x@.subrange(lo as int, i as int));
                assert(digits_value(p, radix as nat) is None);
                if digits_value(t, radix as nat) is Some {
                    lemma_digits_prefix(t, radix as nat, i + 1 - lo);
                    assert(t.take(i + 1 - lo) =~= p);
                }
            }
            return None;
        };
        let ghost p = x@.subrange(lo as int, i + 1);
        proof {
            assert(p.drop_last() =~= x@.subrange(lo as int, i as int));
            assert(p.last() == b);
        }
        let next = match acc.checked_mul(radix) {
            Some(m) => m.checked_add(d),
            None => None,
        };
        match next {
            Some(v) => {
                acc = v;
            },
            None => {
                proof {
                    assert(digits_value(p, radix as nat) == Some((acc * radix + d) as nat));
                    if digits_value(t, radix as nat) is Some {
                        lemma_digits_prefix(t, radix as nat, i + 1 - lo);
                        assert(t.take(i + 1 - lo) =~= p);
                    }
                }
                return None;
            },
        }
        i = i + 1;
    }
    proof {
        assert(x@.subrange(lo as int, i as int) =~= t);
    }
    Some(acc)
}

/// The value of an optional `+` and digits in `x[lo..]`.
fn parse_unsigned(x: &[u8], lo: usize, radix: u64) -> (r: Option<u64>)
    requires
        lo <= x@.len(),
        radix == 10 || radix == 16,
    ensures
        r == fitting(unsigned_value(x@.skip(lo as int), radix as nat)),
{
    let ghost s = x@.skip(lo as int);
    let start = if lo < x.len() && x[lo] == 43 {
        lo + 1
    } else {
        lo
    };
    proof {
        if lo < x.len() && x@[lo as int] == 43 {
            assert(s.drop_first() =~= x@.subrange(start as int, x@.len() as int));
        } else {
            assert(s =~= x@.subrange(start as int, x@.len() as int));
        }
    }
    if start == x.len() {
        None
    } else {
        parse_digits(x, start, radix)
    }
}

/// Reads an identifier field of the reference table.
pub fn parse_number(s: &str) -> (r: Option<u64>)
    ensures
        r == field_number(encode_utf8(s@)),
{
    let x = s.as_bytes();
    if x.len() >= 2 && x[0] == 48 && x[1] == 120 {
        parse_unsigned(x, 2, 16)
    } else {
        proof {
            assert(x@.skip(0) =~= x@);
        }
        parse_unsigned(x, 0, 10)
    }
}

} // verus!
