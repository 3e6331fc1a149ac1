//! Decimal numerals as the probing tool may write them: an optional sign,
//! digits with at most one '.', and an optional exponent after 'e' or 'E'.
//! A numeral is read exactly, as a sign, a mantissa and a power of ten.

use vstd::prelude::*;
use vstd::string::*;
use crate::decimal::{
    all_digits, digits_only, digits_pair_to_u64, digits_value, signed_to_i64, signed_value,
};
use crate::text::{absent, find_sole, lemma_sole_index, occurs_once, sole_index, Occurrence};

verus! {

pub open spec fn fits_i64(v: int) -> bool {
    i64::MIN <= v <= i64::MAX
}

/// The text after a leading sign, if there is one.
pub open spec fn unsigned_part(s: Seq<char>) -> Seq<char> {
    if s.len() > 0 && (s[0] == '-' || s[0] == '+') {
        s.skip(1)
    } else {
        s
    }
}

/// A text cut at its one exponent marker: the part before it and, where
/// there is a marker, the part after it; `None` for two or more markers.
pub open spec fn split_exponent(s: Seq<char>) -> Option<(Seq<char>, Option<Seq<char>>)> {
    if absent(s, 'e') && absent(s, 'E') {
        Some((s, None))
    } else if occurs_once(s, 'e') && absent(s, 'E') {
        let k = sole_index(s, 'e');
        Some((s.take(k), Some(s.skip(k + 1))))
    } else if occurs_once(s, 'E') && absent(s, 'e') {
        let k = sole_index(s, 'E');
        Some((s.take(k), Some(s.skip(k + 1))))
    } else {
        None
    }
}

/// A text cut at its one '.': the whole part and the fraction digits;
/// without a '.' the fraction is empty.
pub open spec fn split_point(m: Seq<char>) -> Option<(Seq<char>, Seq<char>)> {
    if absent(m, '.') {
        Some((m, Seq::empty()))
    } else if occurs_once(m, '.') {
        let k = sole_index(m, '.');
        Some((m.take(k), m.skip(k + 1)))
    } else {
        None
    }
}

/// The exponent written after the marker, 0 without one.
pub open spec fn exponent_value(x: Option<Seq<char>>) -> Option<int> {
    match x {
        None => Some(0),
        Some(t) => match signed_value(t) {
            Some(v) => if fits_i64(v) {
                Some(v)
            } else {
                None
            },
            None => None,
        },
    }
}

/// What a numeral denotes: `(negative, m, e)` for the number
/// `±m · 10^e`. `None` for a text that is not a numeral, and for one whose
/// digits make more than `u64::MAX` or whose exponent does not fit in `i64`.
pub open spec fn numeral(s: Seq<char>) -> Option<(bool, nat, int)> {
    match split_exponent(unsigned_part(s)) {
        None => None,
        Some((m, x)) => match (split_point(m), exponent_value(x)) {
            (Some((w, f)), Some(e)) => if w.len() + f.len() > 0 && all_digits(w) && all_digits(f)
                && digits_value(w + f) <= u64::MAX {
                Some((s.len() > 0 && s[0] == '-', digits_value(w + f), e - f.len()))
            } else {
                None
            },
            _ => None,
        },
    }
}

/// A numeral, read: the number `±mantissa · 10^exp`.
#[derive(Clone, Copy, Debug, PartialEq, Eq, Structural)]
pub struct Numeral {
    pub negative: bool,
    pub mantissa: u64,
    pub exp: i128,
}

/// Where the mantissa of `s[start..to]` ends, and whether an exponent
/// follows it.
fn exponent_split(s: &str, start: usize, to: usize) -> (r: Option<(usize, bool)>)
    requires
        start <= to <= s@.len(),
    ensures
        r is None <==> split_exponent(s@.subrange(start as int, to as int)) is None,
        r matches Some((k, marked)) ==> start <= k <= to && (marked ==> k < to) && split_exponent(
            s@.subrange(start as int, to as int),
        ) == Some(
            (
                s@.subrange(start as int, k as int),
                if marked {
                    Some(s@.subrange(k + 1, to as int))
                } else {
                    None::<Seq<char>>
                },
            ),
        ),
{
    let ghost u = s@.subrange(start as int, to as int);
    match (find_sole(s, 'e', start, to), find_sole(s, 'E', start, to)) {
        (Occurrence::Absent, Occurrence::Absent) => {
            assert(s@.subrange(start as int, to as int) =~= u);
            Some((to, false))
        },
        (Occurrence::Once(k), Occurrence::Absent) => {
            proof {
                lemma_sole_index(u, 'e', k - start);
                assert(s@.subrange(start as int, k as int) =~= u.take(k - start));
                assert(s@.subrange(k + 1, to as int) =~= u.skip(k - start + 1));
            }
            Some((k, true))
        },
        (Occurrence::Absent, Occurrence::Once(k)) => {
            proof {
                lemma_sole_index(u, 'E', k - start);
                assert(s@.subrange(start as int, k as int) =~= u.take(k - start));
                assert(s@.subrange(k + 1, to as int) =~= u.skip(k - start + 1));
            }
            Some((k, true))
        },
        _ => None,
    }
}

/// The digits of the mantissa `m`, as one number, where `m` is digits
/// with at most one '.', at least one digit, and a value within `u64`.
pub open spec fn mantissa_of(m: Seq<char>) -> Option<(nat, nat)> {
    match split_point(m) {
        Some((w, f)) => if w.len() + f.len() > 0 && all_digits(w) && all_digits(f) && digits_value(
            w + f,
        ) <= u64::MAX {
            Some((digits_value(w + f), f.len()))
        } else {
            None
        },
        None => None,
    }
}

/// Reads the mantissa `s[start..end]`: its digits as one number, and how
/// many of them follow the '.'.
fn mantissa_digits(s: &str, start: usize, end: usize) -> (r: Option<(u64, usize)>)
    requires
        start <= end <= s@.len(),
    ensures
        r == (match mantissa_of(s@.subrange(start as int, end as int)) {
            Some((v, n)) => Some((v as u64, n as usize)),
            None => None::<(u64, usize)>,
        }),
{
    let ghost m = s@.subrange(start as int, end as int);
    let (w_end, f_start): (usize, usize) = match find_sole(s, '.', start, end) {
        Occurrence::Absent => (end, end),
        Occurrence::Once(d) => {
            proof {
                lemma_sole_index(m, '.', d - start);
            }
            (d, d + 1)
        },
        Occurrence::Repeated => {
            return None;
        },
    };
    let ghost w = s@.subrange(start as int, w_end as int);
    let ghost f = s@.subrange(f_start as int, end as int);
    assert(split_point(m) == Some((w, f))) by {
        if w_end == end {
            assert(w =~= m);
            assert(f =~= Seq::<char>::empty());
        } else {
            assert(w =~= m.take(w_end - start));
            assert(f =~= m.skip(w_end - start + 1));
        }
    }
    if w_end - start + (end - f_start) == 0 || !digits_only(s, start, w_end) || !digits_only(
        s,
        f_start,
        end,
    ) {
        return None;
    }
    match digits_pair_to_u64(s, start, w_end, f_start, end) {
        Some(v) => Some((v, end - f_start)),
        None => None,
    }
}

/// Reads `s[from..to]` as a numeral.
pub fn parse_numeral(s: &str, from: usize, to: usize) -> (r: Option<Numeral>)
    requires
        from <= to <= s@.len(),
    ensures
        r == (match numeral(s@.subrange(from as int, to as int)) {
            Some((g, m, e)) => Some(Numeral { negative: g, mantissa: m as u64, exp: e as i128 }),
            None => None::<Numeral>,
        }),
        r matches Some(n) ==> i64::MIN - 0x1_0000_0000_0000_0000 <= n.exp <= i64::MAX,
{
    let ghost t = s@.subrange(from as int, to as int);
    let mut start: usize = from;
    let mut negative = false;
    if from < to {
        let c = s.get_char(from);
        assert(t[0] == c);
        if c == '-' {
            negative = true;
            start = from + 1;
        } else if c == '+' {
            start = from + 1;
        }
    }
    assert(unsigned_part(t) =~= s@.subrange(start as int, to as int));
    assert(negative == (t.len() > 0 && t[0] == '-'));
    let (mant_end, marked) = match exponent_split(s, start, to) {
        Some(p) => p,
        None => {
            return None;
        },
    };
    let x: i64 = if marked {
        match signed_to_i64(s, mant_end + 1, to) {
            Some(x) => x,
            None => {
                return None;
            },
        }
    } else {
        0
    };
    let (v, flen) = match mantissa_digits(s, start, mant_end) {
        Some(p) => p,
        None => {
            return None;
        },
    };
    let exp: i128 = x as i128 - flen as i128;
    Some(Numeral { negative, mantissa: v, exp })
}

} // verus!
