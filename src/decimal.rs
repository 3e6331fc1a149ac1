//! Decimal digits: reading unsigned and signed integers from text, and
//! writing natural numbers as text.

use vstd::prelude::*;
use vstd::string::*;

verus! {

pub open spec fn is_digit(c: char) -> bool {
    '0' <= c && c <= '9'
}

pub open spec fn all_digits(s: Seq<char>) -> bool {
    forall|i: int| 0 <= i < s.len() ==> is_digit(#[trigger] s[i])
}

pub open spec fn digit_value(c: char) -> nat {
    (c as int - '0' as int) as nat
}

/// The number that a run of decimal digits denotes, most significant first.
pub open spec fn digits_value(s: Seq<char>) -> nat
    decreases s.len(),
{
    if s.len() == 0 {
        0
    } else {
        digits_value(s.drop_last()) * 10 + digit_value(s.last())
    }
}

/// The integer written as an optional sign followed by at least one digit.
pub open spec fn signed_value(s: Seq<char>) -> Option<int> {
    if s.len() > 0 && (s[0] == '-' || s[0] == '+') {
        let rest = s.skip(1);
        if rest.len() > 0 && all_digits(rest) {
            if s[0] == '-' {
                Some(-(digits_value(rest) as int))
            } else {
                Some(digits_value(rest) as int)
            }
        } else {
            None
        }
    } else if s.len() > 0 && all_digits(s) {
        Some(digits_value(s) as int)
    } else {
        None
    }
}

pub open spec fn digit_char(d: nat) -> char {
    ((d + '0' as nat) as u32) as char
}

/// The shortest decimal text of `n`.
pub open spec fn decimal(n: nat) -> Seq<char>
    decreases n,
{
    if n < 10 {
        seq![digit_char(n)]
    } else {
        decimal(n / 10).push(digit_char(n % 10))
    }
}

/// The last `width` decimal digits of `n`, with leading zeros.
pub open spec fn padded(n: nat, width: nat) -> Seq<char>
    decreases width,
{
    if width == 0 {
        Seq::empty()
    } else {
        padded(n / 10, (width - 1) as nat).push(digit_char(n % 10))
    }
}

pub open spec fn pow10(e: nat) -> nat
    decreases e,
{
    if e == 0 {
        1
    } else {
        10 * pow10((e - 1) as nat)
    }
}

pub proof fn lemma_digits_value_bound(s: Seq<char>)
    requires
        all_digits(s),
    ensures
        digits_value(s) < pow10(s.len()),
    decreases s.len(),
{
    if s.len() > 0 {
        let t = s.drop_last();
        lemma_digits_value_bound(t);
        assert(is_digit(s[s.len() - 1]));
        assert(digits_value(t) + 1 <= pow10(t.len()));
        assert((digits_value(t) + 1) * 10 <= pow10(t.len()) * 10) by (nonlinear_arith)
            requires
                digits_value(t) + 1 <= pow10(t.len()),
        ;
    }
}

/// The decimal text of a number is a non-empty run of digits that reads
/// back as that number.
pub proof fn lemma_decimal_reads_back(n: nat)
    ensures
        decimal(n).len() > 0,
        all_digits(decimal(n)),
        digits_value(decimal(n)) == n,
    decreases n,
{
    let c = digit_char(n % 10);
    assert(is_digit(c) && digit_value(c) == n % 10) by {
        let v = n % 10;
        assert(v < 10);
        assert((v + 48) as u32 as int == v + 48);
    }
    if n >= 10 {
        lemma_decimal_reads_back(n / 10);
        let t = decimal(n / 10);
        assert(decimal(n) == t.push(c));
        assert(decimal(n).drop_last() =~= t);
        assert(decimal(n).last() == c);
        assert(digits_value(decimal(n)) == (n / 10) * 10 + n % 10);
        assert forall|i: int| 0 <= i < decimal(n).len() implies is_digit(#[trigger] decimal(n)[i]) by {
            if i < t.len() {
                assert(decimal(n)[i] == t[i]);
            }
        }
    } else {
        assert(decimal(n).drop_last() =~= Seq::<char>::empty());
        assert(decimal(n).last() == c);
        assert(digits_value(decimal(n).drop_last()) == 0);
        assert(digits_value(decimal(n)) == 0 * 10 + n % 10);
    }
}

proof fn lemma_digits_value_prefix(s: Seq<char>, k: int)
    requires
        0 <= k <= s.len(),
        all_digits(s),
    ensures
        digits_value(s.take(k)) <= digits_value(s),
    decreases s.len(),
{
    if k < s.len() {
        let t = s.drop_last();
        assert(t.take(k) =~= s.take(k));
        lemma_digits_value_prefix(t, k);
    } else {
        assert(s.take(k) =~= s);
    }
}

/// Reads the digits `s[from..to]` on after the digits `prefix`, whose
/// value is `acc`; `None` where the number exceeds `u64::MAX`.
fn digits_extend(s: &str, from: usize, to: usize, acc: u64, Ghost(prefix): Ghost<Seq<char>>) -> (r:
    Option<u64>)
    requires
        from <= to <= s@.len(),
        all_digits(s@.subrange(from as int, to as int)),
        all_digits(prefix),
        acc == digits_value(prefix),
    ensures
        r == (if digits_value(prefix + s@.subrange(from as int, to as int)) <= u64::MAX {
            Some(digits_value(prefix + s@.subrange(from as int, to as int)) as u64)
        } else {
            None::<u64>
        }),
{
    let ghost whole = prefix + s@.subrange(from as int, to as int);
    assert(all_digits(whole)) by {
        assert forall|j: int| 0 <= j < whole.len() implies is_digit(#[trigger] whole[j]) by {
            if j >= prefix.len() {
                assert(whole[j] == s@.subrange(from as int, to as int)[j - prefix.len()]);
            }
        }
    }
    let mut v: u64 = acc;
    let mut i: usize = from;
    assert(prefix + s@.subrange(from as int, from as int) =~= prefix);
    while i < to
        invariant
            from <= i <= to <= s@.len(),
            whole == prefix + s@.subrange(from as int, to as int),
            all_digits(whole),
            v as nat == digits_value(prefix + s@.subrange(from as int, i as int)),
        decreases to - i,
    {
        let c = s.get_char(i);
        let ghost part = prefix + s@.subrange(from as int, i as int + 1);
        assert(part.drop_last() =~= prefix + s@.subrange(from as int, i as int));
        assert(part.last() == c);
        let ghost at = prefix.len() + i - from;
        assert(whole[at] == c);
        assert(is_digit(whole[at]));
        let d: u64 = (c as u32 - '0' as u32) as u64;
        assert(part =~= whole.take(at + 1));
        if v > 1844674407370955161 || (v == 1844674407370955161 && d > 5) {
            proof {
                lemma_digits_value_prefix(whole, at + 1);
            }
            return None;
        }
        v = v * 10 + d;
        i = i + 1;
    }
    assert(prefix + s@.subrange(from as int, i as int) =~= whole);
    Some(v)
}

/// Reads the characters `s[from..to]`, all digits, as a number; `None`
/// where the number exceeds `u64::MAX`.
pub fn digits_to_u64(s: &str, from: usize, to: usize) -> (r: Option<u64>)
    requires
        from <= to <= s@.len(),
        all_digits(s@.subrange(from as int, to as int)),
    ensures
        r == (if digits_value(s@.subrange(from as int, to as int)) <= u64::MAX {
            Some(digits_value(s@.subrange(from as int, to as int)) as u64)
        } else {
            None::<u64>
        }),
{
    let ghost e = Seq::<char>::empty();
    assert(e + s@.subrange(from as int, to as int) =~= s@.subrange(from as int, to as int));
    digits_extend(s, from, to, 0, Ghost(e))
}

/// Reads the digits `s[from1..to1]` followed by the digits `s[from2..to2]`
/// as one number; `None` where it exceeds `u64::MAX`.
pub fn digits_pair_to_u64(s: &str, from1: usize, to1: usize, from2: usize, to2: usize) -> (r:
    Option<u64>)
    requires
        from1 <= to1 <= s@.len(),
        from2 <= to2 <= s@.len(),
        all_digits(s@.subrange(from1 as int, to1 as int)),
        all_digits(s@.subrange(from2 as int, to2 as int)),
    ensures
        ({
            let v = digits_value(
                s@.subrange(from1 as int, to1 as int) + s@.subrange(from2 as int, to2 as int),
            );
            r == (if v <= u64::MAX {
                Some(v as u64)
            } else {
                None::<u64>
            })
        }),
{
    let ghost w = s@.subrange(from1 as int, to1 as int);
    let ghost f = s@.subrange(from2 as int, to2 as int);
    match digits_to_u64(s, from1, to1) {
        Some(a) => digits_extend(s, from2, to2, a, Ghost(w)),
        None => {
            proof {
                let wf = w + f;
                assert(all_digits(wf)) by {
                    assert forall|j: int| 0 <= j < wf.len() implies is_digit(#[trigger] wf[j]) by {
                        if j >= w.len() {
                            assert(wf[j] == f[j - w.len()]);
                        } else {
                            assert(wf[j] == w[j]);
                        }
                    }
                }
                assert(wf.take(w.len() as int) =~= w);
                lemma_digits_value_prefix(wf, w.len() as int);
            }
            None
        },
    }
}

/// Tells whether every character of `s[from..to]` is a decimal digit.
pub fn digits_only(s: &str, from: usize, to: usize) -> (r: bool)
    requires
        from <= to <= s@.len(),
    ensures
        r == all_digits(s@.subrange(from as int, to as int)),
{
    let mut i: usize = from;
    while i < to
        invariant
            from <= i <= to <= s@.len(),
            all_digits(s@.subrange(from as int, i as int)),
        decreases to - i,
    {
        let c = s.get_char(i);
        if !('0' <= c && c <= '9') {
            assert(s@.subrange(from as int, to as int)[i - from] == c);
            return false;
        }
        assert forall|j: int| 0 <= j < i + 1 - from implies is_digit(
            #[trigger] s@.subrange(from as int, i as int + 1)[j],
        ) by {
            if j < i - from {
                assert(s@.subrange(from as int, i as int)[j] == s@.subrange(
                    from as int,
                    i as int + 1,
                )[j]);
            }
        }
        i = i + 1;
    }
    true
}

/// Reads `s[from..to]` as an optional sign and at least one digit; `None`
/// where it is not of that form or the value does not fit in `i64`.
pub fn signed_to_i64(s: &str, from: usize, to: usize) -> (r: Option<i64>)
    requires
        from <= to <= s@.len(),
    ensures
        r == (match signed_value(s@.subrange(from as int, to as int)) {
            Some(v) => if i64::MIN <= v <= i64::MAX {
                Some(v as i64)
            } else {
                None::<i64>
            },
            None => None::<i64>,
        }),
{
    let ghost t = s@.subrange(from as int, to as int);
    if from == to {
        return None;
    }
    let c = s.get_char(from);
    assert(t[0] == c);
    if c == '-' || c == '+' {
        assert(t.skip(1) =~= s@.subrange(from + 1, to as int));
        if from + 1 == to || !digits_only(s, from + 1, to) {
            return None;
        }
        match digits_to_u64(s, from + 1, to) {
            None => None,
            Some(m) => {
                if c == '-' {
                    if m <= 9223372036854775807 {
                        Some(-(m as i64))
                    } else if m == 9223372036854775808 {
                        Some(i64::MIN)
                    } else {
                        None
                    }
                } else if m <= 9223372036854775807 {
                    Some(m as i64)
                } else {
                    None
                }
            },
        }
    } else {
        if !digits_only(s, from, to) {
            return None;
        }
        match digits_to_u64(s, from, to) {
            None => None,
            Some(m) => if m <= 9223372036854775807 {
                Some(m as i64)
            } else {
                None
            },
        }
    }
}

fn digit_text(d: u128) -> (r: &'static str)
    requires
        d < 10,
    ensures
        r@ == seq![digit_char(d as nat)],
{
    proof {
        reveal_strlit("0");
        reveal_strlit("1");
        reveal_strlit("2");
        reveal_strlit("3");
        reveal_strlit("4");
        reveal_strlit("5");
        reveal_strlit("6");
        reveal_strlit("7");
        reveal_strlit("8");
        reveal_strlit("9");
    }
    let r = if d == 0 {
        "0"
    } else if d == 1 {
        "1"
    } else if d == 2 {
        "2"
    } else if d == 3 {
        "3"
    } else if d == 4 {
        "4"
    } else if d == 5 {
        "5"
    } else if d == 6 {
        "6"
    } else if d == 7 {
        "7"
    } else if d == 8 {
        "8"
    } else {
        "9"
    };
    assert(r@ =~= seq![digit_char(d as nat)]);
    r
}

/// Appends the decimal text of `n` to `out`.
pub fn write_decimal(out: &mut String, n: u128)
    ensures
        final(out)@ == old(out)@ + decimal(n as nat),
    decreases n,
{
    if n >= 10 {
        write_decimal(out, n / 10);
    }
    out.append(digit_text(n % 10));
    proof {
        if n >= 10 {
            assert(final(out)@ =~= old(out)@ + decimal(n as nat));
        } else {
            assert(final(out)@ =~= old(out)@ + decimal(n as nat));
        }
    }
}

/// Appends the last `width` digits of `n` to `out`, with leading zeros.
pub fn write_padded(out: &mut String, n: u128, width: u32)
    ensures
        final(out)@ == old(out)@ + padded(n as nat, width as nat),
    decreases width,
{
    if width > 0 {
        write_padded(out, n / 10, width - 1);
        out.append(digit_text(n % 10));
    }
    assert(final(out)@ =~= old(out)@ + padded(n as nat, width as nat));
}

} // verus!
