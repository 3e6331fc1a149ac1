//! Numbers that the probing tool reports as text: the frame rate, written
//! as a ratio "numerator/denominator" of two numerals, and a duration in
//! seconds, written as one numeral.

use vstd::prelude::*;
use vstd::string::*;
use crate::decimal::{decimal, is_digit, lemma_decimal_reads_back, pow10};
use crate::numeral::{
    fits_i64, numeral, parse_numeral, split_exponent, split_point, unsigned_part, Numeral,
};
use crate::text::{absent, find_sole, lemma_sole_index, occurs_once, only_at, sole_index, Occurrence};

verus! {

/// A frame rate in frames per second, as the exact ratio `num / den`.
/// The rate zero is written `0 / 1`.
#[derive(Clone, Copy, Debug, PartialEq, Eq, Structural)]
pub struct FrameRate {
    pub num: i64,
    pub den: i64,
}

impl FrameRate {
    pub open spec fn wf(self) -> bool {
        self.den > 0
    }

    pub fn zero() -> (r: FrameRate)
        ensures
            r.num == 0,
            r.den == 1,
    {
        FrameRate { num: 0, den: 1 }
    }
}

/// The ratio `n / d` of two read numerals, as a numerator and a positive
/// denominator: `(0, 1)` where `d <= 0`, where `n` is zero, and where the
/// exact ratio, with its powers of ten moved to one side, does not fit in
/// `i64`.
pub open spec fn ratio_of(n: (bool, nat, int), d: (bool, nat, int)) -> (int, int) {
    if d.0 || d.1 == 0 || n.1 == 0 {
        (0, 1)
    } else {
        let t = n.2 - d.2;
        let num: int = if t >= 0 { (n.1 * pow10(t as nat)) as int } else { n.1 as int };
        let den: int = if t >= 0 { d.1 as int } else { (d.1 * pow10((-t) as nat)) as int };
        if num <= i64::MAX && den <= i64::MAX {
            (if n.0 { -num } else { num }, den)
        } else {
            (0, 1)
        }
    }
}

/// The ratio that a text "n/d" denotes: that of its two numerals where it
/// holds exactly one '/' and both sides are numerals; `(0, 1)`, the rate
/// zero, otherwise.
pub open spec fn frame_rate_of(s: Seq<char>) -> (int, int) {
    if occurs_once(s, '/') {
        let k = sole_index(s, '/');
        match (numeral(s.take(k)), numeral(s.skip(k + 1))) {
            (Some(n), Some(d)) => ratio_of(n, d),
            _ => (0, 1),
        }
    } else {
        (0, 1)
    }
}

pub proof fn lemma_pow10_monotone(a: nat, b: nat)
    requires
        a <= b,
    ensures
        1 <= pow10(a) <= pow10(b),
    decreases b,
{
    if b > 0 {
        let c: nat = if a < b { a } else { (b - 1) as nat };
        lemma_pow10_monotone(c, (b - 1) as nat);
        assert(pow10(b) == 10 * pow10((b - 1) as nat));
    }
}

proof fn lemma_pow10_19()
    ensures
        pow10(19) == 10_000_000_000_000_000_000u128,
{
    reveal_with_fuel(pow10, 2);
    assert(pow10(1) == 10);
    assert(pow10(2) == 100);
    assert(pow10(3) == 1000);
    assert(pow10(4) == 10000);
    assert(pow10(5) == 100000);
    assert(pow10(6) == 1000000);
    assert(pow10(7) == 10000000);
    assert(pow10(8) == 100000000);
    assert(pow10(9) == 1000000000);
    assert(pow10(10) == 10000000000);
    assert(pow10(11) == 100000000000);
    assert(pow10(12) == 1000000000000);
    assert(pow10(13) == 10000000000000);
    assert(pow10(14) == 100000000000000);
    assert(pow10(15) == 1000000000000000);
    assert(pow10(16) == 10000000000000000);
    assert(pow10(17) == 100000000000000000);
    assert(pow10(18) == 1000000000000000000);
    assert(pow10(19) == 10000000000000000000);
}

/// `10^e` for `e <= 19`.
fn pow10_u128(e: u32) -> (r: u128)
    requires
        e <= 19,
    ensures
        r == pow10(e as nat),
        1 <= r <= 10_000_000_000_000_000_000u128,
{
    proof {
        lemma_pow10_19();
    }
    let mut r: u128 = 1;
    let mut i: u32 = 0;
    while i < e
        invariant
            i <= e <= 19,
            r == pow10(i as nat),
            pow10(19) == 10_000_000_000_000_000_000u128,
        decreases e - i,
    {
        proof {
            lemma_pow10_monotone((i + 1) as nat, 19);
        }
        r = r * 10;
        i = i + 1;
    }
    proof {
        lemma_pow10_monotone(e as nat, 19);
        lemma_pow10_monotone(0, e as nat);
    }
    r
}

proof fn lemma_large_scale(m: nat, k: nat)
    requires
        m >= 1,
        k >= 19,
    ensures
        m * pow10(k) >= 10_000_000_000_000_000_000,
        k >= 20 ==> m * pow10(k) >= 100_000_000_000_000_000_000,
{
    lemma_pow10_19();
    lemma_pow10_monotone(19, k);
    if k >= 20 {
        lemma_pow10_monotone(20, k);
        assert(pow10(20) == 10 * pow10(19));
    }
    assert(m * pow10(k) >= pow10(k)) by (nonlinear_arith)
        requires
            m >= 1,
            pow10(k) >= 1,
    ;
}

fn ratio(n: Numeral, d: Numeral) -> (r: FrameRate)
    requires
        i64::MIN - 0x1_0000_0000_0000_0000 <= n.exp <= i64::MAX,
        i64::MIN - 0x1_0000_0000_0000_0000 <= d.exp <= i64::MAX,
    ensures
        r.wf(),
        (r.num as int, r.den as int) == ratio_of(
            (n.negative, n.mantissa as nat, n.exp as int),
            (d.negative, d.mantissa as nat, d.exp as int),
        ),
{
    if d.negative || d.mantissa == 0 || n.mantissa == 0 {
        return FrameRate::zero();
    }
    let t: i128 = n.exp - d.exp;
    let num: u128;
    let den: u128;
    if t >= 0 {
        if t > 18 {
            proof {
                lemma_large_scale(n.mantissa as nat, t as nat);
            }
            return FrameRate::zero();
        }
        let p = pow10_u128(t as u32);
        assert(n.mantissa * p <= 0xffff_ffff_ffff_ffffu128 * 10_000_000_000_000_000_000u128) by (nonlinear_arith)
            requires
                n.mantissa <= 0xffff_ffff_ffff_ffffu64,
                p <= 10_000_000_000_000_000_000u128,
        ;
        num = n.mantissa as u128 * p;
        den = d.mantissa as u128;
    } else {
        if t < -18 {
            proof {
                lemma_large_scale(d.mantissa as nat, (-t) as nat);
            }
            return FrameRate::zero();
        }
        let p = pow10_u128((-t) as u32);
        assert(pow10((-t) as nat) >= 1);
        assert(d.mantissa * p <= 0xffff_ffff_ffff_ffffu128 * 10_000_000_000_000_000_000u128) by (nonlinear_arith)
            requires
                d.mantissa <= 0xffff_ffff_ffff_ffffu64,
                p <= 10_000_000_000_000_000_000u128,
        ;
        num = n.mantissa as u128;
        den = d.mantissa as u128 * p;
    }
    assert(den >= 1) by (nonlinear_arith)
        requires
            t >= 0 ==> den == d.mantissa,
            t < 0 ==> den == d.mantissa * pow10((-t) as nat),
            pow10((-t) as nat) >= 1 || t >= 0,
            d.mantissa >= 1,
    ;
    if num <= 9223372036854775807 && den <= 9223372036854775807 {
        let v = num as i64;
        FrameRate { num: if n.negative { -v } else { v }, den: den as i64 }
    } else {
        FrameRate::zero()
    }
}

/// Reads a frame rate such as "30000/1001" or "29.97/1".
#[verifier::rlimit(60)]
pub fn parse_fps(s: &str) -> (r: FrameRate)
    ensures
        r.wf(),
        (r.num as int, r.den as int) == frame_rate_of(s@),
{
    let n = s.unicode_len();
    assert(s@.subrange(0, n as int) =~= s@);
    match find_sole(s, '/', 0, n) {
        Occurrence::Once(k) => {
            proof {
                lemma_sole_index(s@, '/', k as int);
            }
            assert(s@.take(k as int) =~= s@.subrange(0, k as int));
            assert(s@.skip(k + 1) =~= s@.subrange(k + 1, n as int));
            match (parse_numeral(s, 0, k), parse_numeral(s, k + 1, n)) {
                (Some(a), Some(b)) => ratio(a, b),
                _ => FrameRate::zero(),
            }
        },
        _ => FrameRate::zero(),
    }
}

/// The shortest text of an integer: its decimal digits, after a '-' where
/// it is negative.
pub open spec fn signed_text(n: int) -> Seq<char> {
    if n < 0 {
        seq!['-'] + decimal((-n) as nat)
    } else {
        decimal(n as nat)
    }
}

proof fn lemma_signed_text_numeral(n: int)
    requires
        fits_i64(n),
    ensures
        numeral(signed_text(n)) == Some((n < 0, (if n < 0 { -n } else { n }) as nat, 0int)),
        forall|i: int| 0 <= i < signed_text(n).len() ==> is_digit(#[trigger] signed_text(n)[i]) || (i
            == 0 && signed_text(n)[i] == '-'),
{
    let m: nat = if n < 0 { (-n) as nat } else { n as nat };
    lemma_decimal_reads_back(m);
    let t = decimal(m);
    let a = signed_text(n);
    if n < 0 {
        assert(a[0] == '-');
        assert(a.skip(1) =~= t);
        assert forall|i: int| 0 <= i < a.len() implies is_digit(#[trigger] a[i]) || (i == 0
            && a[i] == '-') by {
            if i > 0 {
                assert(a[i] == t[i - 1]);
            }
        }
    } else {
        assert(is_digit(t[0]));
    }
    assert(unsigned_part(a) =~= t);
    assert(absent(t, 'e') && absent(t, 'E') && absent(t, '.')) by {
        assert forall|i: int| 0 <= i < t.len() implies t[i] != 'e' && t[i] != 'E' && t[i] != '.' by {
            assert(is_digit(t[i]));
        }
    }
    assert(split_exponent(t) == Some((t, None::<Seq<char>>)));
    assert(split_point(t) == Some((t, Seq::<char>::empty())));
    assert(t + Seq::<char>::empty() =~= t);
    assert(m <= u64::MAX);
}

/// A frame rate written "n/d" with integers `n` and `d` reads as exactly
/// `n / d` where `d > 0` and `n != 0`, and as the rate zero where `d <= 0`
/// or `n == 0`.
pub proof fn lemma_fps_text_exact(n: int, d: int)
    requires
        i64::MIN < n <= i64::MAX,
        fits_i64(d),
    ensures
        frame_rate_of(signed_text(n) + seq!['/'] + signed_text(d)) == (if d > 0 && n != 0 {
            (n, d)
        } else {
            (0int, 1int)
        }),
{
    let a = signed_text(n);
    let b = signed_text(d);
    let s = a + seq!['/'] + b;
    let k = a.len() as int;
    lemma_signed_text_numeral(n);
    lemma_signed_text_numeral(d);
    assert forall|j: int| 0 <= j < s.len() && j != k implies s[j] != '/' by {
        if j < k {
            assert(s[j] == a[j]);
        } else {
            assert(s[j] == b[j - k - 1]);
        }
    }
    assert(only_at(s, '/', k));
    lemma_sole_index(s, '/', k);
    assert(s.take(k) =~= a);
    assert(s.skip(k + 1) =~= b);
    let nv = (n < 0, (if n < 0 { -n } else { n }) as nat, 0int);
    let dv = (d < 0, (if d < 0 { -d } else { d }) as nat, 0int);
    assert(frame_rate_of(s) == ratio_of(nv, dv));
    assert(pow10(0) == 1);
    assert(nv.1 * pow10(0) == nv.1);
    if d > 0 && n != 0 {
        assert(ratio_of(nv, dv) == (n, d));
    }
}

/// Microseconds in the number of seconds that a numeral gives, rounded
/// down; `None` for a text that is no numeral and for a negative number.
pub open spec fn seconds_micros(s: Seq<char>) -> Option<nat> {
    match numeral(s) {
        Some((g, m, e)) => if g && m > 0 {
            None
        } else if e + 6 >= 0 {
            Some(m * pow10((e + 6) as nat))
        } else {
            Some(m / pow10((-(e + 6)) as nat))
        },
        None => None,
    }
}

/// The duration in microseconds that a text gives, and 0 where the text is
/// not a number of seconds or the value does not fit in `u64`.
pub open spec fn duration_micros_of(s: Seq<char>) -> nat {
    match seconds_micros(s) {
        Some(v) => if v <= u64::MAX {
            v
        } else {
            0
        },
        None => 0,
    }
}

/// Reads a duration in seconds, such as "123.456000", as microseconds.
pub fn parse_duration_micros(s: &str) -> (r: u64)
    ensures
        r as nat == duration_micros_of(s@),
{
    let n = s.unicode_len();
    assert(s@.subrange(0, n as int) =~= s@);
    let a = match parse_numeral(s, 0, n) {
        Some(a) => a,
        None => {
            return 0;
        },
    };
    if a.negative && a.mantissa > 0 {
        return 0;
    }
    if a.mantissa == 0 {
        proof {
            let k = a.exp + 6;
            if k >= 0 {
                assert(0 * pow10(k as nat) == 0) by (nonlinear_arith);
            } else {
                lemma_pow10_monotone(0, (-k) as nat);
            }
        }
        return 0;
    }
    let k: i128 = a.exp + 6;
    if k >= 0 {
        if k > 19 {
            proof {
                lemma_large_scale(a.mantissa as nat, k as nat);
            }
            return 0;
        }
        let p = pow10_u128(k as u32);
        assert(a.mantissa * p <= 0xffff_ffff_ffff_ffffu128 * 10_000_000_000_000_000_000u128) by (nonlinear_arith)
            requires
                a.mantissa <= 0xffff_ffff_ffff_ffffu64,
                p <= 10_000_000_000_000_000_000u128,
        ;
        let v: u128 = a.mantissa as u128 * p;
        if v <= 0xffff_ffff_ffff_ffff {
            v as u64
        } else {
            0
        }
    } else {
        if k < -19 {
            proof {
                lemma_large_scale(1, (-k) as nat);
                let q = pow10((-k) as nat);
                assert(a.mantissa as nat / q == 0) by (nonlinear_arith)
                    requires
                        a.mantissa < q,
                ;
            }
            return 0;
        }
        let p = pow10_u128((-k) as u32);
        proof {
            lemma_pow10_monotone(0, (-k) as nat);
        }
        (a.mantissa as u128 / p) as u64
    }
}

} // verus!
