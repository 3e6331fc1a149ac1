//! Where frames are taken from a video: `count` positions spread evenly
//! over its length, neither at its start nor at its end.

use vstd::prelude::*;
use vstd::string::*;
use crate::decimal::{decimal, padded, write_decimal, write_padded};

verus! {

/// A point in a video, `numer / denom` microseconds from its start.
#[derive(Clone, Copy, Debug, PartialEq, Eq, Structural)]
pub struct Timestamp {
    pub numer: u128,
    pub denom: u64,
}

impl Timestamp {
    pub open spec fn wf(self) -> bool {
        self.denom > 0
    }

    /// `self` lies strictly before `other`.
    pub open spec fn before(self, other: Timestamp) -> bool {
        self.numer * other.denom < other.numer * self.denom
    }

    /// `self` lies strictly after the start and strictly before `micros`.
    pub open spec fn inside(self, micros: nat) -> bool {
        0 < self.numer && self.numer < micros * self.denom
    }
}

/// The `i`-th of `count` positions spread over `duration` microseconds,
/// counting from 1: `duration / (count + 1) * i`.
pub open spec fn sample_at(duration: nat, count: nat, i: nat) -> Timestamp {
    Timestamp { numer: (duration * i) as u128, denom: (count + 1) as u64 }
}

/// The positions, spread evenly, of `count` frames of a video of `duration`
/// microseconds.
pub fn sample_positions(duration: u64, count: u32) -> (r: Vec<Timestamp>)
    ensures
        r@.len() == count,
        forall|i: int|
            0 <= i < count ==> #[trigger] r@[i] == sample_at(duration as nat, count as nat, (i + 1) as nat),
        forall|i: int| 0 <= i < count ==> (#[trigger] r@[i]).wf(),
        forall|i: int| 0 <= i < count ==> (#[trigger] r@[i]).numer == duration * (i + 1),
{
    let mut r: Vec<Timestamp> = Vec::new();
    let denom: u64 = count as u64 + 1;
    let mut i: u32 = 0;
    while i < count
        invariant
            i <= count,
            denom == count + 1,
            r@.len() == i,
            forall|j: int|
                0 <= j < i ==> #[trigger] r@[j] == sample_at(duration as nat, count as nat, (j + 1) as nat),
            forall|j: int| 0 <= j < i ==> (#[trigger] r@[j]).numer == duration * (j + 1),
        decreases count - i,
    {
        let k: u128 = i as u128 + 1;
        assert(duration * k <= 0xffff_ffff_ffff_ffffu128 * 0x1_0000_0000u128) by (nonlinear_arith)
            requires
                duration <= 0xffff_ffff_ffff_ffffu64,
                k <= 0x1_0000_0000u128,
        ;
        let numer: u128 = duration as u128 * k;
        r.push(Timestamp { numer, denom });
        i = i + 1;
    }
    r
}

/// The positions of `sample_positions` are strictly increasing, each lies
/// strictly inside a video of positive length, and the `i`-th of them is
/// `duration / (count + 1) * i`.
pub proof fn lemma_samples_ordered_and_inside(duration: nat, count: nat, i: nat, j: nat)
    requires
        duration > 0,
        1 <= i < j <= count,
        duration * count < 0x1_0000_0000_0000_0000_0000_0000_0000_0000,
        count < 0xffff_ffff_ffff_ffff,
    ensures
        sample_at(duration, count, i).before(sample_at(duration, count, j)),
        sample_at(duration, count, i).inside(duration),
        sample_at(duration, count, j).inside(duration),
        sample_at(duration, count, i).numer == duration * i,
        sample_at(duration, count, i).denom == count + 1,
{
    let a = sample_at(duration, count, i);
    let b = sample_at(duration, count, j);
    assert(duration * i < duration * j) by (nonlinear_arith)
        requires
            duration > 0,
            i < j,
    ;
    assert(duration * j <= duration * count) by (nonlinear_arith)
        requires
            j <= count,
    ;
    assert(0 < duration * i) by (nonlinear_arith)
        requires
            duration > 0,
            i >= 1,
    ;
    assert(a.numer == duration * i);
    assert(b.numer == duration * j);
    assert(a.denom == count + 1);
    assert(b.denom == count + 1);
    assert(a.numer * b.denom < b.numer * a.denom) by (nonlinear_arith)
        requires
            a.numer < b.numer,
            a.denom == b.denom,
            a.denom > 0,
    ;
    assert(duration * j < duration * (count + 1)) by (nonlinear_arith)
        requires
            duration > 0,
            j <= count,
    ;
    assert(duration * i < duration * (count + 1)) by (nonlinear_arith)
        requires
            duration > 0,
            i <= count,
    ;
}

/// How the processing tool is told to seek to a point: seconds, a '.',
/// and six digits of microseconds.
pub open spec fn seek_text(micros: nat) -> Seq<char> {
    decimal(micros / 1000000) + seq!['.'] + padded(micros % 1000000, 6)
}

/// Writes the position `t`, rounded down to the microsecond, as the
/// processing tool reads a point to seek to, e.g. "30.000000".
pub fn seek_argument(t: &Timestamp) -> (r: String)
    requires
        t.wf(),
    ensures
        r@ == seek_text((t.numer / t.denom as u128) as nat),
{
    let micros: u128 = t.numer / (t.denom as u128);
    let mut r = String::new();
    write_decimal(&mut r, micros / 1000000);
    let dot = ".";
    proof {
        reveal_strlit(".");
    }
    r.append(dot);
    write_padded(&mut r, micros % 1000000, 6);
    assert(r@ =~= seek_text(micros as nat));
    r
}

} // verus!
