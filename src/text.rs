//! Locating a separator character in text.

use vstd::prelude::*;
use vstd::string::*;

verus! {

/// `k` is the one position of `s` that holds `c`.
pub open spec fn only_at(s: Seq<char>, c: char, k: int) -> bool {
    &&& 0 <= k < s.len()
    &&& s[k] == c
    &&& forall|j: int| 0 <= j < s.len() && j != k ==> s[j] != c
}

pub open spec fn occurs_once(s: Seq<char>, c: char) -> bool {
    exists|k: int| only_at(s, c, k)
}

pub open spec fn absent(s: Seq<char>, c: char) -> bool {
    forall|j: int| 0 <= j < s.len() ==> s[j] != c
}

/// The position of the one occurrence of `c` in `s`.
pub open spec fn sole_index(s: Seq<char>, c: char) -> int
    recommends
        occurs_once(s, c),
{
    choose|k: int| only_at(s, c, k)
}

pub proof fn lemma_sole_index(s: Seq<char>, c: char, k: int)
    requires
        only_at(s, c, k),
    ensures
        occurs_once(s, c),
        sole_index(s, c) == k,
{
    assert(occurs_once(s, c));
    let j = sole_index(s, c);
    assert(only_at(s, c, j));
}

/// How often a character occurs in a text.
pub enum Occurrence {
    Absent,
    Once(usize),
    Repeated,
}

/// Finds whether `c` occurs in `s[from..to]` not at all, once (and at
/// which position of `s`), or more than once.
pub fn find_sole(s: &str, c: char, from: usize, to: usize) -> (r: Occurrence)
    requires
        from <= to <= s@.len(),
    ensures
        r is Absent <==> absent(s@.subrange(from as int, to as int), c),
        r is Once <==> occurs_once(s@.subrange(from as int, to as int), c),
        r matches Occurrence::Once(k) ==> from <= k < to && only_at(
            s@.subrange(from as int, to as int),
            c,
            k - from,
        ),
{
    let ghost t = s@.subrange(from as int, to as int);
    let mut found: Option<usize> = None;
    let mut i: usize = from;
    while i < to
        invariant
            from <= i <= to <= s@.len(),
            t == s@.subrange(from as int, to as int),
            found is None ==> forall|j: int| 0 <= j < i - from ==> t[j] != c,
            found matches Some(k) ==> from <= k < i && t[k - from] == c && forall|j: int|
                0 <= j < i - from && j != k - from ==> t[j] != c,
        decreases to - i,
    {
        if s.get_char(i) == c {
            assert(t[i - from] == c);
            match found {
                Some(k) => {
                    proof {
                        assert forall|m: int| !only_at(t, c, m) by {
                            if only_at(t, c, m) {
                                assert(m == k - from || m == i - from);
                            }
                        }
                    }
                    return Occurrence::Repeated;
                },
                None => {
                    found = Some(i);
                },
            }
        } else {
            assert(t[i - from] != c);
        }
        i = i + 1;
    }
    match found {
        Some(k) => {
            proof {
                lemma_sole_index(t, c, k - from);
            }
            Occurrence::Once(k)
        },
        None => {
            proof {
                assert forall|m: int| !only_at(t, c, m) by {}
            }
            Occurrence::Absent
        },
    }
}

} // verus!
