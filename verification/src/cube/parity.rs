//! The parity of an arrangement: exchanging two entries changes it, so a
//! quarter turn, which carries four cubies round, changes the parity of the
//! edges and that of the corners alike, and a half turn changes neither.
use super::algs::TurnDir;
use super::laws::{is_quarter, ring_within};
use super::{all_differ, ring_turned};
use vstd::prelude::*;

verus! {

/// How many entries of `s` are above `x`.
pub open spec fn larger_count(s: Seq<int>, x: int) -> nat
    decreases s.len(),
{
    if s.len() == 0 {
        0
    } else {
        larger_count(s.drop_last(), x) + if s.last() > x {
            1nat
        } else {
            0nat
        }
    }
}

/// The number of inversions of `s`: of pairs of entries of which the first
/// is the larger.
pub open spec fn inversions(s: Seq<int>) -> nat
    decreases s.len(),
{
    if s.len() == 0 {
        0
    } else {
        inversions(s.drop_last()) + larger_count(s.drop_last(), s.last())
    }
}

/// Whether the number of inversions of `s` is odd.
pub open spec fn is_odd(s: Seq<int>) -> bool {
    inversions(s) % 2 == 1
}

/// Whether no entry is there twice.
pub open spec fn all_distinct(s: Seq<int>) -> bool {
    forall|i: int, j: int| 0 <= i < j < s.len() ==> #[trigger] s[i] != #[trigger] s[j]
}

/// The sequence with the entries at `a` and `b` exchanged.
pub open spec fn exchanged(s: Seq<int>, a: int, b: int) -> Seq<int> {
    s.update(a, s[b]).update(b, s[a])
}

/// Exchanging two entries leaves the number of entries above `x`.
proof fn lemma_larger_count_exchanged(s: Seq<int>, a: int, b: int, x: int)
    requires
        0 <= a < b < s.len(),
    ensures
        larger_count(exchanged(s, a, b), x) == larger_count(s, x),
    decreases s.len(),
{
    let e = exchanged(s, a, b);
    if b == s.len() - 1 {
        // count the last entry apart, and the entry at `a` in what is left
        assert(e.drop_last() =~= s.drop_last().update(a, s[b]));
        lemma_larger_count_update(s.drop_last(), a, s[b], x);
    } else {
        assert(e.drop_last() =~= exchanged(s.drop_last(), a, b));
        lemma_larger_count_exchanged(s.drop_last(), a, b, x);
    }
}

/// Putting another entry in a place changes the number of entries above `x`
/// by the difference of the two.
proof fn lemma_larger_count_update(s: Seq<int>, a: int, v: int, x: int)
    requires
        0 <= a < s.len(),
    ensures
        larger_count(s.update(a, v), x) + (if s[a] > x {
            1int
        } else {
            0int
        }) == larger_count(s, x) + (if v > x {
            1int
        } else {
            0int
        }),
    decreases s.len(),
{
    if a == s.len() - 1 {
        assert(s.update(a, v).drop_last() =~= s.drop_last());
    } else {
        assert(s.update(a, v).drop_last() =~= s.drop_last().update(a, v));
        lemma_larger_count_update(s.drop_last(), a, v, x);
    }
}

/// Exchanging two neighbours changes the number of inversions by one.
proof fn lemma_neighbours_exchanged(s: Seq<int>, k: int)
    requires
        0 <= k,
        k + 1 < s.len(),
        s[k] != s[k + 1],
    ensures
        is_odd(exchanged(s, k, k + 1)) != is_odd(s),
    decreases s.len(),
{
    let e = exchanged(s, k, k + 1);
    if k + 1 == s.len() - 1 {
        let front = s.drop_last().drop_last();
        let x = s[k];
        let y = s[k + 1];
        let sx = s.drop_last();
        let ey = e.drop_last();
        assert(sx.drop_last() =~= front);
        assert(ey.drop_last() =~= front);
        assert(sx.last() == x && s.last() == y);
        assert(ey.last() == y && e.last() == x);
        assert(inversions(s) == inversions(sx) + larger_count(sx, y));
        assert(inversions(sx) == inversions(front) + larger_count(front, x));
        assert(larger_count(sx, y) == larger_count(front, y) + if x > y {
            1nat
        } else {
            0nat
        });
        assert(inversions(e) == inversions(ey) + larger_count(ey, x));
        assert(inversions(ey) == inversions(front) + larger_count(front, y));
        assert(larger_count(ey, x) == larger_count(front, x) + if y > x {
            1nat
        } else {
            0nat
        });
        assert(inversions(s) == inversions(front) + larger_count(front, x) + larger_count(
            front,
            y,
        ) + if x > y {
            1nat
        } else {
            0nat
        });
        assert(inversions(e) == inversions(front) + larger_count(front, y) + larger_count(
            front,
            x,
        ) + if y > x {
            1nat
        } else {
            0nat
        });
    } else {
        let sd = s.drop_last();
        let ed = e.drop_last();
        assert(ed =~= exchanged(sd, k, k + 1));
        assert(e.last() == s.last());
        lemma_neighbours_exchanged(sd, k);
        lemma_larger_count_exchanged(sd, k, k + 1, s.last());
        let c = larger_count(sd, s.last());
        assert(inversions(e) == inversions(ed) + c);
        assert(inversions(s) == inversions(sd) + c);
    }
}

/// Exchanging two entries keeps the entries distinct.
proof fn lemma_exchanged_distinct(s: Seq<int>, a: int, b: int)
    requires
        0 <= a < b < s.len(),
        all_distinct(s),
    ensures
        all_distinct(exchanged(s, a, b)),
{
    let e = exchanged(s, a, b);
    assert forall|i: int, j: int| 0 <= i < j < e.len() implies #[trigger] e[i]
        != #[trigger] e[j] by {
        let i0 = if i == a {
            b
        } else if i == b {
            a
        } else {
            i
        };
        let j0 = if j == a {
            b
        } else if j == b {
            a
        } else {
            j
        };
        assert(e[i] == s[i0] && e[j] == s[j0]);
        if i0 < j0 {
            assert(s[i0] != s[j0]);
        } else {
            assert(s[j0] != s[i0]);
        }
    }
}

/// Exchanging any two entries of a sequence of distinct entries changes the
/// parity.
pub proof fn lemma_exchanged_parity(s: Seq<int>, a: int, b: int)
    requires
        0 <= a < b < s.len(),
        all_distinct(s),
    ensures
        is_odd(exchanged(s, a, b)) != is_odd(s),
    decreases b - a,
{
    if b == a + 1 {
        lemma_neighbours_exchanged(s, a);
    } else {
        // bring the entry at `b` one place down, exchange there, and take
        // the other entry one place up
        let s1 = exchanged(s, b - 1, b);
        lemma_neighbours_exchanged(s, b - 1);
        lemma_exchanged_distinct(s, b - 1, b);
        let s2 = exchanged(s1, a, b - 1);
        lemma_exchanged_parity(s1, a, b - 1);
        lemma_exchanged_distinct(s1, a, b - 1);
        let s3 = exchanged(s2, b - 1, b);
        assert(s2[b - 1] != s2[b]);
        lemma_neighbours_exchanged(s2, b - 1);
        assert(s3 =~= exchanged(s, a, b));
    }
}

/// Exchanging two entries, in whichever order they are named, changes the
/// parity.
proof fn lemma_exchanged_either_way(s: Seq<int>, a: int, b: int)
    requires
        0 <= a < s.len(),
        0 <= b < s.len(),
        a != b,
        all_distinct(s),
    ensures
        is_odd(exchanged(s, a, b)) != is_odd(s),
        all_distinct(exchanged(s, a, b)),
{
    if a < b {
        lemma_exchanged_parity(s, a, b);
        lemma_exchanged_distinct(s, a, b);
    } else {
        assert(exchanged(s, a, b) =~= exchanged(s, b, a));
        lemma_exchanged_parity(s, b, a);
        lemma_exchanged_distinct(s, b, a);
    }
}

/// Carrying the entries of a ring round changes the parity with a quarter
/// turn, either way, and leaves it with a half turn.
pub proof fn lemma_ring_turned_parity(s: Seq<int>, ring: (int, int, int, int), dir: TurnDir)
    requires
        all_differ(ring),
        ring_within(ring, s.len()),
        all_distinct(s),
    ensures
        is_odd(ring_turned(s, ring, dir)) == (is_odd(s) != is_quarter(dir)),
        all_distinct(ring_turned(s, ring, dir)),
{
    let (a, b, c, d) = ring;
    match dir {
        TurnDir::Identity => {},
        TurnDir::One => {
            let s1 = exchanged(s, c, d);
            lemma_exchanged_either_way(s, c, d);
            let s2 = exchanged(s1, b, c);
            lemma_exchanged_either_way(s1, b, c);
            let s3 = exchanged(s2, a, b);
            lemma_exchanged_either_way(s2, a, b);
            assert(s3 =~= ring_turned(s, ring, dir));
        },
        TurnDir::Two => {
            let s1 = exchanged(s, a, c);
            lemma_exchanged_either_way(s, a, c);
            let s2 = exchanged(s1, b, d);
            lemma_exchanged_either_way(s1, b, d);
            assert(s2 =~= ring_turned(s, ring, dir));
        },
        TurnDir::Prime => {
            let s1 = exchanged(s, a, b);
            lemma_exchanged_either_way(s, a, b);
            let s2 = exchanged(s1, b, c);
            lemma_exchanged_either_way(s1, b, c);
            let s3 = exchanged(s2, c, d);
            lemma_exchanged_either_way(s2, c, d);
            assert(s3 =~= ring_turned(s, ring, dir));
        },
    }
}

/// A sequence that counts up from 0 has no inversions.
pub proof fn lemma_counting_up_is_even(s: Seq<int>)
    requires
        forall|i: int| 0 <= i < s.len() ==> #[trigger] s[i] == i,
    ensures
        inversions(s) == 0,
    decreases s.len(),
{
    if s.len() > 0 {
        lemma_counting_up_is_even(s.drop_last());
        lemma_none_larger(s.drop_last(), s.last());
    }
}

/// No entry of a sequence is above a bound of its entries.
proof fn lemma_none_larger(s: Seq<int>, x: int)
    requires
        forall|i: int| 0 <= i < s.len() ==> #[trigger] s[i] <= x,
    ensures
        larger_count(s, x) == 0,
    decreases s.len(),
{
    if s.len() > 0 {
        lemma_none_larger(s.drop_last(), x);
    }
}

} // verus!
