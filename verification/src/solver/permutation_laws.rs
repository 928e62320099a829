//! The rank tells permutations apart: two arrangements of the same entries
//! with the same rank are the same arrangement.
use super::permutation::{
    factoradic_value, factorial, is_factoradic, lehmer_code, lehmer_rank,
    lemma_factoradic_bound, lemma_factorial_grows, lemma_lehmer_code_is_factoradic,
    smaller_count,
};
use vstd::prelude::*;

verus! {

/// Whether the two sequences hold the same entries.
pub open spec fn same_entries(p: Seq<usize>, q: Seq<usize>) -> bool {
    forall|x: usize| p.contains(x) <==> q.contains(x)
}

/// Whether `p` is an arrangement of the numbers below `n`: each once.
pub open spec fn is_arrangement(p: Seq<usize>, n: nat) -> bool {
    &&& p.len() == n
    &&& p.no_duplicates()
    &&& forall|x: usize| p.contains(x) <==> x < n
}

/// A number in the factorial number system has one sequence of digits.
pub proof fn lemma_factoradic_digits_unique(a: Seq<nat>, b: Seq<nat>)
    requires
        is_factoradic(a),
        is_factoradic(b),
        a.len() == b.len(),
        factoradic_value(a) == factoradic_value(b),
    ensures
        a == b,
    decreases a.len(),
{
    if a.len() > 0 {
        let ra = a.drop_first();
        let rb = b.drop_first();
        assert forall|i: int| 0 <= i < ra.len() implies #[trigger] ra[i] <= ra.len() - 1 - i by {
            assert(ra[i] == a[i + 1]);
        }
        assert forall|i: int| 0 <= i < rb.len() implies #[trigger] rb[i] <= rb.len() - 1 - i by {
            assert(rb[i] == b[i + 1]);
        }
        lemma_factoradic_bound(ra);
        lemma_factoradic_bound(rb);
        let f = factorial(ra.len());
        let va = factoradic_value(ra);
        let vb = factoradic_value(rb);
        lemma_factorial_grows(ra.len());
        assert(a[0] == b[0] && va == vb) by (nonlinear_arith)
            requires
                a[0] * f + va == b[0] * f + vb,
                0 <= va < f,
                0 <= vb < f,
        ;
        lemma_factoradic_digits_unique(ra, rb);
        assert(a =~= seq![a[0]] + ra);
        assert(b =~= seq![b[0]] + rb);
    }
}

/// Counting the entries below `x` can start at the front.
pub proof fn lemma_smaller_count_front(s: Seq<usize>, x: usize)
    requires
        s.len() > 0,
    ensures
        smaller_count(s, x) == smaller_count(s.drop_first(), x) + if s[0] < x {
            1nat
        } else {
            0nat
        },
    decreases s.len(),
{
    if s.len() == 1 {
        assert(s.drop_first() =~= s.drop_last());
    } else {
        lemma_smaller_count_front(s.drop_last(), x);
        assert(s.drop_last().drop_first() =~= s.drop_first().drop_last());
    }
}

/// Taking an entry out takes it out of the count where it is below `x`.
pub proof fn lemma_smaller_count_remove(s: Seq<usize>, j: int, x: usize)
    requires
        0 <= j < s.len(),
    ensures
        smaller_count(s, x) == smaller_count(s.remove(j), x) + if s[j] < x {
            1nat
        } else {
            0nat
        },
    decreases s.len(),
{
    if j == s.len() - 1 {
        assert(s.remove(j) =~= s.drop_last());
    } else {
        lemma_smaller_count_remove(s.drop_last(), j, x);
        assert(s.remove(j).drop_last() =~= s.drop_last().remove(j));
        assert(s.remove(j).last() == s.last());
    }
}

/// Sequences without repetitions that hold the same entries have as many
/// entries below `x`, in whatever order they hold them.
pub proof fn lemma_smaller_count_any_order(p: Seq<usize>, q: Seq<usize>, x: usize)
    requires
        p.no_duplicates(),
        q.no_duplicates(),
        p.len() == q.len(),
        same_entries(p, q),
    ensures
        smaller_count(p, x) == smaller_count(q, x),
    decreases p.len(),
{
    if p.len() > 0 {
        let last = p.last();
        let front = p.drop_last();
        assert(p.contains(last));
        assert(q.contains(last));
        let j = choose|j: int| 0 <= j < q.len() && q[j] == last;
        let rest = q.remove(j);
        lemma_smaller_count_remove(q, j, x);
        assert forall|y: usize| front.contains(y) <==> rest.contains(y) by {
            if front.contains(y) {
                let i = choose|i: int| 0 <= i < front.len() && front[i] == y;
                assert(p[i] == y);
                assert(p.contains(y));
                assert(y != last);
                let k = choose|k: int| 0 <= k < q.len() && q[k] == y;
                if k < j {
                    assert(rest[k] == y);
                } else {
                    assert(rest[k - 1] == y);
                }
            }
            if rest.contains(y) {
                let k = choose|k: int| 0 <= k < rest.len() && rest[k] == y;
                if k < j {
                    assert(q[k] == y);
                } else {
                    assert(q[k + 1] == y);
                }
                assert(q.contains(y));
                assert(y != last);
                let i = choose|i: int| 0 <= i < p.len() && p[i] == y;
                assert(front[i] == y);
            }
        }
        assert(rest.no_duplicates()) by {
            assert forall|a: int, b: int|
                0 <= a < rest.len() && 0 <= b < rest.len() && a != b implies rest[a]
                != rest[b] by {
                let a0 = if a < j {
                    a
                } else {
                    a + 1
                };
                let b0 = if b < j {
                    b
                } else {
                    b + 1
                };
                assert(rest[a] == q[a0] && rest[b] == q[b0]);
            }
        }
        lemma_smaller_count_any_order(front, rest, x);
    }
}

/// Fewer entries are below a smaller number, and one fewer at least where
/// the smaller number is itself an entry.
pub proof fn lemma_smaller_count_grows(s: Seq<usize>, x: usize, y: usize)
    requires
        x < y,
    ensures
        smaller_count(s, x) <= smaller_count(s, y),
        s.contains(x) ==> smaller_count(s, x) < smaller_count(s, y),
    decreases s.len(),
{
    if s.len() > 0 {
        lemma_smaller_count_grows(s.drop_last(), x, y);
        if s.contains(x) && s.last() != x {
            let i = choose|i: int| 0 <= i < s.len() && s[i] == x;
            assert(s.drop_last()[i] == x);
        }
    }
}

/// The Lehmer code of a sequence without its first entry is the code of the
/// sequence without its first digit.
pub proof fn lemma_lehmer_code_rest(p: Seq<usize>)
    requires
        p.len() > 0,
    ensures
        lehmer_code(p.drop_first()) == lehmer_code(p).drop_first(),
{
    let r = p.drop_first();
    assert forall|i: int| 0 <= i < r.len() implies lehmer_code(r)[i] == lehmer_code(p)[i + 1] by {
        assert(r.subrange(i + 1, r.len() as int) =~= p.subrange(i + 2, p.len() as int));
    }
    assert(lehmer_code(r) =~= lehmer_code(p).drop_first());
}

/// Two arrangements of the same entries with the same Lehmer code are the
/// same arrangement.
pub proof fn lemma_lehmer_code_is_injective(p: Seq<usize>, q: Seq<usize>)
    requires
        p.no_duplicates(),
        q.no_duplicates(),
        p.len() == q.len(),
        same_entries(p, q),
        lehmer_code(p) == lehmer_code(q),
    ensures
        p == q,
    decreases p.len(),
{
    if p.len() == 0 {
        assert(p =~= q);
    } else {
        let rp = p.drop_first();
        let rq = q.drop_first();
        // the first digit counts the entries of the whole sequence below the first entry
        assert(lehmer_code(p)[0] == smaller_count(rp, p[0])) by {
            assert(p.subrange(1, p.len() as int) =~= rp);
        }
        assert(lehmer_code(q)[0] == smaller_count(rq, q[0])) by {
            assert(q.subrange(1, q.len() as int) =~= rq);
        }
        lemma_smaller_count_front(p, p[0]);
        lemma_smaller_count_front(q, q[0]);
        lemma_smaller_count_any_order(p, q, q[0]);
        assert(smaller_count(p, p[0]) == smaller_count(p, q[0]));
        assert(p.contains(p[0]));
        assert(q.contains(q[0]));
        assert(p.contains(q[0]));
        if p[0] < q[0] {
            lemma_smaller_count_grows(p, p[0], q[0]);
        }
        if q[0] < p[0] {
            lemma_smaller_count_grows(p, q[0], p[0]);
        }
        assert(p[0] == q[0]);
        assert forall|y: usize| rp.contains(y) <==> rq.contains(y) by {
            if rp.contains(y) {
                let i = choose|i: int| 0 <= i < rp.len() && rp[i] == y;
                assert(p[i + 1] == y);
                assert(p.contains(y));
                let k = choose|k: int| 0 <= k < q.len() && q[k] == y;
                assert(k != 0);
                assert(rq[k - 1] == y);
            }
            if rq.contains(y) {
                let i = choose|i: int| 0 <= i < rq.len() && rq[i] == y;
                assert(q[i + 1] == y);
                assert(q.contains(y));
                let k = choose|k: int| 0 <= k < p.len() && p[k] == y;
                assert(k != 0);
                assert(rp[k - 1] == y);
            }
        }
        assert(rp.no_duplicates()) by {
            assert forall|a: int, b: int|
                0 <= a < rp.len() && 0 <= b < rp.len() && a != b implies rp[a] != rp[b] by {
                assert(rp[a] == p[a + 1] && rp[b] == p[b + 1]);
            }
        }
        assert(rq.no_duplicates()) by {
            assert forall|a: int, b: int|
                0 <= a < rq.len() && 0 <= b < rq.len() && a != b implies rq[a] != rq[b] by {
                assert(rq[a] == q[a + 1] && rq[b] == q[b + 1]);
            }
        }
        lemma_lehmer_code_rest(p);
        lemma_lehmer_code_rest(q);
        lemma_lehmer_code_is_injective(rp, rq);
        assert(p =~= seq![p[0]] + rp);
        assert(q =~= seq![q[0]] + rq);
    }
}

/// Two arrangements of the same entries with the same rank are the same
/// arrangement.
pub proof fn lemma_rank_is_injective(p: Seq<usize>, q: Seq<usize>)
    requires
        p.no_duplicates(),
        q.no_duplicates(),
        p.len() == q.len(),
        same_entries(p, q),
        lehmer_rank(p) == lehmer_rank(q),
    ensures
        p == q,
{
    lemma_lehmer_code_is_factoradic(p);
    lemma_lehmer_code_is_factoradic(q);
    lemma_factoradic_digits_unique(lehmer_code(p), lehmer_code(q));
    lemma_lehmer_code_is_injective(p, q);
}

/// The arrangements of the numbers below `n` have ranks below `n!`, and no
/// two of them have the same rank.
pub proof fn lemma_arrangements_have_their_own_rank(p: Seq<usize>, q: Seq<usize>, n: nat)
    requires
        is_arrangement(p, n),
        is_arrangement(q, n),
    ensures
        lehmer_rank(p) < factorial(n),
        lehmer_rank(p) == lehmer_rank(q) ==> p == q,
{
    lemma_lehmer_code_is_factoradic(p);
    lemma_factoradic_bound(lehmer_code(p));
    if lehmer_rank(p) == lehmer_rank(q) {
        lemma_rank_is_injective(p, q);
    }
}

} // verus!
