//! The rank of a permutation: its Lehmer code, read as a number in the
//! factorial number system.
use vstd::prelude::*;

verus! {

/// `n!`.
pub open spec fn factorial(n: nat) -> nat
    decreases n,
{
    if n == 0 {
        1
    } else {
        n * factorial((n - 1) as nat)
    }
}

/// How many entries of `s` are below `x`.
pub open spec fn smaller_count(s: Seq<usize>, x: usize) -> nat
    decreases s.len(),
{
    if s.len() == 0 {
        0
    } else {
        smaller_count(s.drop_last(), x) + if s.last() < x {
            1nat
        } else {
            0nat
        }
    }
}

/// The Lehmer code of `p`: for each position, how many later entries are
/// smaller than the entry there.
pub open spec fn lehmer_code(p: Seq<usize>) -> Seq<nat> {
    Seq::new(p.len(), |i: int| smaller_count(p.subrange(i + 1, p.len() as int), p[i]))
}

/// The number that the digits `d` stand for in the factorial number system,
/// where the last digit has weight `0!`, the one before it `1!`, and so on.
pub open spec fn factoradic_value(d: Seq<nat>) -> nat
    decreases d.len(),
{
    if d.len() == 0 {
        0
    } else {
        d[0] * factorial((d.len() - 1) as nat) + factoradic_value(d.drop_first())
    }
}

/// The rank of `p`: its Lehmer code as a number in the factorial number
/// system.
pub open spec fn lehmer_rank(p: Seq<usize>) -> nat {
    factoradic_value(lehmer_code(p))
}

/// Each digit is at most the number of digits after it.
pub open spec fn is_factoradic(d: Seq<nat>) -> bool {
    forall|i: int| 0 <= i < d.len() ==> #[trigger] d[i] <= d.len() - 1 - i
}

/// No more entries are below `x` than there are entries.
pub proof fn lemma_smaller_count_bound(s: Seq<usize>, x: usize)
    ensures
        smaller_count(s, x) <= s.len(),
    decreases s.len(),
{
    if s.len() > 0 {
        lemma_smaller_count_bound(s.drop_last(), x);
    }
}

/// A Lehmer code is a number in the factorial number system.
pub proof fn lemma_lehmer_code_is_factoradic(p: Seq<usize>)
    ensures
        is_factoradic(lehmer_code(p)),
{
    let d = lehmer_code(p);
    assert forall|i: int| 0 <= i < d.len() implies #[trigger] d[i] <= d.len() - 1 - i by {
        lemma_smaller_count_bound(p.subrange(i + 1, p.len() as int), p[i]);
    }
}

/// `n!` is positive and grows with `n`.
pub proof fn lemma_factorial_grows(n: nat)
    ensures
        factorial(n) >= 1,
        factorial(n + 1) == (n + 1) * factorial(n),
        factorial(n + 1) >= factorial(n),
    decreases n,
{
    if n > 0 {
        lemma_factorial_grows((n - 1) as nat);
    }
    assert((n + 1) * factorial(n) >= factorial(n)) by (nonlinear_arith)
        requires
            factorial(n) >= 1,
    ;
}

/// Factorials do not decrease.
pub proof fn lemma_factorial_monotone(a: nat, b: nat)
    requires
        a <= b,
    ensures
        factorial(a) <= factorial(b),
    decreases b - a,
{
    if a < b {
        lemma_factorial_grows(a);
        lemma_factorial_monotone(a + 1, b);
    }
}

/// A number of `n` digits in the factorial number system is below `n!`.
pub proof fn lemma_factoradic_bound(d: Seq<nat>)
    requires
        is_factoradic(d),
    ensures
        factoradic_value(d) < factorial(d.len()),
    decreases d.len(),
{
    if d.len() == 0 {
    } else {
        let rest = d.drop_first();
        assert forall|i: int| 0 <= i < rest.len() implies #[trigger] rest[i] <= rest.len() - 1
            - i by {
            assert(rest[i] == d[i + 1]);
        }
        lemma_factoradic_bound(rest);
        let n = rest.len();
        let f = factorial(n);
        lemma_factorial_grows(n);
        assert(d[0] <= n);
        assert(d[0] * f + f <= (n + 1) * f) by (nonlinear_arith)
            requires
                d[0] <= n,
                f >= 1,
        ;
    }
}

/// `12!` and all smaller factorials.
pub proof fn lemma_small_factorials()
    ensures
        factorial(0) == 1,
        factorial(1) == 1,
        factorial(2) == 2,
        factorial(3) == 6,
        factorial(4) == 24,
        factorial(5) == 120,
        factorial(6) == 720,
        factorial(7) == 5040,
        factorial(8) == 40320,
        factorial(9) == 362880,
        factorial(10) == 3628800,
        factorial(11) == 39916800,
        factorial(12) == 479001600,
{
    reveal_with_fuel(factorial, 14);
}

/// Turns a number in the factorial number system into an integer.
fn factoradic_to_decimal<const N: usize>(factoradic: &[usize; N]) -> (res: usize)
    requires
        1 <= N <= 12,
        is_factoradic(factoradic@.map_values(|v: usize| v as nat)),
    ensures
        res == factoradic_value(factoradic@.map_values(|v: usize| v as nat)),
        res < factorial(N as nat),
{
    let ghost d = factoradic@.map_values(|v: usize| v as nat);
    let mut res: usize = 0;
    let mut factorial: usize = 1;
    let mut i: usize = 1;
    proof {
        assert(d[N - 1] <= d.len() - 1 - (N - 1));
        assert(d.subrange(N - 1, N as int).drop_first() =~= Seq::<nat>::empty());
        reveal_with_fuel(factoradic_value, 2);
        lemma_small_factorials();
    }
    while i < N
        invariant
            1 <= i <= N <= 12,
            d == factoradic@.map_values(|v: usize| v as nat),
            is_factoradic(d),
            factorial == self::factorial((i - 1) as nat),
            res == factoradic_value(d.subrange(N - i, N as int)),
            res < self::factorial(i as nat),
        decreases N - i,
    {
        proof {
            lemma_small_factorials();
            lemma_factorial_grows((i - 1) as nat);
            lemma_factorial_grows(i as nat);
            lemma_factorial_monotone((i + 1) as nat, 12);
            let tail = d.subrange(N - 1 - i, N as int);
            assert(tail.drop_first() =~= d.subrange(N - i, N as int));
            assert(tail[0] == d[N - 1 - i]);
            assert(d[N - 1 - i] <= d.len() - 1 - (N - 1 - i));
            let f = self::factorial(i as nat);
            assert(d[N - 1 - i] * f + f <= (i + 1) * f) by (nonlinear_arith)
                requires
                    d[N - 1 - i] <= i,
                    f >= 1,
            ;
            assert(f <= (i + 1) * f) by (nonlinear_arith)
                requires
                    f >= 1,
                    i >= 1,
            ;
            assert((i + 1) * f == self::factorial((i + 1) as nat));
            assert(factorial * i == f) by (nonlinear_arith)
                requires
                    f == i * self::factorial((i - 1) as nat),
                    factorial == self::factorial((i - 1) as nat),
            ;
            assert(d[N - 1 - i] == factoradic@[N - 1 - i]);
        }
        factorial = factorial * i;
        res = res + factoradic[N - 1 - i] * factorial;
        i += 1;
    }
    proof {
        assert(d.subrange(0, N as int) =~= d);
    }
    res
}

/// The rank of a permutation: its Lehmer code, turned from the factorial
/// number system into an integer below `N!`. Permutations of the same
/// entries have different ranks.
pub fn encode_permutation<const N: usize>(permutation: &[usize; N]) -> (rank: usize)
    requires
        1 <= N <= 12,
    ensures
        rank == lehmer_rank(permutation@),
        rank < factorial(N as nat),
{
    let ghost p = permutation@;
    let mut factoradic = [0usize;N];
    let mut i: usize = 0;
    while i < N - 1
        invariant
            1 <= N <= 12,
            i <= N - 1,
            p == permutation@,
            forall|k: int| 0 <= k < i ==> factoradic@[k] == lehmer_code(p)[k],
            forall|k: int| i <= k < N ==> factoradic@[k] == 0,
        decreases N - 1 - i,
    {
        let mut j: usize = i + 1;
        proof {
            assert(p.subrange(i + 1, i + 1) =~= Seq::<usize>::empty());
        }
        while j < N
            invariant
                i + 1 <= j <= N <= 12,
                i < N - 1,
                p == permutation@,
                factoradic@[i as int] == smaller_count(p.subrange(i + 1, j as int), p[i as int]),
                forall|k: int| 0 <= k < i ==> factoradic@[k] == lehmer_code(p)[k],
                forall|k: int| i < k < N ==> factoradic@[k] == 0,
            decreases N - j,
        {
            proof {
                assert(p.subrange(i + 1, j + 1).drop_last() =~= p.subrange(i + 1, j as int));
                lemma_smaller_count_bound(p.subrange(i + 1, j as int), p[i as int]);
            }
            if permutation[j] < permutation[i] {
                factoradic[i] += 1;
            }
            j += 1;
        }
        i += 1;
    }
    proof {
        let d = factoradic@.map_values(|v: usize| v as nat);
        assert(p.subrange(N as int, N as int) =~= Seq::<usize>::empty());
        assert(lehmer_code(p)[N - 1] == 0);
        assert(d =~= lehmer_code(p));
        lemma_lehmer_code_is_factoradic(p);
    }
    factoradic_to_decimal(&factoradic)
}

} // verus!
