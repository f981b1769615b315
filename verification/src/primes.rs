//! A small numeric sample: the first Fibonacci numbers and the primes of a
//! range, by the sieve of Eratosthenes and by trial division.

use vstd::prelude::*;

verus! {

/// `n` is a prime number.
pub open spec fn prime(n: int) -> bool {
    n >= 2 && forall|d: int| 2 <= d < n ==> #[trigger] (n % d) != 0
}

/// The Fibonacci numbers: 0, 1, and then each the sum of the two before it.
pub open spec fn fib(n: nat) -> nat
    decreases n,
{
    if n == 0 {
        0
    } else if n == 1 {
        1
    } else {
        fib((n - 2) as nat) + fib((n - 1) as nat)
    }
}

/// How many primes lie in `[from, to)`.
pub open spec fn primes_between(from: int, to: int) -> int
    decreases to - from,
{
    if from >= to {
        0
    } else {
        primes_between(from, to - 1) + if prime(to - 1) {
            1int
        } else {
            0int
        }
    }
}

/// `n` has no divisor in `[2, bound)`.
pub open spec fn no_divisor_below(n: int, bound: int) -> bool {
    forall|d: int| 2 <= d < bound ==> #[trigger] (n % d) != 0
}

/// A number with a divisor has one that is not greater than its cofactor.
proof fn lemma_small_divisor(n: int, d: int)
    requires
        2 <= d < n,
        n % d == 0,
    ensures
        exists|e: int| 2 <= e < n && #[trigger] (n % e) == 0 && e * e <= n,
{
    let q = n / d;
    assert(n == d * q) by (nonlinear_arith)
        requires
            n % d == 0,
            q == n / d,
            d > 0,
    ;
    assert(q >= 2 && q < n && n % q == 0) by (nonlinear_arith)
        requires
            n == d * q,
            2 <= d < n,
    ;
    if d <= q {
        assert(d * d <= n) by (nonlinear_arith)
            requires
                n == d * q,
                2 <= d <= q,
        ;
    } else {
        assert(q * q <= n) by (nonlinear_arith)
            requires
                n == d * q,
                2 <= q < d,
        ;
    }
}

/// A number of at least 2 without a divisor up to its square root is prime.
proof fn lemma_prime_by_root(n: int, bound: int)
    requires
        n >= 2,
        bound >= 0,
        bound * bound > n,
        no_divisor_below(n, bound),
    ensures
        prime(n),
{
    assert forall|d: int| 2 <= d < n implies #[trigger] (n % d) != 0 by {
        if n % d == 0 {
            lemma_small_divisor(n, d);
            let e = choose|e: int| 2 <= e < n && #[trigger] (n % e) == 0 && e * e <= n;
            assert(e < bound) by (nonlinear_arith)
                requires
                    e * e <= n,
                    bound * bound > n,
                    e >= 0,
                    bound >= 0,
            ;
        }
    }
}

/// Divisibility is transitive: a divisor of a divisor of `n` divides `n`.
proof fn lemma_divides_transitive(n: int, d: int, e: int)
    requires
        d > 0,
        e > 0,
        n % d == 0,
        d % e == 0,
    ensures
        n % e == 0,
{
    let a = n / d;
    let b = d / e;
    assert(n == d * a) by (nonlinear_arith)
        requires
            n % d == 0,
            a == n / d,
            d > 0,
    ;
    assert(d == e * b) by (nonlinear_arith)
        requires
            d % e == 0,
            b == d / e,
            e > 0,
    ;
    assert(n == e * (b * a)) by (nonlinear_arith)
        requires
            n == d * a,
            d == e * b,
    ;
    assert(n % e == 0) by (nonlinear_arith)
        requires
            n == e * (b * a),
            e > 0,
    ;
}

/// Is `num` a prime number? Decided by trial division by 2, by 3, and by
/// the numbers of the forms 6k - 1 and 6k + 1 up to the square root.
pub fn is_prime(num: u32) -> (answer: bool)
    ensures
        answer == prime(num as int),
{
    if num <= 1 {
        return false;
    }
    if num == 2 || num == 3 {
        assert(prime(num as int)) by {
            assert forall|d: int| 2 <= d < num implies #[trigger] ((num as int) % d) != 0 by {
                assert(d == 2);
            }
        }
        return true;
    }
    if num % 2 == 0 || num % 3 == 0 {
        return false;
    }
    let n: u64 = num as u64;
    let mut i: u64 = 5;
    assert(no_divisor_below(n as int, 5)) by {
        assert forall|d: int| 2 <= d < 5 implies #[trigger] ((n as int) % d) != 0 by {
            if d == 4 && (n as int) % 4 == 0 {
                lemma_divides_transitive(n as int, 4, 2);
            }
        }
    }
    assert(i * i == 25) by (nonlinear_arith)
        requires
            i == 5,
    ;
    while i * i <= n
        invariant
            n == num,
            5 <= i <= 65541,
            i * i <= 65541 * 65541,
            i % 6 == 5,
            n % 2 != 0,
            n % 3 != 0,
            no_divisor_below(n as int, i as int),
        decreases 65541 - i,
    {
        assert(i < 65536) by (nonlinear_arith)
            requires
                i * i <= n,
                n <= 0xFFFF_FFFF,
        ;
        assert((i + 6) * (i + 6) <= 65541 * 65541) by (nonlinear_arith)
            requires
                5 <= i < 65536,
        ;
        if n % i == 0 || n % (i + 2) == 0 {
            assert(i + 2 < n) by (nonlinear_arith)
                requires
                    i * i <= n,
                    i >= 5,
            ;
            return false;
        }
        assert(no_divisor_below(n as int, i + 6)) by {
            assert forall|d: int| 2 <= d < i + 6 implies #[trigger] ((n as int) % d) != 0 by {
                if d >= i && (n as int) % d == 0 {
                    if d == i + 1 || d == i + 3 || d == i + 5 {
                        assert(d % 2 == 0);
                        lemma_divides_transitive(n as int, d, 2);
                    } else if d == i + 4 {
                        assert(d % 3 == 0);
                        lemma_divides_transitive(n as int, d, 3);
                    }
                }
            }
        }
        i += 6;
    }
    proof {
        lemma_prime_by_root(n as int, i as int);
    }
    true
}

/// The first `count` Fibonacci numbers.
pub open spec fn fib_prefix(count: nat) -> Seq<u32> {
    Seq::new(count, |i: int| fib(i as nat) as u32)
}

/// The first ten Fibonacci numbers, and the number of primes in the range
/// from `range.0` to `range.1`, both included, counted with the sieve of
/// Eratosthenes. The range may be empty, with `range.0` one above `range.1`;
/// it ends at 1 at least, and below the greatest `u32`.
pub fn fibonacci_and_primes(range: (u32, u32)) -> (result: (Vec<u32>, u32))
    requires
        1 <= range.1 < u32::MAX,
        range.0 <= range.1 + 1,
    ensures
        result.0@ == fib_prefix(10),
        result.1 == primes_between(range.0 as int, range.1 + 1),
{
    let mut fib_seq: Vec<u32> = Vec::new();
    fib_seq.push(0);
    fib_seq.push(1);
    let mut k: usize = 2;
    while k < 10
        invariant
            2 <= k <= 10,
            fib_seq@.len() == k,
            forall|j: int| 0 <= j < k ==> fib_seq@[j] == fib(j as nat),
            forall|j: int| 0 <= j < k ==> fib_seq@[j] <= 34,
        decreases 10 - k,
    {
        proof {
            lemma_fib_small(k as nat);
        }
        let next = fib_seq[k - 1] + fib_seq[k - 2];
        fib_seq.push(next);
        k += 1;
    }
    assert(fib_seq@ =~= fib_prefix(10));

    let (start, end) = range;
    let size: usize = end as usize + 1;
    let mut sieve: Vec<bool> = Vec::new();
    let mut n: usize = 0;
    while n < size
        invariant
            n <= size,
            sieve@.len() == n,
            forall|j: int| 0 <= j < n ==> sieve@[j] == (j >= 2),
        decreases size - n,
    {
        sieve.push(n >= 2);
        n += 1;
    }
    let mut i: u64 = 2;
    assert(i * i == 4) by (nonlinear_arith)
        requires
            i == 2,
    ;
    while i * i <= end as u64
        invariant
            2 <= i <= 65536,
            i * i <= 65536 * 65536,
            size == end + 1,
            sieve@.len() == size,
            forall|j: int| 0 <= j < size ==> sieve@[j] == sieved(j, i as int),
        decreases 65536 - i,
    {
        let ghost round: int = i as int;
        assert(i < 65536 && i <= end) by (nonlinear_arith)
            requires
                i * i <= end,
                end <= 0xFFFF_FFFF,
                i >= 2,
        ;
        assert((i + 1) * (i + 1) <= 65536 * 65536) by (nonlinear_arith)
            requires
                2 <= i < 65536,
        ;
        let ghost before = sieve@;
        if sieve[i as usize] {
            let mut j: u64 = i * i;
            assert(j % i == 0) by (nonlinear_arith)
                requires
                    j == i * i,
                    i > 0,
            ;
            while j <= end as u64
                invariant
                    2 <= i < 65536,
                    round == i,
                    round * round <= j <= end + i,
                    j % i == 0,
                    size == end + 1,
                    sieve@.len() == size,
                    before.len() == size,
                    forall|m: int|
                        0 <= m < size ==> sieve@[m] == (before[m] && !struck(m, round, j as int)),
                decreases end + i - j,
            {
                let ghost from: int = j as int;
                let ghost earlier = sieve@;
                sieve.set(j as usize, false);
                proof {
                    assert((from + round) % round == 0) by (nonlinear_arith)
                        requires
                            from % round == 0,
                            round > 0,
                    ;
                    assert forall|m: int| 0 <= m < size implies sieve@[m] == (before[m] && !struck(
                        m,
                        round,
                        from + round,
                    )) by {
                        if m == from {
                            assert(struck(m, round, from + round));
                        } else {
                            assert(sieve@[m] == earlier[m]);
                            if from < m < from + round && m % round == 0 {
                                lemma_no_multiple_between(from, m, round);
                            }
                            assert(struck(m, round, from + round) == struck(m, round, from));
                        }
                    }
                }
                j += i;
            }
        }
        proof {
            assert forall|m: int| 0 <= m < size implies sieve@[m] == sieved(m, round + 1) by {
                if before[round] {
                    assert(sieve@[m] == (before[m] && !struck(m, round, size as int)));
                } else {
                    assert(sieve@[m] == before[m]);
                }
                lemma_sieve_step(before[m], before[round], sieve@[m], round, m, size as int);
            }
        }
        i += 1;
    }
    proof {
        let last: int = i as int;
        assert forall|m: int| 0 <= m < size implies sieve@[m] == prime(m) by {
            assert(sieve@[m] == sieved(m, last));
            if m >= 2 {
                if last < m {
                    assert(last * last > m) by (nonlinear_arith)
                        requires
                            last * last > end,
                            m <= end,
                    ;
                    if no_divisor_below(m, last) {
                        lemma_prime_by_root(m, last);
                    } else {
                        let d = choose|d: int| 2 <= d < last && #[trigger] (m % d) == 0;
                        assert(2 <= d < m && m % d == 0);
                    }
                }
            }
        }
    }
    let mut prime_count: u32 = 0;
    let mut at: usize = start as usize;
    while at < size
        invariant
            start <= at <= size,
            size == end + 1,
            end < u32::MAX,
            sieve@.len() == size,
            forall|m: int| 0 <= m < size ==> sieve@[m] == prime(m),
            prime_count == primes_between(start as int, at as int),
            prime_count <= at - start,
        decreases size - at,
    {
        if sieve[at] {
            assert(prime_count < u32::MAX);
            prime_count += 1;
        }
        at += 1;
    }
    (fib_seq, prime_count)
}

/// The first ten Fibonacci numbers are small.
proof fn lemma_fib_small(k: nat)
    requires
        k < 10,
    ensures
        fib(k) <= 34,
        k >= 2 ==> fib(k) == fib((k - 1) as nat) + fib((k - 2) as nat),
{
    reveal_with_fuel(fib, 11);
}

/// `m` is a multiple of `round` in `[round * round, upto)`: the sieve has
/// struck it out in the round of `round`.
pub open spec fn struck(m: int, round: int, upto: int) -> bool {
    round * round <= m < upto && m % round == 0
}

/// What the sieve holds for `m` before the round of `round`: whether `m` is
/// at least 2 and has no divisor below `round` (nor below itself).
pub open spec fn sieved(m: int, round: int) -> bool {
    m >= 2 && no_divisor_below(
        m,
        if round < m {
            round
        } else {
            m
        },
    )
}

/// No multiple of `round` lies strictly between two consecutive ones.
proof fn lemma_no_multiple_between(from: int, m: int, round: int)
    requires
        round > 0,
        from % round == 0,
        from < m < from + round,
    ensures
        m % round != 0,
{
    assert(m % round != 0) by (nonlinear_arith)
        requires
            round > 0,
            from % round == 0,
            from < m < from + round,
    ;
}

/// One round of the sieve: once the multiples of `round` from its square
/// on are struck out, if `round` was still standing, the numbers left
/// standing are those without a divisor up to `round`.
proof fn lemma_sieve_step(
    was: bool,
    round_stands: bool,
    is: bool,
    round: int,
    m: int,
    size: int,
)
    requires
        round >= 2,
        0 <= m < size,
        round < size,
        was == sieved(m, round),
        round_stands == sieved(round, round),
        round_stands ==> is == (was && !struck(m, round, size)),
        !round_stands ==> is == was,
    ensures
        is == sieved(m, round + 1),
{
    if m >= 2 && round < m {
        if m % round == 0 {
            assert(!no_divisor_below(m, round + 1));
            if round_stands {
                if m < round * round {
                    let q = m / round;
                    assert(m == round * q && 2 <= q < round) by (nonlinear_arith)
                        requires
                            m % round == 0,
                            q == m / round,
                            round < m < round * round,
                            round >= 2,
                    ;
                    assert(m % q == 0) by (nonlinear_arith)
                        requires
                            m == round * q,
                            q > 0,
                    ;
                    assert(!no_divisor_below(m, round));
                }
            } else {
                assert(!no_divisor_below(round, round));
                let d = choose|d: int| 2 <= d < round && #[trigger] (round % d) == 0;
                lemma_divides_transitive(m, round, d);
                assert(!no_divisor_below(m, round));
            }
        } else {
            assert(no_divisor_below(m, round + 1) == no_divisor_below(m, round)) by {
                if no_divisor_below(m, round) {
                    assert forall|d: int| 2 <= d < round + 1 implies #[trigger] (m % d) != 0 by {}
                }
            }
        }
    } else if m >= 2 {
        assert(!struck(m, round, size)) by (nonlinear_arith)
            requires
                m <= round,
                round >= 2,
        {
        }
    }
}

} // verus!
