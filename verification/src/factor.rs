//! Randomized factorization of a product of two distinct odd primes.
//!
//! A Pollard's-rho-style cycle search iterates `x := x*x + c (mod pq)` with a
//! tortoise and a hare, accumulates differences into a running product, and
//! takes a gcd with `pq` once per batch. A degenerate attempt is discarded
//! and retried with fresh pseudo-random constants, under a bounded retry
//! budget.

use vstd::prelude::*;
use vstd::arithmetic::div_mod::{
    lemma_div_is_ordered_by_denominator, lemma_fundamental_div_mod, lemma_mod_multiples_basic,
};
use crate::errors::CryptoError;

verus! {

/// `n` is at least 2 and has no divisor strictly between 1 and itself.
pub open spec fn is_prime_spec(n: nat) -> bool {
    2 <= n && forall|d: nat| 1 < d < n ==> #[trigger] (n % d) != 0
}

/// Euclid's greatest common divisor.
pub open spec fn gcd_spec(a: nat, b: nat) -> nat
    decreases b,
{
    if b == 0 {
        a
    } else {
        gcd_spec(b, a % b)
    }
}

/// A multiple of two multiples of `g`, plus another multiple of `g`, is a
/// multiple of `g`.
proof fn lemma_divides_linear(g: nat, x: nat, y: nat, k: nat)
    requires
        g > 0,
        x % g == 0,
        y % g == 0,
    ensures
        (k * x + y) % g == 0,
{
    lemma_fundamental_div_mod(x as int, g as int);
    lemma_fundamental_div_mod(y as int, g as int);
    assert(k * x + y == g * (k * (x / g) + y / g)) by (nonlinear_arith)
        requires
            x == g * (x / g),
            y == g * (y / g),
    ;
    lemma_mod_multiples_basic((k * (x / g) + y / g) as int, g as int);
}

/// A positive multiple of `g` is at least `g`.
proof fn lemma_divisor_le(g: nat, n: nat)
    requires
        g > 0,
        n > 0,
        n % g == 0,
    ensures
        g <= n,
{
    lemma_fundamental_div_mod(n as int, g as int);
    assert(n / g >= 1 && g * (n / g) >= g) by (nonlinear_arith)
        requires
            g > 0,
            n > 0,
            n == g * (n / g),
    ;
}

/// The gcd is positive unless both arguments are zero, and divides both.
pub proof fn lemma_gcd_divides(a: nat, b: nat)
    ensures
        a > 0 || b > 0 ==> gcd_spec(a, b) > 0,
        gcd_spec(a, b) > 0 ==> a % gcd_spec(a, b) == 0 && b % gcd_spec(a, b) == 0,
    decreases b,
{
    if b == 0 {
        if a > 0 {
            lemma_mod_multiples_basic(1, a as int);
        }
    } else {
        let g = gcd_spec(b, a % b);
        lemma_gcd_divides(b, a % b);
        assert(g > 0);
        lemma_fundamental_div_mod(a as int, b as int);
        lemma_divides_linear(g, b, a % b, a / b);
        assert((a / b) * b + a % b == a);
    }
}

/// Remainder of a 64-bit product, computed through 128-bit arithmetic.
fn mul_mod(a: u64, b: u64, m: u64) -> (r: u64)
    requires
        m > 0,
    ensures
        r as nat == (a as nat * b as nat) % (m as nat),
        r < m,
{
    proof {
        assert((a as nat) * (b as nat) <= 0xffffffffffffffffffffffffffffffff) by (nonlinear_arith)
            requires
                (a as nat) < 0x10000000000000000,
                (b as nat) < 0x10000000000000000,
        ;
    }
    let wide: u128 = (a as u128) * (b as u128);
    let rem: u128 = wide % (m as u128);
    rem as u64
}

/// One step of the rho iteration: `(x*x + c) mod pq`.
fn rho_step(x: u64, c: u64, pq: u64) -> (r: u64)
    requires
        pq > 0,
    ensures
        r as nat == (x as nat * x as nat + c as nat) % (pq as nat),
        r < pq,
{
    proof {
        assert((x as nat) * (x as nat) + (c as nat) <= 0xffffffffffffffffffffffffffffffff)
            by (nonlinear_arith)
            requires
                (x as nat) < 0x10000000000000000,
                (c as nat) < 0x10000000000000000,
        ;
    }
    let wide: u128 = (x as u128) * (x as u128) + (c as u128);
    let rem: u128 = wide % (pq as u128);
    rem as u64
}

/// Euclid's algorithm.
pub fn gcd(a: u64, b: u64) -> (r: u64)
    ensures
        r as nat == gcd_spec(a as nat, b as nat),
    decreases b,
{
    if b == 0 {
        a
    } else {
        gcd(b, a % b)
    }
}

/// Primality by trial division up to the square root.
pub fn is_prime(n: u64) -> (r: bool)
    ensures
        r == is_prime_spec(n as nat),
{
    if n < 2 {
        return false;
    }
    let mut d: u64 = 2;
    while d <= n / d
        invariant
            2 <= d,
            2 <= n,
            forall|k: nat| 1 < k < d ==> #[trigger] ((n as nat) % k) != 0,
        decreases n - d,
    {
        proof {
            lemma_div_is_ordered_by_denominator(n as int, 2, d as int);
            lemma_fundamental_div_mod(n as int, 2);
            assert(d < n);
        }
        if n % d == 0 {
            proof {
                lemma_fundamental_div_mod(n as int, d as int);
                assert(d < n) by (nonlinear_arith)
                    requires
                        2 <= d,
                        2 <= n,
                        d <= n / d,
                        n / d * d + n % d == n,
                        n % d < d,
                ;
            }
            return false;
        }
        d = d + 1;
    }
    proof {
        lemma_fundamental_div_mod(n as int, d as int);
        assert(d * d > n) by (nonlinear_arith)
            requires
                d > n / d,
                n / d * d + n % d == n,
                0 <= n % d < d,
        ;
        assert forall|k: nat| 1 < k < n implies #[trigger] ((n as nat) % k) != 0 by {
            if (n as nat) % k == 0 && k >= d {
                lemma_fundamental_div_mod(n as int, k as int);
                let m = (n as nat) / k;
                assert(1 < m < d) by (nonlinear_arith)
                    requires
                        n == k * m,
                        d <= k < n,
                        (d * d) > n,
                        2 <= d,
                ;
                lemma_mod_multiples_basic(k as int, m as int);
                assert((n as nat) % m == 0);
            }
        }
    }
    true
}

/// Bezout's identity: some integer combination of `a` and `b` equals their
/// gcd. Witnesses are built along Euclid's recursion.
proof fn lemma_bezout(a: nat, b: nat) -> (r: (int, int))
    ensures
        a * r.0 + b * r.1 == gcd_spec(a, b),
    decreases b,
{
    if b == 0 {
        (1int, 0int)
    } else {
        let (x, y) = lemma_bezout(b, a % b);
        lemma_fundamental_div_mod(a as int, b as int);
        let res = (y, x - ((a / b) as int) * y);
        assert((a as int) * res.0 + (b as int) * res.1 == gcd_spec(a, b) as int)
            by (nonlinear_arith)
            requires
                (b as int) * x + ((a % b) as int) * y == gcd_spec(a, b) as int,
                ((a % b) as int) == a as int - ((a / b) as int) * (b as int),
                res == (y, x - ((a / b) as int) * y),
        ;
        res
    }
}

/// Gauss's lemma: what is coprime to `p` can be cancelled from a multiple
/// of `p`.
proof fn lemma_coprime_divides(p: nat, a: nat, b: nat)
    requires
        p > 0,
        gcd_spec(p, a) == 1,
        (a * b) % p == 0,
    ensures
        b % p == 0,
{
    let (x, y) = lemma_bezout(p, a);
    lemma_fundamental_div_mod((a * b) as int, p as int);
    let k = (a * b) / p;
    let m = (b as int) * x + (k as int) * y;
    assert(b as int == m * (p as int)) by (nonlinear_arith)
        requires
            (p as int) * x + (a as int) * y == 1,
            (a as int) * (b as int) == (p as int) * (k as int),
            m == (b as int) * x + (k as int) * y,
    ;
    lemma_mod_multiples_basic(m, p as int);
}

/// Euclid's lemma: a prime dividing a product divides one of the factors.
pub proof fn lemma_prime_divides_product(p: nat, a: nat, b: nat)
    requires
        is_prime_spec(p),
        (a * b) % p == 0,
    ensures
        a % p == 0 || b % p == 0,
{
    let g = gcd_spec(p, a);
    lemma_gcd_divides(p, a);
    if a % p != 0 {
        if g != 1 {
            if g == p {
                assert(a % p == 0);
            } else {
                lemma_divisor_le(g, p);
                assert(p % g == 0 && 1 < g < p);
                assert(false);
            }
        }
        lemma_coprime_divides(p, a, b);
    }
}

/// A prime that divides a prime is that prime.
proof fn lemma_prime_divisor_of_prime(p: nat, q: nat)
    requires
        is_prime_spec(p),
        is_prime_spec(q),
        q % p == 0,
    ensures
        p == q,
{
    lemma_divisor_le(p, q);
    if p < q {
        assert(q % p != 0);
        assert(false);
    }
}

/// Factor pairs are canonical: two ordered pairs of primes with the same
/// product are the same pair. Together with the contract of `factor`, any
/// two successful calls on one composite return the same factors, whatever
/// random paths the searches took.
pub proof fn lemma_factor_pair_unique(p1: nat, q1: nat, p2: nat, q2: nat)
    requires
        is_prime_spec(p1),
        is_prime_spec(q1),
        is_prime_spec(p2),
        is_prime_spec(q2),
        p1 <= q1,
        p2 <= q2,
        p1 * q1 == p2 * q2,
    ensures
        p1 == p2,
        q1 == q2,
{
    lemma_mod_multiples_basic(q1 as int, p1 as int);
    assert(p1 * q1 == q1 * p1) by (nonlinear_arith);
    assert((p2 * q2) % p1 == 0);
    lemma_prime_divides_product(p1, p2, q2);
    if p2 % p1 == 0 {
        lemma_prime_divisor_of_prime(p1, p2);
        assert(q1 == q2) by (nonlinear_arith)
            requires
                p1 > 0,
                p1 * q1 == p1 * q2,
        ;
    } else {
        lemma_prime_divisor_of_prime(p1, q2);
        assert(q1 == p2) by (nonlinear_arith)
            requires
                p1 > 0,
                p1 * q1 == p2 * p1,
        ;
    }
}

/// Differences accumulated between two gcd probes.
pub const RHO_BATCH: u64 = 128;

/// Iteration budget of a single rho attempt.
pub const RHO_STEP_BUDGET: u64 = 262144;

/// Attempts with fresh constants before the search gives up.
pub const MAX_ATTEMPTS: u64 = 200;

/// State scrambled in place of a zero seed, which xorshift would fix.
pub const FALLBACK_SEED: u64 = 0x9e3779b97f4a7c15;

/// The smallest product of two distinct odd primes.
pub const MIN_COMPOSITE: u64 = 15;

/// The xorshift scramble of one 64-bit state word.
pub open spec fn xorshift_spec(x: u64) -> u64 {
    let a = x ^ (x << 13u64);
    let b = a ^ (a >> 7u64);
    b ^ (b << 17u64)
}

/// Step the pseudo-random state: xorshift, a full-period permutation of the
/// nonzero 64-bit words.
fn scramble(x: u64) -> (r: u64)
    ensures
        r == xorshift_spec(x),
{
    let a = x ^ (x << 13u64);
    let b = a ^ (a >> 7u64);
    b ^ (b << 17u64)
}

/// One step of the rho iteration, as `rho_step` computes it.
pub open spec fn rho_step_spec(x: nat, c: nat, pq: nat) -> nat {
    (x * x + c) % pq
}

/// What `divisor_probe` returns: the gcd of `v` with `pq` when nontrivial.
pub open spec fn probe_spec(v: nat, pq: nat) -> Option<nat> {
    if gcd_spec(v, pq) > 1 {
        Some(gcd_spec(v, pq))
    } else {
        None
    }
}

/// The rho iteration that `rho_attempt` runs, one recursion per loop pass:
/// step the tortoise once and the hare twice, fold their difference into the
/// running product, and probe the gcd when the cycle closes, when a batch
/// product vanishes, at every batch boundary, and when the fuel runs out.
pub open spec fn rho_loop_spec(
    pq: nat,
    c: nat,
    tortoise: nat,
    hare: nat,
    acc: nat,
    steps: nat,
    fuel: nat,
) -> Option<nat>
    decreases fuel,
{
    if fuel == 0 {
        probe_spec(acc, pq)
    } else {
        let t2 = rho_step_spec(tortoise, c, pq);
        let h2 = rho_step_spec(rho_step_spec(hare, c, pq), c, pq);
        let diff: nat = if t2 >= h2 {
            (t2 - h2) as nat
        } else {
            (h2 - t2) as nat
        };
        if diff == 0 {
            probe_spec(acc, pq)
        } else {
            let next = (acc * diff) % pq;
            if next == 0 {
                probe_spec(diff, pq)
            } else if (steps + 1) % (RHO_BATCH as nat) == 0 && probe_spec(next, pq) is Some {
                probe_spec(next, pq)
            } else {
                rho_loop_spec(pq, c, t2, h2, next, steps + 1, (fuel - 1) as nat)
            }
        }
    }
}

/// What one rho attempt returns for a seed point, a step constant and a
/// step budget.
pub open spec fn rho_attempt_spec(pq: nat, x0: nat, c: nat, budget: nat) -> Option<nat> {
    rho_loop_spec(pq, c, x0 % pq, x0 % pq, 1, 0, budget)
}

/// The pseudo-random state the search starts from.
pub open spec fn seed_state_spec(seed: u64) -> u64 {
    if seed == 0 {
        FALLBACK_SEED
    } else {
        seed
    }
}

/// The retry loop that `factor` runs, one recursion per attempt: draw a seed
/// point and a nonzero step constant from the scrambled state, run one rho
/// attempt, and accept its divisor exactly when it splits `pq` into two
/// ordered primes.
pub open spec fn search_loop_spec(pq: nat, state: u64, fuel: nat) -> Option<(nat, nat)>
    decreases fuel,
{
    if fuel == 0 {
        None
    } else {
        let s1 = xorshift_spec(state);
        let x0 = (s1 as nat) % pq;
        let s2 = xorshift_spec(s1);
        let c = 1 + (s2 as nat) % ((pq - 1) as nat);
        let found = match rho_attempt_spec(pq, x0, c, RHO_STEP_BUDGET as nat) {
            Some(g) => {
                let cofactor = pq / g;
                let p = if g < cofactor {
                    g
                } else {
                    cofactor
                };
                let q = if g < cofactor {
                    cofactor
                } else {
                    g
                };
                if 1 < p && p < q && is_prime_spec(p) && is_prime_spec(q) {
                    Some((p, q))
                } else {
                    None
                }
            },
            None => None,
        };
        if found is Some {
            found
        } else {
            search_loop_spec(pq, s2, (fuel - 1) as nat)
        }
    }
}

/// The factor pair the whole bounded search finds for `pq` from `seed`, if
/// any: the value `factor` owes on every well-formed input.
pub open spec fn search_spec(pq: nat, seed: u64) -> Option<(nat, nat)> {
    search_loop_spec(pq, seed_state_spec(seed), MAX_ATTEMPTS as nat)
}

/// Probe one candidate: the gcd of `v` with `pq`, when it is nontrivial.
fn divisor_probe(v: u64, pq: u64) -> (r: Option<u64>)
    requires
        1 <= v < pq,
        pq >= 3,
    ensures
        r matches Some(g) ==> 1 < g < pq && (pq as nat) % (g as nat) == 0,
        r is Some <==> probe_spec(v as nat, pq as nat) is Some,
        r matches Some(g) ==> probe_spec(v as nat, pq as nat) == Some(g as nat),
{
    let g = gcd(v, pq);
    if g > 1 {
        proof {
            lemma_gcd_divides(v as nat, pq as nat);
            lemma_divisor_le(g as nat, v as nat);
        }
        Some(g)
    } else {
        None
    }
}

/// One rho attempt from a given seed point and step constant: iterate the
/// quadratic map with a tortoise and a double-speed hare, accumulate the
/// differences into a running product modulo `pq`, and probe the gcd once
/// per batch, when the cycle closes, and when a batch product vanishes.
/// Returns a nontrivial divisor of `pq`, or nothing when this attempt
/// degenerated and fresh constants are needed.
fn rho_attempt(pq: u64, x0: u64, c: u64, budget: u64) -> (r: Option<u64>)
    requires
        pq >= 3,
    ensures
        r matches Some(g) ==> 1 < g < pq && (pq as nat) % (g as nat) == 0,
        r is Some <==> rho_attempt_spec(pq as nat, x0 as nat, c as nat, budget as nat) is Some,
        r matches Some(g) ==> rho_attempt_spec(pq as nat, x0 as nat, c as nat, budget as nat)
            == Some(g as nat),
{
    let mut tortoise = x0 % pq;
    let mut hare = tortoise;
    let mut acc: u64 = 1;
    let mut steps: u64 = 0;
    while steps < budget
        invariant
            pq >= 3,
            tortoise < pq,
            hare < pq,
            1 <= acc < pq,
            steps <= budget,
            rho_loop_spec(
                pq as nat,
                c as nat,
                tortoise as nat,
                hare as nat,
                acc as nat,
                steps as nat,
                (budget - steps) as nat,
            ) == rho_attempt_spec(pq as nat, x0 as nat, c as nat, budget as nat),
        decreases budget - steps,
    {
        let ghost t_old = tortoise as nat;
        let ghost h_old = hare as nat;
        let ghost acc_old = acc as nat;
        let ghost steps_old = steps as nat;
        let ghost fuel_old = (budget - steps) as nat;
        tortoise = rho_step(tortoise, c, pq);
        hare = rho_step(rho_step(hare, c, pq), c, pq);
        proof {
            assert(tortoise as nat == rho_step_spec(t_old, c as nat, pq as nat));
            assert(hare as nat == rho_step_spec(
                rho_step_spec(h_old, c as nat, pq as nat),
                c as nat,
                pq as nat,
            ));
        }
        let diff = if tortoise >= hare {
            tortoise - hare
        } else {
            hare - tortoise
        };
        if diff == 0 {
            // The cycle closed: whatever was captured so far is all this
            // attempt will ever hold.
            return divisor_probe(acc, pq);
        }
        let next = mul_mod(acc, diff, pq);
        if next == 0 {
            // pq divides acc * diff though it divides neither alone, so
            // diff shares a factor with pq.
            return divisor_probe(diff, pq);
        }
        acc = next;
        steps = steps + 1;
        let ghost continue_spec = rho_loop_spec(
            pq as nat,
            c as nat,
            tortoise as nat,
            hare as nat,
            acc as nat,
            steps as nat,
            (budget - steps) as nat,
        );
        if steps % RHO_BATCH == 0 {
            match divisor_probe(acc, pq) {
                Some(g) => {
                    return Some(g);
                },
                None => {},
            }
        }
        proof {
            assert(rho_loop_spec(pq as nat, c as nat, t_old, h_old, acc_old, steps_old, fuel_old)
                == continue_spec);
        }
    }
    divisor_probe(acc, pq)
}

/// Split a product of two distinct odd primes into its factors, smaller
/// first, by a randomized rho search seeded from `seed`. An even or too
/// small `pq` is malformed and rejected at once. On every other input the
/// call returns `Ok` exactly when the bounded search named by `search_spec`
/// finds the split, and that pair; an exhausted retry budget reports a
/// factorization failure that a call with a fresh seed may overcome. Every
/// success returns the two primes themselves, so any two successful calls on
/// one `pq` agree, whatever random paths they took.
pub fn factor(pq: u64, seed: u64) -> (r: Result<(u64, u64), CryptoError>)
    ensures
        r == Err::<(u64, u64), CryptoError>(CryptoError::InvalidInput) <==> (pq % 2 == 0 || pq
            < MIN_COMPOSITE),
        r matches Ok(f) ==> (f.0 as nat) * (f.1 as nat) == pq as nat && 1 < f.0 < f.1
            && is_prime_spec(f.0 as nat) && is_prime_spec(f.1 as nat),
        pq % 2 == 1 && pq >= MIN_COMPOSITE ==> (r is Ok <==> search_spec(pq as nat, seed) is Some),
        r matches Ok(f) ==> search_spec(pq as nat, seed) == Some((f.0 as nat, f.1 as nat)),
        r is Err ==> r == Err::<(u64, u64), CryptoError>(CryptoError::InvalidInput) || r == Err::<
            (u64, u64),
            CryptoError,
        >(CryptoError::Factorization),
{
    if pq % 2 == 0 || pq < MIN_COMPOSITE {
        return Err(CryptoError::InvalidInput);
    }
    let mut state: u64 = if seed == 0 {
        FALLBACK_SEED
    } else {
        seed
    };
    let mut attempt: u64 = 0;
    while attempt < MAX_ATTEMPTS
        invariant
            pq >= MIN_COMPOSITE,
            pq % 2 == 1,
            attempt <= MAX_ATTEMPTS,
            search_loop_spec(pq as nat, state, (MAX_ATTEMPTS - attempt) as nat) == search_spec(
                pq as nat,
                seed,
            ),
        decreases MAX_ATTEMPTS - attempt,
    {
        let ghost state_old = state;
        let ghost fuel_old = (MAX_ATTEMPTS - attempt) as nat;
        state = scramble(state);
        let ghost s1 = state;
        let x0 = state % pq;
        state = scramble(state);
        let c = 1 + state % (pq - 1);
        match rho_attempt(pq, x0, c, RHO_STEP_BUDGET) {
            Some(g) => {
                let cofactor = pq / g;
                proof {
                    lemma_fundamental_div_mod(pq as int, g as int);
                    assert((g as nat) * (cofactor as nat) == pq as nat);
                    assert((cofactor as nat) * (g as nat) == pq as nat) by (nonlinear_arith)
                        requires
                            (g as nat) * (cofactor as nat) == pq as nat,
                    ;
                }
                let (p, q) = if g < cofactor {
                    (g, cofactor)
                } else {
                    (cofactor, g)
                };
                let good = 1 < p && p < q && is_prime(p) && is_prime(q);
                proof {
                    assert(search_loop_spec(pq as nat, state_old, fuel_old) == if good {
                        Some(((p as nat), (q as nat)))
                    } else {
                        search_loop_spec(pq as nat, state, (fuel_old - 1) as nat)
                    });
                }
                if good {
                    return Ok((p, q));
                }
            },
            None => {
                proof {
                    assert(search_loop_spec(pq as nat, state_old, fuel_old) == search_loop_spec(
                        pq as nat,
                        state,
                        (fuel_old - 1) as nat,
                    ));
                }
            },
        }
        attempt = attempt + 1;
    }
    Err(CryptoError::Factorization)
}

} // verus!
