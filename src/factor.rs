use vstd::prelude::*;

verus! {

/// Greatest common divisor by Euclid's algorithm.
pub open spec fn gcd(a: nat, b: nat) -> nat
    decreases a,
{
    if a == 0 {
        b
    } else {
        gcd(b % a, a)
    }
}

/// `g` divides `x`.
pub open spec fn divides(g: nat, x: nat) -> bool {
    exists|k: nat| x == #[trigger] (g * k)
}

/// `n` is a prime: at least 2, with no divisor strictly between 1 and `n`.
pub open spec fn is_prime(n: nat) -> bool {
    n >= 2 && forall|d: nat| 1 < d < n ==> !divides(d, n)
}

/// For `b > 0`, `gcd(a, b)` is a positive divisor of both `a` and `b`.
pub proof fn lemma_gcd_divides(a: nat, b: nat)
    requires
        a > 0 || b > 0,
    ensures
        gcd(a, b) >= 1,
        divides(gcd(a, b), a),
        divides(gcd(a, b), b),
    decreases a,
{
    if a == 0 {
        assert(0 == b * 0);
        assert(b == b * 1);
    } else {
        let r = b % a;
        lemma_gcd_divides(r, a);
        let g = gcd(r, a);
        let p = choose|k: nat| r == #[trigger] (g * k);
        let q = choose|k: nat| a == #[trigger] (g * k);
        let t = b / a;
        assert(b == a * t + r) by {
            vstd::arithmetic::div_mod::lemma_fundamental_div_mod(b as int, a as int);
        }
        assert(b == g * (q * t + p)) by (nonlinear_arith)
            requires
                b == a * t + r,
                r == g * p,
                a == g * q,
        ;
        assert(b == g * ((q * t + p) as nat));
    }
}

/// A positive divisor of a positive number is at most that number.
proof fn lemma_divisor_le(g: nat, x: nat)
    requires
        x > 0,
        divides(g, x),
    ensures
        g <= x,
        x % g == 0,
        g * (x / g) == x,
{
    let k = choose|k: nat| x == #[trigger] (g * k);
    if k == 0 {
        assert(g * k == 0) by (nonlinear_arith)
            requires
                k == 0,
        ;
    }
    if g == 0 {
        assert(g * k == 0) by (nonlinear_arith)
            requires
                g == 0,
        ;
    }
    assert(g <= g * k) by (nonlinear_arith)
        requires
            k >= 1,
    ;
    assert(g > 0);
    vstd::arithmetic::div_mod::lemma_mod_multiples_basic(k as int, g as int);
    assert(((k * g) as int) % (g as int) == 0);
    assert(k * g == g * k) by (nonlinear_arith);
    vstd::arithmetic::div_mod::lemma_fundamental_div_mod(x as int, g as int);
}

proof fn lemma_square_fits(x: u128)
    requires
        x <= 0x8000_0000_0000_0004,
    ensures
        x * x + 1 <= u128::MAX,
{
    assert(x * x <= 0x8000_0000_0000_0004 * 0x8000_0000_0000_0004) by (nonlinear_arith)
        requires
            x <= 0x8000_0000_0000_0004,
    ;
}

fn gcd_u128(m0: u128, n0: u128) -> (r: u128)
    ensures
        r == gcd(m0 as nat, n0 as nat),
{
    let mut m = m0;
    let mut n = n0;
    while m != 0
        invariant
            gcd(m as nat, n as nat) == gcd(m0 as nat, n0 as nat),
        decreases m,
    {
        let old_m = m;
        m = n % m;
        n = old_m;
    }
    n
}

/// Splits `n` into two factors with Pollard's rho method, stepping
/// `x -> x * x + 1 (mod n)` from 5 with a tortoise and a hare. Gives
/// `(d, n / d)` for the divisor `d` that the walk found, or `(1, n)` when it
/// found only `n` itself. The two walkers meet within `n` steps, which bounds
/// the search.
pub fn pollard_rho_factor_i64(n: i64) -> (r: (i64, i64))
    requires
        n >= 2,
    ensures
        r.0 * r.1 == n,
        r == (1i64, n) || 1 < r.0 < n,
        is_prime(n as nat) ==> r == (1i64, n),
{
    let nn: u128 = n as u128;
    let mut x: u128 = 5;
    let mut y: u128 = 5;
    let mut d: u128 = 1;
    let mut steps: u128 = 0;
    proof {
        assert(nn as nat == 1 * (nn as nat));
    }
    while d == 1 && steps < nn
        invariant
            2 <= nn <= i64::MAX,
            x < nn + 5,
            y < nn + 5,
            1 <= d <= nn,
            divides(d as nat, nn as nat),
            steps <= nn,
        decreases nn - steps,
    {
        proof {
            lemma_square_fits(x);
            lemma_square_fits(y);
        }
        x = (x * x + 1) % nn;
        y = (y * y + 1) % nn;
        proof {
            lemma_square_fits(y);
        }
        y = (y * y + 1) % nn;
        let diff: u128 = if x > y { x - y } else { y - x };
        d = gcd_u128(diff, nn);
        proof {
            lemma_gcd_divides(diff as nat, nn as nat);
            lemma_divisor_le(d as nat, nn as nat);
        }
        steps = steps + 1;
    }
    proof {
        lemma_divisor_le(d as nat, nn as nat);
    }
    if d == nn || d == 1 {
        (1, n)
    } else {
        let q: u128 = nn / d;
        proof {
            assert(q <= nn) by (nonlinear_arith)
                requires
                    q == nn / d,
                    d >= 1,
                    nn >= 0,
            ;
        }
        proof {
            assert(1 < d < nn);
            assert(!is_prime(nn as nat));
        }
        (d as i64, q as i64)
    }
}

} // verus!
