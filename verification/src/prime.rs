//! The number theory behind the field: the modulus is prime, so every
//! residue but zero has an inverse.

use crate::certificate::{
    lemma_three_chain, lemma_witness_chain, odd_factor, squarings, three_59, two_191, two_192,
    witness,
};
use crate::felt::{divides, field_mul, is_unit, modulus};
use vstd::arithmetic::div_mod::{
    lemma_add_mod_noop, lemma_fundamental_div_mod, lemma_fundamental_div_mod_converse,
    lemma_mod_bound, lemma_mod_multiples_basic, lemma_mod_multiples_vanish, lemma_mod_self_0,
    lemma_mod_twice, lemma_mul_mod_noop, lemma_mul_mod_noop_left, lemma_mul_mod_noop_right,
    lemma_small_mod,
};
use vstd::arithmetic::power::{
    lemma1_pow, lemma_pow1, lemma_pow_adds, lemma_pow_mod_noop, lemma_pow_multiplies,
    lemma_square_is_pow2, pow,
};
use vstd::arithmetic::power2::{
    lemma2_to64, lemma2_to64_rest, lemma_pow2_adds, lemma_pow2_strictly_increases,
    lemma_pow2_unfold, pow2,
};
use vstd::prelude::*;
use vstd::relations::injective_on;
use vstd::set_lib::{lemma_int_range, lemma_len_subset, lemma_map_size, set_int_range};

verus! {

/// Whether `n` is prime: at least two, with no divisor strictly between one
/// and itself.
pub open spec fn is_prime(n: nat) -> bool {
    &&& n >= 2
    &&& forall|d: nat| 1 < d < n ==> !#[trigger] divides(d, n)
}

/// Two numbers, not both zero, have a common divisor that is a combination
/// of them with integer factors.
pub proof fn lemma_bezout(a: nat, b: nat) -> (r: (int, int, nat))
    requires
        a > 0 || b > 0,
    ensures
        divides(r.2, a),
        divides(r.2, b),
        a * r.0 + b * r.1 == r.2,
    decreases b,
{
    if b == 0 {
        lemma_mod_self_0(a as int);
        lemma_small_mod(0, a);
        assert(a * 1 + b * 0 == a) by (nonlinear_arith);
        (1, 0, a)
    } else {
        let m: nat = a % b;
        let q: int = a as int / b as int;
        let (x, y, g) = lemma_bezout(b, m);
        lemma_fundamental_div_mod(a as int, b as int);
        assert(a * y + b * (x - q * y) == g) by (nonlinear_arith)
            requires
                a == b * q + m,
                b * x + m * y == g,
        ;
        let gi = g as int;
        lemma_mul_mod_noop_left(b as int, q, gi);
        assert(0 * q == 0);
        lemma_small_mod(0, g);
        lemma_add_mod_noop(b * q, m as int, gi);
        (y, x - q * y, g)
    }
}

/// Modulo a prime, every residue but zero has an inverse.
pub proof fn lemma_unit_modulo_prime(a: nat)
    requires
        is_prime(modulus()),
        a % modulus() != 0,
    ensures
        is_unit(a),
{
    let p = modulus();
    let pi = p as int;
    let r: nat = a % p;
    let (x, y, g) = lemma_bezout(r, p);
    // the common divisor divides the prime and is at most the residue
    assert(g <= r) by {
        if g > r {
            lemma_small_mod(r, g);
        }
    }
    assert(g == 1) by {
        if g != 1 {
            assert(divides(g, p));
        }
    }
    // r * x == 1 - p * y
    let w: nat = (x % pi) as nat;
    lemma_mul_mod_noop_right(r as int, x, pi);
    assert(r * x == pi * (-y) + 1) by (nonlinear_arith)
        requires
            r * x + pi * y == 1,
    ;
    lemma_mod_multiples_vanish(-y, 1, pi);
    lemma_small_mod(1, p);
    assert((r * w) as int % pi == 1);
    lemma_mul_mod_noop_left(a as int, w as int, pi);
    assert(field_mul(a, w) == 1);
}

/// The powers of two that the modulus is built from.
pub proof fn lemma_powers_of_two()
    ensures
        pow2(0) == 1,
        pow2(59) == 0x800000000000000,
        pow2(191) == two_191(),
        pow2(192) == two_192(),
        odd_factor() == pow2(59) + 17,
        modulus() == odd_factor() * two_192() + 1,
        modulus() < two_192() * two_192(),
{
    lemma2_to64();
    lemma2_to64_rest();
    lemma_pow2_adds(64, 64);
    lemma_pow2_adds(128, 63);
    lemma_pow2_unfold(192);
    let a = pow2(64);
    let b = pow2(63);
    assert(a * a == 0x100000000000000000000000000000000) by (nonlinear_arith)
        requires
            a == 0x10000000000000000,
    ;
    let c = pow2(128);
    assert(c * b == 0x800000000000000000000000000000000000000000000000) by (nonlinear_arith)
        requires
            c == 0x100000000000000000000000000000000,
            b == 0x8000000000000000,
    ;
    let k = odd_factor();
    let t = two_192();
    assert(k * t + 1 == 0x800000000000011000000000000000000000000000000000000000000000001)
        by (nonlinear_arith)
        requires
            k == 0x800000000000011,
            t == 0x1000000000000000000000000000000000000000000000000,
    ;
    assert(t * t > 0x800000000000011000000000000000000000000000000000000000000000001)
        by (nonlinear_arith)
        requires
            t == 0x1000000000000000000000000000000000000000000000000,
    ;
}

/// Repeated squaring computes a power: `x` after `t` squarings is congruent
/// to `x` to the power of two to the `t`.
pub proof fn lemma_squarings_power(x: nat, t: nat)
    ensures
        squarings(x, t) as int % (modulus() as int) == pow(x as int, pow2(t)) % (modulus() as int),
    decreases t,
{
    let p = modulus() as int;
    let xi = x as int;
    if t == 0 {
        lemma2_to64();
        lemma_pow1(xi);
    } else {
        let s = (t - 1) as nat;
        lemma_squarings_power(x, s);
        let y = squarings(x, s) as int;
        let a = pow(xi, pow2(s));
        lemma_mul_mod_noop(y, y, p);
        lemma_mul_mod_noop(a, a, p);
        lemma_pow_adds(xi, pow2(s), pow2(s));
        lemma_pow2_unfold(t);
        assert(pow2(t) == pow2(s) + pow2(s));
        lemma_mod_twice(y * y, p);
        assert(squarings(x, t) as int == (y * y) % p);
    }
}

/// Three, to half of the modulus less one, leaves the modulus less one.
pub proof fn lemma_witness_power()
    ensures
        pow(3, odd_factor() * two_191()) % (modulus() as int) == modulus() - 1,
{
    let p = modulus() as int;
    lemma_powers_of_two();
    lemma_three_chain();
    lemma_witness_chain();
    // three to the odd factor
    lemma_squarings_power(3, 59);
    let head = pow(3, pow2(59));
    let tail = pow(3, 17);
    assert(tail == 129140163) by {
        reveal_with_fuel(pow, 18);
    }
    lemma_pow_adds(3, pow2(59), 17);
    let base = pow(3, odd_factor());
    assert(base == head * tail);
    lemma_mul_mod_noop(head, tail, p);
    lemma_small_mod(three_59(), modulus());
    lemma_small_mod(129140163, modulus());
    assert((three_59() * 129140163) % modulus() == witness()) by (nonlinear_arith);
    assert(base % p == witness());
    // and then to two to the 191
    lemma_pow_multiplies(3, odd_factor(), two_191());
    lemma_pow_mod_noop(base, two_191(), p);
    lemma_squarings_power(witness(), 191);
    lemma_small_mod((modulus() - 1) as nat, modulus());
}

/// What leaves the modulus less one, leaves a divisor of the modulus less one.
pub proof fn lemma_residue_of_divisor(x: int, q: nat)
    requires
        q > 1,
        divides(q, modulus()),
        x % (modulus() as int) == modulus() - 1,
    ensures
        x % (q as int) == q - 1,
{
    let p = modulus() as int;
    let qi = q as int;
    lemma_fundamental_div_mod(x, p);
    lemma_fundamental_div_mod(p, qi);
    let k = x / p;
    let j = p / qi;
    assert(x == qi * (j * (k + 1) - 1) + (qi - 1)) by (nonlinear_arith)
        requires
            x == p * k + (p - 1),
            p == qi * j,
    ;
    lemma_fundamental_div_mod_converse(x, qi, j * (k + 1) - 1, qi - 1);
}

/// The square of what leaves a modulus less one leaves one.
pub proof fn lemma_minus_one_squared(a: int, q: nat)
    requires
        q > 1,
        a % (q as int) == q - 1,
    ensures
        (a * a) % (q as int) == 1,
{
    let qi = q as int;
    lemma_mul_mod_noop(a, a, qi);
    assert((qi - 1) * (qi - 1) == qi * (qi - 2) + 1) by (nonlinear_arith);
    lemma_mod_multiples_vanish(qi - 2, 1, qi);
    lemma_small_mod(1, q);
}

/// An odd power of what leaves a modulus less one leaves the same.
pub proof fn lemma_minus_one_odd_power(a: int, q: nat, r: nat)
    requires
        q > 1,
        a % (q as int) == q - 1,
        r % 2 == 1,
    ensures
        pow(a, r) % (q as int) == q - 1,
{
    let qi = q as int;
    let k: nat = r / 2;
    assert(r == 2 * k + 1);
    lemma_pow_adds(a, 2 * k, 1);
    lemma_pow1(a);
    lemma_pow_multiplies(a, 2, k);
    lemma_square_is_pow2(a);
    lemma_minus_one_squared(a, q);
    lemma_pow_mod_noop(a * a, k, qi);
    lemma1_pow(k);
    lemma_small_mod(1, q);
    let even = pow(a, 2 * k);
    assert(even % qi == 1);
    lemma_mul_mod_noop(even, a, qi);
    assert(1 * (qi - 1) == qi - 1);
    lemma_small_mod((q - 1) as nat, q);
}

/// A positive number is a power of two times an odd number.
pub proof fn lemma_odd_part(d: nat) -> (r: (nat, nat))
    requires
        d > 0,
    ensures
        d == pow2(r.0) * r.1,
        r.1 % 2 == 1,
    decreases d,
{
    if d % 2 == 1 {
        lemma2_to64();
        assert(1 * d == d);
        (0, d)
    } else {
        let (m, r) = lemma_odd_part(d / 2);
        lemma_pow2_unfold(m + 1);
        let w = pow2(m);
        assert((2 * w) * r == 2 * (w * r)) by (nonlinear_arith);
        (m + 1, r)
    }
}

/// Where `c` to two to the 191 leaves `q` less one, no smaller positive
/// power of `c` than two to the 192 leaves one.
pub proof fn lemma_no_short_period(q: nat, c: int, d: nat)
    requires
        q > 2,
        pow(c, two_191()) % (q as int) == q - 1,
        0 < d < two_192(),
    ensures
        pow(c, d) % (q as int) != 1,
{
    let qi = q as int;
    if pow(c, d) % qi == 1 {
        lemma_powers_of_two();
        let (m, r) = lemma_odd_part(d);
        let w = pow2(m);
        assert(w <= d) by (nonlinear_arith)
            requires
                d == w * r,
                r >= 1,
                w >= 0,
        ;
        if m >= 192 {
            if m > 192 {
                lemma_pow2_strictly_increases(192, m);
            }
            assert(false);
        }
        let rest = (191 - m) as nat;
        let e = pow2(rest);
        lemma_pow2_adds(m, rest);
        assert(d * e == two_191() * r) by (nonlinear_arith)
            requires
                d == w * r,
                w * e == two_191(),
        ;
        // one way: the power of what leaves one
        lemma_pow_multiplies(c, d, e);
        lemma_pow_mod_noop(pow(c, d), e, qi);
        lemma1_pow(e);
        lemma_small_mod(1, q);
        // the other way: an odd power of what leaves q less one
        lemma_pow_multiplies(c, two_191(), r);
        lemma_minus_one_odd_power(pow(c, two_191()), q, r);
        assert(false);
    }
}

/// Where `c` to two to the 191 leaves `q` less one, the first two to the
/// 192 powers of `c` leave different residues.
pub proof fn lemma_powers_differ(q: nat, c: int, i: nat, j: nat)
    requires
        q > 2,
        pow(c, two_191()) % (q as int) == q - 1,
        i < j < two_192(),
    ensures
        pow(c, i) % (q as int) != pow(c, j) % (q as int),
{
    let qi = q as int;
    if pow(c, i) % qi == pow(c, j) % qi {
        lemma_powers_of_two();
        let n = two_192();
        let d = (j - i) as nat;
        let u = pow(c, (n - i) as nat);
        let full = pow(c, n);
        // the full power leaves one
        lemma_pow_multiplies(c, two_191(), 2);
        lemma_square_is_pow2(pow(c, two_191()));
        lemma_minus_one_squared(pow(c, two_191()), q);
        assert(two_191() * 2 == n);
        assert(full % qi == 1);
        lemma_pow_adds(c, i, (n - i) as nat);
        lemma_pow_adds(c, n, d);
        lemma_pow_adds(c, j, (n - i) as nat);
        assert(j + (n - i) == n + d);
        lemma_mul_mod_noop_left(pow(c, i), u, qi);
        lemma_mul_mod_noop_left(pow(c, j), u, qi);
        lemma_mul_mod_noop_left(full, pow(c, d), qi);
        assert(1 * pow(c, d) == pow(c, d));
        lemma_no_short_period(q, c, d);
        assert(false);
    }
}

/// As many numbers below `q` as there are places below `m`, no two of them
/// equal, leave `m` no larger than `q`.
pub proof fn lemma_pigeonhole(m: nat, q: nat, f: spec_fn(int) -> int)
    requires
        forall|i: int| 0 <= i < m ==> 0 <= #[trigger] f(i) < q,
        forall|i: int, j: int| 0 <= i < j < m ==> #[trigger] f(i) != #[trigger] f(j),
    ensures
        m <= q,
{
    let places = set_int_range(0, m as int);
    let below = set_int_range(0, q as int);
    let taken = places.map(f);
    lemma_int_range(0, m as int);
    lemma_int_range(0, q as int);
    assert(injective_on(f, places)) by {
        assert forall|x1: int, x2: int|
            places.contains(x1) && places.contains(x2) && #[trigger] f(x1) == #[trigger] f(
                x2,
            ) implies x1 == x2 by {
            if x1 < x2 {
                assert(f(x1) != f(x2));
            } else if x2 < x1 {
                assert(f(x2) != f(x1));
            }
        }
    }
    lemma_map_size(places, taken, f);
    assert(taken.subset_of(below)) by {
        assert forall|v: int| taken.contains(v) implies below.contains(v) by {
            let x = choose|x: int| places.contains(x) && v == f(x);
            assert(0 <= f(x) < q);
        }
    }
    lemma_len_subset(taken, below);
}

/// A divisor of the modulus, other than one, is at least two to the 192.
pub proof fn lemma_divisor_is_large(q: nat)
    requires
        q > 1,
        divides(q, modulus()),
    ensures
        q >= two_192(),
{
    let qi = q as int;
    lemma_powers_of_two();
    lemma_witness_power();
    let c = pow(3, odd_factor());
    lemma_pow_multiplies(3, odd_factor(), two_191());
    lemma_residue_of_divisor(pow(c, two_191()), q);
    assert(q != 2);
    let f = |i: int| pow(c, i as nat) % qi;
    let n = two_192();
    assert forall|i: int| 0 <= i < n implies 0 <= #[trigger] f(i) < q by {
        lemma_mod_bound(pow(c, i as nat), qi);
    }
    assert forall|i: int, j: int| 0 <= i < j < n implies #[trigger] f(i) != #[trigger] f(j) by {
        lemma_powers_differ(q, c, i as nat, j as nat);
    }
    lemma_pigeonhole(n, q, f);
}

/// The modulus is prime.
pub proof fn lemma_modulus_is_prime()
    ensures
        is_prime(modulus()),
{
    let p = modulus();
    let pi = p as int;
    lemma_powers_of_two();
    assert forall|d: nat| 1 < d < p implies !#[trigger] divides(d, p) by {
        if divides(d, p) {
            let di = d as int;
            lemma_fundamental_div_mod(pi, di);
            let e: int = pi / di;
            assert(pi == di * e);
            assert(e >= 2) by (nonlinear_arith)
                requires
                    pi == di * e,
                    1 < di < pi,
            ;
            lemma_mod_multiples_basic(di, e);
            assert(di * e == e * di) by (nonlinear_arith);
            assert(divides(e as nat, p));
            lemma_divisor_is_large(d);
            lemma_divisor_is_large(e as nat);
            let t = two_192() as int;
            assert(di * e >= t * t) by (nonlinear_arith)
                requires
                    di >= t,
                    e >= t,
                    t >= 0,
            ;
            assert(false);
        }
    }
}

/// Every residue but zero has an inverse.
pub proof fn lemma_nonzero_is_unit(a: nat)
    requires
        a % modulus() != 0,
    ensures
        is_unit(a),
{
    lemma_modulus_is_prime();
    lemma_unit_modulo_prime(a);
}

} // verus!
