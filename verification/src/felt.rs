//! Elements of the prime field with modulus 2^251 + 17 * 2^192 + 1.
//!
//! An element is held as two 128-bit limbs and is always kept below the
//! modulus; its view is the natural number it stands for.

use crate::prime::lemma_nonzero_is_unit;
use vstd::arithmetic::div_mod::*;
use vstd::prelude::*;

verus! {

/// The high limb of the modulus.
pub const MODULUS_HI: u128 = 0x0800_0000_0000_0011_0000_0000_0000_0000;

/// The low limb of the modulus.
pub const MODULUS_LO: u128 = 1;

/// The weight of the high limb, two to the power 128.
pub open spec fn limb_base() -> nat {
    0x1_0000_0000_0000_0000_0000_0000_0000_0000nat
}

/// The field modulus, 2^251 + 17 * 2^192 + 1.
pub open spec fn modulus() -> nat {
    0x0800_0000_0000_0011_0000_0000_0000_0000_0000_0000_0000_0000_0000_0000_0000_0001nat
}

/// The number that the limb pair `(hi, lo)` stands for.
pub open spec fn wide(hi: u128, lo: u128) -> nat {
    hi as nat * limb_base() + lo as nat
}

/// Sum of two residues.
pub open spec fn field_add(a: nat, b: nat) -> nat {
    (a + b) % modulus()
}

/// Difference of two residues.
pub open spec fn field_sub(a: nat, b: nat) -> nat {
    ((a + modulus() - (b % modulus())) % (modulus() as int)) as nat
}

/// Product of two residues.
pub open spec fn field_mul(a: nat, b: nat) -> nat {
    (a * b) % modulus()
}

/// Whether two integers leave the same residue.
pub open spec fn congruent(x: int, y: int) -> bool {
    x % (modulus() as int) == y % (modulus() as int)
}

/// Two canonical residues that are congruent are equal.
pub proof fn lemma_congruent_canonical(a: nat, b: nat)
    requires
        a < modulus(),
        b < modulus(),
        congruent(a as int, b as int),
    ensures
        a == b,
{
    lemma_small_mod(a, modulus());
    lemma_small_mod(b, modulus());
}

/// A field sum is congruent to the sum of anything congruent to its terms.
pub proof fn lemma_field_add_congruent(a: nat, b: nat, a2: int, b2: int)
    requires
        congruent(a as int, a2),
        congruent(b as int, b2),
    ensures
        congruent(field_add(a, b) as int, a2 + b2),
        field_add(a, b) < modulus(),
{
    let p = modulus() as int;
    lemma_add_mod_noop(a as int, b as int, p);
    lemma_add_mod_noop(a2, b2, p);
    lemma_mod_twice((a + b) as int, p);
}

/// A field difference is congruent to the difference of anything congruent to its terms.
pub proof fn lemma_field_sub_congruent(a: nat, b: nat, a2: int, b2: int)
    requires
        congruent(a as int, a2),
        congruent(b as int, b2),
    ensures
        congruent(field_sub(a, b) as int, a2 - b2),
        field_sub(a, b) < modulus(),
{
    let p = modulus() as int;
    let t: int = (b % modulus()) as int;
    lemma_fundamental_div_mod(b as int, p);
    let q: int = b as int / p;
    assert(a + p - t == p * (q + 1) + (a - b)) by (nonlinear_arith)
        requires
            b == p * q + t,
    ;
    lemma_mod_multiples_vanish(q + 1, a - b, p);
    lemma_sub_mod_noop(a as int, b as int, p);
    lemma_sub_mod_noop(a2, b2, p);
    lemma_mod_twice(a + p - t, p);
}

/// Two canonical residues whose difference is zero are equal.
pub proof fn lemma_field_sub_zero(a: nat, b: nat)
    requires
        a < modulus(),
        b < modulus(),
        field_sub(a, b) == 0,
    ensures
        a == b,
{
    let p = modulus() as int;
    lemma_field_sub_congruent(a, b, a as int, b as int);
    lemma_small_mod(0, modulus());
    if a >= b {
        lemma_small_mod((a - b) as nat, modulus());
    } else {
        lemma_mod_add_multiples_vanish(a - b, p);
        lemma_small_mod((a - b + p) as nat, modulus());
    }
}

/// A field product is congruent to the product of anything congruent to its factors.
pub proof fn lemma_field_mul_congruent(a: nat, b: nat, a2: int, b2: int)
    requires
        congruent(a as int, a2),
        congruent(b as int, b2),
    ensures
        congruent(field_mul(a, b) as int, a2 * b2),
        field_mul(a, b) < modulus(),
{
    let p = modulus() as int;
    lemma_mul_mod_noop(a as int, b as int, p);
    lemma_mul_mod_noop(a2, b2, p);
    lemma_mod_twice((a * b) as int, p);
}

/// Whether `d` divides `n`.
pub open spec fn divides(d: nat, n: nat) -> bool {
    d > 0 && n % d == 0
}

/// Whether `d` divides both `x` and `y`.
pub open spec fn common_divisor(d: nat, x: nat, y: nat) -> bool {
    divides(d, x) && divides(d, y)
}

/// Whether `a` has a multiplicative inverse modulo the field modulus.
pub open spec fn is_unit(a: nat) -> bool {
    exists|b: nat| #[trigger] field_mul(a, b) == 1
}

/// What a multiplication by doubling still stands for: `acc + cur * rem`, reduced.
#[verifier::opaque]
pub open spec fn doubling_total(acc: nat, cur: nat, rem: nat) -> nat {
    (acc + cur * rem) % modulus()
}

/// At the start the total is the product.
proof fn lemma_doubling_start(a: nat, b: nat)
    ensures
        doubling_total(0, a, b) == field_mul(a, b),
{
    reveal(doubling_total);
}

/// One step of multiplication by doubling keeps the total.
proof fn lemma_doubling_step(acc: nat, cur: nat, rem: nat, acc2: nat, cur2: nat, rem2: nat)
    requires
        acc < modulus(),
        acc2 == (if rem % 2 == 1 { field_add(acc, cur) } else { acc }),
        cur2 == field_add(cur, cur),
        rem2 == rem / 2,
    ensures
        doubling_total(acc2, cur2, rem2) == doubling_total(acc, cur, rem),
{
    reveal(doubling_total);
    let p = modulus() as int;
    let bit: nat = rem % 2;
    let a: int = (acc + (if bit == 1 { cur } else { 0 })) as int;
    let b: int = (cur + cur) as int;
    let h: int = rem2 as int;
    let x: int = a % p;
    let y: int = (b % p) * h;
    lemma_small_mod(acc, modulus());
    assert(acc2 as int == x);
    lemma_add_mod_noop(x, y, p);
    lemma_mod_twice(a, p);
    lemma_mul_mod_noop_left(b, h, p);
    lemma_add_mod_noop(a, b * h, p);
    assert(a + b * h == acc + cur * rem) by (nonlinear_arith)
        requires
            a == acc + (if bit == 1 { cur } else { 0 }),
            b == cur + cur,
            rem == 2 * h + bit,
            bit == 0 || bit == 1,
    ;
    assert(cur2 as int * h == y);
}

/// With nothing left to add, the total is the accumulator.
proof fn lemma_doubling_end(acc: nat, cur: nat)
    requires
        acc < modulus(),
    ensures
        doubling_total(acc, cur, 0) == acc,
{
    reveal(doubling_total);
    assert(cur * 0 == 0) by (nonlinear_arith);
    lemma_small_mod(acc, modulus());
}

/// Halving both sides of a congruence modulo the odd modulus.
proof fn lemma_halve_congruence(a: nat, x: nat, xh: nat, uh: nat)
    requires
        field_mul(a, x) == (2 * uh) % modulus(),
        (2 * xh) % modulus() == x % modulus(),
    ensures
        field_mul(a, xh) == uh % modulus(),
{
    let p = modulus() as int;
    let ai = a as int;
    let xi = x as int;
    let xhi = xh as int;
    let ui = uh as int;
    let d: int = ai * xhi - ui;
    assert(ai * (2 * xhi) == 2 * (ai * xhi)) by (nonlinear_arith);
    lemma_mul_mod_noop_right(ai, 2 * xhi, p);
    lemma_mul_mod_noop_right(ai, xi, p);
    assert((2 * (ai * xhi)) % p == (2 * ui) % p);
    lemma_mod_equivalence(2 * (ai * xhi), 2 * ui, p);
    assert((2 * d) % p == 0);
    lemma_mul_mod_noop_right(2, d, p);
    assert(d % p == 0);
    lemma_mod_equivalence(ai * xhi, ui, p);
}

/// Subtracting two congruences.
proof fn lemma_sub_congruence(a: nat, x1: nat, x2: nat, u: nat, v: nat)
    requires
        u >= v,
        x2 < modulus(),
        field_mul(a, x1) == u % modulus(),
        field_mul(a, x2) == v % modulus(),
    ensures
        field_mul(a, field_sub(x1, x2)) == ((u - v) as nat) % modulus(),
{
    let p = modulus() as int;
    let s: int = x1 + p - x2;
    lemma_mul_mod_noop_right(a as int, s, p);
    assert(a * s == a * x1 + a * p - a * x2) by (nonlinear_arith)
        requires
            s == x1 + p - x2,
    ;
    lemma_mod_equivalence((a * x1) as int, u as int, p);
    lemma_mod_equivalence((a * x2) as int, v as int, p);
    lemma_mod_multiples_basic(a as int, p);
    let e: int = a * s - (u - v);
    assert(e == (a * x1 - u) - (a * x2 - v) + a * p);
    lemma_sub_mod_noop(a * x1 - u, a * x2 - v, p);
    lemma_add_mod_noop((a * x1 - u) - (a * x2 - v), a * p, p);
    assert(e % p == 0);
    lemma_mod_equivalence(a * s, u - v, p);
}

/// A divisor of `x` divides `2 * x`.
proof fn lemma_divides_double(d: nat, x: nat)
    requires
        divides(d, x),
    ensures
        divides(d, 2 * x),
{
    lemma_mul_mod_noop_right(2, x as int, d as int);
    lemma_small_mod(0, d);
}

/// A common divisor of `x` and `y` divides `x + y`.
proof fn lemma_divides_sum(d: nat, x: nat, y: nat)
    requires
        divides(d, x),
        divides(d, y),
    ensures
        divides(d, x + y),
{
    lemma_add_mod_noop(x as int, y as int, d as int);
    lemma_small_mod(0, d);
}

/// Every common divisor of `u` and `v` is one of `a` and the modulus.
pub open spec fn divisors_carried(u: nat, v: nat, a: nat) -> bool {
    forall|d: nat| #[trigger] common_divisor(d, u, v) ==> common_divisor(d, a, modulus())
}

/// Halving the first number keeps its link to `a` and the modulus.
proof fn lemma_carried_halve(u: nat, v: nat, a: nat, uh: nat)
    requires
        divisors_carried(u, v, a),
        u == 2 * uh,
    ensures
        divisors_carried(uh, v, a),
{
    assert forall|d: nat| #[trigger] common_divisor(d, uh, v) implies common_divisor(
        d,
        a,
        modulus(),
    ) by {
        lemma_divides_double(d, uh);
        assert(common_divisor(d, u, v));
    }
}

/// Taking the second number from the first keeps the link to `a` and the modulus.
proof fn lemma_carried_sub(u: nat, v: nat, a: nat, ud: nat)
    requires
        divisors_carried(u, v, a),
        u == ud + v,
    ensures
        divisors_carried(ud, v, a),
{
    assert forall|d: nat| #[trigger] common_divisor(d, ud, v) implies common_divisor(
        d,
        a,
        modulus(),
    ) by {
        lemma_divides_sum(d, ud, v);
        assert(common_divisor(d, u, v));
    }
}

/// The link to `a` and the modulus does not depend on the order of the pair.
proof fn lemma_carried_swap(u: nat, v: nat, a: nat)
    requires
        divisors_carried(u, v, a),
    ensures
        divisors_carried(v, u, a),
{
    assert forall|d: nat| #[trigger] common_divisor(d, v, u) implies common_divisor(
        d,
        a,
        modulus(),
    ) by {
        assert(common_divisor(d, u, v));
    }
}

/// Where the pair has come down to `(0, g)` with `g` above one, `a` has no inverse.
proof fn lemma_carried_end(g: nat, a: nat)
    requires
        divisors_carried(0, g, a),
        g >= 2,
    ensures
        !is_unit(a),
{
    lemma_mod_self_0(g as int);
    lemma_small_mod(0, g);
    assert(common_divisor(g, 0, g));
    lemma_shared_divisor_blocks_unit(a, g);
}

/// What holds of the two pairs `(x1, u)` and `(x2, v)` while an inverse of `a` is sought.
#[verifier::opaque]
pub open spec fn inverse_state(a: nat, x1: nat, u: nat, x2: nat, v: nat) -> bool {
    &&& u <= modulus()
    &&& 1 <= v <= modulus()
    &&& v % 2 == 1
    &&& field_mul(a, x1) == u % modulus()
    &&& field_mul(a, x2) == v % modulus()
    &&& divisors_carried(u, v, a)
}

/// The search starts from `(1, a)` and `(0, modulus)`.
proof fn lemma_inverse_start(a: nat)
    requires
        a < modulus(),
    ensures
        inverse_state(a, 1, a, 0, modulus()),
{
    reveal(inverse_state);
    assert(a * 1 == a) by (nonlinear_arith);
    assert(a * 0 == 0) by (nonlinear_arith);
}

/// The second number of the pair is never zero.
proof fn lemma_inverse_bounds(a: nat, x1: nat, u: nat, x2: nat, v: nat)
    requires
        inverse_state(a, x1, u, x2, v),
    ensures
        u <= modulus(),
        1 <= v <= modulus(),
{
    reveal(inverse_state);
}

/// An even first number may be halved.
proof fn lemma_inverse_halve(a: nat, x1: nat, u: nat, x2: nat, v: nat, xh: nat, uh: nat)
    requires
        inverse_state(a, x1, u, x2, v),
        x1 < modulus(),
        u == 2 * uh,
        field_add(xh, xh) == x1,
    ensures
        inverse_state(a, xh, uh, x2, v),
{
    reveal(inverse_state);
    lemma_small_mod(x1, modulus());
    lemma_halve_congruence(a, x1, xh, uh);
    lemma_carried_halve(u, v, a, uh);
}

/// An odd first number may change places with the second.
proof fn lemma_inverse_swap(a: nat, x1: nat, u: nat, x2: nat, v: nat)
    requires
        inverse_state(a, x1, u, x2, v),
        u % 2 == 1,
    ensures
        inverse_state(a, x2, v, x1, u),
{
    reveal(inverse_state);
    lemma_carried_swap(u, v, a);
}

/// The second number may be taken from a first that is no smaller.
proof fn lemma_inverse_sub(a: nat, x1: nat, u: nat, x2: nat, v: nat)
    requires
        inverse_state(a, x1, u, x2, v),
        x2 < modulus(),
        u >= v,
    ensures
        inverse_state(a, field_sub(x1, x2), (u - v) as nat, x2, v),
{
    reveal(inverse_state);
    lemma_sub_congruence(a, x1, x2, u, v);
    lemma_carried_sub(u, v, a, (u - v) as nat);
}

/// How the search ends.
proof fn lemma_inverse_end(a: nat, x1: nat, x2: nat, v: nat)
    requires
        inverse_state(a, x1, 0, x2, v),
    ensures
        v == 1 ==> field_mul(a, x2) == 1,
        v != 1 ==> !is_unit(a),
{
    reveal(inverse_state);
    if v == 1 {
        lemma_small_mod(1, modulus());
    } else {
        lemma_carried_end(v, a);
    }
}

/// Half of an even residue doubles back to it.
proof fn lemma_half_even(x: nat, h: nat)
    requires
        x < modulus(),
        x % 2 == 0,
        h == x / 2,
    ensures
        h < modulus(),
        field_add(h, h) == x,
{
    lemma_small_mod(x, modulus());
}

/// Half of an odd residue plus the modulus doubles back to the residue.
proof fn lemma_half_odd(x: nat, h: nat)
    requires
        x < modulus(),
        x % 2 == 1,
        h == (x + modulus()) / 2,
    ensures
        h < modulus(),
        field_add(h, h) == x,
{
    let p = modulus() as int;
    assert(h + h == x + modulus());
    lemma_mod_add_multiples_vanish(x as int, p);
    lemma_small_mod(x, modulus());
}

/// The parity of a limb pair is that of its low limb.
proof fn lemma_wide_parity(hi: u128, lo: u128)
    ensures
        wide(hi, lo) % 2 == lo as nat % 2,
{
}

/// A number that shares a divisor above one with the modulus has no inverse.
proof fn lemma_shared_divisor_blocks_unit(a: nat, g: nat)
    requires
        g >= 2,
        divides(g, a),
        divides(g, modulus()),
    ensures
        !is_unit(a),
{
    if is_unit(a) {
        let b: nat = choose|b: nat| #[trigger] field_mul(a, b) == 1;
        let p = modulus() as int;
        let gi = g as int;
        let ab: int = (a * b) as int;
        lemma_mul_mod_noop_left(a as int, b as int, gi);
        lemma_small_mod(0, g);
        assert(0 * (b as int) == 0);
        assert(ab % gi == 0);
        lemma_fundamental_div_mod(ab, p);
        let q: int = ab / p;
        assert(ab == p * q + 1);
        lemma_mul_mod_noop_left(p, q, gi);
        assert(0 * q == 0);
        assert((p * q) % gi == 0);
        lemma_add_mod_noop(p * q, 1, gi);
        lemma_small_mod(1, g);
        assert(false);
    }
}

/// A field element in canonical form.
#[derive(Clone, Copy, Debug, PartialEq, Eq, Structural)]
pub struct Felt {
    hi: u128,
    lo: u128,
}

impl View for Felt {
    type V = nat;

    closed spec fn view(&self) -> nat {
        wide(self.hi, self.lo)
    }
}

/// Whether `(hi, lo)` is at least the modulus.
fn limbs_reach_modulus(hi: u128, lo: u128) -> (r: bool)
    ensures
        r == (wide(hi, lo) >= modulus()),
{
    hi > MODULUS_HI || (hi == MODULUS_HI && lo >= MODULUS_LO)
}

/// Whether `(ahi, alo)` is below `(bhi, blo)`.
fn limbs_below(ahi: u128, alo: u128, bhi: u128, blo: u128) -> (r: bool)
    ensures
        r == (wide(ahi, alo) < wide(bhi, blo)),
{
    ahi < bhi || (ahi == bhi && alo < blo)
}

/// Sum of two limb pairs whose sum fits in 256 bits.
fn limbs_add(ahi: u128, alo: u128, bhi: u128, blo: u128) -> (r: (u128, u128))
    requires
        wide(ahi, alo) + wide(bhi, blo) < limb_base() * limb_base(),
    ensures
        wide(r.0, r.1) == wide(ahi, alo) + wide(bhi, blo),
{
    if alo <= u128::MAX - blo {
        (ahi + bhi, alo + blo)
    } else {
        let lo: u128 = alo - (u128::MAX - blo) - 1;
        (ahi + bhi + 1, lo)
    }
}

/// Difference of two limb pairs, the first at least the second.
fn limbs_sub(ahi: u128, alo: u128, bhi: u128, blo: u128) -> (r: (u128, u128))
    requires
        wide(ahi, alo) >= wide(bhi, blo),
    ensures
        wide(r.0, r.1) == wide(ahi, alo) - wide(bhi, blo),
{
    if alo >= blo {
        (ahi - bhi, alo - blo)
    } else {
        let lo: u128 = (u128::MAX - blo) + alo + 1;
        (ahi - bhi - 1, lo)
    }
}

/// Half of a limb pair, rounded down.
fn limbs_halve(hi: u128, lo: u128) -> (r: (u128, u128))
    ensures
        wide(r.0, r.1) == wide(hi, lo) / 2,
{
    let carry: u128 = if hi % 2 == 1 {
        0x8000_0000_0000_0000_0000_0000_0000_0000
    } else {
        0
    };
    (hi / 2, lo / 2 + carry)
}

impl Felt {
    /// Every element is below the modulus.
    #[verifier::type_invariant]
    pub open spec fn canonical(&self) -> bool {
        self@ < modulus()
    }

    /// The additive identity.
    pub fn zero() -> (r: Felt)
        ensures
            r@ == 0,
    {
        Felt { hi: 0, lo: 0 }
    }

    /// The multiplicative identity.
    pub fn one() -> (r: Felt)
        ensures
            r@ == 1,
    {
        Felt { hi: 0, lo: 1 }
    }

    /// The element that stands for `value`.
    pub fn from_u128(value: u128) -> (r: Felt)
        ensures
            r@ == value,
    {
        Felt { hi: 0, lo: value }
    }

    /// The element that stands for `value`.
    pub fn from_u64(value: u64) -> (r: Felt)
        ensures
            r@ == value,
    {
        Felt { hi: 0, lo: value as u128 }
    }

    /// The residue of the 256-bit number `(hi, lo)`.
    pub fn from_limbs(hi: u128, lo: u128) -> (r: Felt)
        ensures
            r@ == wide(hi, lo) % modulus(),
    {
        let mut h: u128 = hi;
        let mut l: u128 = lo;
        while limbs_reach_modulus(h, l)
            invariant
                wide(h, l) % modulus() == wide(hi, lo) % modulus(),
            decreases wide(h, l),
        {
            let d = limbs_sub(h, l, MODULUS_HI, MODULUS_LO);
            h = d.0;
            l = d.1;
        }
        Felt { hi: h, lo: l }
    }

    /// The two limbs, high first.
    pub fn limbs(&self) -> (r: (u128, u128))
        ensures
            wide(r.0, r.1) == self@,
    {
        (self.hi, self.lo)
    }

    /// Whether this is the additive identity.
    pub fn is_zero(&self) -> (r: bool)
        ensures
            r == (self@ == 0),
    {
        self.hi == 0 && self.lo == 0
    }

    /// Sum in the field.
    pub fn add(&self, rhs: &Felt) -> (r: Felt)
        ensures
            r@ == field_add(self@, rhs@),
    {
        proof {
            use_type_invariant(self);
            use_type_invariant(rhs);
        }
        let s = limbs_add(self.hi, self.lo, rhs.hi, rhs.lo);
        if limbs_reach_modulus(s.0, s.1) {
            let d = limbs_sub(s.0, s.1, MODULUS_HI, MODULUS_LO);
            Felt { hi: d.0, lo: d.1 }
        } else {
            Felt { hi: s.0, lo: s.1 }
        }
    }

    /// Difference in the field.
    pub fn sub(&self, rhs: &Felt) -> (r: Felt)
        ensures
            r@ == field_sub(self@, rhs@),
    {
        proof {
            use_type_invariant(self);
            use_type_invariant(rhs);
        }
        if limbs_below(self.hi, self.lo, rhs.hi, rhs.lo) {
            let gap = limbs_sub(rhs.hi, rhs.lo, self.hi, self.lo);
            let d = limbs_sub(MODULUS_HI, MODULUS_LO, gap.0, gap.1);
            Felt { hi: d.0, lo: d.1 }
        } else {
            let d = limbs_sub(self.hi, self.lo, rhs.hi, rhs.lo);
            Felt { hi: d.0, lo: d.1 }
        }
    }
    /// Product in the field.
    pub fn mul(&self, rhs: &Felt) -> (r: Felt)
        ensures
            r@ == field_mul(self@, rhs@),
    {
        let mut acc = Felt::zero();
        let mut cur = *self;
        let mut rh: u128 = rhs.hi;
        let mut rl: u128 = rhs.lo;
        proof {
            lemma_doubling_start(self@, rhs@);
        }
        while rh != 0 || rl != 0
            invariant
                doubling_total(acc@, cur@, wide(rh, rl)) == field_mul(self@, rhs@),
            decreases wide(rh, rl),
        {
            let ghost acc0: nat = acc@;
            let ghost cur0: nat = cur@;
            let ghost rem0: nat = wide(rh, rl);
            proof {
                use_type_invariant(&acc);
            }
            if rl % 2 == 1 {
                acc = acc.add(&cur);
            }
            cur = cur.add(&cur);
            let h = limbs_halve(rh, rl);
            rh = h.0;
            rl = h.1;
            proof {
                lemma_doubling_step(acc0, cur0, rem0, acc@, cur@, wide(rh, rl));
            }
        }
        proof {
            use_type_invariant(&acc);
            lemma_doubling_end(acc@, cur@);
        }
        acc
    }

    /// The element whose double is this one.
    pub fn half(&self) -> (r: Felt)
        ensures
            field_add(r@, r@) == self@,
    {
        proof {
            use_type_invariant(self);
            lemma_wide_parity(self.hi, self.lo);
        }
        if self.lo % 2 == 0 {
            let h = limbs_halve(self.hi, self.lo);
            proof {
                lemma_half_even(self@, wide(h.0, h.1));
            }
            Felt { hi: h.0, lo: h.1 }
        } else {
            let s = limbs_add(self.hi, self.lo, MODULUS_HI, MODULUS_LO);
            let h = limbs_halve(s.0, s.1);
            proof {
                lemma_half_odd(self@, wide(h.0, h.1));
            }
            Felt { hi: h.0, lo: h.1 }
        }
    }

    /// The multiplicative inverse, which every element but zero has.
    pub fn inverse(&self) -> (r: Option<Felt>)
        ensures
            match r {
                Some(b) => self@ != 0 && field_mul(self@, b@) == 1,
                None => self@ == 0,
            },
    {
        let ghost a: nat = self@;
        let mut uh: u128 = self.hi;
        let mut ul: u128 = self.lo;
        let mut vh: u128 = MODULUS_HI;
        let mut vl: u128 = MODULUS_LO;
        let mut x1 = Felt::one();
        let mut x2 = Felt::zero();
        proof {
            use_type_invariant(self);
            lemma_inverse_start(a);
        }
        while uh != 0 || ul != 0
            invariant
                inverse_state(a, x1@, wide(uh, ul), x2@, wide(vh, vl)),
            decreases wide(uh, ul) + wide(vh, vl),
        {
            proof {
                use_type_invariant(&x1);
                use_type_invariant(&x2);
                lemma_wide_parity(uh, ul);
                lemma_inverse_bounds(a, x1@, wide(uh, ul), x2@, wide(vh, vl));
            }
            if ul % 2 == 0 {
                let h = limbs_halve(uh, ul);
                let xh = x1.half();
                proof {
                    lemma_inverse_halve(
                        a,
                        x1@,
                        wide(uh, ul),
                        x2@,
                        wide(vh, vl),
                        xh@,
                        wide(h.0, h.1),
                    );
                }
                uh = h.0;
                ul = h.1;
                x1 = xh;
            } else {
                if limbs_below(uh, ul, vh, vl) {
                    proof {
                        lemma_inverse_swap(a, x1@, wide(uh, ul), x2@, wide(vh, vl));
                    }
                    let th: u128 = uh;
                    let tl: u128 = ul;
                    uh = vh;
                    ul = vl;
                    vh = th;
                    vl = tl;
                    let tx = x1;
                    x1 = x2;
                    x2 = tx;
                }
                let d = limbs_sub(uh, ul, vh, vl);
                let xd = x1.sub(&x2);
                proof {
                    use_type_invariant(&x2);
                    lemma_inverse_bounds(a, x1@, wide(uh, ul), x2@, wide(vh, vl));
                    lemma_inverse_sub(a, x1@, wide(uh, ul), x2@, wide(vh, vl));
                }
                uh = d.0;
                ul = d.1;
                x1 = xd;
            }
        }
        proof {
            lemma_inverse_end(a, x1@, x2@, wide(vh, vl));
            if a == 0 {
                assert(a * x2@ == 0) by (nonlinear_arith)
                    requires
                        a == 0,
                ;
                lemma_small_mod(0, modulus());
            } else {
                lemma_small_mod(a, modulus());
                lemma_nonzero_is_unit(a);
            }
        }
        if vh == 0 && vl == 1 {
            Some(x2)
        } else {
            None
        }
    }
}

} // verus!
