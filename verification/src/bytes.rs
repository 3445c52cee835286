//! Byte strings as numbers, in either byte order, and the conversion between
//! 32-byte strings and field elements.

use crate::felt::{limb_base, modulus, wide, Felt};
use vstd::prelude::*;

verus! {

/// The weight of the byte that has `n` bytes after it: 256 to the power `n`.
pub open spec fn byte_weight(n: nat) -> nat
    decreases n,
{
    if n == 0 {
        1
    } else {
        256 * byte_weight((n - 1) as nat)
    }
}

/// The number that `bytes` stands for, most significant byte first.
pub open spec fn be_value(bytes: Seq<u8>) -> nat
    decreases bytes.len(),
{
    if bytes.len() == 0 {
        0
    } else {
        256 * be_value(bytes.drop_last()) + bytes.last() as nat
    }
}

/// The number that `bytes` stands for, least significant byte first.
pub open spec fn le_value(bytes: Seq<u8>) -> nat {
    be_value(bytes.reverse())
}

/// A byte string stands for a number below the weight of its length.
pub proof fn lemma_be_value_bound(bytes: Seq<u8>)
    ensures
        be_value(bytes) < byte_weight(bytes.len()),
    decreases bytes.len(),
{
    if bytes.len() > 0 {
        lemma_be_value_bound(bytes.drop_last());
    }
}

/// The weight grows with the number of bytes.
pub proof fn lemma_byte_weight_grows(i: nat, j: nat)
    requires
        i <= j,
    ensures
        1 <= byte_weight(i) <= byte_weight(j),
    decreases j,
{
    if j > 0 {
        if i < j {
            lemma_byte_weight_grows(i, (j - 1) as nat);
        } else {
            lemma_byte_weight_grows((i - 1) as nat, (j - 1) as nat);
        }
    }
}

/// Sixteen bytes fill one limb.
pub proof fn lemma_byte_weight_limb()
    ensures
        byte_weight(15) == 0x100_0000_0000_0000_0000_0000_0000_0000,
        byte_weight(16) == limb_base(),
{
    reveal_with_fuel(byte_weight, 17);
}

/// The value of two byte strings put end to end.
pub proof fn lemma_be_value_concat(a: Seq<u8>, b: Seq<u8>)
    ensures
        be_value(a + b) == be_value(a) * byte_weight(b.len()) + be_value(b),
    decreases b.len(),
{
    let x = be_value(a);
    if b.len() == 0 {
        assert(a + b =~= a);
        assert(byte_weight(0) == 1);
        assert(x * 1 == x) by (nonlinear_arith);
    } else {
        let w = byte_weight((b.len() - 1) as nat);
        let y = be_value(b.drop_last());
        lemma_be_value_concat(a, b.drop_last());
        assert((a + b).drop_last() =~= a + b.drop_last());
        assert((a + b).last() == b.last());
        assert(be_value(a + b) == 256 * (x * w + y) + b.last() as nat);
        assert(byte_weight(b.len()) == 256 * w);
        assert(x * (256 * w) == 256 * (x * w)) by (nonlinear_arith);
    }
}

/// Two byte strings of one length that stand for the same number are equal.
pub proof fn lemma_be_value_injective(a: Seq<u8>, b: Seq<u8>)
    requires
        a.len() == b.len(),
        be_value(a) == be_value(b),
    ensures
        a == b,
    decreases a.len(),
{
    if a.len() > 0 {
        lemma_be_value_injective(a.drop_last(), b.drop_last());
        assert(a =~= a.drop_last().push(a.last()));
        assert(b =~= b.drop_last().push(b.last()));
    } else {
        assert(a =~= b);
    }
}

/// The 32 bytes in the opposite order.
pub fn reversed(bytes: &[u8; 32]) -> (r: [u8; 32])
    ensures
        r@ == bytes@.reverse(),
{
    let mut out: [u8; 32] = [0u8; 32];
    let mut i: usize = 0;
    while i < 32
        invariant
            i <= 32,
            forall|j: int| 0 <= j < i ==> out@[j] == bytes@[31 - j],
        decreases 32 - i,
    {
        out[i] = bytes[31 - i];
        i += 1;
    }
    assert(out@ =~= bytes@.reverse());
    out
}

/// The sixteen bytes from `start` on, read as one limb, most significant byte first.
fn limb_from_be(bytes: &[u8; 32], start: usize) -> (r: u128)
    requires
        start <= 16,
    ensures
        r == be_value(bytes@.subrange(start as int, start + 16)),
{
    let mut acc: u128 = 0;
    let mut i: usize = 0;
    while i < 16
        invariant
            i <= 16,
            start <= 16,
            acc == be_value(bytes@.subrange(start as int, start + i)),
        decreases 16 - i,
    {
        proof {
            let done = bytes@.subrange(start as int, start + i);
            lemma_be_value_bound(done);
            lemma_byte_weight_grows(i as nat, 15);
            lemma_byte_weight_limb();
            assert(bytes@.subrange(start as int, start + i + 1).drop_last() =~= done);
        }
        acc = acc * 256 + bytes[start + i] as u128;
        i += 1;
    }
    acc
}

/// Writes `limb` into the sixteen bytes from `start` on, most significant byte first.
fn limb_to_be(out: &mut [u8; 32], start: usize, limb: u128)
    requires
        start <= 16,
    ensures
        be_value(final(out)@.subrange(start as int, start + 16)) == limb,
        forall|j: int| 0 <= j < 32 && !(start <= j < start + 16) ==> final(out)@[j] == old(out)@[j],
{
    let mut rest: u128 = limb;
    let mut k: usize = 0;
    proof {
        assert(byte_weight(0) == 1);
        assert(rest * 1 == rest) by (nonlinear_arith);
        assert(out@.subrange(start + 16, start + 16) =~= Seq::<u8>::empty());
        assert(be_value(Seq::<u8>::empty()) == 0);
    }
    while k < 16
        invariant
            k <= 16,
            start <= 16,
            rest * byte_weight(k as nat) + be_value(out@.subrange(start + 16 - k, start + 16))
                == limb,
            forall|j: int| 0 <= j < 32 && !(start <= j < start + 16) ==> out@[j] == old(out)@[j],
        decreases 16 - k,
    {
        let ghost before = out@.subrange(start + 16 - k, start + 16);
        let digit: u8 = (rest % 256) as u8;
        out[start + 15 - k] = digit;
        proof {
            let after = out@.subrange(start + 15 - k, start + 16);
            assert(after =~= seq![digit] + before);
            lemma_be_value_concat(seq![digit], before);
            assert(seq![digit].drop_last() =~= Seq::<u8>::empty());
            assert(be_value(Seq::<u8>::empty()) == 0);
            assert(be_value(seq![digit]) == digit);
            assert(rest * byte_weight(k as nat) == (rest / 256) * (256 * byte_weight(k as nat))
                + digit * byte_weight(k as nat)) by (nonlinear_arith)
                requires
                    rest == 256 * (rest / 256) + digit,
            ;
        }
        rest = rest / 256;
        k += 1;
    }
    proof {
        lemma_byte_weight_limb();
        let w = byte_weight(16);
        let tail = be_value(out@.subrange(start as int, start + 16));
        assert(rest == 0) by (nonlinear_arith)
            requires
                rest * w + tail == limb,
                w == 0x1_0000_0000_0000_0000_0000_0000_0000_0000,
                limb < 0x1_0000_0000_0000_0000_0000_0000_0000_0000,
        ;
        assert(rest * w == 0) by (nonlinear_arith)
            requires
                rest == 0,
        ;
    }
}

impl Felt {
    /// The element that the 32 bytes stand for, most significant byte first,
    /// reduced by the modulus.
    pub fn from_bytes_be(bytes: &[u8; 32]) -> (r: Felt)
        ensures
            r@ == be_value(bytes@) % modulus(),
    {
        let hi = limb_from_be(bytes, 0);
        let lo = limb_from_be(bytes, 16);
        proof {
            let a = bytes@.subrange(0, 16);
            let b = bytes@.subrange(16, 32);
            assert(bytes@ =~= a + b);
            lemma_be_value_concat(a, b);
            lemma_byte_weight_limb();
        }
        Felt::from_limbs(hi, lo)
    }

    /// The element that the 32 bytes stand for, least significant byte first,
    /// reduced by the modulus.
    pub fn from_bytes_le(bytes: &[u8; 32]) -> (r: Felt)
        ensures
            r@ == le_value(bytes@) % modulus(),
    {
        let flipped = reversed(bytes);
        Felt::from_bytes_be(&flipped)
    }

    /// The 32 bytes that stand for this element, most significant byte first.
    pub fn to_bytes_be(&self) -> (r: [u8; 32])
        ensures
            be_value(r@) == self@,
    {
        let limbs = self.limbs();
        let mut out: [u8; 32] = [0u8; 32];
        limb_to_be(&mut out, 0, limbs.0);
        let ghost high = out@.subrange(0, 16);
        limb_to_be(&mut out, 16, limbs.1);
        proof {
            let a = out@.subrange(0, 16);
            let b = out@.subrange(16, 32);
            assert(a =~= high);
            assert(out@ =~= a + b);
            lemma_be_value_concat(a, b);
            lemma_byte_weight_limb();
        }
        out
    }

    /// The 32 bytes that stand for this element, least significant byte first.
    pub fn to_bytes_le(&self) -> (r: [u8; 32])
        ensures
            le_value(r@) == self@,
    {
        let be = self.to_bytes_be();
        let out = reversed(&be);
        assert(out@.reverse() =~= be@);
        out
    }
}

} // verus!
