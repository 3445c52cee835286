//! Field elements and lists of them as text: a number in decimal digits,
//! a memory as a bracketed list, a polynomial as a plain list.

use crate::felt::{
    congruent, field_add, field_mul, lemma_congruent_canonical, lemma_field_add_congruent,
    lemma_field_mul_congruent, limb_base, modulus, wide, Felt,
};
use vstd::arithmetic::div_mod::lemma_small_mod;
use crate::polynomial::values;
use vstd::prelude::*;
use vstd::string::*;

verus! {

/// The weight of the digit that has `n` digits after it: ten to the power `n`.
pub open spec fn ten_weight(n: nat) -> nat
    decreases n,
{
    if n == 0 {
        1
    } else {
        10 * ten_weight((n - 1) as nat)
    }
}

/// The number that decimal digits stand for, most significant digit first.
pub open spec fn decimal_value(digits: Seq<u8>) -> nat
    decreases digits.len(),
{
    if digits.len() == 0 {
        0
    } else {
        10 * decimal_value(digits.drop_last()) + digits.last() as nat
    }
}

/// Whether `digits` is the decimal numeral of a number: digits from 0 to 9,
/// at least one of them, and no zero in front of another digit.
pub open spec fn is_numeral(digits: Seq<u8>) -> bool {
    &&& digits.len() >= 1
    &&& forall|i: int| 0 <= i < digits.len() ==> digits[i] < 10
    &&& digits.len() > 1 ==> digits[0] != 0
}

/// The character of a digit.
pub open spec fn digit_char(digit: u8) -> char {
    (digit + 48) as char
}

/// The characters of some digits.
pub open spec fn numeral_text(digits: Seq<u8>) -> Seq<char> {
    Seq::new(digits.len(), |i: int| digit_char(digits[i]))
}

/// The decimal numeral of `n`.
pub open spec fn numeral(n: nat) -> Seq<u8>
    decreases n,
{
    if n < 10 {
        seq![n as u8]
    } else {
        numeral(n / 10).push((n % 10) as u8)
    }
}

/// The decimal text of `n`.
pub open spec fn decimal_text(n: nat) -> Seq<char> {
    numeral_text(numeral(n))
}

/// The decimal texts of the numbers, each after the first preceded by a
/// comma and a space.
pub open spec fn list_text(numbers: Seq<nat>) -> Seq<char>
    decreases numbers.len(),
{
    if numbers.len() == 0 {
        seq![]
    } else if numbers.len() == 1 {
        decimal_text(numbers[0])
    } else {
        list_text(numbers.drop_last()) + seq![',', ' '] + decimal_text(numbers.last())
    }
}

/// The text of a memory: the list of its cells in square brackets.
pub open spec fn memory_text(cells: Seq<nat>) -> Seq<char> {
    seq!['['] + list_text(cells) + seq![']']
}

/// A numeral of more than one digit stands for a number of at least ten,
/// and a numeral that does not start with zero for a number above zero.
pub proof fn lemma_numeral_size(digits: Seq<u8>)
    requires
        is_numeral(digits),
    ensures
        digits[0] != 0 ==> decimal_value(digits) >= 1,
        digits.len() > 1 ==> decimal_value(digits) >= 10,
    decreases digits.len(),
{
    let front = digits.drop_last();
    if digits.len() == 1 {
        assert(front =~= Seq::<u8>::empty());
        assert(decimal_value(front) == 0);
    } else {
        assert(front[0] == digits[0]);
        assert forall|i: int| 0 <= i < front.len() implies front[i] < 10 by {
            assert(front[i] == digits[i]);
        }
        lemma_numeral_size(front);
    }
}

/// A number has one numeral only.
pub proof fn lemma_numeral_is_single(digits: Seq<u8>)
    requires
        is_numeral(digits),
    ensures
        digits == numeral(decimal_value(digits)),
    decreases digits.len(),
{
    let front = digits.drop_last();
    let last = digits.last();
    assert(last < 10) by {
        assert(digits[digits.len() - 1] < 10);
    }
    if digits.len() == 1 {
        assert(front =~= Seq::<u8>::empty());
        assert(decimal_value(front) == 0);
        assert(digits =~= seq![last]);
    } else {
        assert(front[0] == digits[0]);
        assert forall|i: int| 0 <= i < front.len() implies front[i] < 10 by {
            assert(front[i] == digits[i]);
        }
        lemma_numeral_size(front);
        lemma_numeral_is_single(front);
        let n = decimal_value(digits);
        assert(n == 10 * decimal_value(front) + last);
        assert(n / 10 == decimal_value(front));
        assert(n % 10 == last);
        assert(digits =~= front.push(last));
    }
}

/// The value of two runs of digits put end to end.
pub proof fn lemma_decimal_concat(a: Seq<u8>, b: Seq<u8>)
    ensures
        decimal_value(a + b) == decimal_value(a) * ten_weight(b.len()) + decimal_value(b),
    decreases b.len(),
{
    let x = decimal_value(a);
    if b.len() == 0 {
        assert(a + b =~= a);
        assert(ten_weight(0) == 1);
        assert(x * 1 == x) by (nonlinear_arith);
    } else {
        let w = ten_weight((b.len() - 1) as nat);
        let y = decimal_value(b.drop_last());
        lemma_decimal_concat(a, b.drop_last());
        assert((a + b).drop_last() =~= a + b.drop_last());
        assert((a + b).last() == b.last());
        assert(decimal_value(a + b) == 10 * (x * w + y) + b.last() as nat);
        assert(ten_weight(b.len()) == 10 * w);
        assert(x * (10 * w) == 10 * (x * w)) by (nonlinear_arith);
    }
}

/// Ten to the power 78 is above every number of 256 bits.
proof fn lemma_ten_weight_78()
    ensures
        ten_weight(78) > limb_base() * limb_base(),
{
    assert(ten_weight(0) == 1);
    assert(ten_weight(13) == 10000000000000) by {
        reveal_with_fuel(ten_weight, 14);
    }
    assert(ten_weight(26) == 100000000000000000000000000) by {
        reveal_with_fuel(ten_weight, 14);
    }
    assert(ten_weight(39) == 1000000000000000000000000000000000000000) by {
        reveal_with_fuel(ten_weight, 14);
    }
    assert(ten_weight(52) == 10000000000000000000000000000000000000000000000000000) by {
        reveal_with_fuel(ten_weight, 14);
    }
    assert(ten_weight(65) == 100000000000000000000000000000000000000000000000000000000000000000) by {
        reveal_with_fuel(ten_weight, 14);
    }
    assert(ten_weight(78) == 1000000000000000000000000000000000000000000000000000000000000000000000000000000) by {
        reveal_with_fuel(ten_weight, 14);
    }
    let b = limb_base();
    assert(b * b == 0x1_0000_0000_0000_0000_0000_0000_0000_0000_0000_0000_0000_0000_0000_0000_0000_0000)
        by (nonlinear_arith)
        requires
            b == 0x1_0000_0000_0000_0000_0000_0000_0000_0000,
    ;
}

/// A limb pair divided by ten, with the remainder.
fn limbs_div_ten(hi: u128, lo: u128) -> (r: (u128, u128, u8))
    ensures
        wide(hi, lo) == 10 * wide(r.0, r.1) + r.2,
        r.2 < 10,
{
    // two to the 128 is ten times this number, plus six
    let tenth: u128 = 34028236692093846346337460743176821145;
    let qh: u128 = hi / 10;
    let rh: u128 = hi % 10;
    let ql: u128 = lo / 10;
    let rl: u128 = lo % 10;
    let t: u128 = 6 * rh + rl;
    let q: u128 = rh * tenth + ql + t / 10;
    (qh, q, (t % 10) as u8)
}

/// The one-character text of a digit.
fn digit_str(digit: u8) -> (r: &'static str)
    requires
        digit < 10,
    ensures
        r@ == seq![digit_char(digit)],
{
    proof {
        reveal_strlit("0");
        reveal_strlit("1");
        reveal_strlit("2");
        reveal_strlit("3");
        reveal_strlit("4");
        reveal_strlit("5");
        reveal_strlit("6");
        reveal_strlit("7");
        reveal_strlit("8");
        reveal_strlit("9");
    }
    let r = match digit {
        0 => "0",
        1 => "1",
        2 => "2",
        3 => "3",
        4 => "4",
        5 => "5",
        6 => "6",
        7 => "7",
        8 => "8",
        _ => "9",
    };
    assert(r@ =~= seq![digit_char(digit)]);
    r
}

impl Felt {
    /// The decimal numeral of this element: its digits, most significant
    /// first.
    pub fn to_raw(&self) -> (r: Vec<u8>)
        ensures
            r@ == numeral(self@),
            is_numeral(r@),
            decimal_value(r@) == self@,
    {
        let limbs = self.limbs();
        let mut hi: u128 = limbs.0;
        let mut lo: u128 = limbs.1;
        let mut buffer: [u8; 78] = [0u8; 78];
        let mut k: usize = 0;
        proof {
            assert(ten_weight(0) == 1);
            assert(wide(hi, lo) * 1 == wide(hi, lo)) by (nonlinear_arith);
            assert(buffer@.subrange(78, 78) =~= Seq::<u8>::empty());
            assert(decimal_value(Seq::<u8>::empty()) == 0);
            lemma_ten_weight_78();
        }
        // the digits, from the last one up
        while k < 78 && (k == 0 || hi != 0 || lo != 0)
            invariant
                k <= 78,
                wide(hi, lo) * ten_weight(k as nat) + decimal_value(buffer@.subrange(78 - k, 78))
                    == self@,
                forall|i: int| 78 - k <= i < 78 ==> buffer@[i] < 10,
                k > 0 && (hi != 0 || lo != 0 || k > 1) ==> buffer@[78 - k] != 0 || hi != 0 || lo
                    != 0,
                k > 1 && hi == 0 && lo == 0 ==> buffer@[78 - k] != 0,
            decreases 78 - k,
        {
            let ghost before = buffer@.subrange(78 - k, 78);
            let ghost rest = wide(hi, lo);
            let step = limbs_div_ten(hi, lo);
            buffer[77 - k] = step.2;
            proof {
                let digit = step.2;
                let after = buffer@.subrange(77 - k, 78);
                assert(after =~= seq![digit] + before);
                lemma_decimal_concat(seq![digit], before);
                assert(seq![digit].drop_last() =~= Seq::<u8>::empty());
                assert(decimal_value(Seq::<u8>::empty()) == 0);
                assert(decimal_value(seq![digit]) == digit);
                let w = ten_weight(k as nat);
                let q = wide(step.0, step.1);
                assert(rest * w == q * (10 * w) + digit * w) by (nonlinear_arith)
                    requires
                        rest == 10 * q + digit,
                ;
                assert(ten_weight((k + 1) as nat) == 10 * w);
            }
            hi = step.0;
            lo = step.1;
            k += 1;
        }
        proof {
            use_type_invariant(self);
            lemma_ten_weight_78();
            if hi != 0 || lo != 0 {
                let w = ten_weight(78);
                let rest = wide(hi, lo);
                let tail = decimal_value(buffer@.subrange(0, 78));
                assert(rest * w >= w) by (nonlinear_arith)
                    requires
                        rest >= 1,
                        w >= 0,
                ;
                assert(limb_base() * limb_base() > modulus()) by (nonlinear_arith);
                assert(false);
            }
            assert(wide(hi, lo) * ten_weight(k as nat) == 0) by (nonlinear_arith)
                requires
                    wide(hi, lo) == 0,
            ;
        }
        let mut out: Vec<u8> = Vec::new();
        let mut i: usize = 78 - k;
        while i < 78
            invariant
                78 - k <= i <= 78,
                k <= 78,
                out@ == buffer@.subrange(78 - k, i as int),
            decreases 78 - i,
        {
            out.push(buffer[i]);
            assert(buffer@.subrange(78 - k, i + 1) =~= buffer@.subrange(78 - k, i as int).push(
                buffer@[i as int],
            ));
            i += 1;
        }
        proof {
            lemma_numeral_is_single(out@);
        }
        out
    }

    /// The element that decimal digits stand for, most significant digit
    /// first, reduced by the modulus; `None` where one of them is no digit.
    pub fn from_raw(digits: &Vec<u8>) -> (r: Option<Felt>)
        ensures
            match r {
                Some(felt) => {
                    &&& forall|i: int| 0 <= i < digits.len() ==> digits[i] < 10
                    &&& felt@ == decimal_value(digits@) % modulus()
                },
                None => exists|i: int| 0 <= i < digits.len() && digits[i] >= 10,
            },
    {
        let ten = Felt::from_u64(10);
        let mut acc = Felt::zero();
        let mut i: usize = 0;
        proof {
            assert(digits@.take(0) =~= Seq::<u8>::empty());
            lemma_small_mod(0, modulus());
        }
        while i < digits.len()
            invariant
                i <= digits.len(),
                ten@ == 10,
                forall|j: int| 0 <= j < i ==> digits[j] < 10,
                acc@ == decimal_value(digits@.take(i as int)) % modulus(),
            decreases digits.len() - i,
        {
            let digit: u8 = digits[i];
            if digit >= 10 {
                return None;
            }
            let ghost before = decimal_value(digits@.take(i as int));
            let scaled = acc.mul(&ten);
            acc = scaled.add(&Felt::from_u64(digit as u64));
            proof {
                let next = digits@.take(i + 1);
                assert(next.drop_last() =~= digits@.take(i as int));
                assert(next.last() == digit);
                let bi = before as int;
                vstd::arithmetic::div_mod::lemma_mod_twice(bi, modulus() as int);
                lemma_field_mul_congruent((before % modulus()) as nat, 10, bi, 10);
                lemma_field_add_congruent(scaled@, digit as nat, bi * 10, digit as int);
                vstd::arithmetic::div_mod::lemma_mod_twice(
                    decimal_value(next) as int,
                    modulus() as int,
                );
                lemma_congruent_canonical(acc@, (decimal_value(next) % modulus()) as nat);
            }
            i += 1;
        }
        assert(digits@.take(digits.len() as int) =~= digits@);
        Some(acc)
    }

    /// The decimal text of this element.
    pub fn to_decimal(&self) -> (r: String)
        ensures
            r@ == decimal_text(self@),
    {
        let digits = self.to_raw();
        numeral_string(&digits)
    }
}

/// The text of a decimal numeral.
fn numeral_string(digits: &Vec<u8>) -> (r: String)
    requires
        forall|i: int| 0 <= i < digits.len() ==> digits[i] < 10,
    ensures
        r@ == numeral_text(digits@),
{
    let mut text = String::new();
    let mut i: usize = 0;
    assert(text@ =~= numeral_text(digits@).take(0));
    while i < digits.len()
        invariant
            i <= digits.len(),
            forall|j: int| 0 <= j < digits.len() ==> digits[j] < 10,
            text@ == numeral_text(digits@).take(i as int),
        decreases digits.len() - i,
    {
        text.append(digit_str(digits[i]));
        assert(numeral_text(digits@).take(i + 1) =~= numeral_text(digits@).take(i as int).push(
            digit_char(digits@[i as int]),
        ));
        i += 1;
    }
    assert(numeral_text(digits@).take(digits.len() as int) =~= numeral_text(digits@));
    text
}

/// The decimal texts of the elements, each after the first preceded by a
/// comma and a space.
pub fn render_list(felts: &Vec<Felt>) -> (r: String)
    ensures
        r@ == list_text(values(felts@)),
{
    let ghost all = values(felts@);
    let mut text = String::new();
    let mut i: usize = 0;
    assert(text@ =~= list_text(all.take(0)));
    while i < felts.len()
        invariant
            i <= felts.len(),
            all == values(felts@),
            text@ == list_text(all.take(i as int)),
        decreases felts.len() - i,
    {
        if i > 0 {
            proof {
                reveal_strlit(", ");
            }
            text.append(", ");
            assert(", "@ =~= seq![',', ' ']);
        }
        let item = felts[i].to_decimal();
        text.append(item.as_str());
        proof {
            let next = all.take(i + 1);
            assert(next.drop_last() =~= all.take(i as int));
            assert(next.last() == felts[i as int]@);
            if i == 0 {
                assert(next[0] == felts[0]@);
                assert(text@ =~= decimal_text(next[0]));
            }
        }
        i += 1;
    }
    assert(all.take(felts.len() as int) =~= all);
    text
}

/// A memory as text: the list of its cells in square brackets.
pub fn render_memory(cells: &Vec<Felt>) -> (r: String)
    ensures
        r@ == memory_text(values(cells@)),
{
    let mut text = String::new();
    proof {
        reveal_strlit("[");
        reveal_strlit("]");
    }
    text.append("[");
    let body = render_list(cells);
    text.append(body.as_str());
    text.append("]");
    assert("["@ =~= seq!['[']);
    assert("]"@ =~= seq![']']);
    assert(text@ =~= memory_text(values(cells@)));
    text
}

} // verus!
