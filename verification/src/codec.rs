//! Field elements from text: 64 hexadecimal digits that give the 32 bytes of
//! a number, least significant byte first.

use crate::bytes::{le_value, lemma_be_value_injective, reversed};
use crate::felt::{modulus, Felt};
use crate::indices::text_of;
use crate::json::{json_string_list, read_string_list, texts};
use crate::polynomial::values;
use vstd::prelude::*;
use vstd::string::*;

verus! {

#[verifier::external_type_specification]
#[verifier::external_body]
pub struct ExFromHexError(hex::FromHexError);

/// Why a text gives no field element.
#[derive(Clone, Copy, Debug, PartialEq, Eq, Structural)]
pub enum DecodeError {
    /// There is no text at all.
    MissingValue,
    /// The text is not a JSON list of strings.
    MalformedList,
    /// A string does not have 64 characters.
    InvalidLength,
    /// A string of 64 characters holds one that is no hexadecimal digit.
    InvalidDigit,
}

/// Whether `c` is one of `0-9`, `a-f`, `A-F`.
pub open spec fn is_hex_digit(c: char) -> bool {
    ||| '0' <= c <= '9'
    ||| 'a' <= c <= 'f'
    ||| 'A' <= c <= 'F'
}

/// The number that the hexadecimal digit `c` stands for.
pub open spec fn hex_digit_value(c: char) -> nat {
    if '0' <= c <= '9' {
        (c as nat - '0' as nat) as nat
    } else if 'a' <= c <= 'f' {
        (c as nat - 'a' as nat + 10) as nat
    } else {
        (c as nat - 'A' as nat + 10) as nat
    }
}

/// Whether `text` is 64 hexadecimal digits.
pub open spec fn is_hex32(text: Seq<char>) -> bool {
    &&& text.len() == 64
    &&& forall|i: int| 0 <= i < 64 ==> is_hex_digit(#[trigger] text[i])
}

/// The bytes that the hexadecimal digits of `text` spell, two digits to a byte.
pub open spec fn hex_bytes(text: Seq<char>) -> Seq<u8> {
    Seq::new(
        text.len() / 2,
        |i: int| (16 * hex_digit_value(text[2 * i]) + hex_digit_value(text[2 * i + 1])) as u8,
    )
}

/// What decoding `text` gives: the number that its 32 bytes stand for, least
/// significant byte first, reduced by the modulus; or the reason why not.
pub open spec fn decoded(text: Seq<char>) -> Result<nat, DecodeError> {
    if text.len() != 64 {
        Err(DecodeError::InvalidLength)
    } else if !is_hex32(text) {
        Err(DecodeError::InvalidDigit)
    } else {
        Ok(le_value(hex_bytes(text)) % modulus())
    }
}

/// `hex::FromHex::from_hex` at the type `[u8; 32]`. It succeeds exactly on
/// 64 hexadecimal digits, of either case, and then gives the bytes that
/// they spell, the first digit of each pair being the high half.
#[verifier::external_body]
fn hex_to_array(text: &str) -> (r: Result<[u8; 32], hex::FromHexError>)
    ensures
        r is Ok <==> is_hex32(text@),
        r matches Ok(bytes) ==> bytes@ == hex_bytes(text@),
{
    <[u8; 32] as hex::FromHex>::from_hex(text)
}

/// The field element that `text` spells.
pub fn decode(text: &str) -> (r: Result<Felt, DecodeError>)
    ensures
        match r {
            Ok(felt) => decoded(text@) == Ok::<nat, DecodeError>(felt@),
            Err(e) => decoded(text@) == Err::<nat, DecodeError>(e),
        },
{
    match hex_to_array(text) {
        Ok(bytes) => {
            let flipped = reversed(&bytes);
            Ok(Felt::from_bytes_be(&flipped))
        },
        Err(_) => {
            if text.unicode_len() == 64 {
                Err(DecodeError::InvalidDigit)
            } else {
                Err(DecodeError::InvalidLength)
            }
        },
    }
}

/// Byte-order symmetry: a text that spells a number below the modulus is
/// decoded to the element whose 32 bytes, least significant first, are the
/// bytes that the text spells.
pub proof fn lemma_decode_round_trip(text: Seq<char>, bytes: Seq<u8>)
    requires
        is_hex32(text),
        le_value(hex_bytes(text)) < modulus(),
        bytes.len() == 32,
        decoded(text) == Ok::<nat, DecodeError>(le_value(bytes)),
    ensures
        bytes == hex_bytes(text),
{
    let spelt = hex_bytes(text);
    vstd::arithmetic::div_mod::lemma_small_mod(le_value(spelt), modulus());
    lemma_be_value_injective(bytes.reverse(), spelt.reverse());
    assert(bytes.reverse().reverse() =~= bytes);
    assert(spelt.reverse().reverse() =~= spelt);
}

/// What decoding each of the texts gives: the numbers that they spell, in
/// their order, or the failure of the first text that spells none.
pub open spec fn decoded_list(items: Seq<Seq<char>>) -> Result<Seq<nat>, DecodeError>
    decreases items.len(),
{
    if items.len() == 0 {
        Ok(Seq::empty())
    } else {
        match decoded_list(items.drop_last()) {
            Err(e) => Err(e),
            Ok(front) => match decoded(items.last()) {
                Err(e) => Err(e),
                Ok(value) => Ok(front.push(value)),
            },
        }
    }
}

/// What a command's list of field elements is, or why there is none.
pub open spec fn felt_argument(argument: Option<Seq<char>>) -> Result<Seq<nat>, DecodeError> {
    match argument {
        None => Err(DecodeError::MissingValue),
        Some(text) => match json_string_list(text) {
            None => Err(DecodeError::MalformedList),
            Some(items) => decoded_list(items),
        },
    }
}

/// The field elements that the strings spell, in their order; or the
/// failure of the first string that spells none.
pub fn decode_all(items: &Vec<String>) -> (r: Result<Vec<Felt>, DecodeError>)
    ensures
        match r {
            Ok(felts) => decoded_list(texts(items@)) == Ok::<Seq<nat>, DecodeError>(
                values(felts@),
            ),
            Err(e) => decoded_list(texts(items@)) == Err::<Seq<nat>, DecodeError>(e),
        },
{
    let ghost listed = texts(items@);
    let mut out: Vec<Felt> = Vec::new();
    let mut k: usize = 0;
    assert(values(out@) =~= Seq::<nat>::empty());
    while k < items.len()
        invariant
            k <= items.len(),
            listed == texts(items@),
            decoded_list(listed.take(k as int)) == Ok::<Seq<nat>, DecodeError>(values(out@)),
        decreases items.len() - k,
    {
        let ghost before = values(out@);
        let ghost next = listed.take(k + 1);
        proof {
            assert(next.drop_last() =~= listed.take(k as int));
            assert(next.last() == items[k as int]@);
        }
        match decode(items[k].as_str()) {
            Ok(felt) => {
                out.push(felt);
                assert(values(out@) =~= before.push(felt@));
            },
            Err(e) => {
                proof {
                    lemma_failure_stays(listed, k + 1);
                }
                return Err(e);
            },
        }
        k += 1;
    }
    assert(listed.take(k as int) =~= listed);
    Ok(out)
}

/// Once the first `k` texts fail, the whole list fails in the same way.
proof fn lemma_failure_stays(items: Seq<Seq<char>>, k: int)
    requires
        0 <= k <= items.len(),
        decoded_list(items.take(k)) is Err,
    ensures
        decoded_list(items) == decoded_list(items.take(k)),
    decreases items.len() - k,
{
    if k == items.len() {
        assert(items.take(k) =~= items);
    } else {
        let longer = items.take(k + 1);
        assert(longer.drop_last() =~= items.take(k));
        lemma_failure_stays(items, k + 1);
    }
}

/// The field elements of a JSON list of strings, each string 64 hexadecimal
/// digits.
pub fn decode_felt_array(values: &Option<String>) -> (r: Result<Vec<Felt>, DecodeError>)
    ensures
        match r {
            Ok(felts) => felt_argument(text_of(*values)) == Ok::<Seq<nat>, DecodeError>(
                crate::polynomial::values(felts@),
            ),
            Err(e) => felt_argument(text_of(*values)) == Err::<Seq<nat>, DecodeError>(e),
        },
{
    match values {
        None => Err(DecodeError::MissingValue),
        Some(text) => match read_string_list(text.as_str()) {
            Err(_) => Err(DecodeError::MalformedList),
            Ok(items) => decode_all(&items),
        },
    }
}

} // verus!
