use stark_parser::codec::{decode, decode_all, decode_felt_array, DecodeError};
use stark_parser::felt::Felt;

const ONE: &str = "0100000000000000000000000000000000000000000000000000000000000000";
const TOP: &str = "0000000000000000000000000000000000000000000000001100000000000008";
const MODULUS_PLUS_FIVE: &str = "0600000000000000000000000000000000000000000000001100000000000008";
const MIXED: &str = "ffeeddccbbaa9988776655443322110021436587a9cbed0fefcdab8967452301";

#[test]
fn decode_reads_the_first_byte_as_lowest() {
    assert_eq!(decode(ONE), Ok(Felt::one()));
    let two_five_six = "0001000000000000000000000000000000000000000000000000000000000000";
    assert_eq!(decode(two_five_six), Ok(Felt::from_u64(256)));
    let sixteen = "1000000000000000000000000000000000000000000000000000000000000000";
    assert_eq!(decode(sixteen), Ok(Felt::from_u64(16)));
}

#[test]
fn decode_gives_the_largest_element() {
    let top = decode(TOP).unwrap();
    assert_eq!(top.add(&Felt::one()), Felt::zero());
}

#[test]
fn decode_reduces_by_the_modulus() {
    assert_eq!(decode(MODULUS_PLUS_FIVE), Ok(Felt::from_u64(5)));
}

#[test]
fn decode_takes_either_case() {
    let lower = decode(MIXED).unwrap();
    let upper = decode(&MIXED.to_uppercase()).unwrap();
    assert_eq!(lower, upper);
    assert_eq!(
        lower.limbs(),
        (
            0x0123_4567_89ab_cdef_0fed_cba9_8765_4321,
            0x0011_2233_4455_6677_8899_aabb_ccdd_eeff
        )
    );
}

#[test]
fn decode_round_trips_to_the_bytes_of_the_text() {
    let felt = decode(MIXED).unwrap();
    let bytes = felt.to_bytes_le();
    assert_eq!(bytes[0], 0xff);
    assert_eq!(bytes[1], 0xee);
    assert_eq!(bytes[31], 0x01);
    let spelt: String = bytes.iter().map(|b| format!("{:02x}", b)).collect();
    assert_eq!(spelt, MIXED);
}

#[test]
fn decode_rejects_a_wrong_length() {
    assert_eq!(decode(""), Err(DecodeError::InvalidLength));
    assert_eq!(decode("01"), Err(DecodeError::InvalidLength));
    assert_eq!(decode(&ONE[..63]), Err(DecodeError::InvalidLength));
    let longer = format!("{}00", ONE);
    assert_eq!(decode(&longer), Err(DecodeError::InvalidLength));
    // a wrong length is told before a wrong digit
    assert_eq!(decode("xyz"), Err(DecodeError::InvalidLength));
}

#[test]
fn decode_rejects_a_wrong_digit() {
    let bad = format!("g{}", &ONE[1..]);
    assert_eq!(decode(&bad), Err(DecodeError::InvalidDigit));
    let bad = format!("{} ", &ONE[..63]);
    assert_eq!(decode(&bad), Err(DecodeError::InvalidDigit));
    // 64 characters, the last of them outside ASCII
    let bad = format!("{}\u{e9}", &ONE[..63]);
    assert_eq!(bad.chars().count(), 64);
    assert_eq!(decode(&bad), Err(DecodeError::InvalidDigit));
}

#[test]
fn decode_all_keeps_the_order() {
    let items = vec![ONE.to_string(), MODULUS_PLUS_FIVE.to_string(), ONE.to_string()];
    assert_eq!(
        decode_all(&items),
        Ok(vec![Felt::one(), Felt::from_u64(5), Felt::one()])
    );
    assert_eq!(decode_all(&Vec::new()), Ok(Vec::new()));
}

#[test]
fn decode_all_fails_as_the_first_bad_item() {
    let items = vec![ONE.to_string(), "12".to_string(), format!("z{}", &ONE[1..])];
    assert_eq!(decode_all(&items), Err(DecodeError::InvalidLength));
    let items = vec![format!("z{}", &ONE[1..]), "12".to_string()];
    assert_eq!(decode_all(&items), Err(DecodeError::InvalidDigit));
}

#[test]
fn decode_felt_array_reads_a_json_list() {
    let text = format!("[\"{}\", \"{}\"]", ONE, MODULUS_PLUS_FIVE);
    assert_eq!(
        decode_felt_array(&Some(text)),
        Ok(vec![Felt::one(), Felt::from_u64(5)])
    );
    assert_eq!(decode_felt_array(&Some("[]".to_string())), Ok(Vec::new()));
}

#[test]
fn decode_felt_array_needs_a_text() {
    assert_eq!(decode_felt_array(&None), Err(DecodeError::MissingValue));
}

#[test]
fn decode_felt_array_rejects_what_is_no_list_of_strings() {
    for text in ["", "[", "{}", "[1, 2]", "\"00\"", "[\"00\",]"] {
        assert_eq!(
            decode_felt_array(&Some(text.to_string())),
            Err(DecodeError::MalformedList)
        );
    }
}

#[test]
fn decode_felt_array_rejects_a_bad_item() {
    let text = format!("[\"{}\", \"0102\"]", ONE);
    assert_eq!(decode_felt_array(&Some(text)), Err(DecodeError::InvalidLength));
    let text = format!("[\"{}\", \"{}q\"]", ONE, &ONE[..63]);
    assert_eq!(decode_felt_array(&Some(text)), Err(DecodeError::InvalidDigit));
}
