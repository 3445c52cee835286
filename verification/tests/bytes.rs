use stark_parser::bytes::reversed;
use stark_parser::felt::Felt;

fn counting() -> [u8; 32] {
    let mut bytes = [0u8; 32];
    for (i, b) in bytes.iter_mut().enumerate() {
        *b = i as u8 + 1;
    }
    bytes
}

#[test]
fn reversed_turns_the_bytes_round() {
    let bytes = counting();
    let flipped = reversed(&bytes);
    assert_eq!(flipped[0], 32);
    assert_eq!(flipped[31], 1);
    assert_eq!(flipped[10], 22);
    assert_eq!(reversed(&flipped), bytes);
}

#[test]
fn from_bytes_be_reads_the_last_byte_as_lowest() {
    let mut bytes = [0u8; 32];
    bytes[31] = 7;
    assert_eq!(Felt::from_bytes_be(&bytes), Felt::from_u64(7));
    bytes[30] = 1;
    assert_eq!(Felt::from_bytes_be(&bytes), Felt::from_u64(263));
    let mut high = [0u8; 32];
    high[15] = 1;
    assert_eq!(Felt::from_bytes_be(&high).limbs(), (1, 0));
}

#[test]
fn from_bytes_le_reads_the_first_byte_as_lowest() {
    let mut bytes = [0u8; 32];
    bytes[0] = 7;
    assert_eq!(Felt::from_bytes_le(&bytes), Felt::from_u64(7));
    bytes[1] = 1;
    assert_eq!(Felt::from_bytes_le(&bytes), Felt::from_u64(263));
}

#[test]
fn from_bytes_reduces_by_the_modulus() {
    // the modulus itself, most significant byte first
    let mut modulus = [0u8; 32];
    modulus[0] = 0x08;
    modulus[7] = 0x11;
    modulus[31] = 0x01;
    assert_eq!(Felt::from_bytes_be(&modulus), Felt::zero());
    modulus[31] = 0x06;
    assert_eq!(Felt::from_bytes_be(&modulus), Felt::from_u64(5));
    let all = [0xffu8; 32];
    assert_eq!(
        Felt::from_bytes_be(&all).limbs(),
        (
            0x07ff_ffff_ffff_fdf0_ffff_ffff_ffff_ffff,
            0xffff_ffff_ffff_ffff_ffff_ffff_ffff_ffe0
        )
    );
}

#[test]
fn to_bytes_be_writes_both_limbs() {
    let felt = Felt::from_limbs(0x0102_0304_0506_0708_090a_0b0c_0d0e_0f10, 0x1112_1314_1516_1718_191a_1b1c_1d1e_1f20);
    let bytes = felt.to_bytes_be();
    assert_eq!(bytes, counting());
    assert_eq!(Felt::zero().to_bytes_be(), [0u8; 32]);
}

#[test]
fn to_bytes_le_is_the_reverse_of_to_bytes_be() {
    let felt = Felt::from_u64(0x0102);
    let le = felt.to_bytes_le();
    assert_eq!(le[0], 2);
    assert_eq!(le[1], 1);
    assert_eq!(le[2], 0);
    assert_eq!(reversed(&le), felt.to_bytes_be());
}

#[test]
fn bytes_round_trip_below_the_modulus() {
    let bytes = counting();
    // 0x0102.. is below the modulus, so nothing is reduced away
    let felt = Felt::from_bytes_be(&bytes);
    assert_eq!(felt.to_bytes_be(), bytes);
    let mut low_first = reversed(&bytes);
    low_first[31] = 0x07;
    let felt = Felt::from_bytes_le(&low_first);
    assert_eq!(felt.to_bytes_le(), low_first);
}
