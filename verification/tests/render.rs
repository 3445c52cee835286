use stark_parser::command::Output;
use stark_parser::felt::Felt;
use stark_parser::render::{render_list, render_memory};

#[test]
fn to_raw_gives_decimal_digits() {
    assert_eq!(Felt::zero().to_raw(), vec![0]);
    assert_eq!(Felt::from_u64(7).to_raw(), vec![7]);
    assert_eq!(Felt::from_u64(10).to_raw(), vec![1, 0]);
    assert_eq!(Felt::from_u64(9005).to_raw(), vec![9, 0, 0, 5]);
}

#[test]
fn to_decimal_of_small_and_large_elements() {
    assert_eq!(Felt::zero().to_decimal(), "0");
    assert_eq!(Felt::from_u64(u64::MAX).to_decimal(), "18446744073709551615");
    assert_eq!(
        Felt::from_u128(u128::MAX).to_decimal(),
        "340282366920938463463374607431768211455"
    );
    assert_eq!(
        Felt::from_limbs(1, 0).to_decimal(),
        "340282366920938463463374607431768211456"
    );
    let top = Felt::zero().sub(&Felt::one());
    assert_eq!(
        top.to_decimal(),
        "3618502788666131213697322783095070105623107215331596699973092056135872020480"
    );
    assert_eq!(
        Felt::one().half().to_decimal(),
        "1809251394333065606848661391547535052811553607665798349986546028067936010241"
    );
    assert_eq!(
        Felt::from_u64(7).inverse().unwrap().to_decimal(),
        "3101573818856683897454848099795774376248377613141368599976936048116461731841"
    );
}

#[test]
fn render_list_separates_with_comma_and_space() {
    let felts = vec![Felt::from_u64(1), Felt::from_u64(20), Felt::from_u64(300)];
    assert_eq!(render_list(&felts), "1, 20, 300");
    assert_eq!(render_list(&vec![Felt::from_u64(5)]), "5");
    assert_eq!(render_list(&Vec::new()), "");
}

#[test]
fn render_memory_puts_brackets_round_the_list() {
    let felts = vec![Felt::from_u64(2), Felt::zero(), Felt::from_u64(11)];
    assert_eq!(render_memory(&felts), "[2, 0, 11]");
    assert_eq!(render_memory(&Vec::new()), "[]");
}

#[test]
fn output_to_text_depends_on_the_kind() {
    let felts = vec![Felt::from_u64(1), Felt::from_u64(1), Felt::from_u64(1)];
    assert_eq!(Output::Memory(felts.clone()).to_text(), "[1, 1, 1]");
    assert_eq!(Output::Polynomial(felts).to_text(), "1, 1, 1");
}

#[test]
fn from_raw_reads_decimal_digits() {
    assert_eq!(Felt::from_raw(&vec![0]), Some(Felt::zero()));
    assert_eq!(Felt::from_raw(&vec![1, 2, 3]), Some(Felt::from_u64(123)));
    assert_eq!(Felt::from_raw(&vec![0, 0, 7]), Some(Felt::from_u64(7)));
    assert_eq!(Felt::from_raw(&Vec::new()), Some(Felt::zero()));
    assert_eq!(Felt::from_raw(&vec![1, 10]), None);
    assert_eq!(Felt::from_raw(&vec![255]), None);
}

#[test]
fn from_raw_reduces_by_the_modulus() {
    let digits = |text: &str| -> Vec<u8> { text.bytes().map(|b| b - b'0').collect() };
    let modulus = "3618502788666131213697322783095070105623107215331596699973092056135872020481";
    assert_eq!(Felt::from_raw(&digits(modulus)), Some(Felt::zero()));
    let above = "3618502788666131213697322783095070105623107215331596699973092056135872020490";
    assert_eq!(Felt::from_raw(&digits(above)), Some(Felt::from_u64(9)));
}

#[test]
fn raw_digits_round_trip() {
    let top = Felt::zero().sub(&Felt::one());
    for felt in [Felt::zero(), Felt::from_u64(90210), Felt::from_limbs(5, 6), top] {
        assert_eq!(Felt::from_raw(&felt.to_raw()), Some(felt));
    }
}
