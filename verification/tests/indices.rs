use stark_parser::indices::{indices_from_numbers, parse_indices, required_indices, IndexListError};

#[test]
fn parse_indices_keeps_order_and_repetitions() {
    assert_eq!(parse_indices("[3, 1, 3, 0]"), Ok(vec![3, 1, 3, 0]));
    assert_eq!(parse_indices("[]"), Ok(Vec::new()));
    assert_eq!(parse_indices(" [ 7 ] "), Ok(vec![7]));
}

#[test]
fn parse_indices_rejects_what_is_no_list_of_indices() {
    for text in ["", "[1, 2", "1, 2", "[-1]", "[1.5]", "[\"1\"]", "{\"a\": 1}", "[1,]", "null"] {
        assert_eq!(parse_indices(text), Err(IndexListError::Malformed));
    }
    // one more than the largest 64-bit number
    assert_eq!(
        parse_indices("[18446744073709551616]"),
        Err(IndexListError::Malformed)
    );
}

#[test]
fn parse_indices_takes_large_numbers() {
    assert_eq!(
        parse_indices("[18446744073709551615]"),
        Ok(vec![18446744073709551615usize])
    );
}

#[test]
fn indices_from_numbers_copies_the_numbers() {
    assert_eq!(indices_from_numbers(&vec![5, 5, 2]), Some(vec![5, 5, 2]));
    assert_eq!(indices_from_numbers(&Vec::new()), Some(Vec::new()));
}

#[test]
fn required_indices_needs_a_text() {
    assert_eq!(required_indices(&None), Err(IndexListError::Missing));
    assert_eq!(required_indices(&Some("[2, 2]".to_string())), Ok(vec![2, 2]));
    assert_eq!(
        required_indices(&Some("two".to_string())),
        Err(IndexListError::Malformed)
    );
}
