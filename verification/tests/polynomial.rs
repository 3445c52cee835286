use stark_parser::felt::Felt;
use stark_parser::polynomial::{evaluate, interpolate, InterpolationError};

fn felts(values: &[u64]) -> Vec<Felt> {
    values.iter().map(|v| Felt::from_u64(*v)).collect()
}

fn from_decimal(text: &str) -> Felt {
    let ten = Felt::from_u64(10);
    let mut acc = Felt::zero();
    for c in text.chars() {
        acc = acc.mul(&ten).add(&Felt::from_u64(c.to_digit(10).unwrap() as u64));
    }
    acc
}

#[test]
fn evaluate_takes_the_constant_term_first() {
    let coeffs = felts(&[1, 2, 3]);
    assert_eq!(evaluate(&coeffs, &Felt::zero()), Felt::from_u64(1));
    assert_eq!(evaluate(&coeffs, &Felt::one()), Felt::from_u64(6));
    assert_eq!(evaluate(&coeffs, &Felt::from_u64(10)), Felt::from_u64(321));
    assert_eq!(evaluate(&Vec::new(), &Felt::from_u64(10)), Felt::zero());
}

#[test]
fn interpolate_recovers_a_quadratic() {
    // x^2 + x + 1 at 0, 1, 2
    let coeffs = interpolate(&felts(&[0, 1, 2]), &felts(&[1, 3, 7])).unwrap();
    assert_eq!(coeffs, felts(&[1, 1, 1]));
}

#[test]
fn interpolate_two_points() {
    let xs = felts(&[5, 9]);
    let ys = felts(&[100, 200]);
    let coeffs = interpolate(&xs, &ys).unwrap();
    assert_eq!(coeffs.len(), 2);
    assert_eq!(
        coeffs[0],
        from_decimal(
            "3618502788666131213697322783095070105623107215331596699973092056135872020456"
        )
    );
    assert_eq!(coeffs[1], Felt::from_u64(25));
    assert_eq!(evaluate(&coeffs, &xs[0]), ys[0]);
    assert_eq!(evaluate(&coeffs, &xs[1]), ys[1]);
}

#[test]
fn interpolate_four_points() {
    let top = Felt::zero().sub(&Felt::one());
    let xs = vec![Felt::from_u64(3), top, Felt::from_u64(10), Felt::from_u64(77)];
    let ys = felts(&[1, 2, 3, 4]);
    let coeffs = interpolate(&xs, &ys).unwrap();
    let expected = vec![
        from_decimal("360003244675606888755299629915864601922428010958417845883536364073157280098"),
        from_decimal("1175201721321805528083561619514636462944928458809592603569206136526408455560"),
        from_decimal("3016314449373878336980282189113439413817443863552345563895811957943949988966"),
        from_decimal("2201115972727679697652020199514667552794943415701170806210142185490698813502"),
    ];
    assert_eq!(coeffs, expected);
    for i in 0..4 {
        assert_eq!(evaluate(&coeffs, &xs[i]), ys[i]);
    }
}

#[test]
fn interpolate_one_point_is_a_constant() {
    assert_eq!(interpolate(&felts(&[4]), &felts(&[9])), Ok(felts(&[9])));
}

#[test]
fn interpolate_no_points_is_empty() {
    assert_eq!(interpolate(&Vec::new(), &Vec::new()), Ok(Vec::new()));
}

#[test]
fn interpolate_keeps_a_zero_leading_coefficient() {
    // three points on a line still give three coefficients
    assert_eq!(
        interpolate(&felts(&[0, 1, 2]), &felts(&[1, 2, 3])),
        Ok(felts(&[1, 1, 0]))
    );
}

#[test]
fn interpolate_rejects_equal_points() {
    assert_eq!(
        interpolate(&felts(&[1, 2, 1]), &felts(&[1, 2, 1])),
        Err(InterpolationError::DuplicateXValue)
    );
    assert_eq!(
        interpolate(&felts(&[7, 7]), &felts(&[1, 2])),
        Err(InterpolationError::DuplicateXValue)
    );
    assert_eq!(
        interpolate(&felts(&[0, 5, 6, 0]), &felts(&[1, 2, 3, 4])),
        Err(InterpolationError::DuplicateXValue)
    );
}

#[test]
fn interpolate_rejects_lists_of_different_lengths() {
    assert_eq!(
        interpolate(&felts(&[1, 2]), &felts(&[1])),
        Err(InterpolationError::LengthMismatch)
    );
    assert_eq!(
        interpolate(&Vec::new(), &felts(&[1])),
        Err(InterpolationError::LengthMismatch)
    );
    // the lengths are looked at before the points
    assert_eq!(
        interpolate(&felts(&[1, 1]), &felts(&[1, 2, 3])),
        Err(InterpolationError::LengthMismatch)
    );
}
