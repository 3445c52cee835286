use stark_parser::air::{power_of_two, Air, AirError, ProofOptions, TraceInfo};
use stark_parser::felt::Felt;
use stark_parser::stark::PublicInputs;

fn options() -> ProofOptions {
    ProofOptions {
        num_queries: 27,
        blowup_factor: 8,
        grinding_factor: 16,
        folding_factor: 4,
        max_remainder_size: 32,
    }
}

fn inputs(count: u64) -> PublicInputs {
    PublicInputs { elements: (0..count).map(Felt::from_u64).collect() }
}

fn defect(trace: TraceInfo, count: u64, options: ProofOptions) -> Option<AirError> {
    Air::new(trace, inputs(count), options).err()
}

#[test]
fn power_of_two_tells_powers_from_the_rest() {
    for n in [1usize, 2, 4, 8, 1024, 1 << 40] {
        assert!(power_of_two(n));
    }
    for n in [0usize, 3, 6, 12, 1023, (1 << 40) + 1] {
        assert!(!power_of_two(n));
    }
}

#[test]
fn air_keeps_what_it_was_built_from() {
    let trace = TraceInfo { width: 34, length: 64 };
    let air = Air::new(trace, inputs(3), options()).unwrap();
    assert_eq!(air.trace_info(), trace);
    assert_eq!(air.options(), options());
    assert_eq!(air.public_inputs(), &inputs(3));
    assert_eq!(air.lde_domain_size(), 512);
}

#[test]
fn air_counts_the_folding_rounds() {
    // 512 -> 128 -> 32
    let air = Air::new(TraceInfo { width: 1, length: 64 }, inputs(0), options()).unwrap();
    assert_eq!(air.fri_layer_count(), 2);
    // 64 -> 16
    let air = Air::new(TraceInfo { width: 1, length: 8 }, inputs(0), options()).unwrap();
    assert_eq!(air.fri_layer_count(), 1);
    // 16 is within the remainder at once
    let small = ProofOptions { blowup_factor: 2, ..options() };
    let air = Air::new(TraceInfo { width: 1, length: 8 }, inputs(0), small).unwrap();
    assert_eq!(air.lde_domain_size(), 16);
    assert_eq!(air.fri_layer_count(), 0);
    // 2^20 * 8 = 2^23, folded by 16 down to 1024: 2^19, 2^15, 2^11, 2^7
    let wide = ProofOptions { folding_factor: 16, max_remainder_size: 1024, ..options() };
    let air = Air::new(TraceInfo { width: 1, length: 1 << 20 }, inputs(0), wide).unwrap();
    assert_eq!(air.fri_layer_count(), 4);
}

#[test]
fn air_rejects_a_bad_trace_width() {
    assert_eq!(defect(TraceInfo { width: 0, length: 8 }, 0, options()), Some(AirError::TraceWidth));
    assert_eq!(defect(TraceInfo { width: 256, length: 8 }, 0, options()), Some(AirError::TraceWidth));
    assert_eq!(defect(TraceInfo { width: 255, length: 8 }, 0, options()), None);
}

#[test]
fn air_rejects_a_bad_trace_length() {
    assert_eq!(defect(TraceInfo { width: 1, length: 4 }, 0, options()), Some(AirError::TraceLength));
    assert_eq!(defect(TraceInfo { width: 1, length: 12 }, 0, options()), Some(AirError::TraceLength));
    assert_eq!(defect(TraceInfo { width: 1, length: 0 }, 0, options()), Some(AirError::TraceLength));
    assert_eq!(defect(TraceInfo { width: 1, length: 8 }, 0, options()), None);
}

#[test]
fn air_rejects_bad_options() {
    let trace = TraceInfo { width: 1, length: 8 };
    assert_eq!(defect(trace, 0, ProofOptions { num_queries: 0, ..options() }), Some(AirError::QueryCount));
    assert_eq!(defect(trace, 0, ProofOptions { num_queries: 129, ..options() }), Some(AirError::QueryCount));
    assert_eq!(defect(trace, 0, ProofOptions { blowup_factor: 1, ..options() }), Some(AirError::BlowupFactor));
    assert_eq!(defect(trace, 0, ProofOptions { blowup_factor: 24, ..options() }), Some(AirError::BlowupFactor));
    assert_eq!(defect(trace, 0, ProofOptions { blowup_factor: 256, ..options() }), Some(AirError::BlowupFactor));
    assert_eq!(defect(trace, 0, ProofOptions { grinding_factor: 33, ..options() }), Some(AirError::GrindingFactor));
    assert_eq!(defect(trace, 0, ProofOptions { folding_factor: 2, ..options() }), Some(AirError::FoldingFactor));
    assert_eq!(defect(trace, 0, ProofOptions { folding_factor: 12, ..options() }), Some(AirError::FoldingFactor));
    assert_eq!(defect(trace, 0, ProofOptions { folding_factor: 32, ..options() }), Some(AirError::FoldingFactor));
    assert_eq!(defect(trace, 0, ProofOptions { max_remainder_size: 16, ..options() }), Some(AirError::RemainderSize));
    assert_eq!(defect(trace, 0, ProofOptions { max_remainder_size: 48, ..options() }), Some(AirError::RemainderSize));
    assert_eq!(defect(trace, 0, ProofOptions { max_remainder_size: 2048, ..options() }), Some(AirError::RemainderSize));
}

#[test]
fn air_rejects_more_inputs_than_rows() {
    let trace = TraceInfo { width: 1, length: 8 };
    assert_eq!(defect(trace, 8, options()), None);
    assert_eq!(defect(trace, 9, options()), Some(AirError::PublicInputs));
}

#[test]
fn air_tells_the_first_defect() {
    let bad = ProofOptions { num_queries: 0, folding_factor: 3, ..options() };
    assert_eq!(defect(TraceInfo { width: 0, length: 5 }, 100, bad), Some(AirError::TraceWidth));
    assert_eq!(defect(TraceInfo { width: 1, length: 5 }, 100, bad), Some(AirError::TraceLength));
    assert_eq!(defect(TraceInfo { width: 1, length: 8 }, 100, bad), Some(AirError::QueryCount));
}
