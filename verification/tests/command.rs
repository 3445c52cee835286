use stark_parser::air::{AirError, ProofOptions, TraceInfo};
use stark_parser::channel::ChannelError;
use stark_parser::codec::DecodeError;
use stark_parser::command::{
    rebuild_air, run, run_fri_queries, run_interpolation, run_proof, run_public_inputs,
    run_queries, Command, Output, ParserError, QueryKind,
};
use stark_parser::encoder::EncodeError;
use stark_parser::felt::Felt;
use stark_parser::indices::IndexListError;
use stark_parser::polynomial::InterpolationError;
use stark_parser::stark::{Digest, FriLayer, FriProof, PublicInputs, Query, StarkProof};

fn cells(values: &[u64]) -> Vec<Felt> {
    values.iter().map(|v| Felt::from_u64(*v)).collect()
}

fn plain_query(values: &[u64]) -> Query {
    Query { evaluations: cells(values), path: Vec::new() }
}

fn loaded_proof() -> StarkProof {
    StarkProof {
        trace_info: TraceInfo { width: 2, length: 8 },
        options: ProofOptions {
            num_queries: 2,
            blowup_factor: 8,
            grinding_factor: 0,
            folding_factor: 4,
            max_remainder_size: 32,
        },
        trace_commitment: Digest { words: [1; 8] },
        constraint_commitment: Digest { words: [2; 8] },
        fri_commitments: vec![Digest { words: [3; 8] }, Digest { words: [4; 8] }],
        trace_queries: vec![plain_query(&[10, 11]), plain_query(&[20, 21])],
        constraint_queries: vec![plain_query(&[30]), plain_query(&[40])],
        fri_proof: FriProof {
            layers: vec![FriLayer { queries: vec![plain_query(&[50]), plain_query(&[60])] }],
            remainder: cells(&[70]),
        },
        pow_nonce: 5,
    }
}

fn loaded_inputs() -> PublicInputs {
    PublicInputs { elements: cells(&[100, 200]) }
}

fn some(text: &str) -> Option<String> {
    Some(text.to_string())
}

fn hex_of(value: u8) -> String {
    format!("\"{:02x}{}\"", value, "00".repeat(31))
}

#[test]
fn command_public_inputs() {
    assert_eq!(
        run(&Command::PublicInputs, loaded_proof(), loaded_inputs()),
        Ok(Output::Memory(cells(&[2, 100, 200])))
    );
    assert_eq!(
        run_public_inputs(loaded_inputs()),
        Ok(Output::Memory(cells(&[2, 100, 200])))
    );
}

#[test]
fn command_public_inputs_as_text() {
    let output = run(&Command::PublicInputs, loaded_proof(), loaded_inputs()).unwrap();
    assert_eq!(output.to_text(), "[2, 100, 200]");
}

#[test]
fn command_proof() {
    let mut expected: Vec<u64> = vec![8, 2, 64, 2];
    expected.extend([1; 8]);
    expected.extend([2; 8]);
    expected.push(2);
    expected.extend([3; 8]);
    expected.extend([4; 8]);
    expected.extend([2, 2, 10, 11, 0, 2, 20, 21, 0]);
    expected.extend([2, 1, 30, 0, 1, 40, 0]);
    expected.extend([1, 2, 1, 50, 0, 1, 60, 0, 1, 70]);
    expected.push(5);
    assert_eq!(
        run(&Command::Proof, loaded_proof(), loaded_inputs()),
        Ok(Output::Memory(cells(&expected)))
    );
    assert_eq!(
        run_proof(loaded_proof(), loaded_inputs()),
        Ok(Output::Memory(cells(&expected)))
    );
}

#[test]
fn command_proof_rejects_a_wrong_number_of_rounds() {
    let mut proof = loaded_proof();
    proof.fri_proof.layers.clear();
    assert_eq!(
        run(&Command::Proof, proof, loaded_inputs()),
        Err(ParserError::Encode(EncodeError::EncodingInvariant))
    );
}

#[test]
fn command_trace_queries() {
    let command = Command::TraceQueries { indexes: some("[1, 0, 1]") };
    assert_eq!(
        run(&command, loaded_proof(), loaded_inputs()),
        Ok(Output::Memory(cells(&[3, 2, 20, 21, 0, 2, 10, 11, 0, 2, 20, 21, 0])))
    );
}

#[test]
fn command_constraint_queries() {
    let command = Command::ConstraintQueries { indexes: some("[1]") };
    assert_eq!(
        run(&command, loaded_proof(), loaded_inputs()),
        Ok(Output::Memory(cells(&[1, 1, 40, 0])))
    );
    assert_eq!(
        run_queries(QueryKind::Constraint, loaded_proof(), loaded_inputs(), &some("[0]")),
        Ok(Output::Memory(cells(&[1, 1, 30, 0])))
    );
}

#[test]
fn command_queries_need_an_index_list() {
    assert_eq!(
        run(&Command::TraceQueries { indexes: None }, loaded_proof(), loaded_inputs()),
        Err(ParserError::Indices(IndexListError::Missing))
    );
    assert_eq!(
        run(&Command::ConstraintQueries { indexes: some("1") }, loaded_proof(), loaded_inputs()),
        Err(ParserError::Indices(IndexListError::Malformed))
    );
    assert_eq!(
        run(&Command::FriQueries { indexes: None }, loaded_proof(), loaded_inputs()),
        Err(ParserError::Indices(IndexListError::Missing))
    );
}

#[test]
fn command_queries_reject_an_index_out_of_range() {
    assert_eq!(
        run(&Command::TraceQueries { indexes: some("[0, 2]") }, loaded_proof(), loaded_inputs()),
        Err(ParserError::Encode(EncodeError::IndexOutOfRange { position: 1, index: 2 }))
    );
    assert_eq!(
        run(&Command::FriQueries { indexes: some("[7]") }, loaded_proof(), loaded_inputs()),
        Err(ParserError::Encode(EncodeError::IndexOutOfRange { position: 0, index: 7 }))
    );
}

#[test]
fn command_queries_reject_a_proof_that_does_not_fit() {
    let mut proof = loaded_proof();
    proof.trace_queries[0] = plain_query(&[1, 2, 3]);
    assert_eq!(
        run(&Command::TraceQueries { indexes: some("[0]") }, proof, loaded_inputs()),
        Err(ParserError::Channel(ChannelError::QueryWidth))
    );
    let mut proof = loaded_proof();
    proof.fri_proof.layers.clear();
    assert_eq!(
        run(&Command::ConstraintQueries { indexes: some("[0]") }, proof, loaded_inputs()),
        Err(ParserError::Channel(ChannelError::LayerCount))
    );
}

#[test]
fn command_fri_queries() {
    let command = Command::FriQueries { indexes: some("[1, 1]") };
    assert_eq!(
        run(&command, loaded_proof(), loaded_inputs()),
        Ok(Output::Memory(cells(&[1, 2, 1, 60, 0, 1, 60, 0])))
    );
    assert_eq!(
        run_fri_queries(loaded_proof(), loaded_inputs(), &some("[]")),
        Ok(Output::Memory(cells(&[1, 0])))
    );
}

#[test]
fn command_fails_where_no_description_can_be_built() {
    let mut proof = loaded_proof();
    proof.trace_info.length = 9;
    for command in [
        Command::Proof,
        Command::TraceQueries { indexes: some("[0]") },
        Command::ConstraintQueries { indexes: None },
        Command::FriQueries { indexes: some("[0]") },
    ] {
        assert_eq!(
            run(&command, proof.clone(), loaded_inputs()),
            Err(ParserError::Air(AirError::TraceLength))
        );
    }
    // the public inputs need no description
    assert_eq!(
        run(&Command::PublicInputs, proof.clone(), loaded_inputs()),
        Ok(Output::Memory(cells(&[2, 100, 200])))
    );
    assert_eq!(
        rebuild_air(&proof, loaded_inputs()).err(),
        Some(ParserError::Air(AirError::TraceLength))
    );
}

#[test]
fn command_interpolate_poly() {
    let xs = format!("[{}, {}, {}]", hex_of(0), hex_of(1), hex_of(2));
    let ys = format!("[{}, {}, {}]", hex_of(1), hex_of(3), hex_of(7));
    let command = Command::InterpolatePoly { x_values: Some(xs), y_values: Some(ys) };
    let output = run(&command, loaded_proof(), loaded_inputs()).unwrap();
    assert_eq!(output, Output::Polynomial(cells(&[1, 1, 1])));
    assert_eq!(output.to_text(), "1, 1, 1");
}

#[test]
fn command_interpolate_poly_failures() {
    let one = format!("[{}]", hex_of(1));
    let two = format!("[{}, {}]", hex_of(1), hex_of(2));
    let twice = format!("[{}, {}]", hex_of(4), hex_of(4));
    assert_eq!(
        run_interpolation(&None, &Some(one.clone())),
        Err(ParserError::Decode(DecodeError::MissingValue))
    );
    assert_eq!(
        run_interpolation(&Some(one.clone()), &None),
        Err(ParserError::Decode(DecodeError::MissingValue))
    );
    assert_eq!(
        run_interpolation(&Some(one.clone()), &some("[\"01\"]")),
        Err(ParserError::Decode(DecodeError::InvalidLength))
    );
    assert_eq!(
        run_interpolation(&some("{"), &Some(one.clone())),
        Err(ParserError::Decode(DecodeError::MalformedList))
    );
    assert_eq!(
        run_interpolation(&Some(one), &Some(two.clone())),
        Err(ParserError::Interpolation(InterpolationError::LengthMismatch))
    );
    assert_eq!(
        run_interpolation(&Some(twice), &Some(two)),
        Err(ParserError::Interpolation(InterpolationError::DuplicateXValue))
    );
}
