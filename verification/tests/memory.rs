use stark_parser::air::{Air, ProofOptions, TraceInfo};
use stark_parser::encoder::{
    encode, encode_fri_queries, encode_proof, encode_public_inputs, encode_queries, find_offence,
    Artifact, EncodeError,
};
use stark_parser::felt::Felt;
use stark_parser::memory::Memory;
use stark_parser::stark::{Digest, FriLayer, FriProof, PublicInputs, Query, StarkProof};

fn felts(values: &[u64]) -> Vec<Felt> {
    values.iter().map(|v| Felt::from_u64(*v)).collect()
}

fn digest(first: u32) -> Digest {
    let mut words = [0u32; 8];
    for (i, w) in words.iter_mut().enumerate() {
        *w = first + i as u32;
    }
    Digest { words }
}

fn query(evaluations: &[u64], path: &[u32]) -> Query {
    Query {
        evaluations: felts(evaluations),
        path: path.iter().map(|p| digest(*p)).collect(),
    }
}

fn three_queries() -> Vec<Query> {
    vec![query(&[5, 6], &[10]), query(&[7], &[]), query(&[], &[20, 30])]
}

fn options() -> ProofOptions {
    ProofOptions {
        num_queries: 3,
        blowup_factor: 8,
        grinding_factor: 0,
        folding_factor: 4,
        max_remainder_size: 32,
    }
}

fn small_air() -> Air {
    // a domain of 64 points: one folding round
    Air::new(TraceInfo { width: 2, length: 8 }, PublicInputs { elements: Vec::new() }, options())
        .unwrap()
}

fn one_layer_fri() -> FriProof {
    FriProof { layers: vec![FriLayer { queries: three_queries() }], remainder: felts(&[9, 8]) }
}

#[test]
fn memory_writes_cells_in_order() {
    let mut memory = Memory::new();
    assert_eq!(memory.len(), 0);
    memory.write_felt(Felt::from_u64(4));
    memory.write_count(2);
    memory.write_number(1 << 70);
    assert_eq!(memory.len(), 3);
    assert_eq!(
        memory.into_cells(),
        vec![Felt::from_u64(4), Felt::from_u64(2), Felt::from_u128(1 << 70)]
    );
}

#[test]
fn memory_writes_a_digest_word_by_word() {
    let mut memory = Memory::new();
    memory.write_digest(&Digest { words: [1, 2, 3, 4, 5, 6, 7, u32::MAX] });
    assert_eq!(memory.into_cells(), felts(&[1, 2, 3, 4, 5, 6, 7, 4294967295]));
}

#[test]
fn memory_writes_lists_with_their_length() {
    let mut memory = Memory::new();
    memory.write_list(&felts(&[40, 50]));
    memory.write_list(&Vec::new());
    memory.write_digests(&vec![digest(1)]);
    assert_eq!(
        memory.into_cells(),
        felts(&[2, 40, 50, 0, 1, 1, 2, 3, 4, 5, 6, 7, 8])
    );
}

#[test]
fn memory_writes_a_query_as_two_lists() {
    let mut memory = Memory::new();
    memory.write_query(&query(&[5, 6], &[10]));
    assert_eq!(
        memory.into_cells(),
        felts(&[2, 5, 6, 1, 10, 11, 12, 13, 14, 15, 16, 17])
    );
}

#[test]
fn memory_writes_all_queries() {
    let mut memory = Memory::new();
    memory.write_queries(&three_queries());
    let mut expected = vec![3, 2, 5, 6, 1, 10, 11, 12, 13, 14, 15, 16, 17, 1, 7, 0, 0, 2];
    expected.extend(20..28);
    expected.extend(30..38);
    assert_eq!(memory.into_cells(), felts(&expected));
}

#[test]
fn public_inputs_are_a_list() {
    let inputs = PublicInputs { elements: felts(&[11, 22, 33]) };
    assert_eq!(encode_public_inputs(&inputs), felts(&[3, 11, 22, 33]));
    assert_eq!(encode_public_inputs(&PublicInputs { elements: Vec::new() }), felts(&[0]));
}

#[test]
fn selected_queries_follow_the_request() {
    let cells = encode_queries(&three_queries(), &vec![1, 0]).unwrap();
    assert_eq!(
        cells,
        felts(&[2, 1, 7, 0, 2, 5, 6, 1, 10, 11, 12, 13, 14, 15, 16, 17])
    );
    assert_eq!(encode_queries(&three_queries(), &Vec::new()), Ok(felts(&[0])));
}

#[test]
fn selected_queries_repeat_what_is_asked_twice() {
    let cells = encode_queries(&three_queries(), &vec![1, 2, 1]).unwrap();
    let mut expected = vec![3, 1, 7, 0, 0, 2];
    expected.extend(20..28);
    expected.extend(30..38);
    expected.extend([1, 7, 0]);
    assert_eq!(cells, felts(&expected));
    // the two encodings of query 1 are the same cells
    assert_eq!(cells[1..4], cells[22..25]);
}

#[test]
fn selected_query_is_written_as_inside_the_whole_list() {
    let mut memory = Memory::new();
    memory.write_queries(&three_queries());
    let whole = memory.into_cells();
    let single = encode_queries(&three_queries(), &vec![0]).unwrap();
    assert_eq!(single[1..], whole[1..13]);
}

#[test]
fn selected_queries_reject_an_index_out_of_range() {
    assert_eq!(
        encode_queries(&three_queries(), &vec![3]),
        Err(EncodeError::IndexOutOfRange { position: 0, index: 3 })
    );
    assert_eq!(
        encode_queries(&three_queries(), &vec![0, 2, 99, 1, 100]),
        Err(EncodeError::IndexOutOfRange { position: 2, index: 99 })
    );
    assert_eq!(
        encode_queries(&Vec::new(), &vec![0]),
        Err(EncodeError::IndexOutOfRange { position: 0, index: 0 })
    );
}

#[test]
fn find_offence_gives_the_first_place() {
    assert_eq!(find_offence(&vec![0, 1, 2], 3), None);
    assert_eq!(find_offence(&vec![0, 3, 4], 3), Some(1));
    assert_eq!(find_offence(&Vec::new(), 0), None);
}

#[test]
fn whole_fri_proof_lists_rounds_and_remainder() {
    let fri = FriProof {
        layers: vec![
            FriLayer { queries: vec![query(&[1], &[])] },
            FriLayer { queries: Vec::new() },
        ],
        remainder: felts(&[9, 8]),
    };
    let mut memory = Memory::new();
    memory.write_fri(&fri);
    assert_eq!(memory.into_cells(), felts(&[2, 1, 1, 1, 0, 0, 2, 9, 8]));
}

#[test]
fn selected_fri_queries_select_in_each_round() {
    let fri = FriProof {
        layers: vec![
            FriLayer { queries: vec![query(&[1], &[]), query(&[2], &[])] },
        ],
        remainder: felts(&[9, 8]),
    };
    let cells = encode_fri_queries(&fri, &small_air(), &vec![1, 1, 0]).unwrap();
    assert_eq!(cells, felts(&[1, 3, 1, 2, 0, 1, 2, 0, 1, 1, 0]));
}

#[test]
fn selected_fri_queries_reject_an_index_out_of_range() {
    assert_eq!(
        encode_fri_queries(&one_layer_fri(), &small_air(), &vec![2, 3]),
        Err(EncodeError::IndexOutOfRange { position: 1, index: 3 })
    );
}

#[test]
fn selected_fri_queries_reject_a_wrong_number_of_rounds() {
    let none = FriProof { layers: Vec::new(), remainder: Vec::new() };
    assert_eq!(
        encode_fri_queries(&none, &small_air(), &Vec::new()),
        Err(EncodeError::EncodingInvariant)
    );
    let mut two = one_layer_fri();
    two.layers.push(FriLayer { queries: Vec::new() });
    assert_eq!(
        encode_fri_queries(&two, &small_air(), &Vec::new()),
        Err(EncodeError::EncodingInvariant)
    );
}

fn small_proof() -> StarkProof {
    StarkProof {
        trace_info: TraceInfo { width: 2, length: 8 },
        options: options(),
        trace_commitment: digest(100),
        constraint_commitment: digest(200),
        fri_commitments: vec![digest(300), digest(400)],
        trace_queries: vec![query(&[5, 6], &[10])],
        constraint_queries: vec![query(&[7], &[])],
        fri_proof: FriProof {
            layers: vec![FriLayer { queries: vec![query(&[1], &[])] }],
            remainder: felts(&[9, 8]),
        },
        pow_nonce: 77,
    }
}

#[test]
fn whole_proof_lays_out_every_part() {
    let cells = encode_proof(&small_proof(), &small_air()).unwrap();
    let mut expected: Vec<u64> = vec![8, 2, 64, 3];
    expected.extend(100..108);
    expected.extend(200..208);
    expected.push(2);
    expected.extend(300..308);
    expected.extend(400..408);
    expected.extend([1, 2, 5, 6, 1, 10, 11, 12, 13, 14, 15, 16, 17]);
    expected.extend([1, 1, 7, 0]);
    expected.extend([1, 1, 1, 1, 0, 2, 9, 8]);
    expected.push(77);
    assert_eq!(cells, felts(&expected));
}

#[test]
fn whole_proof_size_depends_on_shape_alone() {
    let first = encode_proof(&small_proof(), &small_air()).unwrap();
    let mut other = small_proof();
    other.trace_commitment = digest(1);
    other.trace_queries = vec![query(&[1000, 2000], &[7])];
    other.fri_proof.remainder = felts(&[0, 0]);
    other.pow_nonce = 1;
    let second = encode_proof(&other, &small_air()).unwrap();
    assert_eq!(first.len(), second.len());
    assert_ne!(first, second);
    // the same proof gives the same cells again
    assert_eq!(encode_proof(&small_proof(), &small_air()).unwrap(), first);
}

#[test]
fn whole_proof_rejects_another_shape() {
    let mut other = small_proof();
    other.trace_info = TraceInfo { width: 3, length: 8 };
    assert_eq!(encode_proof(&other, &small_air()), Err(EncodeError::EncodingInvariant));
    let mut other = small_proof();
    other.options.num_queries = 4;
    assert_eq!(encode_proof(&other, &small_air()), Err(EncodeError::EncodingInvariant));
    let mut other = small_proof();
    other.fri_proof.layers.clear();
    assert_eq!(encode_proof(&other, &small_air()), Err(EncodeError::EncodingInvariant));
    let mut other = small_proof();
    other.fri_commitments.pop();
    assert_eq!(encode_proof(&other, &small_air()), Err(EncodeError::EncodingInvariant));
}

#[test]
fn encode_takes_every_kind_of_artifact() {
    let inputs = PublicInputs { elements: felts(&[11, 22]) };
    assert_eq!(encode(&Artifact::PublicInputs { inputs: &inputs }), Ok(felts(&[2, 11, 22])));
    let queries = three_queries();
    let indices = vec![1];
    assert_eq!(
        encode(&Artifact::Queries { queries: &queries, indices: &indices }),
        encode_queries(&queries, &indices)
    );
    let air = small_air();
    let proof = small_proof();
    assert_eq!(encode(&Artifact::Proof { proof: &proof, air: &air }), encode_proof(&proof, &air));
    let fri = one_layer_fri();
    let far = vec![5];
    assert_eq!(
        encode(&Artifact::FriQueries { fri: &fri, air: &air, indices: &far }),
        Err(EncodeError::IndexOutOfRange { position: 0, index: 5 })
    );
}
