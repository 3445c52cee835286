use stark_parser::air::{Air, ProofOptions, TraceInfo};
use stark_parser::channel::{ChannelError, VerifierChannel};
use stark_parser::felt::Felt;
use stark_parser::stark::{Digest, FriLayer, FriProof, PublicInputs, Query, StarkProof};

fn query_of_width(width: u64) -> Query {
    Query {
        evaluations: (0..width).map(Felt::from_u64).collect(),
        path: vec![Digest { words: [1; 8] }],
    }
}

fn channel_options() -> ProofOptions {
    ProofOptions {
        num_queries: 2,
        blowup_factor: 8,
        grinding_factor: 0,
        folding_factor: 4,
        max_remainder_size: 32,
    }
}

fn channel_air() -> Air {
    Air::new(
        TraceInfo { width: 2, length: 8 },
        PublicInputs { elements: Vec::new() },
        channel_options(),
    )
    .unwrap()
}

fn channel_proof() -> StarkProof {
    StarkProof {
        trace_info: TraceInfo { width: 2, length: 8 },
        options: channel_options(),
        trace_commitment: Digest { words: [0; 8] },
        constraint_commitment: Digest { words: [0; 8] },
        fri_commitments: vec![Digest { words: [3; 8] }, Digest { words: [4; 8] }],
        trace_queries: vec![query_of_width(2), query_of_width(2)],
        constraint_queries: vec![query_of_width(1), query_of_width(5)],
        fri_proof: FriProof {
            layers: vec![FriLayer { queries: vec![query_of_width(4)] }],
            remainder: Vec::new(),
        },
        pow_nonce: 0,
    }
}

#[test]
fn channel_hands_out_the_queries() {
    let proof = channel_proof();
    let channel = VerifierChannel::new(&channel_air(), proof.clone()).unwrap();
    assert_eq!(channel.trace_queries, Some(proof.trace_queries));
    assert_eq!(channel.constraint_queries, Some(proof.constraint_queries));
    assert_eq!(channel.fri_proof, proof.fri_proof);
}

#[test]
fn channel_rejects_another_context() {
    let mut proof = channel_proof();
    proof.trace_info.length = 16;
    assert_eq!(
        VerifierChannel::new(&channel_air(), proof).err(),
        Some(ChannelError::ContextMismatch)
    );
    let mut proof = channel_proof();
    proof.options.grinding_factor = 1;
    assert_eq!(
        VerifierChannel::new(&channel_air(), proof).err(),
        Some(ChannelError::ContextMismatch)
    );
}

#[test]
fn channel_rejects_a_wrong_layer_count() {
    let mut proof = channel_proof();
    proof.fri_proof.layers.clear();
    assert_eq!(
        VerifierChannel::new(&channel_air(), proof).err(),
        Some(ChannelError::LayerCount)
    );
}

#[test]
fn channel_rejects_a_wrong_number_of_commitments() {
    let mut proof = channel_proof();
    proof.fri_commitments.pop();
    assert_eq!(
        VerifierChannel::new(&channel_air(), proof).err(),
        Some(ChannelError::CommitmentCount)
    );
    let mut proof = channel_proof();
    proof.fri_commitments.push(Digest { words: [5; 8] });
    assert_eq!(
        VerifierChannel::new(&channel_air(), proof).err(),
        Some(ChannelError::CommitmentCount)
    );
}

#[test]
fn channel_rejects_unequal_query_counts() {
    let mut proof = channel_proof();
    proof.constraint_queries.pop();
    assert_eq!(
        VerifierChannel::new(&channel_air(), proof).err(),
        Some(ChannelError::QueryCount)
    );
}

#[test]
fn channel_rejects_a_query_of_the_wrong_width() {
    let mut proof = channel_proof();
    proof.trace_queries[1] = query_of_width(3);
    assert_eq!(
        VerifierChannel::new(&channel_air(), proof).err(),
        Some(ChannelError::QueryWidth)
    );
}

#[test]
fn channel_tells_the_first_defect() {
    let mut proof = channel_proof();
    proof.trace_queries[0] = query_of_width(3);
    proof.constraint_queries.pop();
    proof.fri_proof.layers.clear();
    assert_eq!(
        VerifierChannel::new(&channel_air(), proof).err(),
        Some(ChannelError::LayerCount)
    );
}
