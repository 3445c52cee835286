//! The encodings that a caller can ask for: the public inputs, a whole
//! proof, chosen trace or constraint queries, and chosen FRI queries. Each
//! gives a fresh memory, or fails without giving any.

use crate::air::{layer_count_of, Air, ProofOptions, TraceInfo};
use crate::felt::Felt;
use crate::memory::Memory;
use crate::polynomial::values;
use crate::stark::{
    fri_selected_cells, in_range, in_range_of_all, layer_models, list_cells, proof_cells,
    queries_cells, query_models, selection, FriModel, FriProof, ProofModel, PublicInputs, Query,
    QueryModel, StarkProof,
};
use vstd::prelude::*;

verus! {

/// Why an encoding gives no memory.
#[derive(Clone, Copy, Debug, PartialEq, Eq, Structural)]
pub enum EncodeError {
    /// The index at `position` of the index list names no query.
    IndexOutOfRange { position: usize, index: usize },
    /// A structure does not have the shape that its description gives it.
    EncodingInvariant,
}

/// Whether `position` is the first place of `indices` that names none of
/// `count` queries.
pub open spec fn first_offence(indices: Seq<usize>, count: nat, position: int) -> bool {
    &&& 0 <= position < indices.len()
    &&& indices[position] >= count
    &&& forall|s: int| 0 <= s < position ==> #[trigger] indices[s] < count
}

/// Whether `layer` is the first round for which `indices` names a query
/// that the round does not hold.
pub open spec fn first_short_layer(layers: Seq<Seq<QueryModel>>, indices: Seq<usize>, layer: int)
    -> bool {
    &&& 0 <= layer < layers.len()
    &&& !in_range(indices, layers[layer].len())
    &&& forall|l: int| 0 <= l < layer ==> in_range(indices, (#[trigger] layers[l]).len())
}

/// Whether a proof has the shape that the description gives it: the same
/// trace shape, the same parameters, the number of folding rounds that
/// follows from them, and one commitment for each round and one for the
/// remainder.
pub open spec fn proof_fits(proof: ProofModel, trace: TraceInfo, options: ProofOptions) -> bool {
    &&& proof.trace_info == trace
    &&& proof.options == options
    &&& proof.fri.layers.len() == layer_count_of(trace, options)
    &&& proof.fri_commitments.len() == layer_count_of(trace, options) + 1
}

/// What the encoding of chosen queries may give.
pub open spec fn queries_encoded(
    queries: Seq<QueryModel>,
    indices: Seq<usize>,
    r: Result<Vec<Felt>, EncodeError>,
) -> bool {
    match r {
        Ok(cells) => {
            &&& in_range(indices, queries.len())
            &&& values(cells@) == queries_cells(selection(queries, indices))
        },
        Err(EncodeError::IndexOutOfRange { position, index }) => {
            &&& first_offence(indices, queries.len(), position as int)
            &&& index == indices[position as int]
        },
        Err(EncodeError::EncodingInvariant) => false,
    }
}

/// What the encoding of chosen FRI queries may give, for a description
/// that asks for `layer_count` folding rounds.
pub open spec fn fri_queries_encoded(
    fri: FriModel,
    layer_count: nat,
    indices: Seq<usize>,
    r: Result<Vec<Felt>, EncodeError>,
) -> bool {
    match r {
        Ok(cells) => {
            &&& fri.layers.len() == layer_count
            &&& in_range_of_all(fri.layers, indices)
            &&& values(cells@) == fri_selected_cells(fri, indices)
        },
        Err(EncodeError::EncodingInvariant) => fri.layers.len() != layer_count,
        Err(EncodeError::IndexOutOfRange { position, index }) => {
            &&& fri.layers.len() == layer_count
            &&& index == indices[position as int]
            &&& exists|layer: int|
                {
                    &&& #[trigger] first_short_layer(fri.layers, indices, layer)
                    &&& first_offence(indices, fri.layers[layer].len(), position as int)
                }
        },
    }
}

/// What the encoding of a whole proof may give, for a description of the
/// given trace shape and parameters.
pub open spec fn proof_encoded(
    proof: ProofModel,
    trace: TraceInfo,
    options: ProofOptions,
    r: Result<Vec<Felt>, EncodeError>,
) -> bool {
    match r {
        Ok(cells) => proof_fits(proof, trace, options) && values(cells@) == proof_cells(proof),
        Err(EncodeError::EncodingInvariant) => !proof_fits(proof, trace, options),
        Err(EncodeError::IndexOutOfRange { .. }) => false,
    }
}

/// What can be encoded: each kind with what its encoding reads.
pub enum Artifact<'a> {
    /// The public inputs.
    PublicInputs { inputs: &'a PublicInputs },
    /// A whole proof, read with its description.
    Proof { proof: &'a StarkProof, air: &'a Air },
    /// The queries of a collection that an index list names.
    Queries { queries: &'a Vec<Query>, indices: &'a Vec<usize> },
    /// The FRI queries that an index list names, read with a description.
    FriQueries { fri: &'a FriProof, air: &'a Air, indices: &'a Vec<usize> },
}

/// The first place of `indices` that names none of `count` queries.
pub fn find_offence(indices: &Vec<usize>, count: usize) -> (r: Option<usize>)
    ensures
        match r {
            None => in_range(indices@, count as nat),
            Some(position) => first_offence(indices@, count as nat, position as int),
        },
{
    let mut t: usize = 0;
    while t < indices.len()
        invariant
            t <= indices.len(),
            forall|s: int| 0 <= s < t ==> #[trigger] indices[s] < count,
        decreases indices.len() - t,
    {
        if indices[t] >= count {
            return Some(t);
        }
        t += 1;
    }
    None
}

/// The public inputs as a list: their number, then the inputs in their order.
pub fn encode_public_inputs(inputs: &PublicInputs) -> (r: Vec<Felt>)
    ensures
        values(r@) == list_cells(inputs@),
{
    let mut memory = Memory::new();
    memory.write_list(&inputs.elements);
    assert(Seq::<nat>::empty() + list_cells(inputs@) =~= list_cells(inputs@));
    memory.into_cells()
}

/// The queries that `indices` names, as a list in the order of `indices`: a
/// query named twice stands in it twice. An index that names no query
/// fails the whole encoding.
pub fn encode_queries(queries: &Vec<Query>, indices: &Vec<usize>) -> (r: Result<
    Vec<Felt>,
    EncodeError,
>)
    ensures
        queries_encoded(query_models(queries@), indices@, r),
{
    match find_offence(indices, queries.len()) {
        Some(position) => Err(
            EncodeError::IndexOutOfRange { position, index: indices[position] },
        ),
        None => {
            let mut memory = Memory::new();
            memory.write_selected(queries, indices);
            let ghost cells = queries_cells(selection(query_models(queries@), indices@));
            assert(Seq::<nat>::empty() + cells =~= cells);
            Ok(memory.into_cells())
        },
    }
}

/// The FRI queries that `indices` names: the number of folding rounds and,
/// for each round, the list of the queries of that round that `indices`
/// names. It fails where the proof does not have the number of rounds that
/// the description gives it, and where an index names no query of a round.
pub fn encode_fri_queries(fri: &FriProof, air: &Air, indices: &Vec<usize>) -> (r: Result<
    Vec<Felt>,
    EncodeError,
>)
    ensures
        fri_queries_encoded(fri@, air.layer_count(), indices@, r),
{
    if fri.layers.len() != air.fri_layer_count() {
        return Err(EncodeError::EncodingInvariant);
    }
    let ghost all = layer_models(fri.layers@);
    let mut l: usize = 0;
    while l < fri.layers.len()
        invariant
            l <= fri.layers.len(),
            all == layer_models(fri.layers@),
            fri@.layers.len() == air.layer_count(),
            forall|k: int| 0 <= k < l ==> in_range(indices@, (#[trigger] all[k]).len()),
        decreases fri.layers.len() - l,
    {
        assert(all[l as int] == fri.layers[l as int]@);
        match find_offence(indices, fri.layers[l].queries.len()) {
            Some(position) => {
                assert(first_short_layer(fri@.layers, indices@, l as int));
                return Err(EncodeError::IndexOutOfRange { position, index: indices[position] });
            },
            None => {},
        }
        l += 1;
    }
    let mut memory = Memory::new();
    memory.write_fri_selected(fri, indices);
    let ghost cells = fri_selected_cells(fri@, indices@);
    assert(Seq::<nat>::empty() + cells =~= cells);
    Ok(memory.into_cells())
}

/// The whole proof. It fails where the proof does not have the shape that
/// the description gives it.
pub fn encode_proof(proof: &StarkProof, air: &Air) -> (r: Result<Vec<Felt>, EncodeError>)
    ensures
        proof_encoded(proof@, air.trace(), air.parameters(), r),
{
    let layer_count = air.fri_layer_count();
    if proof.trace_info != air.trace_info() || proof.options != air.options()
        || proof.fri_proof.layers.len() != layer_count || proof.fri_commitments.len()
        != layer_count + 1 {
        return Err(EncodeError::EncodingInvariant);
    }
    let mut memory = Memory::new();
    memory.write_proof(proof);
    assert(Seq::<nat>::empty() + proof_cells(proof@) =~= proof_cells(proof@));
    Ok(memory.into_cells())
}

/// The encoding of an artifact, whatever its kind.
pub fn encode(artifact: &Artifact) -> (r: Result<Vec<Felt>, EncodeError>)
    ensures
        match *artifact {
            Artifact::PublicInputs { inputs } => r matches Ok(cells) && values(cells@)
                == list_cells(inputs@),
            Artifact::Proof { proof, air } => proof_encoded(
                proof@,
                air.trace(),
                air.parameters(),
                r,
            ),
            Artifact::Queries { queries, indices } => queries_encoded(
                query_models(queries@),
                indices@,
                r,
            ),
            Artifact::FriQueries { fri, air, indices } => fri_queries_encoded(
                fri@,
                air.layer_count(),
                indices@,
                r,
            ),
        },
{
    match artifact {
        Artifact::PublicInputs { inputs } => Ok(encode_public_inputs(inputs)),
        Artifact::Proof { proof, air } => encode_proof(proof, air),
        Artifact::Queries { queries, indices } => encode_queries(queries, indices),
        Artifact::FriQueries { fri, air, indices } => encode_fri_queries(fri, air, indices),
    }
}

} // verus!
