//! The commands, and what each of them computes from a proof and its
//! public inputs once both have been loaded.

use crate::air::{air_defect, layer_count_of, Air, AirError};
use crate::channel::{channel_defect, ChannelError, VerifierChannel};
use crate::codec::{decode_felt_array, felt_argument, DecodeError};
use crate::encoder::{
    encode_fri_queries, encode_proof, encode_public_inputs, encode_queries, first_offence,
    first_short_layer, proof_fits, EncodeError,
};
use crate::felt::Felt;
use crate::indices::{index_argument, required_indices, text_of, IndexListError};
use crate::polynomial::{distinct, interpolate, interpolates, values, InterpolationError};
use crate::render::{list_text, memory_text, render_list, render_memory};
use crate::stark::{
    fri_selected_cells, in_range, in_range_of_all, list_cells, proof_cells, queries_cells,
    selection, ProofModel, PublicInputs, QueryModel, StarkProof,
};
use vstd::prelude::*;

verus! {

/// What is to be encoded, with the texts that the choice comes with.
#[derive(Clone, Debug, PartialEq, Eq)]
pub enum Command {
    /// The whole proof.
    Proof,
    /// The public inputs.
    PublicInputs,
    /// The trace queries that a JSON list of indices names.
    TraceQueries { indexes: Option<String> },
    /// The constraint queries that a JSON list of indices names.
    ConstraintQueries { indexes: Option<String> },
    /// The FRI queries that a JSON list of indices names.
    FriQueries { indexes: Option<String> },
    /// The polynomial through the points whose coordinates two JSON lists
    /// of hexadecimal strings give.
    InterpolatePoly { x_values: Option<String>, y_values: Option<String> },
}

/// Which of the two query collections of a proof is meant.
#[derive(Clone, Copy, Debug, PartialEq, Eq, Structural)]
pub enum QueryKind {
    Trace,
    Constraint,
}

/// Why a command gives no output.
#[derive(Clone, Copy, Debug, PartialEq, Eq, Structural)]
pub enum ParserError {
    /// No description can be built for the proof.
    Air(AirError),
    /// The proof cannot be read with its description.
    Channel(ChannelError),
    /// There is no index list.
    Indices(IndexListError),
    /// The encoding fails.
    Encode(EncodeError),
    /// There are no field elements.
    Decode(DecodeError),
    /// There is no interpolant.
    Interpolation(InterpolationError),
}

/// What a command gives.
#[derive(Clone, Debug, PartialEq, Eq)]
pub enum Output {
    /// A flat memory, cell by cell.
    Memory(Vec<Felt>),
    /// The coefficients of a polynomial, constant term first.
    Polynomial(Vec<Felt>),
}

impl Output {
    /// The one line of text that stands for this output: a memory as the
    /// list of its cells in square brackets, a polynomial as the plain list
    /// of its coefficients.
    pub fn to_text(&self) -> (r: String)
        ensures
            match *self {
                Output::Memory(cells) => r@ == memory_text(values(cells@)),
                Output::Polynomial(coeffs) => r@ == list_text(values(coeffs@)),
            },
    {
        match self {
            Output::Memory(cells) => render_memory(cells),
            Output::Polynomial(coeffs) => render_list(coeffs),
        }
    }
}

/// Whether `r` is the memory or the failure that `expected` names.
pub open spec fn gives_memory(r: Result<Output, ParserError>, expected: Result<Seq<nat>, ParserError>)
    -> bool {
    match expected {
        Ok(cells) => r matches Ok(Output::Memory(written)) && values(written@) == cells,
        Err(e) => r == Err::<Output, ParserError>(e),
    }
}

/// The first place of `indices` that names none of `count` queries.
pub open spec fn offence_position(indices: Seq<usize>, count: nat) -> int {
    choose|position: int| first_offence(indices, count, position)
}

/// The first round for which `indices` names a query that it does not hold.
pub open spec fn short_layer(layers: Seq<Seq<QueryModel>>, indices: Seq<usize>) -> int {
    choose|layer: int| first_short_layer(layers, indices, layer)
}

/// The failure of an index list whose place `position` names no query.
pub open spec fn out_of_range(indices: Seq<usize>, position: int) -> ParserError {
    ParserError::Encode(
        EncodeError::IndexOutOfRange { position: position as usize, index: indices[position] },
    )
}

/// What the command for a whole proof gives.
pub open spec fn proof_outcome(proof: ProofModel, inputs: Seq<nat>) -> Result<
    Seq<nat>,
    ParserError,
> {
    match air_defect(proof.trace_info, inputs.len(), proof.options) {
        Some(e) => Err(ParserError::Air(e)),
        None => if proof_fits(proof, proof.trace_info, proof.options) {
            Ok(proof_cells(proof))
        } else {
            Err(ParserError::Encode(EncodeError::EncodingInvariant))
        },
    }
}

/// What the command for chosen trace or constraint queries gives.
pub open spec fn queries_outcome(
    kind: QueryKind,
    proof: ProofModel,
    inputs: Seq<nat>,
    argument: Option<Seq<char>>,
) -> Result<Seq<nat>, ParserError> {
    let queries = match kind {
        QueryKind::Trace => proof.trace_queries,
        QueryKind::Constraint => proof.constraint_queries,
    };
    match air_defect(proof.trace_info, inputs.len(), proof.options) {
        Some(e) => Err(ParserError::Air(e)),
        None => match index_argument(argument) {
            Err(e) => Err(ParserError::Indices(e)),
            Ok(indices) => match channel_defect(proof.trace_info, proof.options, proof) {
                Some(e) => Err(ParserError::Channel(e)),
                None => if in_range(indices, queries.len()) {
                    Ok(queries_cells(selection(queries, indices)))
                } else {
                    Err(out_of_range(indices, offence_position(indices, queries.len())))
                },
            },
        },
    }
}

/// What the command for chosen FRI queries gives.
pub open spec fn fri_outcome(proof: ProofModel, inputs: Seq<nat>, argument: Option<Seq<char>>)
    -> Result<Seq<nat>, ParserError> {
    match air_defect(proof.trace_info, inputs.len(), proof.options) {
        Some(e) => Err(ParserError::Air(e)),
        None => match index_argument(argument) {
            Err(e) => Err(ParserError::Indices(e)),
            Ok(indices) => if proof.fri.layers.len() != layer_count_of(
                proof.trace_info,
                proof.options,
            ) {
                Err(ParserError::Encode(EncodeError::EncodingInvariant))
            } else if in_range_of_all(proof.fri.layers, indices) {
                Ok(fri_selected_cells(proof.fri, indices))
            } else {
                let layer = short_layer(proof.fri.layers, indices);
                Err(
                    out_of_range(
                        indices,
                        offence_position(indices, proof.fri.layers[layer].len()),
                    ),
                )
            },
        },
    }
}

/// Whether `r` is what the interpolation command gives for the two texts.
pub open spec fn gives_polynomial(
    r: Result<Output, ParserError>,
    x_values: Option<Seq<char>>,
    y_values: Option<Seq<char>>,
) -> bool {
    match felt_argument(x_values) {
        Err(e) => r == Err::<Output, ParserError>(ParserError::Decode(e)),
        Ok(xs) => match felt_argument(y_values) {
            Err(e) => r == Err::<Output, ParserError>(ParserError::Decode(e)),
            Ok(ys) => if xs.len() != ys.len() {
                r == Err::<Output, ParserError>(
                    ParserError::Interpolation(InterpolationError::LengthMismatch),
                )
            } else if !distinct(xs) {
                r == Err::<Output, ParserError>(
                    ParserError::Interpolation(InterpolationError::DuplicateXValue),
                )
            } else {
                r matches Ok(Output::Polynomial(coeffs)) && interpolates(values(coeffs@), xs, ys)
            },
        },
    }
}

/// Only one place of an index list is the first that names no query.
pub proof fn lemma_offence_is_single(indices: Seq<usize>, count: nat, a: int, b: int)
    requires
        first_offence(indices, count, a),
        first_offence(indices, count, b),
    ensures
        a == b,
{
}

/// Only one round is the first for which an index list names a query that
/// the round does not hold.
pub proof fn lemma_short_layer_is_single(
    layers: Seq<Seq<QueryModel>>,
    indices: Seq<usize>,
    a: int,
    b: int,
)
    requires
        first_short_layer(layers, indices, a),
        first_short_layer(layers, indices, b),
    ensures
        a == b,
{
}

/// The description that a proof is read with.
pub fn rebuild_air(proof: &StarkProof, pub_inputs: PublicInputs) -> (r: Result<Air, ParserError>)
    ensures
        match r {
            Ok(air) => {
                &&& air_defect(proof@.trace_info, pub_inputs@.len(), proof@.options) is None
                &&& air.trace() == proof@.trace_info
                &&& air.parameters() == proof@.options
                &&& air.inputs() == pub_inputs@
            },
            Err(e) => air_defect(proof@.trace_info, pub_inputs@.len(), proof@.options) matches Some(
                d,
            ) && e == ParserError::Air(d),
        },
{
    match Air::new(proof.get_trace_info(), pub_inputs, *proof.options()) {
        Ok(air) => Ok(air),
        Err(e) => Err(ParserError::Air(e)),
    }
}

/// The whole proof as a memory.
pub fn run_proof(proof: StarkProof, pub_inputs: PublicInputs) -> (r: Result<Output, ParserError>)
    ensures
        gives_memory(r, proof_outcome(proof@, pub_inputs@)),
{
    let air = match rebuild_air(&proof, pub_inputs) {
        Ok(air) => air,
        Err(e) => {
            return Err(e);
        },
    };
    match encode_proof(&proof, &air) {
        Ok(cells) => Ok(Output::Memory(cells)),
        Err(e) => Err(ParserError::Encode(e)),
    }
}

/// The public inputs as a memory.
pub fn run_public_inputs(pub_inputs: PublicInputs) -> (r: Result<Output, ParserError>)
    ensures
        gives_memory(r, Ok::<Seq<nat>, ParserError>(list_cells(pub_inputs@))),
{
    Ok(Output::Memory(encode_public_inputs(&pub_inputs)))
}

/// The chosen trace or constraint queries as a memory.
pub fn run_queries(
    kind: QueryKind,
    proof: StarkProof,
    pub_inputs: PublicInputs,
    indexes: &Option<String>,
) -> (r: Result<Output, ParserError>)
    ensures
        gives_memory(r, queries_outcome(kind, proof@, pub_inputs@, text_of(*indexes))),
{
    let air = match rebuild_air(&proof, pub_inputs) {
        Ok(air) => air,
        Err(e) => {
            return Err(e);
        },
    };
    let indices = match required_indices(indexes) {
        Ok(indices) => indices,
        Err(e) => {
            return Err(ParserError::Indices(e));
        },
    };
    let channel = match VerifierChannel::new(&air, proof) {
        Ok(channel) => channel,
        Err(e) => {
            return Err(ParserError::Channel(e));
        },
    };
    let queries = match kind {
        QueryKind::Trace => channel.trace_queries.unwrap(),
        QueryKind::Constraint => channel.constraint_queries.unwrap(),
    };
    match encode_queries(&queries, &indices) {
        Ok(cells) => Ok(Output::Memory(cells)),
        Err(e) => {
            proof {
                let count = queries.len() as nat;
                let position = e->IndexOutOfRange_position as int;
                lemma_offence_is_single(
                    indices@,
                    count,
                    position,
                    offence_position(indices@, count),
                );
            }
            Err(ParserError::Encode(e))
        },
    }
}

/// The chosen FRI queries as a memory.
pub fn run_fri_queries(proof: StarkProof, pub_inputs: PublicInputs, indexes: &Option<String>) -> (r:
    Result<Output, ParserError>)
    ensures
        gives_memory(r, fri_outcome(proof@, pub_inputs@, text_of(*indexes))),
{
    let air = match rebuild_air(&proof, pub_inputs) {
        Ok(air) => air,
        Err(e) => {
            return Err(e);
        },
    };
    let indices = match required_indices(indexes) {
        Ok(indices) => indices,
        Err(e) => {
            return Err(ParserError::Indices(e));
        },
    };
    match encode_fri_queries(&proof.fri_proof, &air, &indices) {
        Ok(cells) => Ok(Output::Memory(cells)),
        Err(e) => {
            proof {
                if e is IndexOutOfRange {
                    let layers = proof@.fri.layers;
                    let position = e->IndexOutOfRange_position as int;
                    let layer = choose|layer: int|
                        {
                            &&& #[trigger] first_short_layer(layers, indices@, layer)
                            &&& first_offence(indices@, layers[layer].len(), position)
                        };
                    lemma_short_layer_is_single(
                        layers,
                        indices@,
                        layer,
                        short_layer(layers, indices@),
                    );
                    lemma_offence_is_single(
                        indices@,
                        layers[layer].len(),
                        position,
                        offence_position(indices@, layers[layer].len()),
                    );
                }
            }
            Err(ParserError::Encode(e))
        },
    }
}

/// The polynomial through the points that the two texts give.
pub fn run_interpolation(x_values: &Option<String>, y_values: &Option<String>) -> (r: Result<
    Output,
    ParserError,
>)
    ensures
        gives_polynomial(r, text_of(*x_values), text_of(*y_values)),
{
    let xs = match decode_felt_array(x_values) {
        Ok(xs) => xs,
        Err(e) => {
            return Err(ParserError::Decode(e));
        },
    };
    let ys = match decode_felt_array(y_values) {
        Ok(ys) => ys,
        Err(e) => {
            return Err(ParserError::Decode(e));
        },
    };
    match interpolate(&xs, &ys) {
        Ok(coeffs) => Ok(Output::Polynomial(coeffs)),
        Err(e) => Err(ParserError::Interpolation(e)),
    }
}

/// What `command` gives for a proof and its public inputs.
pub fn run(command: &Command, proof: StarkProof, pub_inputs: PublicInputs) -> (r: Result<
    Output,
    ParserError,
>)
    ensures
        match *command {
            Command::Proof => gives_memory(r, proof_outcome(proof@, pub_inputs@)),
            Command::PublicInputs => gives_memory(
                r,
                Ok::<Seq<nat>, ParserError>(list_cells(pub_inputs@)),
            ),
            Command::TraceQueries { indexes } => gives_memory(
                r,
                queries_outcome(QueryKind::Trace, proof@, pub_inputs@, text_of(indexes)),
            ),
            Command::ConstraintQueries { indexes } => gives_memory(
                r,
                queries_outcome(QueryKind::Constraint, proof@, pub_inputs@, text_of(indexes)),
            ),
            Command::FriQueries { indexes } => gives_memory(
                r,
                fri_outcome(proof@, pub_inputs@, text_of(indexes)),
            ),
            Command::InterpolatePoly { x_values, y_values } => gives_polynomial(
                r,
                text_of(x_values),
                text_of(y_values),
            ),
        },
{
    match command {
        Command::Proof => run_proof(proof, pub_inputs),
        Command::PublicInputs => run_public_inputs(pub_inputs),
        Command::TraceQueries { indexes } => run_queries(
            QueryKind::Trace,
            proof,
            pub_inputs,
            indexes,
        ),
        Command::ConstraintQueries { indexes } => run_queries(
            QueryKind::Constraint,
            proof,
            pub_inputs,
            indexes,
        ),
        Command::FriQueries { indexes } => run_fri_queries(proof, pub_inputs, indexes),
        Command::InterpolatePoly { x_values, y_values } => run_interpolation(x_values, y_values),
    }
}

} // verus!
