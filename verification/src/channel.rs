//! The query channel: the queries of a proof, handed out once the proof has
//! been held against the description that it is to be read with.

use crate::air::{layer_count_of, Air, ProofOptions, TraceInfo};
use crate::stark::{query_models, FriProof, ProofModel, Query, StarkProof};
use vstd::prelude::*;

verus! {

/// Why a proof cannot be read with a description.
#[derive(Clone, Copy, Debug, PartialEq, Eq, Structural)]
pub enum ChannelError {
    /// The proof names another trace shape or other parameters.
    ContextMismatch,
    /// The proof does not have the number of folding rounds that follows
    /// from the trace shape and the parameters.
    LayerCount,
    /// There is not one commitment for each folding round and one for the
    /// remainder.
    CommitmentCount,
    /// There are not as many constraint queries as trace queries.
    QueryCount,
    /// A trace query does not hold one evaluation for each column.
    QueryWidth,
}

/// Whether each trace query holds `width` evaluations.
pub open spec fn all_of_width(proof: ProofModel, width: nat) -> bool {
    forall|i: int|
        0 <= i < proof.trace_queries.len() ==> (#[trigger] proof.trace_queries[i]).evaluations.len()
            == width
}

/// The first reason why a proof cannot be read with a description of the
/// given trace shape and parameters; `None` where it can.
pub open spec fn channel_defect(trace: TraceInfo, options: ProofOptions, proof: ProofModel)
    -> Option<ChannelError> {
    if proof.trace_info != trace || proof.options != options {
        Some(ChannelError::ContextMismatch)
    } else if proof.fri.layers.len() != layer_count_of(trace, options) {
        Some(ChannelError::LayerCount)
    } else if proof.fri_commitments.len() != layer_count_of(trace, options) + 1 {
        Some(ChannelError::CommitmentCount)
    } else if proof.trace_queries.len() != proof.constraint_queries.len() {
        Some(ChannelError::QueryCount)
    } else if !all_of_width(proof, trace.width as nat) {
        Some(ChannelError::QueryWidth)
    } else {
        None
    }
}

/// The queries of a proof that was read with a description.
#[derive(Debug)]
pub struct VerifierChannel {
    pub trace_queries: Option<Vec<Query>>,
    pub constraint_queries: Option<Vec<Query>>,
    pub fri_proof: FriProof,
}

impl VerifierChannel {
    /// Reads `proof` with the description `air` and takes its queries.
    pub fn new(air: &Air, proof: StarkProof) -> (r: Result<VerifierChannel, ChannelError>)
        ensures
            match r {
                Ok(channel) => {
                    &&& channel_defect(air.trace(), air.parameters(), proof@) is None
                    &&& channel.trace_queries matches Some(queries) && query_models(queries@)
                        == proof@.trace_queries
                    &&& channel.constraint_queries matches Some(queries) && query_models(
                        queries@,
                    ) == proof@.constraint_queries
                    &&& channel.fri_proof@ == proof@.fri
                },
                Err(e) => channel_defect(air.trace(), air.parameters(), proof@) == Some(e),
            },
    {
        let trace = air.trace_info();
        if proof.trace_info != trace || proof.options != air.options() {
            return Err(ChannelError::ContextMismatch);
        }
        let layer_count = air.fri_layer_count();
        if proof.fri_proof.layers.len() != layer_count {
            return Err(ChannelError::LayerCount);
        }
        if proof.fri_commitments.len() != layer_count + 1 {
            return Err(ChannelError::CommitmentCount);
        }
        if proof.trace_queries.len() != proof.constraint_queries.len() {
            return Err(ChannelError::QueryCount);
        }
        let mut i: usize = 0;
        while i < proof.trace_queries.len()
            invariant
                i <= proof.trace_queries.len(),
                trace == air.trace(),
                proof@.trace_info == trace,
                proof@.options == air.parameters(),
                proof@.fri.layers.len() == air.layer_count(),
                proof@.fri_commitments.len() == air.layer_count() + 1,
                proof@.trace_queries.len() == proof@.constraint_queries.len(),
                forall|k: int|
                    0 <= k < i ==> (#[trigger] proof@.trace_queries[k]).evaluations.len()
                        == trace.width,
            decreases proof.trace_queries.len() - i,
        {
            if proof.trace_queries[i].evaluations.len() != trace.width {
                assert(proof@.trace_queries[i as int].evaluations.len() != trace.width);
                assert(!all_of_width(proof@, trace.width as nat));
                return Err(ChannelError::QueryWidth);
            }
            assert(proof@.trace_queries[i as int].evaluations.len() == trace.width);
            i += 1;
        }
        Ok(
            VerifierChannel {
                trace_queries: Some(proof.trace_queries),
                constraint_queries: Some(proof.constraint_queries),
                fri_proof: proof.fri_proof,
            },
        )
    }
}

} // verus!
