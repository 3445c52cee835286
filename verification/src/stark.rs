//! What a proof holds, as far as the memory layout reads it, and the cells
//! that each part takes in the flat memory.
//!
//! The layout: a field element takes one cell; a digest takes eight cells,
//! one for each of its 32-bit words; a list takes one cell for the number
//! of its items and then the items in their order; a structure takes the
//! cells of its parts in their order.

use crate::air::{ProofOptions, TraceInfo};
use crate::felt::Felt;
use crate::polynomial::values;
use vstd::prelude::*;

verus! {

/// A 256-bit commitment, as eight 32-bit words.
#[derive(Clone, Copy, Debug, PartialEq, Eq)]
pub struct Digest {
    pub words: [u32; 8],
}

/// What was opened at one position: the evaluations there, and the path
/// that ties them to a commitment.
#[derive(Clone, Debug, PartialEq, Eq)]
pub struct Query {
    pub evaluations: Vec<Felt>,
    pub path: Vec<Digest>,
}

/// The queries of one folding round.
#[derive(Clone, Debug, PartialEq, Eq)]
pub struct FriLayer {
    pub queries: Vec<Query>,
}

/// The folding rounds, first round first, and what is left after the last.
#[derive(Clone, Debug, PartialEq, Eq)]
pub struct FriProof {
    pub layers: Vec<FriLayer>,
    pub remainder: Vec<Felt>,
}

/// The public statement that a proof attests to.
#[derive(Clone, Debug, PartialEq, Eq)]
pub struct PublicInputs {
    pub elements: Vec<Felt>,
}

/// A proof, with the shape of the trace and the parameters that it names,
/// the commitments, the opened queries, the FRI proof and the nonce of the
/// proof of work.
#[derive(Clone, Debug, PartialEq, Eq)]
pub struct StarkProof {
    pub trace_info: TraceInfo,
    pub options: ProofOptions,
    pub trace_commitment: Digest,
    pub constraint_commitment: Digest,
    pub fri_commitments: Vec<Digest>,
    pub trace_queries: Vec<Query>,
    pub constraint_queries: Vec<Query>,
    pub fri_proof: FriProof,
    pub pow_nonce: u64,
}

/// The mathematical content of a [`StarkProof`].
pub struct ProofModel {
    pub trace_info: TraceInfo,
    pub options: ProofOptions,
    pub trace_commitment: Seq<nat>,
    pub constraint_commitment: Seq<nat>,
    pub fri_commitments: Seq<Seq<nat>>,
    pub trace_queries: Seq<QueryModel>,
    pub constraint_queries: Seq<QueryModel>,
    pub fri: FriModel,
    pub pow_nonce: nat,
}

/// The mathematical content of a [`Query`].
pub struct QueryModel {
    pub evaluations: Seq<nat>,
    pub path: Seq<Seq<nat>>,
}

/// The mathematical content of a [`FriProof`].
pub struct FriModel {
    pub layers: Seq<Seq<QueryModel>>,
    pub remainder: Seq<nat>,
}

impl View for Digest {
    type V = Seq<nat>;

    open spec fn view(&self) -> Seq<nat> {
        Seq::new(8, |i: int| self.words@[i] as nat)
    }
}

/// The contents of a list of digests.
pub open spec fn digest_models(digests: Seq<Digest>) -> Seq<Seq<nat>> {
    Seq::new(digests.len(), |i: int| digests[i]@)
}

impl View for Query {
    type V = QueryModel;

    open spec fn view(&self) -> QueryModel {
        QueryModel { evaluations: values(self.evaluations@), path: digest_models(self.path@) }
    }
}

/// The contents of a list of queries.
pub open spec fn query_models(queries: Seq<Query>) -> Seq<QueryModel> {
    Seq::new(queries.len(), |i: int| queries[i]@)
}

impl View for FriLayer {
    type V = Seq<QueryModel>;

    open spec fn view(&self) -> Seq<QueryModel> {
        query_models(self.queries@)
    }
}

/// The contents of a list of folding rounds.
pub open spec fn layer_models(layers: Seq<FriLayer>) -> Seq<Seq<QueryModel>> {
    Seq::new(layers.len(), |i: int| layers[i]@)
}

impl View for FriProof {
    type V = FriModel;

    open spec fn view(&self) -> FriModel {
        FriModel { layers: layer_models(self.layers@), remainder: values(self.remainder@) }
    }
}

impl View for PublicInputs {
    type V = Seq<nat>;

    open spec fn view(&self) -> Seq<nat> {
        values(self.elements@)
    }
}

impl View for StarkProof {
    type V = ProofModel;

    open spec fn view(&self) -> ProofModel {
        ProofModel {
            trace_info: self.trace_info,
            options: self.options,
            trace_commitment: self.trace_commitment@,
            constraint_commitment: self.constraint_commitment@,
            fri_commitments: digest_models(self.fri_commitments@),
            trace_queries: query_models(self.trace_queries@),
            constraint_queries: query_models(self.constraint_queries@),
            fri: self.fri_proof@,
            pow_nonce: self.pow_nonce as nat,
        }
    }
}

impl StarkProof {
    /// The shape of the trace that the proof names.
    pub fn get_trace_info(&self) -> (r: TraceInfo)
        ensures
            r == self@.trace_info,
    {
        self.trace_info
    }

    /// The parameters that the proof names.
    pub fn options(&self) -> (r: &ProofOptions)
        ensures
            *r == self@.options,
    {
        &self.options
    }
}

/// The cells of a list of field elements: its length, then the elements.
pub open spec fn list_cells(items: Seq<nat>) -> Seq<nat> {
    seq![items.len()] + items
}

/// The cells of some digests, one after the other.
pub open spec fn digests_body(digests: Seq<Seq<nat>>) -> Seq<nat>
    decreases digests.len(),
{
    if digests.len() == 0 {
        seq![]
    } else {
        digests_body(digests.drop_last()) + digests.last()
    }
}

/// The cells of a list of digests: its length, then the digests.
pub open spec fn digests_cells(digests: Seq<Seq<nat>>) -> Seq<nat> {
    seq![digests.len()] + digests_body(digests)
}

/// The cells of one query: its evaluations as a list, then its path as a list.
pub open spec fn query_cells(query: QueryModel) -> Seq<nat> {
    list_cells(query.evaluations) + digests_cells(query.path)
}

/// The cells of some queries, one after the other.
pub open spec fn queries_body(queries: Seq<QueryModel>) -> Seq<nat>
    decreases queries.len(),
{
    if queries.len() == 0 {
        seq![]
    } else {
        queries_body(queries.drop_last()) + query_cells(queries.last())
    }
}

/// The cells of a list of queries: its length, then the queries.
pub open spec fn queries_cells(queries: Seq<QueryModel>) -> Seq<nat> {
    seq![queries.len()] + queries_body(queries)
}

/// The queries at the places that `indices` names, in the order of `indices`.
pub open spec fn selection(queries: Seq<QueryModel>, indices: Seq<usize>) -> Seq<QueryModel> {
    Seq::new(indices.len(), |t: int| queries[indices[t] as int])
}

/// Whether each of the indices names one of `count` queries.
pub open spec fn in_range(indices: Seq<usize>, count: nat) -> bool {
    forall|t: int| 0 <= t < indices.len() ==> #[trigger] indices[t] < count
}

/// The cells of some folding rounds, each a list of queries, one after the other.
pub open spec fn layers_body(layers: Seq<Seq<QueryModel>>) -> Seq<nat>
    decreases layers.len(),
{
    if layers.len() == 0 {
        seq![]
    } else {
        layers_body(layers.drop_last()) + queries_cells(layers.last())
    }
}

/// The cells of the folding rounds where each round gives only the queries
/// that `indices` names.
pub open spec fn selected_layers_body(layers: Seq<Seq<QueryModel>>, indices: Seq<usize>) -> Seq<
    nat,
>
    decreases layers.len(),
{
    if layers.len() == 0 {
        seq![]
    } else {
        selected_layers_body(layers.drop_last(), indices) + queries_cells(
            selection(layers.last(), indices),
        )
    }
}

/// The cells of a whole FRI proof: the number of rounds, the rounds, and
/// the remainder as a list.
pub open spec fn fri_cells(fri: FriModel) -> Seq<nat> {
    seq![fri.layers.len()] + layers_body(fri.layers) + list_cells(fri.remainder)
}

/// The cells of the queries of a FRI proof that `indices` names: the number
/// of rounds, then for each round the list of the queries named.
pub open spec fn fri_selected_cells(fri: FriModel, indices: Seq<usize>) -> Seq<nat> {
    seq![fri.layers.len()] + selected_layers_body(fri.layers, indices)
}

/// The four cells that a proof starts with: the length and the width of
/// the trace, the size of the domain that the trace is extended to, and the
/// number of queries.
pub open spec fn header_cells(trace: TraceInfo, options: ProofOptions) -> Seq<nat> {
    seq![
        trace.length as nat,
        trace.width as nat,
        (trace.length * options.blowup_factor) as nat,
        options.num_queries as nat,
    ]
}

/// The cells of a whole proof: the header, the commitment to the trace, the
/// commitment to the constraints, the commitments of the folding rounds as
/// a list, the trace queries and the constraint queries as lists, the FRI
/// proof, and the nonce.
pub open spec fn proof_cells(proof: ProofModel) -> Seq<nat> {
    header_cells(proof.trace_info, proof.options) + proof.trace_commitment
        + proof.constraint_commitment + digests_cells(proof.fri_commitments) + queries_cells(
        proof.trace_queries,
    ) + queries_cells(proof.constraint_queries) + fri_cells(proof.fri) + seq![proof.pow_nonce]
}

/// Whether `indices` names only queries that each of the rounds holds.
pub open spec fn in_range_of_all(layers: Seq<Seq<QueryModel>>, indices: Seq<usize>) -> bool {
    forall|l: int| 0 <= l < layers.len() ==> in_range(indices, (#[trigger] layers[l]).len())
}

/// The cells of two runs of queries put end to end.
pub proof fn lemma_queries_body_concat(a: Seq<QueryModel>, b: Seq<QueryModel>)
    ensures
        queries_body(a + b) == queries_body(a) + queries_body(b),
    decreases b.len(),
{
    if b.len() == 0 {
        assert(a + b =~= a);
        assert(queries_body(a) + queries_body(b) =~= queries_body(a));
    } else {
        lemma_queries_body_concat(a, b.drop_last());
        assert((a + b).drop_last() =~= a + b.drop_last());
        assert((a + b).last() == b.last());
        assert(queries_body(a + b) =~= queries_body(a) + queries_body(b));
    }
}

/// The cell at which the encoding of the query at place `t` of a list starts.
pub open spec fn query_start(queries: Seq<QueryModel>, t: int) -> int {
    1 + queries_body(queries.take(t)).len() as int
}

/// The encoding of a list of queries holds, from `query_start` on, the
/// encoding of each of its queries, and the queries follow each other in
/// the order of the list.
pub proof fn lemma_query_in_place(queries: Seq<QueryModel>, t: int)
    requires
        0 <= t < queries.len(),
    ensures
        query_start(queries, t) + query_cells(queries[t]).len() == query_start(queries, t + 1),
        query_start(queries, t + 1) <= queries_cells(queries).len(),
        queries_cells(queries).subrange(query_start(queries, t), query_start(queries, t + 1))
            == query_cells(queries[t]),
{
    let front = queries.take(t);
    let upto = queries.take(t + 1);
    let rest = queries.skip(t + 1);
    assert(upto.drop_last() =~= front);
    assert(upto.last() == queries[t]);
    assert(queries =~= upto + rest);
    lemma_queries_body_concat(upto, rest);
    assert(queries_cells(queries).subrange(query_start(queries, t), query_start(queries, t + 1))
        =~= query_cells(queries[t]));
}

/// The starts of the queries of a list grow with their places.
pub proof fn lemma_query_starts_grow(queries: Seq<QueryModel>, s: int, t: int)
    requires
        0 <= s <= t <= queries.len(),
    ensures
        query_start(queries, s) <= query_start(queries, t),
    decreases t - s,
{
    if s < t {
        lemma_query_in_place(queries, s);
        lemma_query_starts_grow(queries, s + 1, t);
    }
}

/// An index that is asked for twice gives the encoding of its query twice,
/// the same cells both times, at the places of the two requests and in
/// their order.
pub proof fn lemma_repeated_index(queries: Seq<QueryModel>, indices: Seq<usize>, s: int, t: int)
    requires
        in_range(indices, queries.len()),
        0 <= s < t < indices.len(),
        indices[s] == indices[t],
    ensures
        ({
            let chosen = selection(queries, indices);
            let cells = queries_cells(chosen);
            let wanted = query_cells(queries[indices[s] as int]);
            &&& cells.subrange(query_start(chosen, s), query_start(chosen, s + 1)) == wanted
            &&& cells.subrange(query_start(chosen, t), query_start(chosen, t + 1)) == wanted
            &&& query_start(chosen, s + 1) <= query_start(chosen, t)
            &&& query_start(chosen, t + 1) <= cells.len()
        }),
{
    let chosen = selection(queries, indices);
    lemma_query_in_place(chosen, s);
    lemma_query_in_place(chosen, t);
    lemma_query_starts_grow(chosen, s + 1, t);
}

/// Whether a digest has its eight words.
pub open spec fn digests_whole(digests: Seq<Seq<nat>>) -> bool {
    forall|i: int| 0 <= i < digests.len() ==> (#[trigger] digests[i]).len() == 8
}

/// Whether two queries have the same shape: as many evaluations, and paths
/// of as many whole digests.
pub open spec fn query_alike(a: QueryModel, b: QueryModel) -> bool {
    &&& a.evaluations.len() == b.evaluations.len()
    &&& a.path.len() == b.path.len()
    &&& digests_whole(a.path)
    &&& digests_whole(b.path)
}

/// Whether two lists of queries have the same shape.
pub open spec fn queries_alike(a: Seq<QueryModel>, b: Seq<QueryModel>) -> bool {
    &&& a.len() == b.len()
    &&& forall|i: int| 0 <= i < a.len() ==> query_alike(#[trigger] a[i], b[i])
}

/// Whether two runs of folding rounds have the same shape.
pub open spec fn layers_alike(a: Seq<Seq<QueryModel>>, b: Seq<Seq<QueryModel>>) -> bool {
    &&& a.len() == b.len()
    &&& forall|i: int| 0 <= i < a.len() ==> queries_alike(#[trigger] a[i], b[i])
}

/// Whether two proofs have the same shape: the same trace shape and
/// parameters, and every list in the one as long as its counterpart in the
/// other.
pub open spec fn proofs_alike(a: ProofModel, b: ProofModel) -> bool {
    &&& a.trace_commitment.len() == 8 && b.trace_commitment.len() == 8
    &&& a.constraint_commitment.len() == 8 && b.constraint_commitment.len() == 8
    &&& a.fri_commitments.len() == b.fri_commitments.len()
    &&& digests_whole(a.fri_commitments) && digests_whole(b.fri_commitments)
    &&& queries_alike(a.trace_queries, b.trace_queries)
    &&& queries_alike(a.constraint_queries, b.constraint_queries)
    &&& layers_alike(a.fri.layers, b.fri.layers)
    &&& a.fri.remainder.len() == b.fri.remainder.len()
}

/// Whole digests take eight cells each.
pub proof fn lemma_digests_size(digests: Seq<Seq<nat>>)
    requires
        digests_whole(digests),
    ensures
        digests_body(digests).len() == 8 * digests.len(),
    decreases digests.len(),
{
    if digests.len() > 0 {
        let front = digests.drop_last();
        assert forall|i: int| 0 <= i < front.len() implies (#[trigger] front[i]).len() == 8 by {
            assert(front[i] == digests[i]);
        }
        lemma_digests_size(front);
        assert(digests[digests.len() - 1].len() == 8);
    }
}

/// Queries of the same shape take the same number of cells.
pub proof fn lemma_queries_size(a: Seq<QueryModel>, b: Seq<QueryModel>)
    requires
        queries_alike(a, b),
    ensures
        queries_body(a).len() == queries_body(b).len(),
        queries_cells(a).len() == queries_cells(b).len(),
    decreases a.len(),
{
    if a.len() > 0 {
        let fa = a.drop_last();
        let fb = b.drop_last();
        assert forall|i: int| 0 <= i < fa.len() implies query_alike(#[trigger] fa[i], fb[i]) by {
            assert(query_alike(a[i], b[i]));
        }
        lemma_queries_size(fa, fb);
        assert(query_alike(a[a.len() - 1], b[a.len() - 1]));
        lemma_digests_size(a.last().path);
        lemma_digests_size(b.last().path);
    }
}

/// Folding rounds of the same shape take the same number of cells.
pub proof fn lemma_layers_size(a: Seq<Seq<QueryModel>>, b: Seq<Seq<QueryModel>>)
    requires
        layers_alike(a, b),
    ensures
        layers_body(a).len() == layers_body(b).len(),
    decreases a.len(),
{
    if a.len() > 0 {
        let fa = a.drop_last();
        let fb = b.drop_last();
        assert forall|i: int| 0 <= i < fa.len() implies queries_alike(#[trigger] fa[i], fb[i]) by {
            assert(queries_alike(a[i], b[i]));
        }
        lemma_layers_size(fa, fb);
        assert(queries_alike(a[a.len() - 1], b[a.len() - 1]));
        lemma_queries_size(a.last(), b.last());
    }
}

/// The number of cells of a whole proof depends on its shape alone: two
/// proofs of the same shape take the same number of cells.
pub proof fn lemma_proof_size(a: ProofModel, b: ProofModel)
    requires
        proofs_alike(a, b),
    ensures
        proof_cells(a).len() == proof_cells(b).len(),
{
    lemma_digests_size(a.fri_commitments);
    lemma_digests_size(b.fri_commitments);
    lemma_queries_size(a.trace_queries, b.trace_queries);
    lemma_queries_size(a.constraint_queries, b.constraint_queries);
    lemma_layers_size(a.fri.layers, b.fri.layers);
}

} // verus!
