//! The flat memory: a growing list of cells, each one field element, and
//! the writers that lay the parts of a proof out in it.

use crate::felt::Felt;
use crate::polynomial::values;
use crate::stark::{
    digest_models, digests_body, digests_cells, fri_cells, fri_selected_cells, header_cells,
    in_range, in_range_of_all, layer_models, layers_body, list_cells, proof_cells, queries_body,
    queries_cells, query_cells, query_models, selected_layers_body, selection, Digest, FriProof,
    Query, StarkProof,
};
use vstd::prelude::*;

verus! {

/// A memory under construction. Its view is the numbers in its cells.
pub struct Memory {
    cells: Vec<Felt>,
}

impl View for Memory {
    type V = Seq<nat>;

    closed spec fn view(&self) -> Seq<nat> {
        values(self.cells@)
    }
}

impl Memory {
    /// A memory with no cells.
    pub fn new() -> (r: Memory)
        ensures
            r@ == Seq::<nat>::empty(),
    {
        let r = Memory { cells: Vec::new() };
        assert(r@ =~= Seq::<nat>::empty());
        r
    }

    /// The number of cells written so far.
    pub fn len(&self) -> (r: usize)
        ensures
            r == self@.len(),
    {
        self.cells.len()
    }

    /// The cells, in the order in which they were written.
    pub fn into_cells(self) -> (r: Vec<Felt>)
        ensures
            values(r@) == self@,
    {
        self.cells
    }

    /// Writes one field element into the next cell.
    pub fn write_felt(&mut self, felt: Felt)
        ensures
            final(self)@ == old(self)@.push(felt@),
    {
        self.cells.push(felt);
        assert(self@ =~= old(self)@.push(felt@));
    }

    /// Writes a number of items into the next cell.
    pub fn write_count(&mut self, count: usize)
        ensures
            final(self)@ == old(self)@.push(count as nat),
    {
        self.write_felt(Felt::from_u64(count as u64));
    }

    /// Writes a number into the next cell.
    pub fn write_number(&mut self, number: u128)
        ensures
            final(self)@ == old(self)@.push(number as nat),
    {
        self.write_felt(Felt::from_u128(number));
    }

    /// Writes a digest into the next eight cells, one word to a cell.
    pub fn write_digest(&mut self, digest: &Digest)
        ensures
            final(self)@ == old(self)@ + digest@,
    {
        let mut i: usize = 0;
        while i < 8
            invariant
                i <= 8,
                self@ == old(self)@ + digest@.take(i as int),
            decreases 8 - i,
        {
            self.write_felt(Felt::from_u64(digest.words[i] as u64));
            assert(digest@.take(i + 1) =~= digest@.take(i as int).push(digest@[i as int]));
            i += 1;
        }
        assert(digest@.take(8) =~= digest@);
    }

    /// Writes a list of field elements: its length, then the elements.
    pub fn write_list(&mut self, items: &Vec<Felt>)
        ensures
            final(self)@ == old(self)@ + list_cells(values(items@)),
    {
        let ghost all = values(items@);
        self.write_count(items.len());
        let mut i: usize = 0;
        while i < items.len()
            invariant
                i <= items.len(),
                all == values(items@),
                self@ == old(self)@ + seq![all.len()] + all.take(i as int),
            decreases items.len() - i,
        {
            self.write_felt(items[i]);
            assert(all.take(i + 1) =~= all.take(i as int).push(all[i as int]));
            i += 1;
        }
        assert(all.take(all.len() as int) =~= all);
    }

    /// Writes a list of digests: its length, then the digests.
    pub fn write_digests(&mut self, digests: &Vec<Digest>)
        ensures
            final(self)@ == old(self)@ + digests_cells(digest_models(digests@)),
    {
        let ghost all = digest_models(digests@);
        self.write_count(digests.len());
        let mut i: usize = 0;
        while i < digests.len()
            invariant
                i <= digests.len(),
                all == digest_models(digests@),
                self@ == old(self)@ + seq![all.len()] + digests_body(all.take(i as int)),
            decreases digests.len() - i,
        {
            self.write_digest(&digests[i]);
            proof {
                let next = all.take(i + 1);
                assert(next.drop_last() =~= all.take(i as int));
                assert(next.last() == digests[i as int]@);
            }
            i += 1;
        }
        assert(all.take(all.len() as int) =~= all);
    }

    /// Writes one query: its evaluations as a list, then its path as a list.
    pub fn write_query(&mut self, query: &Query)
        ensures
            final(self)@ == old(self)@ + query_cells(query@),
    {
        self.write_list(&query.evaluations);
        self.write_digests(&query.path);
    }

    /// Writes a list of queries: its length, then the queries.
    pub fn write_queries(&mut self, queries: &Vec<Query>)
        ensures
            final(self)@ == old(self)@ + queries_cells(query_models(queries@)),
    {
        let ghost all = query_models(queries@);
        self.write_count(queries.len());
        let mut i: usize = 0;
        while i < queries.len()
            invariant
                i <= queries.len(),
                all == query_models(queries@),
                self@ == old(self)@ + seq![all.len()] + queries_body(all.take(i as int)),
            decreases queries.len() - i,
        {
            self.write_query(&queries[i]);
            proof {
                let next = all.take(i + 1);
                assert(next.drop_last() =~= all.take(i as int));
                assert(next.last() == queries[i as int]@);
            }
            i += 1;
        }
        assert(all.take(all.len() as int) =~= all);
    }

    /// Writes the queries that `indices` names as a list, in the order of
    /// `indices` and as often as `indices` names them.
    pub(crate) fn write_selected(&mut self, queries: &Vec<Query>, indices: &Vec<usize>)
        requires
            in_range(indices@, queries.len() as nat),
        ensures
            final(self)@ == old(self)@ + queries_cells(
                selection(query_models(queries@), indices@),
            ),
    {
        let ghost chosen = selection(query_models(queries@), indices@);
        self.write_count(indices.len());
        let mut t: usize = 0;
        while t < indices.len()
            invariant
                t <= indices.len(),
                in_range(indices@, queries.len() as nat),
                chosen == selection(query_models(queries@), indices@),
                self@ == old(self)@ + seq![chosen.len()] + queries_body(chosen.take(t as int)),
            decreases indices.len() - t,
        {
            let index: usize = indices[t];
            self.write_query(&queries[index]);
            proof {
                let next = chosen.take(t + 1);
                assert(next.drop_last() =~= chosen.take(t as int));
                assert(next.last() == queries[index as int]@);
            }
            t += 1;
        }
        assert(chosen.take(chosen.len() as int) =~= chosen);
    }

    /// Writes a whole FRI proof: the number of rounds, each round as a list
    /// of queries, and the remainder as a list.
    pub fn write_fri(&mut self, fri: &FriProof)
        ensures
            final(self)@ == old(self)@ + fri_cells(fri@),
    {
        let ghost all = layer_models(fri.layers@);
        self.write_count(fri.layers.len());
        let mut l: usize = 0;
        while l < fri.layers.len()
            invariant
                l <= fri.layers.len(),
                all == layer_models(fri.layers@),
                self@ == old(self)@ + seq![all.len()] + layers_body(all.take(l as int)),
            decreases fri.layers.len() - l,
        {
            self.write_queries(&fri.layers[l].queries);
            proof {
                let next = all.take(l + 1);
                assert(next.drop_last() =~= all.take(l as int));
                assert(next.last() == fri.layers[l as int]@);
            }
            l += 1;
        }
        assert(all.take(all.len() as int) =~= all);
        self.write_list(&fri.remainder);
    }

    /// Writes the number of rounds of a FRI proof and, for each round, the
    /// list of the queries that `indices` names.
    pub(crate) fn write_fri_selected(&mut self, fri: &FriProof, indices: &Vec<usize>)
        requires
            in_range_of_all(fri@.layers, indices@),
        ensures
            final(self)@ == old(self)@ + fri_selected_cells(fri@, indices@),
    {
        let ghost all = layer_models(fri.layers@);
        self.write_count(fri.layers.len());
        let mut l: usize = 0;
        while l < fri.layers.len()
            invariant
                l <= fri.layers.len(),
                all == layer_models(fri.layers@),
                in_range_of_all(all, indices@),
                self@ == old(self)@ + seq![all.len()] + selected_layers_body(
                    all.take(l as int),
                    indices@,
                ),
            decreases fri.layers.len() - l,
        {
            proof {
                assert(all[l as int] == fri.layers[l as int]@);
                assert(in_range(indices@, all[l as int].len()));
            }
            self.write_selected(&fri.layers[l].queries, indices);
            proof {
                let next = all.take(l + 1);
                assert(next.drop_last() =~= all.take(l as int));
                assert(next.last() == fri.layers[l as int]@);
            }
            l += 1;
        }
        assert(all.take(all.len() as int) =~= all);
    }

    /// Writes a whole proof: the header, the commitments, the queries, the
    /// FRI proof and the nonce.
    pub fn write_proof(&mut self, proof: &StarkProof)
        ensures
            final(self)@ == old(self)@ + proof_cells(proof@),
    {
        let length: u128 = proof.trace_info.length as u128;
        let blowup: u128 = proof.options.blowup_factor as u128;
        assert(length * blowup <= 0xffff_ffff_ffff_ffff * 0xffff_ffff_ffff_ffff)
            by (nonlinear_arith)
            requires
                length <= 0xffff_ffff_ffff_ffff,
                blowup <= 0xffff_ffff_ffff_ffff,
        ;
        self.write_count(proof.trace_info.length);
        self.write_count(proof.trace_info.width);
        self.write_number(length * blowup);
        self.write_count(proof.options.num_queries);
        assert(self@ =~= old(self)@ + header_cells(proof@.trace_info, proof@.options));
        self.write_digest(&proof.trace_commitment);
        self.write_digest(&proof.constraint_commitment);
        self.write_digests(&proof.fri_commitments);
        self.write_queries(&proof.trace_queries);
        self.write_queries(&proof.constraint_queries);
        self.write_fri(&proof.fri_proof);
        self.write_number(proof.pow_nonce as u128);
        assert(self@ =~= old(self)@ + proof_cells(proof@));
    }
}

} // verus!
