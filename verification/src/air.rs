//! The description of the computation that a proof is about: the shape of
//! the execution trace, the parameters of the proof, and the public
//! statement. It is rebuilt from these three for each command.

use crate::stark::PublicInputs;
use vstd::arithmetic::power2::{lemma_pow2_strictly_increases, lemma_pow2_unfold, pow2};
use vstd::prelude::*;

verus! {

/// The smallest trace length.
pub const MIN_TRACE_LENGTH: usize = 8;

/// The largest trace width.
pub const MAX_TRACE_WIDTH: usize = 255;

/// The shape of an execution trace.
#[derive(Clone, Copy, Debug, PartialEq, Eq, Structural)]
pub struct TraceInfo {
    pub width: usize,
    pub length: usize,
}

/// The parameters that a proof was made with.
#[derive(Clone, Copy, Debug, PartialEq, Eq, Structural)]
pub struct ProofOptions {
    pub num_queries: usize,
    pub blowup_factor: usize,
    pub grinding_factor: u32,
    pub folding_factor: usize,
    pub max_remainder_size: usize,
}

/// What is wrong with the parts that a description is to be built from.
#[derive(Clone, Copy, Debug, PartialEq, Eq, Structural)]
pub enum AirError {
    /// The trace width is zero or above 255.
    TraceWidth,
    /// The trace length is below 8 or no power of two.
    TraceLength,
    /// The number of queries is zero or above 128.
    QueryCount,
    /// The blowup factor is no power of two from 2 to 128.
    BlowupFactor,
    /// The grinding factor is above 32.
    GrindingFactor,
    /// The folding factor is no power of two from 4 to 16.
    FoldingFactor,
    /// The largest remainder size is no power of two from 32 to 1024.
    RemainderSize,
    /// There are more public inputs than the trace has rows.
    PublicInputs,
}

/// Whether `n` is a power of two.
pub open spec fn is_power_of_two(n: nat) -> bool
    decreases n,
{
    n == 1 || (n >= 2 && n % 2 == 0 && is_power_of_two(n / 2))
}

/// The first thing that is wrong with the parts, in the order in which
/// they are looked at; `None` where a description can be built.
pub open spec fn air_defect(trace: TraceInfo, inputs: nat, options: ProofOptions) -> Option<
    AirError,
> {
    if !(1 <= trace.width <= MAX_TRACE_WIDTH) {
        Some(AirError::TraceWidth)
    } else if !(trace.length >= MIN_TRACE_LENGTH && is_power_of_two(trace.length as nat)) {
        Some(AirError::TraceLength)
    } else if !(1 <= options.num_queries <= 128) {
        Some(AirError::QueryCount)
    } else if !(2 <= options.blowup_factor <= 128 && is_power_of_two(
        options.blowup_factor as nat,
    )) {
        Some(AirError::BlowupFactor)
    } else if !(options.grinding_factor <= 32) {
        Some(AirError::GrindingFactor)
    } else if !(4 <= options.folding_factor <= 16 && is_power_of_two(
        options.folding_factor as nat,
    )) {
        Some(AirError::FoldingFactor)
    } else if !(32 <= options.max_remainder_size <= 1024 && is_power_of_two(
        options.max_remainder_size as nat,
    )) {
        Some(AirError::RemainderSize)
    } else if !(inputs <= trace.length) {
        Some(AirError::PublicInputs)
    } else {
        None
    }
}

/// The number of folding rounds that bring a domain of `domain` points
/// down to at most `max_remainder` points, each round dividing by `folding`.
pub open spec fn fri_layers(domain: nat, folding: nat, max_remainder: nat) -> nat
    decreases domain,
    via fri_layers_shrink
{
    if folding >= 2 && domain > max_remainder {
        1 + fri_layers(domain / folding, folding, max_remainder)
    } else {
        0
    }
}

#[via_fn]
proof fn fri_layers_shrink(domain: nat, folding: nat, max_remainder: nat) {
    if folding >= 2 && domain > max_remainder {
        vstd::arithmetic::div_mod::lemma_div_decreases(domain as int, folding as int);
    }
}

/// The number of folding rounds of a proof for a trace of the shape
/// `trace`, made with the parameters `options`.
pub open spec fn layer_count_of(trace: TraceInfo, options: ProofOptions) -> nat {
    fri_layers(
        (trace.length * options.blowup_factor) as nat,
        options.folding_factor as nat,
        options.max_remainder_size as nat,
    )
}

/// Whether `n` is a power of two.
pub fn power_of_two(n: usize) -> (r: bool)
    ensures
        r == is_power_of_two(n as nat),
{
    if n == 0 {
        return false;
    }
    let mut m: usize = n;
    while m % 2 == 0
        invariant
            m >= 1,
            is_power_of_two(m as nat) == is_power_of_two(n as nat),
        decreases m,
    {
        m = m / 2;
    }
    m == 1
}

/// The description of a computation.
#[derive(Debug)]
pub struct Air {
    trace_info: TraceInfo,
    options: ProofOptions,
    public_inputs: PublicInputs,
}

impl Air {
    /// A description holds only parts that have nothing wrong with them.
    #[verifier::type_invariant]
    pub closed spec fn sound(&self) -> bool {
        air_defect(self.trace_info, self.public_inputs@.len(), self.options) is None
    }

    /// The shape of the trace.
    pub closed spec fn trace(&self) -> TraceInfo {
        self.trace_info
    }

    /// The parameters of the proof.
    pub closed spec fn parameters(&self) -> ProofOptions {
        self.options
    }

    /// The public statement.
    pub closed spec fn inputs(&self) -> Seq<nat> {
        self.public_inputs@
    }

    /// The number of points of the domain that the trace is extended to.
    pub open spec fn domain_size(&self) -> nat {
        (self.trace().length * self.parameters().blowup_factor) as nat
    }

    /// The number of folding rounds that a proof for this description has.
    pub open spec fn layer_count(&self) -> nat {
        layer_count_of(self.trace(), self.parameters())
    }

    /// The description built from the shape of a trace, a public statement
    /// and the parameters of a proof; or what is wrong with them.
    pub fn new(trace_info: TraceInfo, public_inputs: PublicInputs, options: ProofOptions) -> (r:
        Result<Air, AirError>)
        ensures
            match r {
                Ok(air) => {
                    &&& air_defect(trace_info, public_inputs@.len(), options) is None
                    &&& air.trace() == trace_info
                    &&& air.parameters() == options
                    &&& air.inputs() == public_inputs@
                },
                Err(e) => air_defect(trace_info, public_inputs@.len(), options) == Some(e),
            },
    {
        if trace_info.width < 1 || trace_info.width > MAX_TRACE_WIDTH {
            return Err(AirError::TraceWidth);
        }
        if trace_info.length < MIN_TRACE_LENGTH || !power_of_two(trace_info.length) {
            return Err(AirError::TraceLength);
        }
        if options.num_queries < 1 || options.num_queries > 128 {
            return Err(AirError::QueryCount);
        }
        if options.blowup_factor < 2 || options.blowup_factor > 128 || !power_of_two(
            options.blowup_factor,
        ) {
            return Err(AirError::BlowupFactor);
        }
        if options.grinding_factor > 32 {
            return Err(AirError::GrindingFactor);
        }
        if options.folding_factor < 4 || options.folding_factor > 16 || !power_of_two(
            options.folding_factor,
        ) {
            return Err(AirError::FoldingFactor);
        }
        if options.max_remainder_size < 32 || options.max_remainder_size > 1024 || !power_of_two(
            options.max_remainder_size,
        ) {
            return Err(AirError::RemainderSize);
        }
        if public_inputs.elements.len() > trace_info.length {
            return Err(AirError::PublicInputs);
        }
        Ok(Air { trace_info, options, public_inputs })
    }

    /// The shape of the trace.
    pub fn trace_info(&self) -> (r: TraceInfo)
        ensures
            r == self.trace(),
            air_defect(self.trace(), self.inputs().len(), self.parameters()) is None,
    {
        proof {
            use_type_invariant(self);
        }
        self.trace_info
    }

    /// The parameters of the proof.
    pub fn options(&self) -> (r: ProofOptions)
        ensures
            r == self.parameters(),
            air_defect(self.trace(), self.inputs().len(), self.parameters()) is None,
    {
        proof {
            use_type_invariant(self);
        }
        self.options
    }

    /// The public statement.
    pub fn public_inputs(&self) -> (r: &PublicInputs)
        ensures
            r@ == self.inputs(),
    {
        &self.public_inputs
    }

    /// The number of points of the domain that the trace is extended to.
    pub fn lde_domain_size(&self) -> (r: u128)
        ensures
            r == self.domain_size(),
            16 <= r <= 0xffff_ffff_ffff_ffff * 128,
    {
        proof {
            use_type_invariant(self);
        }
        let length: u128 = self.trace_info.length as u128;
        let blowup: u128 = self.options.blowup_factor as u128;
        assert(16 <= length * blowup <= 0xffff_ffff_ffff_ffff * 128) by (nonlinear_arith)
            requires
                8 <= length <= 0xffff_ffff_ffff_ffff,
                2 <= blowup <= 128,
        ;
        length * blowup
    }

    /// The number of folding rounds that a proof for this description has.
    pub fn fri_layer_count(&self) -> (r: usize)
        ensures
            r == self.layer_count(),
            r <= 128,
    {
        proof {
            use_type_invariant(self);
        }
        let folding: u128 = self.options.folding_factor as u128;
        let limit: u128 = self.options.max_remainder_size as u128;
        let whole: u128 = self.lde_domain_size();
        let mut domain: u128 = whole;
        let mut count: usize = 0;
        proof {
            lemma_pow2_unfold(1);
            assert(pow2(0) == 1) by {
                vstd::arithmetic::power2::lemma2_to64();
            }
        }
        while domain > limit
            invariant
                4 <= folding <= 16,
                32 <= limit,
                count <= 128,
                domain * pow2(count as nat) <= whole,
                whole <= 0xffff_ffff_ffff_ffff * 128,
                count + fri_layers(domain as nat, folding as nat, limit as nat) == fri_layers(
                    whole as nat,
                    folding as nat,
                    limit as nat,
                ),
            decreases domain,
        {
            proof {
                let p = pow2(count as nat);
                let next = (domain / folding) as nat;
                lemma_pow2_unfold((count + 1) as nat);
                assert(2 * (domain / folding) <= domain) by (nonlinear_arith)
                    requires
                        folding >= 4,
                ;
                assert(next * (2 * p) <= domain * p) by (nonlinear_arith)
                    requires
                        2 * next <= domain,
                        p >= 0,
                ;
                // the count stays small: two to its power is below two to the 72
                if count >= 72 {
                    lemma_pow2_strictly_increases(71, count as nat);
                    vstd::arithmetic::power2::lemma2_to64_rest();
                    lemma_pow2_unfold(65);
                    lemma_pow2_unfold(66);
                    lemma_pow2_unfold(67);
                    lemma_pow2_unfold(68);
                    lemma_pow2_unfold(69);
                    lemma_pow2_unfold(70);
                    lemma_pow2_unfold(71);
                    assert(domain * p >= p) by (nonlinear_arith)
                        requires
                            domain >= 1,
                            p >= 0,
                    ;
                    assert(false);
                }
            }
            domain = domain / folding;
            count = count + 1;
        }
        count
    }
}

} // verus!
