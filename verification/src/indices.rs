//! Index lists: which queries a caller asks for, in the caller's order.

use crate::json::{json_number_list, read_number_list};
use vstd::prelude::*;

verus! {

/// Why a text gives no index list.
#[derive(Clone, Copy, Debug, PartialEq, Eq, Structural)]
pub enum IndexListError {
    /// There is no text at all.
    Missing,
    /// The text is not a JSON list of non-negative integers that fit an index.
    Malformed,
}

/// Whether `indices` holds the numbers, each in its place.
pub open spec fn same_numbers(indices: Seq<usize>, numbers: Seq<u64>) -> bool {
    &&& indices.len() == numbers.len()
    &&& forall|i: int| 0 <= i < numbers.len() ==> #[trigger] indices[i] as int == numbers[i] as int
}

/// Whether each of the numbers fits an index.
pub open spec fn all_fit(numbers: Seq<u64>) -> bool {
    forall|i: int| 0 <= i < numbers.len() ==> #[trigger] numbers[i] <= usize::MAX
}

/// The numbers as indices, in the same order and with the same repetitions,
/// where each of them fits an index.
pub fn indices_from_numbers(numbers: &Vec<u64>) -> (r: Option<Vec<usize>>)
    ensures
        match r {
            Some(indices) => all_fit(numbers@) && same_numbers(indices@, numbers@),
            None => !all_fit(numbers@),
        },
{
    let mut out: Vec<usize> = Vec::new();
    let mut k: usize = 0;
    while k < numbers.len()
        invariant
            k <= numbers.len(),
            out.len() == k,
            forall|i: int| 0 <= i < k ==> #[trigger] numbers[i] <= usize::MAX,
            forall|i: int| 0 <= i < k ==> #[trigger] out[i] as int == numbers[i] as int,
        decreases numbers.len() - k,
    {
        let n: u64 = numbers[k];
        if n > usize::MAX as u64 {
            assert(!(numbers[k as int] <= usize::MAX));
            return None;
        }
        out.push(n as usize);
        k += 1;
    }
    Some(out)
}

/// The numbers as indices.
pub open spec fn as_indices(numbers: Seq<u64>) -> Seq<usize> {
    Seq::new(numbers.len(), |i: int| numbers[i] as usize)
}

/// The index list that a JSON text spells, where it spells one: the
/// numbers of the list in their order, each of them fitting an index.
pub open spec fn indices_of(text: Seq<char>) -> Option<Seq<usize>> {
    match json_number_list(text) {
        Some(numbers) => if all_fit(numbers) {
            Some(as_indices(numbers))
        } else {
            None
        },
        None => None,
    }
}

/// The index list of a command that needs one, or why there is none.
pub open spec fn index_argument(argument: Option<Seq<char>>) -> Result<
    Seq<usize>,
    IndexListError,
> {
    match argument {
        None => Err(IndexListError::Missing),
        Some(text) => match indices_of(text) {
            Some(indices) => Ok(indices),
            None => Err(IndexListError::Malformed),
        },
    }
}

/// The characters of a text that may be absent.
pub open spec fn text_of(argument: Option<String>) -> Option<Seq<char>> {
    match argument {
        Some(text) => Some(text@),
        None => None,
    }
}

/// The index list that a JSON text spells.
pub fn parse_indices(text: &str) -> (r: Result<Vec<usize>, IndexListError>)
    ensures
        match r {
            Ok(indices) => indices_of(text@) == Some(indices@),
            Err(e) => e == IndexListError::Malformed && indices_of(text@) is None,
        },
{
    match read_number_list(text) {
        Err(_) => Err(IndexListError::Malformed),
        Ok(numbers) => match indices_from_numbers(&numbers) {
            Some(indices) => {
                assert(indices@ =~= as_indices(numbers@));
                Ok(indices)
            },
            None => Err(IndexListError::Malformed),
        },
    }
}

/// The index list of a command that needs one.
pub fn required_indices(argument: &Option<String>) -> (r: Result<Vec<usize>, IndexListError>)
    ensures
        match r {
            Ok(indices) => index_argument(text_of(*argument)) == Ok::<
                Seq<usize>,
                IndexListError,
            >(indices@),
            Err(e) => index_argument(text_of(*argument)) == Err::<Seq<usize>, IndexListError>(e),
        },
{
    match argument {
        None => Err(IndexListError::Missing),
        Some(text) => parse_indices(text.as_str()),
    }
}

} // verus!
