//! Lists read from JSON text.
//!
//! The reading itself is `serde_json`'s; what it returns for a text is given
//! a name here, and the rest of the library is stated over that name.

use vstd::prelude::*;

verus! {

#[verifier::external_type_specification]
#[verifier::external_body]
pub struct ExJsonError(serde_json::Error);

/// The list of numbers that `serde_json` reads from `text` as a `Vec<u64>`,
/// where it reads one.
pub uninterp spec fn json_number_list(text: Seq<char>) -> Option<Seq<u64>>;

/// The list of strings that `serde_json` reads from `text` as a
/// `Vec<String>`, where it reads one.
pub uninterp spec fn json_string_list(text: Seq<char>) -> Option<Seq<Seq<char>>>;

/// The character sequences of a list of strings.
pub open spec fn texts(items: Seq<String>) -> Seq<Seq<char>> {
    Seq::new(items.len(), |i: int| items[i]@)
}

/// `serde_json::from_str` at the type `Vec<u64>`. The result depends on the
/// text alone: it is `json_number_list` of the text, an error standing for
/// `None`.
#[verifier::external_body]
pub(crate) fn read_number_list(text: &str) -> (r: Result<Vec<u64>, serde_json::Error>)
    ensures
        match r {
            Ok(numbers) => json_number_list(text@) == Some(numbers@),
            Err(_) => json_number_list(text@) is None,
        },
{
    serde_json::from_str::<Vec<u64>>(text)
}

/// `serde_json::from_str` at the type `Vec<String>`. The result depends on
/// the text alone: it is `json_string_list` of the text, an error standing
/// for `None`.
#[verifier::external_body]
pub(crate) fn read_string_list(text: &str) -> (r: Result<Vec<String>, serde_json::Error>)
    ensures
        match r {
            Ok(items) => json_string_list(text@) == Some(texts(items@)),
            Err(_) => json_string_list(text@) is None,
        },
{
    serde_json::from_str::<Vec<String>>(text)
}

} // verus!
