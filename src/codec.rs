use crate::table::{entries_view, unique_keys};
use std::collections::BTreeMap;
use std::time::Instant;
use vstd::prelude::*;

verus! {

#[verifier::external_type_specification]
#[verifier::external_body]
pub struct ExInstant(std::time::Instant);

#[verifier::external_type_specification]
#[verifier::external_body]
pub struct ExJsonError(serde_json::Error);

/// The JSON text of a store's contents: an array of two objects, the first
/// mapping each scalar key to its payload, the second each list key to its
/// array of payloads, keys in ascending order.
pub uninterp spec fn tables_json(
    scalars: Map<Seq<char>, Seq<char>>,
    lists: Map<Seq<char>, Seq<Seq<char>>>,
) -> Seq<char>;

/// Relies on serde_json::to_string on a pair of `BTreeMap`s: the text depends
/// on the two mappings alone, and serialization cannot fail, since every map
/// key is a string and the `Serialize` impls of maps, tuples, vectors and
/// strings do not fail. The entries are moved into the maps one for one,
/// their keys being unique.
#[verifier::external_body]
pub(crate) fn encode_tables(
    scalars: &Vec<(String, String)>,
    lists: &Vec<(String, Vec<String>)>,
) -> (r: Option<String>)
    requires
        unique_keys(scalars@),
        unique_keys(lists@),
    ensures
        r is Some,
        r matches Some(t) ==> t@ == tables_json(entries_view(scalars@), entries_view(lists@)),
{
    let s: BTreeMap<&str, &str> = scalars.iter().map(|e| (e.0.as_str(), e.1.as_str())).collect();
    let l: BTreeMap<&str, &Vec<String>> = lists.iter().map(|e| (e.0.as_str(), &e.1)).collect();
    serde_json::to_string(&(s, l)).ok()
}

/// The mappings that a dump text holds, where it parses as a pair of JSON
/// objects, the first of strings, the second of arrays of strings.
pub uninterp spec fn parsed_tables(text: Seq<char>) -> Option<
    (Map<Seq<char>, Seq<char>>, Map<Seq<char>, Seq<Seq<char>>>),
>;

/// Relies on serde_json::from_str into a pair of `BTreeMap`s: the result
/// depends on the text alone, and its keys are unique, being those of the
/// maps. The maps are moved into vectors one for one.
#[verifier::external_body]
pub(crate) fn decode_tables(text: &str) -> (r: Result<
    (Vec<(String, String)>, Vec<(String, Vec<String>)>),
    serde_json::Error,
>)
    ensures
        r is Ok <==> parsed_tables(text@) is Some,
        r matches Ok((s, l)) ==> unique_keys(s@) && unique_keys(l@) && parsed_tables(text@)
            == Some((entries_view(s@), entries_view(l@))),
{
    match serde_json::from_str::<(BTreeMap<String, String>, BTreeMap<String, Vec<String>>)>(text) {
        Ok((s, l)) => Ok((s.into_iter().collect(), l.into_iter().collect())),
        Err(e) => Err(e),
    }
}

/// Relies on Instant::now: the current instant of the monotonic clock.
#[verifier::external_body]
pub(crate) fn now() -> (r: Instant) {
    Instant::now()
}

/// Relies on Instant::elapsed: the time since `earlier`, in nanoseconds.
#[verifier::external_body]
pub(crate) fn nanos_since(earlier: &Instant) -> (r: u128) {
    earlier.elapsed().as_nanos()
}

} // verus!
