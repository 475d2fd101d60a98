//! Placeholder extraction and substitution for an arbitrary delimiter pair.

use vstd::prelude::*;

use crate::scan;
use crate::scan::{delims_ok, dedup_spec, insert_all, scan_spec, ParseError};
use crate::value_map::ValueMap;

verus! {

/// The names of the `opening ... closing` placeholders of the template,
/// each once, first occurrence first; or the scan's parse error.
pub fn extract_variable_names(templated: &str, opening: &str, closing: &str) -> (r: Result<
    Vec<String>,
    ParseError,
>)
    requires
        delims_ok(opening@, closing@),
    ensures
        match r {
            Ok(names) => scan_spec(templated@, opening@, closing@) matches Ok(all)
                && names.deep_view() == dedup_spec(all),
            Err(e) => scan_spec(templated@, opening@, closing@) == Err::<
                Seq<Seq<char>>,
                ParseError,
            >(e),
        },
{
    scan::extract_names(templated, opening, closing)
}

/// Replaces, for every entry of the value map in entry order, every
/// occurrence of `opening + key + closing` by the entry's value.
pub fn insert_variable_values(
    templated_str: &str,
    value_map: &ValueMap,
    opening: &str,
    closing: &str,
) -> (r: String)
    requires
        opening@.len() > 0,
    ensures
        r@ == insert_all(templated_str@, value_map@, opening@, closing@),
{
    scan::insert_entries(templated_str, value_map.entry_list(), opening, closing)
}

} // verus!
