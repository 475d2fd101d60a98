//! The ad-hoc user scope of the run command: placeholders written
//! `${name}`, resolved from the values prompted for at run time.

use vstd::prelude::*;

use crate::scan::{dedup_spec, insert_all, scan_spec, ParseError};
use crate::templates::parse;
use crate::templates::parse::{template_close, template_open};
use crate::value_map::ValueMap;

verus! {

/// The mutator of the ad-hoc user scope.
pub struct RunMutators {}

impl RunMutators {
    /// Replaces every `${key}` the value map binds by its value, in entry
    /// order.
    pub fn insert(&self, templated: &str, value_map: &ValueMap) -> (r: String)
        ensures
            r@ == insert_all(templated@, value_map@, template_open(), template_close()),
    {
        parse::insert_template_values(templated, value_map)
    }

    /// The names of the `${...}` placeholders of the template, each once.
    pub fn extract(&self, templated: &str) -> (r: Result<Vec<String>, ParseError>)
        ensures
            match r {
                Ok(names) => scan_spec(templated@, template_open(), template_close()) matches Ok(
                    all,
                ) && names.deep_view() == dedup_spec(all),
                Err(e) => scan_spec(templated@, template_open(), template_close()) == Err::<
                    Seq<Seq<char>>,
                    ParseError,
                >(e),
            },
    {
        parse::extract_template_names(templated)
    }
}

} // verus!
