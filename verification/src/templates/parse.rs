//! Placeholder extraction and substitution for the ad-hoc template scope,
//! whose placeholders are written `${name}`.

use vstd::prelude::*;

use crate::scan;
use crate::scan::{delims_ok, dedup_spec, insert_all, scan_spec, ParseError};
use crate::value_map::ValueMap;

verus! {

/// The opening token of an ad-hoc template placeholder: `${`.
pub open spec fn template_open() -> Seq<char> {
    seq!['$', '{']
}

/// The closing token of a template placeholder: `}`.
pub open spec fn template_close() -> Seq<char> {
    seq!['}']
}

/// The literal delimiter tokens have those views, and they form a sane
/// delimiter pair.
pub proof fn lemma_template_delims()
    ensures
        "${"@ == template_open(),
        "}"@ == template_close(),
        delims_ok(template_open(), template_close()),
{
    reveal_strlit("${");
    reveal_strlit("}");
    assert("${"@ =~= template_open());
    assert("}"@ =~= template_close());
    assert forall|k: int| 0 <= k < template_open().len() implies #[trigger] scan::overlap_breaks(
        template_open(),
        template_close(),
        k,
    ) by {
        assert(template_close()[0] != template_open()[k + 0]);
    }
}

/// The names of the `${...}` placeholders of the template, each once, first
/// occurrence first; or the scan's parse error.
pub fn extract_template_names(templated: &str) -> (r: Result<Vec<String>, ParseError>)
    ensures
        match r {
            Ok(names) => scan_spec(templated@, template_open(), template_close()) matches Ok(all)
                && names.deep_view() == dedup_spec(all),
            Err(e) => scan_spec(templated@, template_open(), template_close()) == Err::<
                Seq<Seq<char>>,
                ParseError,
            >(e),
        },
{
    proof {
        lemma_template_delims();
    }
    scan::extract_names(templated, "${", "}")
}

/// Replaces, for every entry of the value map in entry order, every
/// occurrence of `${key}` by the entry's value.
pub fn insert_template_values(templated_str: &str, value_map: &ValueMap) -> (r: String)
    ensures
        r@ == insert_all(templated_str@, value_map@, template_open(), template_close()),
{
    proof {
        lemma_template_delims();
    }
    scan::insert_entries(templated_str, value_map.entry_list(), "${", "}")
}

} // verus!
