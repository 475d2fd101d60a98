//! The endpoint command helpers: key discovery over the separate template
//! parts, and the command string for an endpoint given as parts.

use vstd::prelude::*;

use super::utils;
use super::utils::{data_str_spec, quoted_headers_str};
use crate::scan::{dedup_spec, insert_all, scan_spec, ParseError};
use crate::templates::parse::{template_close, template_open};
use crate::value_map::ValueMap;

verus! {

/// The placeholder names found in each templated part, or `None` for a part
/// that does not parse.
pub struct Templates {
    pub endpoint: Option<Vec<String>>,
    pub data: Option<Vec<String>>,
    pub base_url: Option<Vec<String>>,
    pub headers: Option<Vec<String>>,
}

/// The names of one part, or `None` exactly when its scan fails.
pub open spec fn part_keys_ok(names: Option<Vec<String>>, text: Seq<char>) -> bool {
    match names {
        Some(names) => scan_spec(text, template_open(), template_close()) matches Ok(all)
            && names.deep_view() == dedup_spec(all),
        None => scan_spec(text, template_open(), template_close()) is Err,
    }
}

/// Scans each templated part for its placeholder keys; a part that does not
/// parse yields no keys.
pub fn get_template_keys(
    endpoint: &String,
    data: &String,
    base_url: &String,
    headers: &String,
) -> (r: Templates)
    ensures
        part_keys_ok(r.endpoint, endpoint@),
        part_keys_ok(r.data, data@),
        part_keys_ok(r.base_url, base_url@),
        part_keys_ok(r.headers, headers@),
{
    let endpoint_templates = extract_template_names(endpoint).ok();
    let data_templates = extract_template_names(data).ok();
    let base_url_templates = extract_template_names(base_url).ok();
    let header_templates = extract_template_names(headers).ok();
    Templates {
        endpoint: endpoint_templates,
        data: data_templates,
        base_url: base_url_templates,
        headers: header_templates,
    }
}

/// The command string for an endpoint: request marker, method, quoted
/// headers, quoted data, then the base url (when given) and the endpoint.
pub open spec fn curl_endpoint_parts_spec(
    endpoint: Seq<char>,
    method: Seq<char>,
    data: Option<Seq<char>>,
    base_url: Option<Seq<char>>,
    headers: Option<Seq<Seq<char>>>,
) -> Seq<char> {
    let url = match base_url {
        Some(b) => " "@ + b + endpoint,
        None => " "@ + endpoint,
    };
    let header_str = match headers {
        Some(hs) => quoted_headers_str(hs),
        None => Seq::empty(),
    };
    let data_str = match data {
        Some(d) => " --data '"@ + d + "'"@,
        None => Seq::empty(),
    };
    "--request "@ + method + header_str + data_str + url
}

/// Builds the whole curl command string for an endpoint given as parts.
pub fn construct_curl_endpoint(
    endpoint: &String,
    method: &String,
    data: &Option<String>,
    base_url: &Option<String>,
    headers: &Option<Vec<String>>,
) -> (r: String)
    ensures
        r@ == curl_endpoint_parts_spec(
            endpoint@,
            method@,
            match data {
                Some(d) => Some(d@),
                None => None,
            },
            match base_url {
                Some(b) => Some(b@),
                None => None,
            },
            match headers {
                Some(hs) => Some(hs.deep_view()),
                None => None,
            },
        ),
{
    let mut out = String::new();
    out.append("--request ");
    out.append(method.as_str());
    match headers {
        Some(hs) => {
            let mut i: usize = 0;
            let ghost after_method = out@;
            while i < hs.len()
                invariant
                    i <= hs@.len(),
                    out@ == after_method + quoted_headers_str(hs.deep_view().take(i as int)),
                decreases hs@.len() - i,
            {
                out.append(" --header '");
                out.append(hs[i].as_str());
                out.append("'");
                proof {
                    utils::lemma_quoted_headers_push(
                        hs.deep_view().take(i as int),
                        hs.deep_view()[i as int],
                    );
                    assert(hs.deep_view().take(i + 1) =~= hs.deep_view().take(i as int).push(
                        hs.deep_view()[i as int],
                    ));
                    assert(out@ =~= after_method + quoted_headers_str(
                        hs.deep_view().take(i + 1),
                    ));
                }
                i += 1;
            }
            proof {
                assert(hs.deep_view().take(hs@.len() as int) =~= hs.deep_view());
            }
        },
        None => {},
    }
    match data {
        Some(d) => {
            out.append(" --data '");
            out.append(d.as_str());
            out.append("'");
        },
        None => {},
    }
    out.append(" ");
    match base_url {
        Some(b) => {
            out.append(b.as_str());
        },
        None => {},
    }
    out.append(endpoint.as_str());
    proof {
        assert(out@ =~= curl_endpoint_parts_spec(
            endpoint@,
            method@,
            match data {
                Some(d) => Some(d@),
                None => None,
            },
            match base_url {
                Some(b) => Some(b@),
                None => None,
            },
            match headers {
                Some(hs) => Some(hs.deep_view()),
                None => None,
            },
        ));
    }
    out
}

/// The names of the `${...}` placeholders of the template, each once; or
/// the scan's parse error.
pub fn extract_template_names(templated: &String) -> (r: Result<Vec<String>, ParseError>)
    ensures
        match r {
            Ok(names) => scan_spec(templated@, template_open(), template_close()) matches Ok(all)
                && names.deep_view() == dedup_spec(all),
            Err(e) => scan_spec(templated@, template_open(), template_close()) == Err::<
                Seq<Seq<char>>,
                ParseError,
            >(e),
        },
{
    utils::extract_template_names(templated.as_str())
}

/// Replaces every `${key}` the value map binds by its value, in entry
/// order.
pub fn insert_template_values(templated_str: &String, value_map: ValueMap) -> (r: String)
    ensures
        r@ == insert_all(templated_str@, value_map@, template_open(), template_close()),
{
    utils::insert_template_values(templated_str.as_str(), &value_map)
}

} // verus!
