//! Curl argument assembly, and the template helpers the endpoint commands
//! use.

use vstd::prelude::*;

use crate::scan::{dedup_spec, insert_all, scan_spec, ParseError};
use crate::templates::parse;
use crate::templates::parse::{template_close, template_open};
use crate::value_map::ValueMap;

verus! {

/// Every header, each written ` --header '...'`.
pub open spec fn quoted_headers_str(headers: Seq<Seq<char>>) -> Seq<char>
    decreases headers.len(),
{
    if headers.len() == 0 {
        Seq::empty()
    } else {
        " --header '"@ + headers[0] + "'"@ + quoted_headers_str(headers.drop_first())
    }
}

/// One more header lands at the end of the header string.
pub proof fn lemma_quoted_headers_push(headers: Seq<Seq<char>>, h: Seq<char>)
    ensures
        quoted_headers_str(headers.push(h)) == quoted_headers_str(headers) + " --header '"@ + h
            + "'"@,
    decreases headers.len(),
{
    if headers.len() == 0 {
        reveal_with_fuel(quoted_headers_str, 2);
        assert(headers.push(h)[0] == h);
        assert(headers.push(h).drop_first() =~= Seq::<Seq<char>>::empty());
        assert(" --header '"@ + h + "'"@ + Seq::<char>::empty() =~= Seq::<char>::empty()
            + " --header '"@ + h + "'"@);
    } else {
        assert(headers.push(h)[0] == headers[0]);
        assert(headers.push(h).drop_first() =~= headers.drop_first().push(h));
        lemma_quoted_headers_push(headers.drop_first(), h);
        assert(" --header '"@ + headers[0] + "'"@ + (quoted_headers_str(headers.drop_first())
            + " --header '"@ + h + "'"@) =~= (" --header '"@ + headers[0] + "'"@
            + quoted_headers_str(headers.drop_first())) + " --header '"@ + h + "'"@);
    }
}

/// The ` --data '...'` part, empty when there is no data.
pub open spec fn data_str_spec(data: Seq<char>) -> Seq<char> {
    if data.len() == 0 {
        Seq::empty()
    } else {
        " --data '"@ + data + "'"@
    }
}

/// The command string: request marker, method, quoted headers, quoted data,
/// then the url made of base url and endpoint.
pub open spec fn curl_cmd_spec(
    endpoint: Seq<char>,
    method: Seq<char>,
    data: Seq<char>,
    base_url: Seq<char>,
    headers: Seq<Seq<char>>,
) -> Seq<char> {
    "--request -X "@ + method + quoted_headers_str(headers) + data_str_spec(data) + " "@ + base_url
        + endpoint
}

/// Builds the whole curl command string out of its parts.
pub fn construct_curl_cmd(
    endpoint: &String,
    method: &String,
    data: &String,
    base_url: &String,
    headers: &Vec<String>,
) -> (r: String)
    ensures
        r@ == curl_cmd_spec(endpoint@, method@, data@, base_url@, headers.deep_view()),
{
    let mut out = String::new();
    out.append("--request -X ");
    out.append(method.as_str());
    let mut i: usize = 0;
    let ghost after_method = out@;
    while i < headers.len()
        invariant
            i <= headers@.len(),
            out@ == after_method + quoted_headers_str(headers.deep_view().take(i as int)),
        decreases headers@.len() - i,
    {
        out.append(" --header '");
        out.append(headers[i].as_str());
        out.append("'");
        proof {
            lemma_quoted_headers_push(
                headers.deep_view().take(i as int),
                headers.deep_view()[i as int],
            );
            assert(headers.deep_view().take(i + 1) =~= headers.deep_view().take(i as int).push(
                headers.deep_view()[i as int],
            ));
            assert(out@ =~= after_method + quoted_headers_str(headers.deep_view().take(i + 1)));
        }
        i += 1;
    }
    proof {
        assert(headers.deep_view().take(headers@.len() as int) =~= headers.deep_view());
    }
    if !data.as_str().is_empty() {
        out.append(" --data '");
        out.append(data.as_str());
        out.append("'");
    }
    out.append(" ");
    out.append(base_url.as_str());
    out.append(endpoint.as_str());
    proof {
        assert(out@ =~= curl_cmd_spec(endpoint@, method@, data@, base_url@, headers.deep_view()));
    }
    out
}

/// Every header as its own `--header` argument pair.
pub open spec fn headers_args(headers: Seq<Seq<char>>) -> Seq<Seq<char>>
    decreases headers.len(),
{
    if headers.len() == 0 {
        Seq::empty()
    } else {
        seq!["--header"@, headers[0]] + headers_args(headers.drop_first())
    }
}

/// One more header lands at the end of the header arguments.
pub proof fn lemma_headers_args_push(headers: Seq<Seq<char>>, h: Seq<char>)
    ensures
        headers_args(headers.push(h)) == headers_args(headers) + seq!["--header"@, h],
    decreases headers.len(),
{
    if headers.len() == 0 {
        reveal_with_fuel(headers_args, 2);
        assert(headers.push(h)[0] == h);
        assert(headers.push(h).drop_first() =~= Seq::<Seq<char>>::empty());
        assert(seq!["--header"@, h] + Seq::<Seq<char>>::empty() =~= Seq::<Seq<char>>::empty()
            + seq!["--header"@, h]);
    } else {
        assert(headers.push(h)[0] == headers[0]);
        assert(headers.push(h).drop_first() =~= headers.drop_first().push(h));
        lemma_headers_args_push(headers.drop_first(), h);
        assert(seq!["--header"@, headers[0]] + (headers_args(headers.drop_first()) + seq![
            "--header"@,
            h,
        ]) =~= (seq!["--header"@, headers[0]] + headers_args(headers.drop_first())) + seq![
            "--header"@,
            h,
        ]);
    }
}

/// The argument list: `-X` and the method; `--header` and the header, for
/// each header in order; `-d` and the data when there is data; and the url,
/// always last.
pub open spec fn curl_args_spec(
    endpoint: Seq<char>,
    method: Seq<char>,
    data: Seq<char>,
    base_url: Seq<char>,
    headers: Seq<Seq<char>>,
) -> Seq<Seq<char>> {
    let head: Seq<Seq<char>> = seq!["-X"@, method];
    let data_part: Seq<Seq<char>> = if data.len() == 0 {
        Seq::empty()
    } else {
        seq!["-d"@, data]
    };
    head + headers_args(headers) + data_part + seq![base_url + endpoint]
}

/// Builds the curl argument list out of its parts.
pub fn construct_curl_args(
    endpoint: &String,
    method: &String,
    data: &String,
    base_url: &String,
    headers: &Vec<String>,
) -> (r: Vec<String>)
    ensures
        r.deep_view() == curl_args_spec(endpoint@, method@, data@, base_url@, headers.deep_view()),
{
    let mut args: Vec<String> = Vec::new();
    args.push("-X".to_owned());
    args.push(method.clone());
    proof {
        assert(args.deep_view() =~= seq!["-X"@, method@]);
    }
    let mut i: usize = 0;
    while i < headers.len()
        invariant
            i <= headers@.len(),
            args.deep_view() =~= seq!["-X"@, method@] + headers_args(
                headers.deep_view().take(i as int),
            ),
        decreases headers@.len() - i,
    {
        let ghost prev = args@;
        let ghost prev_deep = args.deep_view();
        args.push("--header".to_owned());
        args.push(headers[i].clone());
        proof {
            assert forall|m: int| 0 <= m < prev.len() implies args.deep_view()[m]
                == prev_deep[m] by {
                assert(args@[m] == prev[m]);
                assert(prev_deep[m] == prev[m].deep_view());
            }
            assert(args@.len() == prev.len() + 2);
            assert(args.deep_view()[prev.len() as int] == args@[prev.len() as int].deep_view());
            assert(args.deep_view()[prev.len() + 1 as int] == args@[prev.len() + 1 as int].deep_view());
            assert(args@[prev.len() as int]@ == "--header"@);
            assert(args@[prev.len() + 1 as int]@ == headers.deep_view()[i as int]);
            lemma_headers_args_push(
                headers.deep_view().take(i as int),
                headers.deep_view()[i as int],
            );
            assert(headers.deep_view().take(i + 1) =~= headers.deep_view().take(i as int).push(
                headers.deep_view()[i as int],
            ));
            let target = seq!["-X"@, method@] + headers_args(headers.deep_view().take(i + 1));
            assert(headers_args(headers.deep_view().take(i + 1)) == headers_args(
                headers.deep_view().take(i as int),
            ) + seq!["--header"@, headers.deep_view()[i as int]]);
            assert(target.len() == prev_deep.len() + 2);
            assert forall|m: int| 0 <= m < target.len() implies args.deep_view()[m]
                == target[m] by {
                if m < prev.len() {
                    assert(prev_deep[m] == (seq!["-X"@, method@] + headers_args(
                        headers.deep_view().take(i as int),
                    ))[m]);
                }
            }
            assert(args.deep_view() =~= target);
        }
        i += 1;
    }
    proof {
        assert(headers.deep_view().take(headers@.len() as int) =~= headers.deep_view());
    }
    if !data.as_str().is_empty() {
        args.push("-d".to_owned());
        args.push(data.clone());
    }
    let mut url = base_url.clone();
    url.append(endpoint.as_str());
    args.push(url);
    proof {
        assert(args.deep_view() =~= curl_args_spec(
            endpoint@,
            method@,
            data@,
            base_url@,
            headers.deep_view(),
        ));
    }
    args
}

/// The names of the `${...}` placeholders of the template, each once; or
/// the scan's parse error.
pub fn extract_template_names(templated: &str) -> (r: Result<Vec<String>, ParseError>)
    ensures
        match r {
            Ok(names) => scan_spec(templated@, template_open(), template_close()) matches Ok(all)
                && names.deep_view() == dedup_spec(all),
            Err(e) => scan_spec(templated@, template_open(), template_close()) == Err::<
                Seq<Seq<char>>,
                ParseError,
            >(e),
        },
{
    parse::extract_template_names(templated)
}

/// Replaces every `${key}` the value map binds by its value, in entry
/// order.
pub fn insert_template_values(templated_str: &str, value_map: &ValueMap) -> (r: String)
    ensures
        r@ == insert_all(templated_str@, value_map@, template_open(), template_close()),
{
    parse::insert_template_values(templated_str, value_map)
}

/// Renders every string of the list.
pub fn insert_template_values_vec(vec_str: &Vec<String>, value_map: &ValueMap) -> (r: Vec<String>)
    ensures
        r.deep_view().len() == vec_str.deep_view().len(),
        forall|i: int|
            0 <= i < r.deep_view().len() ==> r.deep_view()[i] == insert_all(
                vec_str.deep_view()[i],
                value_map@,
                template_open(),
                template_close(),
            ),
{
    let mut values: Vec<String> = Vec::new();
    let mut i: usize = 0;
    while i < vec_str.len()
        invariant
            i <= vec_str@.len(),
            values@.len() == i,
            forall|j: int|
                0 <= j < i ==> values.deep_view()[j] == insert_all(
                    vec_str.deep_view()[j],
                    value_map@,
                    template_open(),
                    template_close(),
                ),
        decreases vec_str@.len() - i,
    {
        let ghost prev = values@;
        let ghost prev_deep = values.deep_view();
        let templated = insert_template_values(vec_str[i].as_str(), value_map);
        values.push(templated);
        proof {
            assert forall|j: int| 0 <= j < i + 1 implies values.deep_view()[j] == insert_all(
                vec_str.deep_view()[j],
                value_map@,
                template_open(),
                template_close(),
            ) by {
                if j < i as int {
                    assert(values@[j] == prev[j]);
                    assert(prev_deep[j] == prev[j].deep_view());
                }
            }
        }
        i += 1;
    }
    values
}

} // verus!
