//! Endpoint commands: assembling curl invocations out of their parts, and
//! the endpoint settings module (saved templates and a bounded history).

use vstd::prelude::*;

pub mod commands;
pub mod endpoint_settings;
pub mod utils;

verus! {

/// The command string for an endpoint: the parts in fixed order, the
/// base url (when given) and a `/` prefixed to the endpoint.
pub open spec fn curl_endpoint_spec(
    endpoint: Seq<char>,
    method: Seq<char>,
    data: Option<Seq<char>>,
    base_url: Option<Seq<char>>,
    headers: Option<Seq<Seq<char>>>,
) -> Seq<char> {
    let url = match base_url {
        Some(b) => b + "/"@ + endpoint,
        None => endpoint,
    };
    let header_str = match headers {
        Some(hs) => bare_headers_str(hs),
        None => Seq::empty(),
    };
    let data_str = match data {
        Some(d) => d,
        None => Seq::empty(),
    };
    "--request "@ + method + header_str + data_str + " "@ + url
}

/// Every header, each prefixed by `--header `.
pub open spec fn bare_headers_str(headers: Seq<Seq<char>>) -> Seq<char>
    decreases headers.len(),
{
    if headers.len() == 0 {
        Seq::empty()
    } else {
        "--header "@ + headers[0] + bare_headers_str(headers.drop_first())
    }
}

/// One more header lands at the end of the header string.
pub proof fn lemma_bare_headers_push(headers: Seq<Seq<char>>, h: Seq<char>)
    ensures
        bare_headers_str(headers.push(h)) == bare_headers_str(headers) + "--header "@ + h,
    decreases headers.len(),
{
    if headers.len() == 0 {
        reveal_with_fuel(bare_headers_str, 2);
        assert(headers.push(h)[0] == h);
        assert(headers.push(h).drop_first() =~= Seq::<Seq<char>>::empty());
        assert("--header "@ + h + Seq::<char>::empty() =~= Seq::<char>::empty() + "--header "@
            + h);
    } else {
        assert(headers.push(h)[0] == headers[0]);
        assert(headers.push(h).drop_first() =~= headers.drop_first().push(h));
        lemma_bare_headers_push(headers.drop_first(), h);
        assert("--header "@ + headers[0] + (bare_headers_str(headers.drop_first()) + "--header "@
            + h) =~= ("--header "@ + headers[0] + bare_headers_str(headers.drop_first()))
            + "--header "@ + h);
    }
}

/// Builds the whole curl command string for an endpoint.
pub fn construct_curl_endpoint(
    endpoint: String,
    method: String,
    data: Option<String>,
    base_url: Option<String>,
    headers: Option<Vec<String>>,
) -> (r: String)
    ensures
        r@ == curl_endpoint_spec(
            endpoint@,
            method@,
            match data {
                Some(d) => Some(d@),
                None => None,
            },
            match base_url {
                Some(b) => Some(b@),
                None => None,
            },
            match headers {
                Some(hs) => Some(hs.deep_view()),
                None => None,
            },
        ),
{
    let ghost url_view = match &base_url {
        Some(b) => b@ + "/"@ + endpoint@,
        None => endpoint@,
    };
    let url = match &base_url {
        Some(b) => {
            let mut url = b.clone();
            url.append("/");
            url.append(endpoint.as_str());
            url
        },
        None => endpoint,
    };
    assert(url@ == url_view);
    let header_str = match &headers {
        Some(hs) => {
            let mut header_str = String::new();
            let mut i: usize = 0;
            while i < hs.len()
                invariant
                    i <= hs@.len(),
                    header_str@ == bare_headers_str(hs.deep_view().take(i as int)),
                decreases hs@.len() - i,
            {
                header_str.append("--header ");
                header_str.append(hs[i].as_str());
                proof {
                    lemma_bare_headers_push(hs.deep_view().take(i as int), hs.deep_view()[i as int]);
                    assert(hs.deep_view().take(i + 1) =~= hs.deep_view().take(i as int).push(
                        hs.deep_view()[i as int],
                    ));
                }
                i += 1;
            }
            proof {
                assert(hs.deep_view().take(hs@.len() as int) =~= hs.deep_view());
            }
            header_str
        },
        None => String::new(),
    };
    let data_str = match &data {
        Some(d) => d.clone(),
        None => String::new(),
    };
    let mut out = String::new();
    out.append("--request ");
    out.append(method.as_str());
    out.append(header_str.as_str());
    out.append(data_str.as_str());
    out.append(" ");
    out.append(url.as_str());
    proof {
        assert(out@ =~= curl_endpoint_spec(
            endpoint@,
            method@,
            match data {
                Some(d) => Some(d@),
                None => None,
            },
            match base_url {
                Some(b) => Some(b@),
                None => None,
            },
            match headers {
                Some(hs) => Some(hs.deep_view()),
                None => None,
            },
        ));
    }
    out
}

} // verus!
