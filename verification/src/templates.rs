//! The template builder: one unresolved argument template, the placeholder
//! keys discovered in it, and the values it is rendered with.

use vstd::prelude::*;

pub mod parse;

use crate::scan::{dedup_spec, insert_all, scan_args_spec, ParseError};
use crate::strutil::join_spaces;
use crate::value_map::ValueMap;
use parse::{template_close, template_open};

verus! {

/// One command template: the original (unresolved) argument list, the
/// placeholder keys found in it, and a key-to-value map to render with.
pub struct TemplateBuilder {
    /// The `${...}` names of the template, each once.
    pub keys: Vec<String>,
    /// The values substituted on rendering.
    pub value_map: ValueMap,
    /// The argument list as the user wrote it.
    pub original_args: Vec<String>,
}

impl TemplateBuilder {
    /// Scans the whole argument list and keeps it with its placeholder keys,
    /// deduplicated across the arguments; a malformed argument is the
    /// template's parse error.
    pub fn new(curl_cmd: Vec<String>) -> (r: Result<TemplateBuilder, ParseError>)
        ensures
            match r {
                Ok(b) => {
                    &&& scan_args_spec(curl_cmd.deep_view(), template_open(), template_close())
                        matches Ok(all) && b.keys.deep_view() == dedup_spec(all)
                    &&& b.original_args == curl_cmd
                    &&& b.value_map@.len() == 0
                },
                Err(e) => scan_args_spec(curl_cmd.deep_view(), template_open(), template_close())
                    == Err::<Seq<Seq<char>>, ParseError>(e),
            },
    {
        proof {
            parse::lemma_template_delims();
        }
        let keys = match crate::scan::extract_names_args(&curl_cmd, "${", "}") {
            Ok(keys) => keys,
            Err(e) => {
                return Err(e);
            },
        };
        Ok(TemplateBuilder { keys, value_map: ValueMap::new(), original_args: curl_cmd })
    }

    /// Sets the values the template is rendered with.
    pub fn insert_values(&mut self, value_map: ValueMap)
        ensures
            final (self).value_map == value_map,
            final (self).keys == old(self).keys,
            final (self).original_args == old(self).original_args,
    {
        self.value_map = value_map;
    }

    /// The rendered argument list: every argument with every value map entry
    /// substituted, in entry order. A template without keys is handed back
    /// as it is.
    pub fn cmd(&self) -> (r: Vec<String>)
        ensures
            self.keys@.len() == 0 ==> r.deep_view() == self.original_args.deep_view(),
            self.keys@.len() > 0 ==> {
                &&& r.deep_view().len() == self.original_args.deep_view().len()
                &&& forall|i: int|
                    0 <= i < r.deep_view().len() ==> r.deep_view()[i] == insert_all(
                        self.original_args.deep_view()[i],
                        self.value_map@,
                        template_open(),
                        template_close(),
                    )
            },
    {
        if self.keys.len() == 0 {
            let mut r: Vec<String> = Vec::new();
            let mut i: usize = 0;
            while i < self.original_args.len()
                invariant
                    i <= self.original_args@.len(),
                    r@.len() == i,
                    forall|m: int|
                        0 <= m < i ==> r.deep_view()[m] == self.original_args.deep_view()[m],
                decreases self.original_args@.len() - i,
            {
                let ghost prev = r@;
                let ghost prev_deep = r.deep_view();
                r.push(self.original_args[i].clone());
                proof {
                    assert forall|m: int| 0 <= m < i + 1 implies r.deep_view()[m]
                        == self.original_args.deep_view()[m] by {
                        if m < i as int {
                            assert(r@[m] == prev[m]);
                            assert(prev_deep[m] == prev[m].deep_view());
                        }
                    }
                }
                i += 1;
            }
            proof {
                assert(r.deep_view() =~= self.original_args.deep_view());
            }
            return r;
        }
        let mut r: Vec<String> = Vec::new();
        let mut i: usize = 0;
        while i < self.original_args.len()
            invariant
                i <= self.original_args@.len(),
                r@.len() == i,
                forall|j: int|
                    0 <= j < i ==> r.deep_view()[j] == insert_all(
                        self.original_args.deep_view()[j],
                        self.value_map@,
                        template_open(),
                        template_close(),
                    ),
            decreases self.original_args@.len() - i,
        {
            let ghost prev = r@;
            let ghost prev_deep = r.deep_view();
            let rendered = parse::insert_template_values(
                self.original_args[i].as_str(),
                &self.value_map,
            );
            r.push(rendered);
            proof {
                assert forall|j: int| 0 <= j < i + 1 implies r.deep_view()[j] == insert_all(
                    self.original_args.deep_view()[j],
                    self.value_map@,
                    template_open(),
                    template_close(),
                ) by {
                    if j < i as int {
                        assert(r@[j] == prev[j]);
                        assert(prev_deep[j] == prev[j].deep_view());
                    }
                }
            }
            i += 1;
        }
        r
    }

    /// The arguments joined with spaces and rendered as one string.
    pub fn build_string(&self) -> (r: String)
        ensures
            r@ == insert_all(
                join_spaces(self.original_args.deep_view()),
                self.value_map@,
                template_open(),
                template_close(),
            ),
    {
        let joined = crate::strutil::join_with_spaces(&self.original_args);
        parse::insert_template_values(joined.as_str(), &self.value_map)
    }
}

} // verus!
