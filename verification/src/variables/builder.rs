//! The mutator pipeline: an ordered list of extractor scopes and an ordered
//! list of inserter scopes, folded over every field of a template.

use vstd::prelude::*;

use super::{
    lemma_pipeline_insert_push, lemma_pipeline_scan_args_push, lemma_pipeline_scan_text_push,
    mutator_insert_spec, mutator_scan_spec, pipeline_insert_spec, pipeline_scan_args,
    pipeline_scan_text, ScopeMutator,
};
use crate::common::CurldCommand;
use crate::scan;
use crate::scan::{dedup_spec, ParseError};
use crate::strutil::{join_spaces, join_with_spaces};
use crate::value_map::ValueMap;

verus! {

/// A parse error on some prefix of the extractors is the error of the whole
/// extractor list.
proof fn lemma_pipeline_scan_text_prefix_err(
    extractors: Seq<ScopeMutator>,
    n: int,
    text: Seq<char>,
    e: ParseError,
)
    requires
        0 <= n <= extractors.len(),
        pipeline_scan_text(extractors.take(n), text) == Err::<Seq<Seq<char>>, ParseError>(e),
    ensures
        pipeline_scan_text(extractors, text) == Err::<Seq<Seq<char>>, ParseError>(e),
    decreases n,
{
    if n == 0 {
    } else {
        assert(extractors.take(n)[0] == extractors[0]);
        if mutator_scan_spec(extractors[0], text) is Err {
        } else {
            assert(extractors.take(n).drop_first() =~= extractors.drop_first().take(n - 1));
            lemma_pipeline_scan_text_prefix_err(extractors.drop_first(), n - 1, text, e);
        }
    }
}

/// A parse error on some prefix of the arguments is the error of the whole
/// argument list.
proof fn lemma_pipeline_scan_args_prefix_err(
    extractors: Seq<ScopeMutator>,
    args: Seq<Seq<char>>,
    n: int,
    e: ParseError,
)
    requires
        0 <= n <= args.len(),
        pipeline_scan_args(extractors, args.take(n)) == Err::<Seq<Seq<char>>, ParseError>(e),
    ensures
        pipeline_scan_args(extractors, args) == Err::<Seq<Seq<char>>, ParseError>(e),
    decreases n,
{
    if n == 0 {
    } else {
        assert(args.take(n)[0] == args[0]);
        if pipeline_scan_text(extractors, args[0]) is Err {
        } else {
            assert(args.take(n).drop_first() =~= args.drop_first().take(n - 1));
            lemma_pipeline_scan_args_prefix_err(extractors, args.drop_first(), n - 1, e);
        }
    }
}

/// The registered inserters folded over one string, in registration order.
fn insert_one(inserters: &Vec<ScopeMutator>, text: &str, value_map: &ValueMap) -> (r: String)
    ensures
        r@ == pipeline_insert_spec(inserters@, text@, value_map@),
{
    let mut cur: String = text.to_owned();
    let mut j: usize = 0;
    while j < inserters.len()
        invariant
            j <= inserters@.len(),
            cur@ == pipeline_insert_spec(inserters@.take(j as int), text@, value_map@),
        decreases inserters@.len() - j,
    {
        let next = inserters[j].insert(cur.as_str(), value_map);
        proof {
            lemma_pipeline_insert_push(
                inserters@.take(j as int),
                inserters@[j as int],
                text@,
                value_map@,
            );
            assert(inserters@.take(j + 1) =~= inserters@.take(j as int).push(
                inserters@[j as int],
            ));
        }
        cur = next;
        j += 1;
    }
    proof {
        assert(inserters@.take(inserters@.len() as int) =~= inserters@);
    }
    cur
}

/// An ordered list of extractor scopes and an ordered list of inserter
/// scopes; the two lists need not hold the same members.
pub struct VariablesBuilder {
    inserters: Vec<ScopeMutator>,
    extractors: Vec<ScopeMutator>,
}

impl VariablesBuilder {
    /// The registered inserters, in registration order.
    pub closed spec fn spec_inserters(&self) -> Seq<ScopeMutator> {
        self.inserters@
    }

    /// The registered extractors, in registration order.
    pub closed spec fn spec_extractors(&self) -> Seq<ScopeMutator> {
        self.extractors@
    }

    /// A pipeline with no scopes registered.
    pub fn new() -> (r: VariablesBuilder)
        ensures
            r.spec_inserters().len() == 0,
            r.spec_extractors().len() == 0,
    {
        VariablesBuilder { inserters: Vec::new(), extractors: Vec::new() }
    }

    /// Registers one more inserter scope, after the ones already there.
    pub fn add_inserter(&mut self, inserter: ScopeMutator)
        ensures
            final (self).spec_inserters() == old(self).spec_inserters().push(inserter),
            final (self).spec_extractors() == old(self).spec_extractors(),
    {
        self.inserters.push(inserter);
    }

    /// Registers one more extractor scope, after the ones already there.
    pub fn add_extractor(&mut self, extractor: ScopeMutator)
        ensures
            final (self).spec_extractors() == old(self).spec_extractors().push(extractor),
            final (self).spec_inserters() == old(self).spec_inserters(),
    {
        self.extractors.push(extractor);
    }

    /// Runs every registered extractor over every argument and collects the
    /// names across the whole template, duplicates dropped, first occurrence
    /// first; the first scan that fails decides the error.
    pub fn extract(&self, user_args: &Vec<String>) -> (r: Result<Vec<String>, ParseError>)
        ensures
            match r {
                Ok(names) => pipeline_scan_args(self.spec_extractors(), user_args.deep_view())
                    matches Ok(all) && names.deep_view() == dedup_spec(all),
                Err(e) => pipeline_scan_args(self.spec_extractors(), user_args.deep_view())
                    == Err::<Seq<Seq<char>>, ParseError>(e),
            },
    {
        let ghost extractors = self.extractors@;
        let ghost args = user_args.deep_view();
        let mut names: Vec<String> = Vec::new();
        let ghost mut raw: Seq<Seq<char>> = Seq::empty();
        assert(names.deep_view() =~= dedup_spec(raw));
        let mut i: usize = 0;
        while i < user_args.len()
            invariant
                i <= args.len(),
                args == user_args.deep_view(),
                extractors == self.extractors@,
                pipeline_scan_args(extractors, args.take(i as int)) == Ok::<
                    Seq<Seq<char>>,
                    ParseError,
                >(raw),
                names.deep_view() == dedup_spec(raw),
            decreases args.len() - i,
        {
            let ghost mut raw_inner: Seq<Seq<char>> = Seq::empty();
            let mut j: usize = 0;
            while j < self.extractors.len()
                invariant
                    j <= extractors.len(),
                    i < args.len(),
                    args == user_args.deep_view(),
                    extractors == self.extractors@,
                    pipeline_scan_args(extractors, args.take(i as int)) == Ok::<
                        Seq<Seq<char>>,
                        ParseError,
                    >(raw),
                    pipeline_scan_text(extractors.take(j as int), args[i as int]) == Ok::<
                        Seq<Seq<char>>,
                        ParseError,
                    >(raw_inner),
                    names.deep_view() == dedup_spec(raw + raw_inner),
                decreases extractors.len() - j,
            {
                let chunk = match self.extractors[j].extract(user_args[i].as_str()) {
                    Ok(chunk) => chunk,
                    Err(e) => {
                        proof {
                            lemma_pipeline_scan_text_push(
                                extractors.take(j as int),
                                extractors[j as int],
                                args[i as int],
                            );
                            assert(extractors.take(j + 1) =~= extractors.take(j as int).push(
                                extractors[j as int],
                            ));
                            lemma_pipeline_scan_text_prefix_err(
                                extractors,
                                j + 1,
                                args[i as int],
                                e,
                            );
                            lemma_pipeline_scan_args_push(extractors, args.take(i as int), args[i as int]);
                            assert(args.take(i + 1) =~= args.take(i as int).push(args[i as int]));
                            lemma_pipeline_scan_args_prefix_err(extractors, args, i + 1, e);
                        }
                        return Err(e);
                    },
                };
                proof {
                    lemma_pipeline_scan_text_push(
                        extractors.take(j as int),
                        extractors[j as int],
                        args[i as int],
                    );
                    assert(extractors.take(j + 1) =~= extractors.take(j as int).push(
                        extractors[j as int],
                    ));
                }
                let ghost chunk_names = dedup_spec(
                    mutator_scan_spec(extractors[j as int], args[i as int])->Ok_0,
                );
                assert(chunk.deep_view() == chunk_names);
                scan::append_dedup(&mut names, &chunk, Ghost(raw + raw_inner));
                proof {
                    let prev_inner = raw_inner;
                    raw_inner = raw_inner + chunk_names;
                    assert((raw + prev_inner) + chunk_names =~= raw + raw_inner);
                }
                j += 1;
            }
            proof {
                assert(extractors.take(extractors.len() as int) =~= extractors);
                lemma_pipeline_scan_args_push(extractors, args.take(i as int), args[i as int]);
                assert(args.take(i + 1) =~= args.take(i as int).push(args[i as int]));
                raw = raw + raw_inner;
            }
            i += 1;
        }
        proof {
            assert(args.take(args.len() as int) =~= args);
        }
        Ok(names)
    }

    /// Renders the record's arguments: every registered inserter folded over
    /// every argument, in registration order.
    pub fn insert(&self, curld: &CurldCommand) -> (r: Vec<String>)
        ensures
            r.deep_view().len() == curld.user_args.deep_view().len(),
            forall|i: int|
                0 <= i < r.deep_view().len() ==> r.deep_view()[i] == pipeline_insert_spec(
                    self.spec_inserters(),
                    curld.user_args.deep_view()[i],
                    curld.value_map@,
                ),
    {
        let mut r: Vec<String> = Vec::new();
        let mut i: usize = 0;
        while i < curld.user_args.len()
            invariant
                i <= curld.user_args@.len(),
                r@.len() == i,
                forall|j: int|
                    0 <= j < i ==> r.deep_view()[j] == pipeline_insert_spec(
                        self.spec_inserters(),
                        curld.user_args.deep_view()[j],
                        curld.value_map@,
                    ),
            decreases curld.user_args@.len() - i,
        {
            let ghost prev = r@;
            let ghost prev_deep = r.deep_view();
            let rendered = insert_one(
                &self.inserters,
                curld.user_args[i].as_str(),
                &curld.value_map,
            );
            r.push(rendered);
            proof {
                assert forall|j: int| 0 <= j < i + 1 implies r.deep_view()[j]
                    == pipeline_insert_spec(
                    self.spec_inserters(),
                    curld.user_args.deep_view()[j],
                    curld.value_map@,
                ) by {
                    if j < i as int {
                        assert(r@[j] == prev[j]);
                        assert(prev_deep[j] == prev[j].deep_view());
                    }
                }
            }
            i += 1;
        }
        r
    }

    /// Renders the record's arguments joined by spaces, as one string.
    pub fn to_string(&self, curld: &CurldCommand) -> (r: String)
        ensures
            r@ == pipeline_insert_spec(
                self.spec_inserters(),
                join_spaces(curld.user_args.deep_view()),
                curld.value_map@,
            ),
    {
        let joined = join_with_spaces(&curld.user_args);
        insert_one(&self.inserters, joined.as_str(), &curld.value_map)
    }
}

} // verus!
