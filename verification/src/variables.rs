//! Variable scopes and the mutator pipeline.
//!
//! A mutator pairs one delimiter scope with its value source: the ad-hoc
//! user scope (`${name}`, values handed in with the command) or the
//! workspace scope (`w{name}`, values stored on the current workspace). The
//! scopes are a closed set, so a mutator is a tagged variant.

use vstd::prelude::*;

pub mod builder;
pub mod mutators;
pub mod parse;

use crate::run::mutators::RunMutators;
use crate::scan::{dedup_spec, insert_all, scan_spec, ParseError};
use crate::templates::parse::{template_close, template_open};
use crate::value_map::ValueMap;
use crate::workspaces::mutators::{workspace_open, WorkspaceMutator};

verus! {

/// One mutator: a delimiter scope with its value source.
pub enum ScopeMutator {
    /// The ad-hoc user scope, `${name}`, fed from the values handed in.
    Run(RunMutators),
    /// The workspace scope, `w{name}`, fed from the workspace's own values.
    Workspace(WorkspaceMutator),
}

/// The opening token of the mutator's scope.
pub open spec fn mutator_open(m: ScopeMutator) -> Seq<char> {
    match m {
        ScopeMutator::Run(_) => template_open(),
        ScopeMutator::Workspace(_) => workspace_open(),
    }
}

/// The closing token, shared by both scopes.
pub open spec fn mutator_close(m: ScopeMutator) -> Seq<char> {
    template_close()
}

/// The values the mutator substitutes: the user values for the ad-hoc
/// scope, the workspace's own values for the workspace scope.
pub open spec fn mutator_values(
    m: ScopeMutator,
    user_values: Seq<(Seq<char>, Seq<char>)>,
) -> Seq<(Seq<char>, Seq<char>)> {
    match m {
        ScopeMutator::Run(_) => user_values,
        ScopeMutator::Workspace(w) => w@,
    }
}

/// What one mutator's insertion returns.
pub open spec fn mutator_insert_spec(
    m: ScopeMutator,
    text: Seq<char>,
    user_values: Seq<(Seq<char>, Seq<char>)>,
) -> Seq<char> {
    insert_all(text, mutator_values(m, user_values), mutator_open(m), mutator_close(m))
}

/// What one mutator's extraction scans.
pub open spec fn mutator_scan_spec(m: ScopeMutator, text: Seq<char>) -> Result<
    Seq<Seq<char>>,
    ParseError,
> {
    scan_spec(text, mutator_open(m), mutator_close(m))
}

impl ScopeMutator {
    /// Substitutes this scope's placeholders in the template.
    pub fn insert(&self, templated: &str, value_map: &ValueMap) -> (r: String)
        ensures
            r@ == mutator_insert_spec(*self, templated@, value_map@),
    {
        match self {
            ScopeMutator::Run(m) => m.insert(templated, value_map),
            ScopeMutator::Workspace(m) => m.insert(templated),
        }
    }

    /// The names of this scope's placeholders in the template, each once.
    pub fn extract(&self, templated: &str) -> (r: Result<Vec<String>, ParseError>)
        ensures
            match r {
                Ok(names) => mutator_scan_spec(*self, templated@) matches Ok(all)
                    && names.deep_view() == dedup_spec(all),
                Err(e) => mutator_scan_spec(*self, templated@) == Err::<
                    Seq<Seq<char>>,
                    ParseError,
                >(e),
            },
    {
        match self {
            ScopeMutator::Run(m) => m.extract(templated),
            ScopeMutator::Workspace(m) => m.extract(templated),
        }
    }
}

/// The inserters folded over one text, in registration order: each inserter
/// runs on the output of the one before it.
pub open spec fn pipeline_insert_spec(
    inserters: Seq<ScopeMutator>,
    text: Seq<char>,
    user_values: Seq<(Seq<char>, Seq<char>)>,
) -> Seq<char>
    decreases inserters.len(),
{
    if inserters.len() == 0 {
        text
    } else {
        pipeline_insert_spec(
            inserters.drop_first(),
            mutator_insert_spec(inserters[0], text, user_values),
            user_values,
        )
    }
}

/// Unrolling the pipeline from the back: one more inserter runs on the
/// result so far.
pub proof fn lemma_pipeline_insert_push(
    inserters: Seq<ScopeMutator>,
    m: ScopeMutator,
    text: Seq<char>,
    user_values: Seq<(Seq<char>, Seq<char>)>,
)
    ensures
        pipeline_insert_spec(inserters.push(m), text, user_values) == mutator_insert_spec(
            m,
            pipeline_insert_spec(inserters, text, user_values),
            user_values,
        ),
    decreases inserters.len(),
{
    if inserters.len() == 0 {
        reveal_with_fuel(pipeline_insert_spec, 2);
        assert(inserters.push(m)[0] == m);
        assert(inserters.push(m).drop_first() =~= Seq::<ScopeMutator>::empty());
    } else {
        assert(inserters.push(m)[0] == inserters[0]);
        assert(inserters.push(m).drop_first() =~= inserters.drop_first().push(m));
        lemma_pipeline_insert_push(
            inserters.drop_first(),
            m,
            mutator_insert_spec(inserters[0], text, user_values),
            user_values,
        );
    }
}

/// The names all extractors find in one text: each extractor contributes
/// its own deduplicated scan, the first scan that fails decides the error.
pub open spec fn pipeline_scan_text(extractors: Seq<ScopeMutator>, text: Seq<char>) -> Result<
    Seq<Seq<char>>,
    ParseError,
>
    decreases extractors.len(),
{
    if extractors.len() == 0 {
        Ok(Seq::empty())
    } else {
        match mutator_scan_spec(extractors[0], text) {
            Err(e) => Err(e),
            Ok(first) => match pipeline_scan_text(extractors.drop_first(), text) {
                Err(e) => Err(e),
                Ok(rest) => Ok(dedup_spec(first) + rest),
            },
        }
    }
}

/// Unrolling `pipeline_scan_text` from the back, one extractor at a time.
pub proof fn lemma_pipeline_scan_text_push(
    extractors: Seq<ScopeMutator>,
    m: ScopeMutator,
    text: Seq<char>,
)
    requires
        pipeline_scan_text(extractors, text) is Ok,
    ensures
        pipeline_scan_text(extractors.push(m), text) == match mutator_scan_spec(m, text) {
            Err(e) => Err::<Seq<Seq<char>>, ParseError>(e),
            Ok(names) => Ok(pipeline_scan_text(extractors, text)->Ok_0 + dedup_spec(names)),
        },
    decreases extractors.len(),
{
    if extractors.len() == 0 {
        reveal_with_fuel(pipeline_scan_text, 2);
        assert(extractors.push(m)[0] == m);
        assert(extractors.push(m).drop_first() =~= Seq::<ScopeMutator>::empty());
        match mutator_scan_spec(m, text) {
            Err(e) => {},
            Ok(names) => {
                assert(pipeline_scan_text(extractors, text)->Ok_0 + dedup_spec(names)
                    =~= dedup_spec(names));
                assert(dedup_spec(names) + Seq::<Seq<char>>::empty() =~= dedup_spec(names));
            },
        }
    } else {
        assert(extractors.push(m)[0] == extractors[0]);
        assert(extractors.push(m).drop_first() =~= extractors.drop_first().push(m));
        lemma_pipeline_scan_text_push(extractors.drop_first(), m, text);
        match mutator_scan_spec(m, text) {
            Err(e) => {},
            Ok(names) => {
                let first = dedup_spec(mutator_scan_spec(extractors[0], text)->Ok_0);
                let rest = pipeline_scan_text(extractors.drop_first(), text)->Ok_0;
                assert(first + (rest + dedup_spec(names)) =~= (first + rest) + dedup_spec(names));
            },
        }
    }
}

/// The names all extractors find across a whole argument list.
pub open spec fn pipeline_scan_args(extractors: Seq<ScopeMutator>, args: Seq<Seq<char>>) -> Result<
    Seq<Seq<char>>,
    ParseError,
>
    decreases args.len(),
{
    if args.len() == 0 {
        Ok(Seq::empty())
    } else {
        match pipeline_scan_text(extractors, args[0]) {
            Err(e) => Err(e),
            Ok(first) => match pipeline_scan_args(extractors, args.drop_first()) {
                Err(e) => Err(e),
                Ok(rest) => Ok(first + rest),
            },
        }
    }
}

/// Unrolling `pipeline_scan_args` from the back, one argument at a time.
pub proof fn lemma_pipeline_scan_args_push(
    extractors: Seq<ScopeMutator>,
    args: Seq<Seq<char>>,
    arg: Seq<char>,
)
    requires
        pipeline_scan_args(extractors, args) is Ok,
    ensures
        pipeline_scan_args(extractors, args.push(arg)) == match pipeline_scan_text(
            extractors,
            arg,
        ) {
            Err(e) => Err::<Seq<Seq<char>>, ParseError>(e),
            Ok(names) => Ok(pipeline_scan_args(extractors, args)->Ok_0 + names),
        },
    decreases args.len(),
{
    if args.len() == 0 {
        reveal_with_fuel(pipeline_scan_args, 2);
        assert(args.push(arg)[0] == arg);
        assert(args.push(arg).drop_first() =~= Seq::<Seq<char>>::empty());
        match pipeline_scan_text(extractors, arg) {
            Err(e) => {},
            Ok(names) => {
                assert(pipeline_scan_args(extractors, args)->Ok_0 + names =~= names);
                assert(names + Seq::<Seq<char>>::empty() =~= names);
            },
        }
    } else {
        assert(args.push(arg)[0] == args[0]);
        assert(args.push(arg).drop_first() =~= args.drop_first().push(arg));
        lemma_pipeline_scan_args_push(extractors, args.drop_first(), arg);
        match pipeline_scan_text(extractors, arg) {
            Err(e) => {},
            Ok(names) => {
                let first = pipeline_scan_text(extractors, args[0])->Ok_0;
                let rest = pipeline_scan_args(extractors, args.drop_first())->Ok_0;
                assert(first + (rest + names) =~= (first + rest) + names);
            },
        }
    }
}

} // verus!
