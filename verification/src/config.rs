//! The fixed wiring of mutator scopes: which scopes a fresh registry
//! holds.

use vstd::prelude::*;

use crate::run::mutators::RunMutators;
use crate::variables::mutators::VariableMutators;
use crate::variables::ScopeMutator;

verus! {

pub struct Config {}

impl Config {
    /// A registry with the ad-hoc run scope registered, both as extractor
    /// and as inserter.
    pub fn get_mutators() -> (r: VariableMutators)
        ensures
            r.extractors@ == seq![ScopeMutator::Run(RunMutators {  })],
            r.inserters@ == seq![ScopeMutator::Run(RunMutators {  })],
    {
        let mut variable_mutator = VariableMutators::new();
        let mut extractors: Vec<ScopeMutator> = Vec::new();
        extractors.push(ScopeMutator::Run(RunMutators {  }));
        let mut inserters: Vec<ScopeMutator> = Vec::new();
        inserters.push(ScopeMutator::Run(RunMutators {  }));
        variable_mutator.register_extractors(extractors);
        variable_mutator.register_inserters(inserters);
        proof {
            assert(variable_mutator.extractors@ =~= seq![ScopeMutator::Run(RunMutators {  })]);
            assert(variable_mutator.inserters@ =~= seq![ScopeMutator::Run(RunMutators {  })]);
        }
        variable_mutator
    }
}

} // verus!
