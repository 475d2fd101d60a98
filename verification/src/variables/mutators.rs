//! A registry of mutator scopes, extractors and inserters apart, from which
//! a pipeline is wired up.

use vstd::prelude::*;

use super::ScopeMutator;

verus! {

/// The registered extractor and inserter scopes, in registration order.
pub struct VariableMutators {
    pub extractors: Vec<ScopeMutator>,
    pub inserters: Vec<ScopeMutator>,
}

impl VariableMutators {
    pub fn new() -> (r: VariableMutators)
        ensures
            r.extractors@.len() == 0,
            r.inserters@.len() == 0,
    {
        VariableMutators { extractors: Vec::new(), inserters: Vec::new() }
    }

    /// Registers the extractors, after the ones already there.
    pub fn register_extractors(&mut self, extractors: Vec<ScopeMutator>)
        ensures
            final (self).extractors@ == old(self).extractors@ + extractors@,
            final (self).inserters@ == old(self).inserters@,
    {
        let mut extractors = extractors;
        self.extractors.append(&mut extractors);
    }

    /// Registers the inserters, after the ones already there.
    pub fn register_inserters(&mut self, inserters: Vec<ScopeMutator>)
        ensures
            final (self).inserters@ == old(self).inserters@ + inserters@,
            final (self).extractors@ == old(self).extractors@,
    {
        let mut inserters = inserters;
        self.inserters.append(&mut inserters);
    }
}

} // verus!
