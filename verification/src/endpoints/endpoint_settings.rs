//! The endpoint settings module: saved command templates by id, and a
//! bounded history of rendered commands, most recent kept.

use vstd::prelude::*;

use crate::strutil;
use crate::strutil::dec_str;
use crate::table::Table;
use crate::templates::TemplateBuilder;

verus! {

/// Saved templates by id, and a history bounded by `history_len`.
pub struct EndpointSettings {
    saved: Table<TemplateBuilder>,
    history_len: usize,
    history: Vec<String>,
}

impl EndpointSettings {
    /// The history never exceeds its capacity.
    #[verifier::type_invariant]
    pub open spec fn inv(&self) -> bool {
        self.spec_history().len() <= self.spec_history_len()
    }

    /// The saved-template table.
    pub closed spec fn spec_saved(&self) -> Table<TemplateBuilder> {
        self.saved
    }

    /// The history entries, oldest first.
    pub closed spec fn spec_history(&self) -> Seq<Seq<char>> {
        self.history.deep_view()
    }

    /// The history capacity.
    pub closed spec fn spec_history_len(&self) -> nat {
        self.history_len as nat
    }

    /// Saves the template under the id, overwriting any template already
    /// there.
    pub fn add_saved(&mut self, id: String, history: TemplateBuilder)
        ensures
            final (self).spec_saved().spec_get(id@) == Some(history),
            old(self).spec_saved().spec_contains(id@) ==> final (self).spec_saved()@ == old(
                self,
            ).spec_saved()@.update(old(self).spec_saved().index_of(id@), (id@, history)),
            !old(self).spec_saved().spec_contains(id@) ==> final (self).spec_saved()@ == old(
                self,
            ).spec_saved()@.push((id@, history)),
            final (self).spec_history() == old(self).spec_history(),
            final (self).spec_history_len() == old(self).spec_history_len(),
    {
        proof {
            use_type_invariant(&*self);
        }
        let mut saved: Table<TemplateBuilder> = Table::new();
        core::mem::swap(&mut self.saved, &mut saved);
        saved.insert(id, history);
        core::mem::swap(&mut self.saved, &mut saved);
    }

    /// The template saved under the id, if any.
    pub fn get_saved(&self, id: &String) -> (r: Option<&TemplateBuilder>)
        ensures
            match r {
                Some(t) => self.spec_saved().spec_get(id@) == Some(*t),
                None => !self.spec_saved().spec_contains(id@),
            },
    {
        self.saved.get(id.as_str())
    }

    /// The saved ids, in insertion order.
    pub fn get_saved_keys(&self) -> (r: Vec<String>)
        ensures
            r.deep_view().len() == self.spec_saved()@.len(),
            forall|m: int|
                0 <= m < self.spec_saved()@.len() ==> r.deep_view()[m] == self.spec_saved()@[m].0,
    {
        self.saved.keys()
    }

    /// Appends the rendered command to the history; when the history is
    /// full, the oldest entry is dropped, so the most recent
    /// `history_len` entries are the ones kept.
    pub fn insert_history(&mut self, cmd: &str)
        ensures
            old(self).spec_history().len() < old(self).spec_history_len() ==> final (
            self).spec_history() == old(self).spec_history().push(cmd@),
            old(self).spec_history().len() >= old(self).spec_history_len() ==> final (
            self).spec_history() == old(self).spec_history().push(cmd@).drop_first(),
            final (self).spec_history().len() <= final (self).spec_history_len(),
            final (self).spec_history_len() == old(self).spec_history_len(),
            final (self).spec_saved() == old(self).spec_saved(),
    {
        proof {
            use_type_invariant(&*self);
        }
        let ghost old_hist = self.history.deep_view();
        let mut history: Vec<String> = Vec::new();
        core::mem::swap(&mut self.history, &mut history);
        let ghost prev = history@;
        let ghost prev_deep = history.deep_view();
        history.push(cmd.to_owned());
        proof {
            assert forall|m: int| 0 <= m < prev.len() implies history.deep_view()[m]
                == prev_deep[m] by {
                assert(history@[m] == prev[m]);
                assert(prev_deep[m] == prev[m].deep_view());
            }
            assert(history.deep_view() =~= old_hist.push(cmd@));
        }
        if history.len() > self.history_len {
            let ghost pushed = history.deep_view();
            let ghost full = history@;
            history.remove(0);
            proof {
                assert(history@ =~= full.drop_first());
                assert forall|m: int| 0 <= m < history@.len() implies history.deep_view()[m]
                    == pushed[m + 1] by {
                    assert(history@[m] == full[m + 1]);
                    assert(pushed[m + 1] == full[m + 1].deep_view());
                }
                assert(history.deep_view() =~= old_hist.push(cmd@).drop_first());
            }
        }
        core::mem::swap(&mut self.history, &mut history);
    }

    /// Every history entry, written `index | entry`, oldest first.
    pub fn get_history_entries(&self) -> (r: Vec<String>)
        ensures
            r.deep_view().len() == self.spec_history().len(),
            forall|i: int|
                0 <= i < r.deep_view().len() ==> r.deep_view()[i] == dec_str(i as nat) + " | "@
                    + self.spec_history()[i],
    {
        let mut r: Vec<String> = Vec::new();
        let mut i: usize = 0;
        while i < self.history.len()
            invariant
                i <= self.history@.len(),
                self.spec_history() == self.history.deep_view(),
                r@.len() == i,
                forall|j: int|
                    0 <= j < i ==> r.deep_view()[j] == dec_str(j as nat) + " | "@
                        + self.spec_history()[j],
            decreases self.history@.len() - i,
        {
            let ghost prev = r@;
            let ghost prev_deep = r.deep_view();
            let mut line = strutil::usize_to_string(i);
            line.append(" | ");
            line.append(self.history[i].as_str());
            r.push(line);
            proof {
                assert forall|j: int| 0 <= j < i + 1 implies r.deep_view()[j] == dec_str(j as nat)
                    + " | "@ + self.spec_history()[j] by {
                    if j < i as int {
                        assert(r@[j] == prev[j]);
                        assert(prev_deep[j] == prev[j].deep_view());
                    }
                }
            }
            i += 1;
        }
        r
    }

    /// The history entry at the index, if the index is in range; index 0 is
    /// the oldest entry kept.
    pub fn get_history_entry(&self, index: usize) -> (r: Option<&String>)
        ensures
            match r {
                Some(s) => index < self.spec_history().len() && s@ == self.spec_history()[index as int],
                None => index >= self.spec_history().len(),
            },
    {
        if index < self.history.len() {
            Some(&self.history[index])
        } else {
            None
        }
    }

    /// A fresh module slice: nothing saved, an empty history that keeps ten
    /// entries.
    pub fn default() -> (r: EndpointSettings)
        ensures
            r.spec_saved()@.len() == 0,
            r.spec_history().len() == 0,
            r.spec_history_len() == 10,
    {
        EndpointSettings { saved: Table::new(), history_len: 10, history: Vec::new() }
    }
}

} // verus!
