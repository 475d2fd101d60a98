//! An ordered key/value map of strings, used for the values a template is
//! rendered with and for workspace variables.
//!
//! Entries keep their insertion order (rendering folds over them in that
//! order) and keys are unique; the view is the entry sequence, over which a
//! `Map` abstraction is available too.

use vstd::prelude::*;

verus! {

/// A mapping from variable names to values, in insertion order.
pub struct ValueMap {
    entries: Vec<(String, String)>,
}

impl View for ValueMap {
    type V = Seq<(Seq<char>, Seq<char>)>;

    closed spec fn view(&self) -> Seq<(Seq<char>, Seq<char>)> {
        self.entries.deep_view()
    }
}

impl ValueMap {
    /// Keys are unique across the entries.
    #[verifier::type_invariant]
    pub open spec fn inv(&self) -> bool {
        forall|i: int, j: int| 0 <= i < j < self@.len() ==> self@[i].0 != self@[j].0
    }

    /// The key is bound by some entry.
    pub open spec fn spec_contains(&self, k: Seq<char>) -> bool {
        exists|i: int| 0 <= i < self@.len() && self@[i].0 == k
    }

    /// The position of the entry binding the key.
    pub open spec fn index_of(&self, k: Seq<char>) -> int {
        choose|i: int| 0 <= i < self@.len() && self@[i].0 == k
    }

    /// The value bound to the key, if any.
    pub open spec fn spec_get(&self, k: Seq<char>) -> Option<Seq<char>> {
        if self.spec_contains(k) {
            Some(self@[self.index_of(k)].1)
        } else {
            None
        }
    }

    /// The entries as a mathematical map.
    pub open spec fn as_map(&self) -> Map<Seq<char>, Seq<char>> {
        Map::new(|k: Seq<char>| self.spec_contains(k), |k: Seq<char>| self.spec_get(k)->Some_0)
    }

    pub fn new() -> (r: ValueMap)
        ensures
            r@ == Seq::<(Seq<char>, Seq<char>)>::empty(),
    {
        let r = ValueMap { entries: Vec::new() };
        assert(r@ =~= Seq::<(Seq<char>, Seq<char>)>::empty());
        r
    }

    pub fn len(&self) -> (r: usize)
        ensures
            r == self@.len(),
    {
        self.entries.len()
    }

    /// The entry list itself, for substitution in entry order.
    pub fn entry_list(&self) -> (r: &Vec<(String, String)>)
        ensures
            r.deep_view() == self@,
    {
        &self.entries
    }

    /// Looks the key up; `Some` exactly when an entry binds it.
    pub fn get(&self, key: &str) -> (r: Option<&String>)
        ensures
            match r {
                Some(v) => self.spec_get(key@) == Some(v@),
                None => !self.spec_contains(key@),
            },
    {
        proof {
            use_type_invariant(self);
        }
        let mut i: usize = 0;
        while i < self.entries.len()
            invariant
                i <= self@.len(),
                self@ == self.entries.deep_view(),
                forall|j: int| 0 <= j < i ==> self@[j].0 != key@,
            decreases self@.len() - i,
        {
            if crate::strutil::str_eq(self.entries[i].0.as_str(), key) {
                assert(self@[i as int].0 == key@);
                proof {
                    use_type_invariant(self);
                    assert(self.spec_contains(key@));
                    let w = self.index_of(key@);
                    if w != i as int {
                        assert(self@[w].0 == self@[i as int].0);
                    }
                }
                return Some(&self.entries[i].1);
            }
            i += 1;
        }
        assert(!self.spec_contains(key@));
        None
    }

    /// True exactly when an entry binds the key.
    pub fn contains_key(&self, key: &str) -> (r: bool)
        ensures
            r == self.spec_contains(key@),
    {
        self.get(key).is_some()
    }

    /// Binds the key to the value: an existing entry is overwritten in
    /// place, a new binding goes to the end.
    pub fn insert(&mut self, key: String, value: String)
        ensures
            old(self).spec_contains(key@) ==> final (self)@ == old(self)@.update(
                old(self).index_of(key@),
                (key@, value@),
            ),
            !old(self).spec_contains(key@) ==> final (self)@ == old(self)@.push((key@, value@)),
            final (self).spec_get(key@) == Some(value@),
    {
        proof {
            use_type_invariant(&*self);
        }
        let ghost old_view = self@;
        let mut entries: Vec<(String, String)> = Vec::new();
        core::mem::swap(&mut self.entries, &mut entries);
        let mut found: Option<usize> = None;
        let mut i: usize = 0;
        while i < entries.len()
            invariant
                i <= entries.deep_view().len(),
                entries.deep_view() == old_view,
                match found {
                    Some(f) => f < old_view.len() && old_view[f as int].0 == key@,
                    None => forall|j: int| 0 <= j < i ==> old_view[j].0 != key@,
                },
            decreases entries.deep_view().len() - i,
        {
            if found.is_none() && crate::strutil::str_eq(entries[i].0.as_str(), key.as_str()) {
                assert(old_view[i as int].0 == key@);
                found = Some(i);
            }
            i += 1;
        }
        proof {
            assert(forall|i: int, j: int|
                0 <= i < j < old_view.len() ==> old_view[i].0 != old_view[j].0);
        }
        match found {
            Some(i) => {
                entries[i] = (key, value);
                proof {
                    assert(entries.deep_view() =~= old_view.update(i as int, (key@, value@)));
                    assert(old(self).spec_contains(key@));
                    let w = old(self).index_of(key@);
                    if w != i as int {
                        assert(old_view[w].0 == old_view[i as int].0);
                    }
                }
                core::mem::swap(&mut self.entries, &mut entries);
                proof {
                    assert(self@[i as int].0 == key@);
                    assert(self.spec_contains(key@));
                    let n = self.index_of(key@);
                    if n != i as int {
                        assert(self@[n].0 == self@[i as int].0);
                    }
                }
            },
            None => {
                assert(!old(self).spec_contains(key@));
                entries.push((key, value));
                proof {
                    assert(entries.deep_view() =~= old_view.push((key@, value@)));
                }
                core::mem::swap(&mut self.entries, &mut entries);
                proof {
                    assert(self@[old_view.len() as int].0 == key@);
                    assert(self.spec_contains(key@));
                    let n = self.index_of(key@);
                    if n != old_view.len() as int {
                        assert(self@[n].0 == self@[old_view.len() as int].0);
                    }
                }
            },
        }
    }

    /// The keys, in entry order.
    pub fn keys(&self) -> (r: Vec<String>)
        ensures
            r.deep_view().len() == self@.len(),
            forall|m: int| 0 <= m < self@.len() ==> r.deep_view()[m] == self@[m].0,
    {
        let mut r: Vec<String> = Vec::new();
        let mut i: usize = 0;
        while i < self.entries.len()
            invariant
                i <= self@.len(),
                self@ == self.entries.deep_view(),
                r@.len() == i,
                forall|m: int| 0 <= m < i ==> r.deep_view()[m] == self@[m].0,
            decreases self@.len() - i,
        {
            let ghost prev = r@;
            let ghost prev_deep = r.deep_view();
            let k = self.entries[i].0.clone();
            proof {
                assert(k@ == self@[i as int].0);
            }
            r.push(k);
            proof {
                assert forall|m: int| 0 <= m < i + 1 implies r.deep_view()[m] == self@[m].0 by {
                    if m < i as int {
                        assert(r@[m] == prev[m]);
                        assert(r.deep_view()[m] == prev[m].deep_view());
                        assert(prev_deep[m] == prev[m].deep_view());
                    } else {
                        assert(r@[m] == k);
                    }
                }
            }
            i += 1;
        }
        r
    }
}

impl Clone for ValueMap {
    /// A clone has the same entries.
    fn clone(&self) -> (r: Self)
        ensures
            r@ == self@,
    {
        proof {
            use_type_invariant(self);
        }
        let mut entries: Vec<(String, String)> = Vec::new();
        let mut i: usize = 0;
        while i < self.entries.len()
            invariant
                i <= self@.len(),
                self@ == self.entries.deep_view(),
                entries@.len() == i,
                forall|m: int| 0 <= m < i ==> entries.deep_view()[m] == self@[m],
            decreases self@.len() - i,
        {
            let k = self.entries[i].0.clone();
            let v = self.entries[i].1.clone();
            proof {
                assert(k@ == self@[i as int].0);
                assert(v@ == self@[i as int].1);
            }
            entries.push((k, v));
            i += 1;
        }
        let r = ValueMap { entries };
        proof {
            assert(r@ =~= self@);
        }
        r
    }
}

} // verus!
