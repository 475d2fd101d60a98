//! A small keyed table: values of one type under unique string keys, kept
//! in insertion order.

use vstd::prelude::*;

verus! {

/// A mapping from string keys to values of one type.
pub struct Table<T> {
    entries: Vec<(String, T)>,
}

impl<T> View for Table<T> {
    type V = Seq<(Seq<char>, T)>;

    closed spec fn view(&self) -> Seq<(Seq<char>, T)> {
        Seq::new(self.entries@.len(), |i: int| (self.entries@[i].0@, self.entries@[i].1))
    }
}

impl<T> Table<T> {
    /// Keys are unique across the entries.
    #[verifier::type_invariant]
    pub open spec fn inv(&self) -> bool {
        forall|i: int, j: int| 0 <= i < j < self@.len() ==> self@[i].0 != self@[j].0
    }

    /// The key is bound by some entry.
    pub open spec fn spec_contains(&self, k: Seq<char>) -> bool {
        exists|i: int| 0 <= i < self@.len() && self@[i].0 == k
    }

    /// The position of the entry binding the key.
    pub open spec fn index_of(&self, k: Seq<char>) -> int {
        choose|i: int| 0 <= i < self@.len() && self@[i].0 == k
    }

    /// The value bound to the key, if any.
    pub open spec fn spec_get(&self, k: Seq<char>) -> Option<T> {
        if self.spec_contains(k) {
            Some(self@[self.index_of(k)].1)
        } else {
            None
        }
    }

    pub fn new() -> (r: Table<T>)
        ensures
            r@ == Seq::<(Seq<char>, T)>::empty(),
    {
        let r = Table { entries: Vec::new() };
        proof {
            assert(r@ =~= Seq::<(Seq<char>, T)>::empty());
        }
        r
    }

    pub fn len(&self) -> (r: usize)
        ensures
            r == self@.len(),
    {
        self.entries.len()
    }

    /// Looks the key up; `Some` exactly when an entry binds it.
    pub fn get(&self, key: &str) -> (r: Option<&T>)
        ensures
            match r {
                Some(v) => self.spec_get(key@) == Some(*v),
                None => !self.spec_contains(key@),
            },
    {
        proof {
            use_type_invariant(self);
        }
        let mut i: usize = 0;
        while i < self.entries.len()
            invariant
                i <= self.entries@.len(),
                self@.len() == self.entries@.len(),
                forall|j: int| 0 <= j < self@.len() ==> self@[j] == (self.entries@[j].0@, self.entries@[j].1),
                forall|j: int| 0 <= j < i ==> self@[j].0 != key@,
            decreases self.entries@.len() - i,
        {
            if crate::strutil::str_eq(self.entries[i].0.as_str(), key) {
                assert(self@[i as int].0 == key@);
                proof {
                    use_type_invariant(self);
                    assert(self.spec_contains(key@));
                    let w = self.index_of(key@);
                    if w != i as int {
                        assert(self@[w].0 == self@[i as int].0);
                    }
                }
                return Some(&self.entries[i].1);
            }
            i += 1;
        }
        assert(!self.spec_contains(key@));
        None
    }

    /// True exactly when an entry binds the key.
    pub fn contains_key(&self, key: &str) -> (r: bool)
        ensures
            r == self.spec_contains(key@),
    {
        self.get(key).is_some()
    }

    /// Binds the key to the value: an existing entry is overwritten in
    /// place, a new binding goes to the end.
    pub fn insert(&mut self, key: String, value: T)
        ensures
            old(self).spec_contains(key@) ==> final (self)@ == old(self)@.update(
                old(self).index_of(key@),
                (key@, value),
            ),
            !old(self).spec_contains(key@) ==> final (self)@ == old(self)@.push((key@, value)),
            final (self).spec_get(key@) == Some(value),
    {
        proof {
            use_type_invariant(&*self);
        }
        let ghost old_view = self@;
        let mut entries: Vec<(String, T)> = Vec::new();
        core::mem::swap(&mut self.entries, &mut entries);
        let mut found: Option<usize> = None;
        let mut i: usize = 0;
        while i < entries.len()
            invariant
                i <= entries@.len(),
                entries@.len() == old_view.len(),
                forall|j: int|
                    0 <= j < old_view.len() ==> old_view[j] == (entries@[j].0@, entries@[j].1),
                match found {
                    Some(f) => f < old_view.len() && old_view[f as int].0 == key@,
                    None => forall|j: int| 0 <= j < i ==> old_view[j].0 != key@,
                },
            decreases entries@.len() - i,
        {
            if found.is_none() && crate::strutil::str_eq(entries[i].0.as_str(), key.as_str()) {
                assert(old_view[i as int].0 == key@);
                found = Some(i);
            }
            i += 1;
        }
        proof {
            assert(forall|i: int, j: int|
                0 <= i < j < old_view.len() ==> old_view[i].0 != old_view[j].0);
        }
        match found {
            Some(i) => {
                entries[i] = (key, value);
                proof {
                    assert(old(self).spec_contains(key@));
                    let w = old(self).index_of(key@);
                    if w != i as int {
                        assert(old_view[w].0 == old_view[i as int].0);
                    }
                    assert forall|a: int, b: int|
                        0 <= a < b < entries@.len() implies entries@[a].0@ != entries@[b].0@ by {
                        let va = if a == i as int {
                            key@
                        } else {
                            old_view[a].0
                        };
                        assert(entries@[a].0@ == va);
                        let vb = if b == i as int {
                            key@
                        } else {
                            old_view[b].0
                        };
                        assert(entries@[b].0@ == vb);
                        assert(old_view[i as int].0 == key@);
                    }
                }
                core::mem::swap(&mut self.entries, &mut entries);
                proof {
                    assert(self@ =~= old_view.update(i as int, (key@, value)));
                    assert(self@[i as int].0 == key@);
                    assert(self.spec_contains(key@));
                    let n = self.index_of(key@);
                    if n != i as int {
                        assert(self@[n].0 == self@[i as int].0);
                    }
                }
            },
            None => {
                assert(!old(self).spec_contains(key@));
                entries.push((key, value));
                proof {
                    assert forall|a: int, b: int|
                        0 <= a < b < entries@.len() implies entries@[a].0@ != entries@[b].0@ by {
                        if b < old_view.len() {
                            assert(entries@[a].0@ == old_view[a].0);
                            assert(entries@[b].0@ == old_view[b].0);
                        } else {
                            assert(entries@[b].0@ == key@);
                            assert(entries@[a].0@ == old_view[a].0);
                            assert(!old(self).spec_contains(key@));
                            if old_view[a].0 == key@ {
                                assert(old(self).spec_contains(key@));
                            }
                        }
                    }
                }
                core::mem::swap(&mut self.entries, &mut entries);
                proof {
                    assert(self@ =~= old_view.push((key@, value)));
                    assert(self@[old_view.len() as int].0 == key@);
                    assert(self.spec_contains(key@));
                    let n = self.index_of(key@);
                    if n != old_view.len() as int {
                        assert(self@[n].0 == self@[old_view.len() as int].0);
                    }
                }
            },
        }
    }

    /// The keys, in entry order.
    pub fn keys(&self) -> (r: Vec<String>)
        ensures
            r.deep_view().len() == self@.len(),
            forall|m: int| 0 <= m < self@.len() ==> r.deep_view()[m] == self@[m].0,
    {
        let mut r: Vec<String> = Vec::new();
        let mut i: usize = 0;
        while i < self.entries.len()
            invariant
                i <= self.entries@.len(),
                self@.len() == self.entries@.len(),
                forall|j: int|
                    0 <= j < self@.len() ==> self@[j] == (self.entries@[j].0@, self.entries@[j].1),
                r@.len() == i,
                forall|m: int| 0 <= m < i ==> r.deep_view()[m] == self@[m].0,
            decreases self.entries@.len() - i,
        {
            let ghost prev = r@;
            let ghost prev_deep = r.deep_view();
            let k = self.entries[i].0.clone();
            proof {
                assert(k@ == self@[i as int].0);
            }
            r.push(k);
            proof {
                assert forall|m: int| 0 <= m < i + 1 implies r.deep_view()[m] == self@[m].0 by {
                    if m < i as int {
                        assert(r@[m] == prev[m]);
                        assert(prev_deep[m] == prev[m].deep_view());
                    }
                }
            }
            i += 1;
        }
        r
    }
}

} // verus!
