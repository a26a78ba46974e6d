//! Registry of shared definitions keyed by string identifier.
use std::sync::Arc;
use vstd::prelude::*;
use crate::assoc::{assoc_map, keys_distinct, lemma_assoc_map_dom, lemma_assoc_map_push,
    lemma_assoc_map_update, lemma_assoc_map_value};

verus! {

/// Identifier-keyed store of shared values; each identifier holds at most one value.
pub struct Registry<T> {
    entries: Vec<(String, Arc<T>)>,
}

/// The pairs of a registry with each identifier read as its characters.
pub open spec fn keyed_by_chars<T>(s: Seq<(String, Arc<T>)>) -> Seq<(Seq<char>, Arc<T>)> {
    s.map_values(|e: (String, Arc<T>)| (e.0@, e.1))
}

impl<T> View for Registry<T> {
    type V = Map<Seq<char>, Arc<T>>;

    closed spec fn view(&self) -> Map<Seq<char>, Arc<T>> {
        assoc_map(keyed_by_chars(self.entries@))
    }
}

impl<T> Registry<T> {
    /// Well-formed: no identifier is stored twice.
    pub closed spec fn wf(&self) -> bool {
        keys_distinct(keyed_by_chars(self.entries@))
    }

    pub fn new() -> (r: Self)
        ensures
            r.wf(),
            r@ == Map::<Seq<char>, Arc<T>>::empty(),
    {
        let r = Registry { entries: Vec::new() };
        assert(keyed_by_chars(r.entries@) =~= Seq::empty());
        r
    }

    /// Position of `id` among the entries, if it is there.
    fn find(&self, id: &str) -> (r: Option<usize>)
        requires
            self.wf(),
        ensures
            match r {
                Some(i) => i < self.entries@.len() && self.entries@[i as int].0@ == id@,
                None => !self@.contains_key(id@),
            },
    {
        let key = id.to_owned();
        let mut i: usize = 0;
        while i < self.entries.len()
            invariant
                0 <= i <= self.entries@.len(),
                key@ == id@,
                forall|j: int| 0 <= j < i ==> self.entries@[j].0@ != id@,
            decreases self.entries@.len() - i,
        {
            if self.entries[i].0 == key {
                return Some(i);
            }
            i = i + 1;
        }
        proof {
            lemma_assoc_map_dom(keyed_by_chars(self.entries@), id@);
        }
        None
    }

    /// Stores `value` under `id`, replacing what was there.
    pub fn register(&mut self, id: &str, value: T)
        requires
            old(self).wf(),
        ensures
            final(self).wf(),
            final(self)@ == old(self)@.insert(id@, Arc::new(value)),
    {
        let v = Arc::new(value);
        match self.find(id) {
            Some(i) => {
                let ghost s = keyed_by_chars(self.entries@);
                let k = self.entries[i].0.clone();
                self.entries.set(i, (k, v));
                proof {
                    assert(keyed_by_chars(self.entries@) =~= s.update(i as int, (s[i as int].0, v)));
                    lemma_assoc_map_update(s, i as int, v);
                }
            },
            None => {
                let ghost s = keyed_by_chars(self.entries@);
                self.entries.push((id.to_owned(), v));
                proof {
                    assert(keyed_by_chars(self.entries@) =~= s.push((id@, v)));
                    lemma_assoc_map_push(s, id@, v);
                    lemma_assoc_map_dom(s, id@);
                }
            },
        }
    }

    /// The value stored under `id`, shared.
    pub fn get(&self, id: &str) -> (r: Option<Arc<T>>)
        requires
            self.wf(),
        ensures
            r == (if self@.contains_key(id@) { Some(self@[id@]) } else { None }),
    {
        match self.find(id) {
            Some(i) => {
                proof {
                    lemma_assoc_map_value(keyed_by_chars(self.entries@), i as int);
                }
                Some(self.entries[i].1.clone())
            },
            None => None,
        }
    }

    /// All identifier/value pairs, in registration order.
    pub fn iter(&self) -> (r: &[(String, Arc<T>)])
        requires
            self.wf(),
        ensures
            keys_distinct(keyed_by_chars(r@)),
            assoc_map(keyed_by_chars(r@)) == self@,
    {
        self.entries.as_slice()
    }
}

} // verus!
