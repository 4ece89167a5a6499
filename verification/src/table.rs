//! A small table of values under names, each name at most once.

use crate::text;
use vstd::prelude::*;

verus! {

/// Values under names. No name occurs twice; names keep the order of their first entry.
pub struct NameTable<V> {
    entries: Vec<(String, V)>,
}

impl<V> View for NameTable<V> {
    type V = Map<Seq<char>, V>;

    closed spec fn view(&self) -> Map<Seq<char>, V> {
        Map::new(
            |k: Seq<char>| self.names().contains(k),
            |k: Seq<char>| self.values()[self.names().index_of(k)],
        )
    }
}

impl<V> NameTable<V> {
    /// The names, in order.
    pub closed spec fn names(&self) -> Seq<Seq<char>> {
        self.entries@.map_values(|e: (String, V)| e.0@)
    }

    /// The values, in the order of their names.
    pub closed spec fn values(&self) -> Seq<V> {
        self.entries@.map_values(|e: (String, V)| e.1)
    }

    #[verifier::type_invariant]
    spec fn distinct(&self) -> bool {
        forall|i: int, j: int|
            0 <= i < j < self.entries@.len() ==> (#[trigger] self.entries@[i]).0@ != (
            #[trigger] self.entries@[j]).0@
    }

    proof fn lemma_at(&self, i: int)
        requires
            self.distinct(),
            0 <= i < self.entries@.len(),
        ensures
            self.names()[i] == self.entries@[i].0@,
            self@.dom().contains(self.entries@[i].0@),
            self@[self.entries@[i].0@] == self.entries@[i].1,
    {
        let name = self.entries@[i].0@;
        assert(self.names()[i] == name);
        let k = self.names().index_of(name);
        assert(self.names()[k] == name);
        assert(self.entries@[k].0@ == name);
        assert(k == i);
    }

    pub fn new() -> (r: Self)
        ensures
            r@ == Map::<Seq<char>, V>::empty(),
            r.names() == Seq::<Seq<char>>::empty(),
            r.values() == Seq::<V>::empty(),
    {
        let r: Self = NameTable { entries: Vec::new() };
        assert(r.names() =~= Seq::<Seq<char>>::empty());
        assert(r.values() =~= Seq::<V>::empty());
        assert(r@ =~= Map::<Seq<char>, V>::empty());
        r
    }

    /// Whether `names` and `values` list the table: each name once, beside its value.
    pub open spec fn listed(&self) -> bool {
        &&& self.names().len() == self.values().len()
        &&& self.names().no_duplicates()
        &&& forall|k: Seq<char>| #[trigger] self@.dom().contains(k) <==> self.names().contains(k)
        &&& forall|i: int|
            0 <= i < self.names().len() ==> #[trigger] self.values()[i] == self@[self.names()[i]]
    }

    pub fn len(&self) -> (r: usize)
        ensures
            r == self.names().len(),
            self.listed(),
    {
        proof {
            use_type_invariant(self);
            assert forall|i: int, j: int|
                0 <= i < self.names().len() && 0 <= j < self.names().len() && i
                    != j implies self.names()[i] != self.names()[j] by {
                self.lemma_names_of(i);
                self.lemma_names_of(j);
            }
            assert forall|i: int| 0 <= i < self.names().len() implies #[trigger] self.values()[i]
                == self@[self.names()[i]] by {
                self.lemma_at(i);
            }
        }
        self.entries.len()
    }

    /// The name at position `i`.
    pub fn name_at(&self, i: usize) -> (r: &str)
        requires
            i < self.names().len(),
        ensures
            r@ == self.names()[i as int],
            self@.dom().contains(r@),
    {
        proof {
            use_type_invariant(self);
            self.lemma_at(i as int);
        }
        self.entries[i].0.as_str()
    }

    /// The value at position `i`.
    pub fn value_at(&self, i: usize) -> (r: &V)
        requires
            i < self.names().len(),
        ensures
            *r == self.values()[i as int],
            *r == self@[self.names()[i as int]],
    {
        proof {
            use_type_invariant(self);
            self.lemma_at(i as int);
        }
        &self.entries[i].1
    }

    /// The position of `name`.
    pub fn find(&self, name: &str) -> (r: Option<usize>)
        ensures
            match r {
                Some(i) => i < self.names().len() && self.names()[i as int] == name@
                    && self@.dom().contains(name@),
                None => !self@.dom().contains(name@),
            },
    {
        proof {
            use_type_invariant(self);
        }
        let n: usize = self.entries.len();
        let mut i: usize = 0;
        while i < n
            invariant
                i <= n,
                n == self.entries@.len(),
                self.distinct(),
                forall|j: int| 0 <= j < i ==> (#[trigger] self.entries@[j]).0@ != name@,
            decreases n - i,
        {
            if text::same_text(self.entries[i].0.as_str(), name) {
                proof {
                    self.lemma_at(i as int);
                }
                return Some(i);
            }
            i += 1;
        }
        assert(!self.names().contains(name@)) by {
            if self.names().contains(name@) {
                let k = self.names().index_of(name@);
                assert(self.entries@[k].0@ == name@);
            }
        }
        None
    }

    /// The value under `name`.
    pub fn get(&self, name: &str) -> (r: Option<&V>)
        ensures
            match r {
                Some(v) => self@.dom().contains(name@) && *v == self@[name@],
                None => !self@.dom().contains(name@),
            },
    {
        match self.find(name) {
            Some(i) => Some(self.value_at(i)),
            None => None,
        }
    }

    /// Puts `value` under `name`, in place of what was there; a new name goes last.
    pub fn put(&mut self, name: &str, value: V)
        ensures
            final(self)@ == old(self)@.insert(name@, value),
            old(self)@.dom().contains(name@) ==> final(self).names() == old(self).names(),
            !old(self)@.dom().contains(name@) ==> final(self).names() == old(self).names().push(
                name@,
            ),
    {
        proof {
            use_type_invariant(&*self);
        }
        let place: Option<usize> = self.find(name);
        let mut entries: Vec<(String, V)> = Vec::new();
        std::mem::swap(&mut entries, &mut self.entries);
        match place {
            Some(i) => {
                entries.set(i, (name.to_string(), value));
            },
            None => {
                entries.push((name.to_string(), value));
            },
        }
        let ghost was = *old(self);
        proof {
            assert(was.distinct());
            assert forall|i: int, j: int| 0 <= i < j < entries@.len() implies (
            #[trigger] entries@[i]).0@ != (#[trigger] entries@[j]).0@ by {
                was.lemma_names_of(i);
                was.lemma_names_of(j);
            }
        }
        self.entries = entries;
        proof {
            let now = *self;
            match place {
                Some(i) => assert(now.names() =~= was.names()),
                None => assert(now.names() =~= was.names().push(name@)),
            }
            assert forall|k: Seq<char>|
                #[trigger] now@.dom().contains(k) == was@.insert(name@, value).dom().contains(k) by {
                if was.names().contains(k) {
                    let i = was.names().index_of(k);
                    assert(now.names()[i] == k);
                }
                if k == name@ {
                    match place {
                        Some(i) => assert(now.names()[i as int] == k),
                        None => assert(now.names().last() == k),
                    }
                }
                if now.names().contains(k) && k != name@ {
                    let i = now.names().index_of(k);
                    assert(was.names()[i] == k);
                }
            }
            assert forall|k: Seq<char>| now@.dom().contains(k) implies #[trigger] now@[k]
                == was@.insert(name@, value)[k] by {
                let i = now.names().index_of(k);
                assert(now.names()[i] == k);
                now.lemma_at(i);
                if k != name@ {
                    was.lemma_at(i);
                } else {
                    match place {
                        Some(p) => {
                            now.lemma_at(p as int);
                        },
                        None => {
                            now.lemma_at(now.entries@.len() - 1);
                        },
                    }
                }
            }
            assert(now@ =~= was@.insert(name@, value));
        }
    }

    proof fn lemma_names_of(&self, i: int)
        ensures
            0 <= i < self.entries@.len() ==> self.names()[i] == self.entries@[i].0@
                && self.names().contains(self.entries@[i].0@),
    {
        if 0 <= i < self.entries@.len() {
            assert(self.names()[i] == self.entries@[i].0@);
        }
    }

    /// Removes `name` and its value.
    pub fn remove(&mut self, name: &str)
        ensures
            final(self)@ == old(self)@.remove(name@),
    {
        proof {
            use_type_invariant(&*self);
        }
        let place: Option<usize> = self.find(name);
        let ghost was = *old(self);
        match place {
            Some(p) => {
                let mut entries: Vec<(String, V)> = Vec::new();
                std::mem::swap(&mut entries, &mut self.entries);
                let _gone: (String, V) = entries.remove(p);
                self.entries = entries;
                proof {
                    let now = *self;
                    assert(now.entries@ == was.entries@.remove(p as int));
                    was.lemma_at(p as int);
                    assert forall|k: Seq<char>|
                        #[trigger] now@.dom().contains(k) == was@.remove(name@).dom().contains(k) by {
                        if was.names().contains(k) && k != name@ {
                            let i = was.names().index_of(k);
                            let at = if i < p { i } else { i - 1 };
                            assert(now.names()[at] == k);
                        }
                        if now.names().contains(k) {
                            let i = now.names().index_of(k);
                            let at = if i < p { i } else { i + 1 };
                            assert(was.names()[at] == k);
                            assert(was.entries@[at].0@ == k);
                            assert(was.entries@[p as int].0@ == name@);
                        }
                    }
                    assert forall|k: Seq<char>| now@.dom().contains(k) implies #[trigger] now@[k]
                        == was@.remove(name@)[k] by {
                        let i = now.names().index_of(k);
                        let at = if i < p { i } else { i + 1 };
                        assert(now.names()[i] == k);
                        assert(was.entries@[at].0@ == k);
                        now.lemma_at(i);
                        was.lemma_at(at);
                    }
                    assert(now@ =~= was@.remove(name@));
                }
            },
            None => {
                assert(self@ =~= was@.remove(name@));
            },
        }
    }
}

/// The names and values of a listed table are the table: every name occurs exactly once, beside
/// its own value.
pub proof fn law_listing_is_the_table<V>(t: &NameTable<V>, name: Seq<char>, i: int, j: int)
    requires
        t.listed(),
    ensures
        t.names().len() == t.values().len(),
        t@.dom().contains(name) <==> t.names().contains(name),
        0 <= i < t.names().len() ==> t@.dom().contains(t.names()[i]) && t.values()[i]
            == t@[t.names()[i]],
        0 <= i < j < t.names().len() ==> t.names()[i] != t.names()[j],
{
    if 0 <= i < t.names().len() {
        assert(t.names().contains(t.names()[i]));
        assert(t@.dom().contains(t.names()[i]));
        assert(t.values()[i] == t@[t.names()[i]]);
    }
}

} // verus!
