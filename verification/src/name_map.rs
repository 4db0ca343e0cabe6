//! Maps keyed by text.
use vstd::prelude::*;

verus! {

/// A map from texts to values.
///
/// The entries stand in the order in which their keys were first inserted, and no key occurs
/// twice.
#[derive(Debug)]
pub struct NameMap<V> {
    entries: Vec<(String, V)>,
}

/// The place of the first entry with key `key`; the number of entries if there is none.
pub open spec fn position<V>(entries: Seq<(String, V)>, key: Seq<char>) -> int
    decreases entries.len(),
{
    if entries.len() == 0 {
        0
    } else if entries[0].0@ == key {
        0
    } else {
        1 + position(entries.drop_first(), key)
    }
}

proof fn lemma_position<V>(entries: Seq<(String, V)>, key: Seq<char>, at: int)
    requires
        0 <= at <= entries.len(),
        forall|j: int| 0 <= j < at ==> (#[trigger] entries[j]).0@ != key,
        at < entries.len() ==> entries[at].0@ == key,
    ensures
        position(entries, key) == at,
    decreases entries.len(),
{
    if entries.len() > 0 && at > 0 {
        assert(entries[0].0@ != key);
        let rest = entries.drop_first();
        assert forall|j: int| 0 <= j < at - 1 implies (#[trigger] rest[j]).0@ != key by {
            assert(rest[j] == entries[j + 1]);
        }
        assert(at < entries.len() ==> rest[at - 1] == entries[at]);
        lemma_position(rest, key, at - 1);
    }
}

proof fn lemma_position_facts<V>(entries: Seq<(String, V)>, key: Seq<char>)
    ensures
        0 <= position(entries, key) <= entries.len(),
        forall|j: int| 0 <= j < position(entries, key) ==> (#[trigger] entries[j]).0@ != key,
        position(entries, key) < entries.len() ==> entries[position(entries, key)].0@ == key,
    decreases entries.len(),
{
    if entries.len() > 0 && entries[0].0@ != key {
        let rest = entries.drop_first();
        lemma_position_facts(rest, key);
        assert forall|j: int| 0 <= j < position(entries, key) implies (
        #[trigger] entries[j]).0@ != key by {
            if j > 0 {
                assert(rest[j - 1] == entries[j]);
            }
        }
        if position(rest, key) < rest.len() {
            assert(rest[position(rest, key)] == entries[position(entries, key)]);
        }
    }
}

/// No two entries have the same key.
pub open spec fn distinct<V>(entries: Seq<(String, V)>) -> bool {
    forall|i: int, j: int|
        0 <= i < entries.len() && 0 <= j < entries.len() && i != j ==> (
        #[trigger] entries[i]).0@ != (#[trigger] entries[j]).0@
}

impl<V> NameMap<V> {
    #[verifier::type_invariant]
    spec fn keys_are_distinct(self) -> bool {
        distinct(self.entries@)
    }

    /// The entries, in order.
    pub closed spec fn entries(self) -> Seq<(String, V)> {
        self.entries@
    }
}

impl<V> View for NameMap<V> {
    type V = Map<Seq<char>, V>;

    open spec fn view(&self) -> Map<Seq<char>, V> {
        Map::new(
            |key: Seq<char>| position(self.entries(), key) < self.entries().len(),
            |key: Seq<char>| self.entries()[position(self.entries(), key)].1,
        )
    }
}

impl<V: Clone> Clone for NameMap<V> {
    fn clone(&self) -> (r: NameMap<V>)
        ensures
            forall|key: Seq<char>|
                #![trigger r@.contains_key(key)]
                r@.contains_key(key) == self@.contains_key(key) && (r@.contains_key(key)
                    ==> cloned::<V>(self@[key], r@[key])),
    {
        proof {
            use_type_invariant(self);
        }
        let mut entries: Vec<(String, V)> = Vec::new();
        let mut i: usize = 0;
        while i < self.entries.len()
            invariant
                i <= self.entries.len(),
                entries@.len() == i,
                forall|j: int|
                    0 <= j < i ==> (#[trigger] entries@[j]).0@ == self.entries@[j].0@ && cloned::<V>(
                        self.entries@[j].1,
                        entries@[j].1,
                    ),
            decreases self.entries.len() - i,
        {
            entries.push((self.entries[i].0.clone(), self.entries[i].1.clone()));
            i = i + 1;
        }
        proof {
            assert forall|i: int, j: int|
                0 <= i < entries@.len() && 0 <= j < entries@.len() && i != j implies (
            #[trigger] entries@[i]).0@ != (#[trigger] entries@[j]).0@ by {
                assert(self.entries@[i].0@ != self.entries@[j].0@);
            }
        }
        let r = NameMap { entries };
        proof {
            assert forall|key: Seq<char>| #[trigger]
                position(r.entries(), key) == position(self.entries(), key) by {
                lemma_position_facts(self.entries@, key);
                let at = position(self.entries@, key);
                assert forall|j: int| 0 <= j < at implies (#[trigger] r.entries@[j]).0@ != key by {
                    assert(self.entries@[j].0@ != key);
                }
                lemma_position(r.entries@, key, at);
            }
            assert forall|key: Seq<char>|
                #![trigger r@.contains_key(key)]
                r@.contains_key(key) == self@.contains_key(key) && (r@.contains_key(key)
                    ==> cloned::<V>(self@[key], r@[key])) by {
                lemma_position_facts(self.entries@, key);
                assert(position(r.entries(), key) == position(self.entries(), key));
                let at = position(self.entries(), key);
                if at < self.entries().len() {
                    assert(r.entries@[at].0@ == self.entries@[at].0@);
                }
            }
        }
        r
    }
}

impl<V> NameMap<V> {
    /// A map without entries.
    pub fn new() -> (r: NameMap<V>)
        ensures
            r@ == Map::<Seq<char>, V>::empty(),
    {
        let r = NameMap { entries: Vec::new() };
        assert(r@ =~= Map::<Seq<char>, V>::empty());
        r
    }

    fn find(&self, key: &str) -> (at: usize)
        ensures
            at <= self.entries@.len(),
            at == position(self.entries@, key@),
    {
        let mut i: usize = 0;
        while i < self.entries.len()
            invariant
                i <= self.entries@.len(),
                forall|j: int| 0 <= j < i ==> (#[trigger] self.entries@[j]).0@ != key@,
            decreases self.entries.len() - i,
        {
            if crate::text::same(self.entries[i].0.as_str(), key) {
                proof {
                    lemma_position(self.entries@, key@, i as int);
                }
                return i;
            }
            i = i + 1;
        }
        proof {
            lemma_position(self.entries@, key@, i as int);
        }
        i
    }

    /// The value for `key`.
    pub fn get(&self, key: &str) -> (r: Option<&V>)
        ensures
            r matches Some(v) ==> self@.contains_key(key@) && *v == self@[key@],
            r is None ==> !self@.contains_key(key@),
    {
        let at = self.find(key);
        if at < self.entries.len() {
            Some(&self.entries[at].1)
        } else {
            None
        }
    }

    /// Whether there is a value for `key`.
    pub fn contains_key(&self, key: &str) -> (r: bool)
        ensures
            r == self@.contains_key(key@),
    {
        self.find(key) < self.entries.len()
    }

    /// Whether there are no entries.
    pub fn is_empty(&self) -> (r: bool)
        ensures
            r == (self@ == Map::<Seq<char>, V>::empty()),
    {
        let r = self.entries.len() == 0;
        proof {
            if r {
                assert(self@ =~= Map::<Seq<char>, V>::empty());
            } else {
                assert(self@.contains_key(self.entries@[0].0@));
            }
        }
        r
    }

    /// The keys, each once.
    pub fn keys(&self) -> (r: Vec<String>)
        ensures
            forall|key: Seq<char>|
                self@.contains_key(key) <==> crate::text::views(r@).contains(key),
            crate::text::views(r@).no_duplicates(),
    {
        proof {
            use_type_invariant(self);
        }
        let mut out: Vec<String> = Vec::new();
        let mut i: usize = 0;
        while i < self.entries.len()
            invariant
                i <= self.entries.len(),
                out@.len() == i,
                forall|j: int| 0 <= j < i ==> (#[trigger] out@[j])@ == self.entries@[j].0@,
            decreases self.entries.len() - i,
        {
            out.push(self.entries[i].0.clone());
            i = i + 1;
        }
        proof {
            let names = crate::text::views(out@);
            assert forall|i: int, j: int|
                0 <= i < names.len() && 0 <= j < names.len() && i != j implies names[i]
                != names[j] by {
                assert(out@[i]@ == self.entries@[i].0@ && out@[j]@ == self.entries@[j].0@);
            }
            assert forall|key: Seq<char>|
                self@.contains_key(key) <==> names.contains(key) by {
                lemma_position_facts(self.entries@, key);
                let at = position(self.entries@, key);
                if at < self.entries@.len() {
                    assert(names[at] == out@[at]@);
                } else if names.contains(key) {
                    let j = choose|j: int| 0 <= j < names.len() && names[j] == key;
                    assert(out@[j]@ == key);
                    assert(self.entries@[j].0@ != key);
                }
            }
        }
        out
    }

    /// Sets the value for `key`.
    pub fn insert(&mut self, key: String, value: V)
        ensures
            final(self)@ == old(self)@.insert(key@, value),
    {
        proof {
            use_type_invariant(&*self);
        }
        let at = self.find(key.as_str());
        let ghost before = self.entries@;
        let ghost name = key@;
        let mut entries: Vec<(String, V)> = Vec::new();
        std::mem::swap(&mut entries, &mut self.entries);
        if at < entries.len() {
            let name_kept = entries[at].0.clone();
            entries.set(at, (name_kept, value));
        } else {
            entries.push((key, value));
        }
        let ghost after = entries@;
        proof {
            lemma_position_facts(before, name);
            assert forall|i: int, j: int|
                0 <= i < after.len() && 0 <= j < after.len() && i != j implies (
            #[trigger] after[i]).0@ != (#[trigger] after[j]).0@ by {
                if i < before.len() && j < before.len() {
                    assert(after[i].0@ == before[i].0@ && after[j].0@ == before[j].0@);
                } else if i < before.len() {
                    assert(after[i] == before[i]);
                } else {
                    assert(after[j] == before[j]);
                }
            }
        }
        self.entries = entries;
        proof {
            assert forall|k: Seq<char>| position(after, k) == (if k == name {
                at as int
            } else if position(before, k) == before.len() {
                after.len() as int
            } else {
                position(before, k)
            }) by {
                lemma_position_facts(before, k);
                if k == name {
                    assert forall|j: int| 0 <= j < at implies (#[trigger] after[j]).0@ != k by {
                        assert(after[j] == before[j]);
                    }
                    lemma_position(after, k, at as int);
                } else {
                    let place = if position(before, k) == before.len() {
                        after.len() as int
                    } else {
                        position(before, k)
                    };
                    assert forall|j: int| 0 <= j < place implies (#[trigger] after[j]).0@ != k by {
                        if j < before.len() && j != at {
                            assert(after[j] == before[j]);
                        }
                    }
                    lemma_position(after, k, place);
                }
            }
            let grown = old(self)@.insert(name, value);
            assert forall|k: Seq<char>|
                #![trigger self@.contains_key(k)]
                self@.contains_key(k) == grown.contains_key(k) && (self@.contains_key(k)
                    ==> self@[k] == grown[k]) by {
                lemma_position_facts(before, k);
                assert(position(after, k) == position(self.entries(), k));
            }
            assert(self@ =~= grown);
        }
    }
}

} // verus!
