//! A map from text keys to values, kept as a list of entries with distinct keys.

use vstd::prelude::*;
use vstd::std_specs::cmp::PartialEqSpec;

verus! {

/// A finite map keyed by text. Its view is the mathematical map from the
/// keys' characters to the values.
#[derive(Debug)]
pub struct Dictionary<V> {
    entries: Vec<(String, V)>,
}

impl<V> Dictionary<V> {
    #[verifier::type_invariant]
    spec fn keys_are_distinct(self) -> bool {
        forall|i: int, j: int|
            0 <= i < j < self.entries@.len() ==> self.entries@[i].0@ != self.entries@[j].0@
    }

    /// The position of `key` among the entries, if it is there.
    spec fn position(self, key: Seq<char>) -> int {
        choose|i: int| 0 <= i < self.entries@.len() && self.entries@[i].0@ == key
    }

    proof fn lemma_entry(self, i: int)
        requires
            self.keys_are_distinct(),
            0 <= i < self.entries@.len(),
        ensures
            self@.contains_key(self.entries@[i].0@),
            self@[self.entries@[i].0@] == self.entries@[i].1,
    {
        let key = self.entries@[i].0@;
        let p = self.position(key);
        assert(p == i) by {
            if p < i {
                assert(self.entries@[p].0@ != self.entries@[i].0@);
            } else if i < p {
                assert(self.entries@[i].0@ != self.entries@[p].0@);
            }
        }
    }

    /// A dictionary without keys.
    pub fn new() -> (dictionary: Self)
        ensures
            dictionary@ == Map::<Seq<char>, V>::empty(),
    {
        let dictionary = Dictionary { entries: Vec::new() };
        assert(dictionary@ =~= Map::<Seq<char>, V>::empty());
        dictionary
    }

    /// The number of keys.
    pub fn len(&self) -> (count: usize)
        ensures
            count == self@.dom().len(),
            self@.dom().finite(),
    {
        proof {
            use_type_invariant(self);
            self.lemma_len(self.entries@.len() as int);
            assert(self.prefix_keys(self.entries@.len() as int) =~= self@.dom());
        }
        self.entries.len()
    }

    /// The keys of the first `n` entries.
    spec fn prefix_keys(self, n: int) -> Set<Seq<char>> {
        Set::new(|key: Seq<char>| exists|i: int| 0 <= i < n && self.entries@[i].0@ == key)
    }

    proof fn lemma_len(self, n: int)
        requires
            self.keys_are_distinct(),
            0 <= n <= self.entries@.len(),
        ensures
            self.prefix_keys(n).finite(),
            self.prefix_keys(n).len() == n,
        decreases n,
    {
        if n == 0 {
            assert(self.prefix_keys(0) =~= Set::<Seq<char>>::empty());
        } else {
            self.lemma_len(n - 1);
            let last = self.entries@[n - 1].0@;
            assert(!self.prefix_keys(n - 1).contains(last)) by {
                if self.prefix_keys(n - 1).contains(last) {
                    let i = choose|i: int| 0 <= i < n - 1 && self.entries@[i].0@ == last;
                    assert(self.entries@[i].0@ != self.entries@[n - 1].0@);
                }
            }
            assert(self.prefix_keys(n) =~= self.prefix_keys(n - 1).insert(last)) by {
                assert forall|key: Seq<char>| self.prefix_keys(n - 1).insert(last).contains(key)
                    implies self.prefix_keys(n).contains(key) by {
                    if key == last {
                        assert(self.entries@[n - 1].0@ == key);
                    } else {
                        let i = choose|i: int| 0 <= i < n - 1 && self.entries@[i].0@ == key;
                        assert(0 <= i < n && self.entries@[i].0@ == key);
                    }
                }
            }
        }
    }

    /// Where `key` stands among the entries, or the number of entries if it
    /// is not there.
    fn find(&self, key: &String) -> (index: usize)
        ensures
            index <= self.entries@.len(),
            index < self.entries@.len() ==> self.entries@[index as int].0@ == key@,
            index == self.entries@.len() ==> !self@.contains_key(key@),
    {
        let mut i: usize = 0;
        while i < self.entries.len()
            invariant
                i <= self.entries@.len(),
                forall|j: int| 0 <= j < i ==> self.entries@[j].0@ != key@,
            decreases self.entries@.len() - i,
        {
            if self.entries[i].0 == *key {
                return i;
            }
            i += 1;
        }
        i
    }

    /// The value stored under `key`.
    pub fn get(&self, key: &String) -> (found: Option<&V>)
        ensures
            match found {
                Some(value) => self@.contains_key(key@) && *value == self@[key@],
                None => !self@.contains_key(key@),
            },
    {
        let index = self.find(key);
        if index < self.entries.len() {
            proof {
                use_type_invariant(self);
                self.lemma_entry(index as int);
            }
            Some(&self.entries[index].1)
        } else {
            None
        }
    }

    /// Whether something is stored under `key`.
    pub fn contains_key(&self, key: &String) -> (present: bool)
        ensures
            present == self@.contains_key(key@),
    {
        let index = self.find(key);
        proof {
            if index < self.entries@.len() {
                use_type_invariant(self);
                self.lemma_entry(index as int);
            }
        }
        index < self.entries.len()
    }

    /// The keys, each once.
    pub fn keys(&self) -> (keys: Vec<String>)
        ensures
            keys@.len() == self@.dom().len(),
            forall|i: int| 0 <= i < keys@.len() ==> self@.contains_key(#[trigger] keys@[i]@),
            forall|key: Seq<char>|
                self@.contains_key(key) ==> exists|i: int|
                    0 <= i < keys@.len() && #[trigger] keys@[i]@ == key,
            forall|i: int, j: int| 0 <= i < j < keys@.len() ==> keys@[i]@ != keys@[j]@,
    {
        proof {
            use_type_invariant(self);
            self.lemma_len(self.entries@.len() as int);
            assert(self.prefix_keys(self.entries@.len() as int) =~= self@.dom());
        }
        let mut keys: Vec<String> = Vec::new();
        let mut i: usize = 0;
        while i < self.entries.len()
            invariant
                i <= self.entries@.len(),
                keys@.len() == i,
                forall|j: int| 0 <= j < i ==> (#[trigger] keys@[j])@ == self.entries@[j].0@,
            decreases self.entries@.len() - i,
        {
            keys.push(self.entries[i].0.clone());
            i += 1;
        }
        proof {
            assert forall|j: int| 0 <= j < keys@.len() implies self@.contains_key(
                #[trigger] keys@[j]@,
            ) by {
                self.lemma_entry(j);
            }
            assert forall|key: Seq<char>| self@.contains_key(key) implies exists|j: int|
                0 <= j < keys@.len() && #[trigger] keys@[j]@ == key by {
                let p = self.position(key);
                assert(keys@[p]@ == key);
            }
        }
        keys
    }

    /// Stores `value` under `key`, replacing what was stored there before.
    pub fn insert(&mut self, key: String, value: V)
        ensures
            final(self)@ == old(self)@.insert(key@, value),
    {
        proof {
            use_type_invariant(&*self);
        }
        let index = self.find(&key);
        let ghost before = *self;
        let mut entries: Vec<(String, V)> = Vec::new();
        core::mem::swap(&mut self.entries, &mut entries);
        if index < entries.len() {
            entries[index] = (key, value);
        } else {
            entries.push((key, value));
        }
        proof {
            assert forall|i: int, j: int| 0 <= i < j < entries@.len() implies entries@[i].0@
                != entries@[j].0@ by {
                if j < before.entries@.len() {
                    assert(before.entries@[i].0@ != before.entries@[j].0@);
                }
            }
        }
        core::mem::swap(&mut self.entries, &mut entries);
        proof {
            let after = *self;
            assert(after@ =~= before@.insert(key@, value)) by {
                assert forall|k: Seq<char>| after@.contains_key(k) <==> before@.insert(
                    key@,
                    value,
                ).contains_key(k) by {
                    if after@.contains_key(k) {
                        let i = after.position(k);
                        if i != index {
                            assert(before.entries@[i].0@ == k);
                        }
                    }
                    if before@.contains_key(k) {
                        let i = before.position(k);
                        assert(after.entries@[i].0@ == k);
                    }
                    if k == key@ {
                        assert(after.entries@[index as int].0@ == k);
                    }
                }
                assert forall|k: Seq<char>| after@.contains_key(k) implies after@[k] == before@.insert(
                    key@,
                    value,
                )[k] by {
                    let i = after.position(k);
                    after.lemma_entry(i);
                    if i != index {
                        before.lemma_entry(i);
                    }
                }
            }
        }
    }
}

impl<V: PartialEq> Dictionary<V> {
    /// Whether every key of `self` is a key of `other` with an equal value.
    pub open spec fn agrees_with(self, other: Self) -> bool {
        forall|key: Seq<char>| #[trigger]
            self@.contains_key(key) ==> other@.contains_key(key) && self@[key].eq_spec(
                &other@[key],
            )
    }

    fn within(&self, other: &Self) -> (all: bool)
        ensures
            V::obeys_eq_spec() ==> all == self.agrees_with(*other),
    {
        proof {
            use_type_invariant(self);
        }
        let mut i: usize = 0;
        while i < self.entries.len()
            invariant
                i <= self.entries@.len(),
                self.keys_are_distinct(),
                V::obeys_eq_spec() ==> forall|j: int|
                    0 <= j < i ==> other@.contains_key(#[trigger] self.entries@[j].0@)
                        && self.entries@[j].1.eq_spec(&other@[self.entries@[j].0@]),
            decreases self.entries@.len() - i,
        {
            proof {
                self.lemma_entry(i as int);
            }
            match other.get(&self.entries[i].0) {
                Some(value) => {
                    if !(self.entries[i].1 == *value) {
                        return false;
                    }
                },
                None => {
                    return false;
                },
            }
            i += 1;
        }
        proof {
            if V::obeys_eq_spec() {
                assert forall|key: Seq<char>| #[trigger] self@.contains_key(key) implies other@.contains_key(key)
                    && self@[key].eq_spec(&other@[key]) by {
                    let p = self.position(key);
                    self.lemma_entry(p);
                }
            }
        }
        true
    }
}

impl<V: PartialEq> PartialEq for Dictionary<V> {
    fn eq(&self, other: &Self) -> (equal: bool) {
        self.within(other) && other.within(self)
    }
}

impl<V: PartialEq> vstd::std_specs::cmp::PartialEqSpecImpl for Dictionary<V> {
    open spec fn obeys_eq_spec() -> bool {
        <V as PartialEqSpec>::obeys_eq_spec()
    }

    /// Two dictionaries are equal when they have the same keys and equal
    /// values under each.
    open spec fn eq_spec(&self, other: &Self) -> bool {
        self.agrees_with(*other) && other.agrees_with(*self)
    }
}

impl<V> View for Dictionary<V> {
    type V = Map<Seq<char>, V>;

    closed spec fn view(&self) -> Map<Seq<char>, V> {
        Map::new(
            |key: Seq<char>|
                exists|i: int| 0 <= i < self.entries@.len() && self.entries@[i].0@ == key,
            |key: Seq<char>| self.entries@[self.position(key)].1,
        )
    }
}

} // verus!
