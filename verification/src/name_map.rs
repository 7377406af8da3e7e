//! A map from names to values that keeps its entries in the order of the
//! names' bytes, each name once.

use vstd::prelude::*;
use vstd::utf8::encode_utf8;
use vstd::utf8::encode_utf8_decode_utf8;

verus! {

/// Whether `a` and `b` agree before position `k` and `a` comes first there:
/// `a` ends at `k` where `b` goes on, or holds the smaller byte.
pub open spec fn parts_at(a: Seq<u8>, b: Seq<u8>, k: int) -> bool {
    &&& 0 <= k <= a.len()
    &&& k < b.len()
    &&& forall|j: int| 0 <= j < k ==> a[j] == b[j]
    &&& k < a.len() ==> a[k] < b[k]
}

/// The order of byte strings: by the first byte that differs, a prefix
/// before what continues it.
pub open spec fn bytes_lt(a: Seq<u8>, b: Seq<u8>) -> bool {
    exists|k: int| parts_at(a, b, k)
}

/// The order of names: that of their UTF-8 bytes.
pub open spec fn name_lt(a: Seq<char>, b: Seq<char>) -> bool {
    bytes_lt(encode_utf8(a), encode_utf8(b))
}

/// Whether the names stand in strictly rising order.
pub open spec fn rising(names: Seq<Seq<char>>) -> bool {
    forall|i: int, j: int| 0 <= i < j < names.len() ==> name_lt(names[i], names[j])
}

/// The order of byte strings is transitive.
pub proof fn lemma_bytes_lt_transitive(a: Seq<u8>, b: Seq<u8>, c: Seq<u8>)
    requires
        bytes_lt(a, b),
        bytes_lt(b, c),
    ensures
        bytes_lt(a, c),
{
    let k1 = choose|k: int| parts_at(a, b, k);
    let k2 = choose|k: int| parts_at(b, c, k);
    let k = if k1 <= k2 {
        k1
    } else {
        k2
    };
    assert(parts_at(a, c, k));
}

/// A name comes before another only if the two differ.
pub proof fn lemma_name_lt_differs(a: Seq<char>, b: Seq<char>)
    requires
        name_lt(a, b),
    ensures
        a != b,
{
}

/// Names in strictly rising order are pairwise distinct.
pub proof fn lemma_rising_distinct(names: Seq<Seq<char>>)
    requires
        rising(names),
    ensures
        names.no_duplicates(),
{
    assert forall|i: int, j: int| 0 <= i < names.len() && 0 <= j < names.len() && i != j implies names[i]
        != names[j] by {
        if i < j {
            lemma_name_lt_differs(names[i], names[j]);
        } else {
            lemma_name_lt_differs(names[j], names[i]);
        }
    }
}

/// How two names stand to each other.
#[derive(Clone, Copy, Debug, PartialEq, Eq, Structural)]
pub enum NameOrder {
    /// The first comes before the second.
    Before,
    /// They are the same name.
    Same,
    /// The first comes after the second.
    After,
}

/// Compares two names by their bytes.
pub fn compare_names(a: &str, b: &str) -> (r: NameOrder)
    ensures
        match r {
            NameOrder::Before => name_lt(a@, b@),
            NameOrder::Same => a@ == b@,
            NameOrder::After => name_lt(b@, a@),
        },
{
    let x = a.as_bytes();
    let y = b.as_bytes();
    let mut i: usize = 0;
    while i < x.len() && i < y.len()
        invariant
            i <= x@.len(),
            i <= y@.len(),
            x@ == encode_utf8(a@),
            y@ == encode_utf8(b@),
            forall|j: int| 0 <= j < i ==> x@[j] == y@[j],
        decreases x@.len() - i,
    {
        if x[i] < y[i] {
            assert(parts_at(x@, y@, i as int));
            return NameOrder::Before;
        }
        if x[i] > y[i] {
            assert(parts_at(y@, x@, i as int));
            return NameOrder::After;
        }
        i += 1;
    }
    if i < y.len() {
        assert(parts_at(x@, y@, i as int));
        NameOrder::Before
    } else if i < x.len() {
        assert(parts_at(y@, x@, i as int));
        NameOrder::After
    } else {
        proof {
            assert(x@ =~= y@);
            encode_utf8_decode_utf8(a@);
            encode_utf8_decode_utf8(b@);
        }
        NameOrder::Same
    }
}

/// Whether two names are the same.
pub fn same_name(a: &str, b: &str) -> (r: bool)
    ensures
        r == (a@ == b@),
{
    match compare_names(a, b) {
        NameOrder::Same => true,
        NameOrder::Before => {
            proof {
                lemma_name_lt_differs(a@, b@);
            }
            false
        },
        NameOrder::After => {
            proof {
                lemma_name_lt_differs(b@, a@);
            }
            false
        },
    }
}

/// A map from names to values. Its entries stand in the order of the names'
/// bytes, and no name occurs twice.
#[derive(Debug, PartialEq, Eq)]
pub struct NameMap<V> {
    entries: Vec<(String, V)>,
}

impl<V> View for NameMap<V> {
    type V = Map<Seq<char>, V>;

    /// The map from each name to its value.
    open spec fn view(&self) -> Map<Seq<char>, V> {
        Map::new(
            |k: Seq<char>| self.names().contains(k),
            |k: Seq<char>| self.values()[self.names().index_of(k)],
        )
    }
}

impl<V: DeepView> DeepView for NameMap<V> {
    type V = Map<Seq<char>, V::V>;

    /// The map from each name to the view of its value.
    open spec fn deep_view(&self) -> Map<Seq<char>, V::V> {
        Map::new(
            |k: Seq<char>| self.names().contains(k),
            |k: Seq<char>| self.values()[self.names().index_of(k)].deep_view(),
        )
    }
}

impl<V: Clone> Clone for NameMap<V> {
    /// A map with the same names, and under each a clone of its value.
    fn clone(&self) -> (m: Self)
        ensures
            m.names() == self.names(),
            m@.dom() == self@.dom(),
            m.values().len() == self.values().len(),
            forall|i: int|
                0 <= i < self.values().len() ==> cloned(self.values()[i], #[trigger] m.values()[i]),
    {
        proof {
            use_type_invariant(self);
        }
        let mut entries: Vec<(String, V)> = Vec::new();
        let mut i: usize = 0;
        while i < self.entries.len()
            invariant
                i <= self.entries@.len(),
                entries@.len() == i,
                forall|j: int| 0 <= j < i ==> (#[trigger] entries@[j]).0@ == self.entries@[j].0@,
                forall|j: int| 0 <= j < i ==> cloned(self.entries@[j].1, (#[trigger] entries@[j]).1),
            decreases self.entries@.len() - i,
        {
            entries.push((self.entries[i].0.clone(), self.entries[i].1.clone()));
            i += 1;
        }
        let ghost m = NameMap { entries };
        proof {
            assert(m.names() =~= self.names());
            assert(m@.dom() =~= self@.dom());
        }
        NameMap { entries }
    }
}

impl<V> Default for NameMap<V> {
    /// An empty map.
    fn default() -> (m: Self)
        ensures
            m@ == Map::<Seq<char>, V>::empty(),
    {
        NameMap::new()
    }
}

impl<V> NameMap<V> {
    /// The names, in the order in which the entries stand.
    pub closed spec fn names(&self) -> Seq<Seq<char>> {
        Seq::new(self.entries@.len(), |i: int| self.entries@[i].0@)
    }

    /// The values, in the order in which the entries stand.
    pub closed spec fn values(&self) -> Seq<V> {
        Seq::new(self.entries@.len(), |i: int| self.entries@[i].1)
    }

    /// The names rise strictly from entry to entry.
    #[verifier::type_invariant]
    pub closed spec fn ordered(&self) -> bool {
        rising(self.names())
    }

    /// What `names` and `values` say of the map: there are as many values as
    /// names, the names rise, and the map takes each name to the value beside
    /// it and holds no other name.
    pub proof fn lemma_entries(&self)
        requires
            self.ordered(),
        ensures
            self.names().len() == self.values().len(),
            rising(self.names()),
            self.names().no_duplicates(),
            self@.dom().finite(),
            self@.dom() == self.names().to_set(),
            self@.len() == self.names().len(),
            forall|i: int|
                0 <= i < self.names().len() ==> self@.contains_key(#[trigger] self.names()[i])
                    && self@[self.names()[i]] == self.values()[i],
            forall|k: Seq<char>| self@.contains_key(k) <==> self.names().contains(k),
    {
        let names = self.names();
        lemma_rising_distinct(names);
        assert forall|i: int| 0 <= i < names.len() implies self@.contains_key(#[trigger] names[i])
            && self@[names[i]] == self.values()[i] by {
            names.index_of_first_ensures(names[i]);
            assert(names.contains(names[i]));
            let j = names.index_of(names[i]);
            assert(names[j] == names[i]);
        }
        assert(self@.dom() =~= names.to_set());
        names.unique_seq_to_set();
        vstd::seq_lib::seq_to_set_is_finite(names);
    }

    /// The map of views holds the names that the map holds, and under each
    /// the view of its value.
    pub proof fn lemma_deep_view(&self)
        where V: DeepView
        requires
            self.ordered(),
        ensures
            self.deep_view().dom() == self@.dom(),
            forall|k: Seq<char>|
                self@.contains_key(k) ==> #[trigger] self.deep_view()[k] == self@[k].deep_view(),
            forall|i: int|
                0 <= i < self.names().len() ==> self.deep_view()[#[trigger] self.names()[i]]
                    == self.values()[i].deep_view(),
    {
        self.lemma_entries();
        assert(self.deep_view().dom() =~= self@.dom());
    }

    /// Putting a value under a name puts its view under that name in the map
    /// of views.
    pub proof fn lemma_insert_deep_view(&self, before: Self, name: Seq<char>, value: V)
        where V: DeepView
        requires
            self.ordered(),
            before.ordered(),
            self@ == before@.insert(name, value),
        ensures
            self.deep_view() == before.deep_view().insert(name, value.deep_view()),
    {
        self.lemma_deep_view();
        self.lemma_entries();
        before.lemma_deep_view();
        before.lemma_entries();
        assert(self.deep_view() =~= before.deep_view().insert(name, value.deep_view()));
    }

    /// An empty map.
    pub fn new() -> (m: Self)
        ensures
            m@ == Map::<Seq<char>, V>::empty(),
            m.names() == Seq::<Seq<char>>::empty(),
            m.values() == Seq::<V>::empty(),
            m.ordered(),
    {
        let m = NameMap { entries: Vec::<(String, V)>::new() };
        assert(m.names() =~= Seq::<Seq<char>>::empty());
        assert(m.values() =~= Seq::<V>::empty());
        assert(m@ =~= Map::<Seq<char>, V>::empty());
        m
    }

    /// The number of entries.
    pub fn len(&self) -> (n: usize)
        ensures
            n == self.names().len(),
            n == self@.len(),
            self.ordered(),
    {
        proof {
            use_type_invariant(self);
            self.lemma_entries();
        }
        self.entries.len()
    }

    /// Whether the map holds no entry.
    pub fn is_empty(&self) -> (b: bool)
        ensures
            b <==> self.names().len() == 0,
            b <==> self@ == Map::<Seq<char>, V>::empty(),
    {
        proof {
            use_type_invariant(self);
            self.lemma_entries();
            if self.names().len() == 0 {
                assert(self@ =~= Map::<Seq<char>, V>::empty());
            } else {
                assert(self@.contains_key(self.names()[0]));
            }
        }
        self.entries.len() == 0
    }

    /// The name of entry `i`, counted in the order of the names.
    pub fn name_at(&self, i: usize) -> (name: &String)
        requires
            i < self.names().len(),
        ensures
            name@ == self.names()[i as int],
            self.ordered(),
    {
        proof {
            use_type_invariant(self);
        }
        &self.entries[i].0
    }

    /// The value of entry `i`, counted in the order of the names.
    pub fn value_at(&self, i: usize) -> (value: &V)
        requires
            i < self.names().len(),
        ensures
            *value == self.values()[i as int],
            self@.contains_key(self.names()[i as int]),
            *value == self@[self.names()[i as int]],
            self.ordered(),
    {
        proof {
            use_type_invariant(self);
            self.lemma_entries();
        }
        &self.entries[i].1
    }

    /// Where `name` stands among the entries, if the map holds it.
    fn position(&self, name: &str) -> (r: Option<usize>)
        ensures
            match r {
                Some(i) => i < self.names().len() && self.names()[i as int] == name@,
                None => !self.names().contains(name@),
            },
    {
        let mut i: usize = 0;
        while i < self.entries.len()
            invariant
                i <= self.entries@.len(),
                forall|j: int| 0 <= j < i ==> self.names()[j] != name@,
            decreases self.entries@.len() - i,
        {
            match compare_names(self.entries[i].0.as_str(), name) {
                NameOrder::Same => {
                    return Some(i);
                },
                NameOrder::Before => {
                    proof {
                        lemma_name_lt_differs(self.names()[i as int], name@);
                    }
                },
                NameOrder::After => {
                    proof {
                        lemma_name_lt_differs(name@, self.names()[i as int]);
                    }
                },
            }
            i += 1;
        }
        None
    }

    /// The value that stands under `name`, if there is one.
    pub fn get(&self, name: &str) -> (r: Option<&V>)
        ensures
            match r {
                Some(value) => self@.contains_key(name@) && *value == self@[name@],
                None => !self@.contains_key(name@),
            },
            self.ordered(),
    {
        proof {
            use_type_invariant(self);
            self.lemma_entries();
        }
        match self.position(name) {
            Some(i) => Some(&self.entries[i].1),
            None => None,
        }
    }

    /// Whether an entry stands under `name`.
    pub fn contains_key(&self, name: &str) -> (b: bool)
        ensures
            b == self@.contains_key(name@),
    {
        proof {
            use_type_invariant(self);
            self.lemma_entries();
        }
        self.position(name).is_some()
    }

    /// Puts `value` under `name`, in place of the value that stood there if
    /// there was one. The other entries stay as they are.
    pub fn insert(&mut self, name: String, value: V)
        ensures
            final(self)@ == old(self)@.insert(name@, value),
            final(self).ordered(),
            old(self).ordered(),
    {
        proof {
            use_type_invariant(&*self);
            self.lemma_entries();
        }
        let ghost before = *self;
        let mut i: usize = 0;
        let mut found: bool = false;
        while i < self.entries.len()
            invariant_except_break
                !found,
            invariant
                *self == before,
                i <= self.entries@.len(),
                forall|j: int| 0 <= j < i ==> name_lt(self.names()[j], name@),
            ensures
                i <= self.entries@.len(),
                *self == before,
                forall|j: int| 0 <= j < i ==> name_lt(self.names()[j], name@),
                found ==> i < self.entries@.len() && self.names()[i as int] == name@,
                !found && i < self.entries@.len() ==> name_lt(name@, self.names()[i as int]),
            decreases self.entries@.len() - i,
        {
            match compare_names(self.entries[i].0.as_str(), name.as_str()) {
                NameOrder::Before => {
                    i += 1;
                },
                NameOrder::Same => {
                    found = true;
                    break ;
                },
                NameOrder::After => {
                    break ;
                },
            }
        }
        let ghost key = name@;
        let mut taken = NameMap { entries: Vec::new() };
        core::mem::swap(self, &mut taken);
        let NameMap { entries } = taken;
        let mut entries = entries;
        if found {
            entries.set(i, (name, value));
        } else {
            entries.insert(i, (name, value));
        }
        let ghost after = NameMap { entries };
        proof {
            if found {
                assert(after.names() =~= before.names());
                assert(after.values() =~= before.values().update(i as int, value));
            } else {
                assert(after.names() =~= before.names().insert(i as int, key));
                assert(after.values() =~= before.values().insert(i as int, value));
                assert forall|a: int, b: int| 0 <= a < b < after.names().len() implies name_lt(
                    after.names()[a],
                    after.names()[b],
                ) by {
                    if a == i && b - 1 > i {
                        assert(name_lt(before.names()[i as int], before.names()[b - 1]));
                        lemma_bytes_lt_transitive(
                            encode_utf8(key),
                            encode_utf8(before.names()[i as int]),
                            encode_utf8(before.names()[b - 1]),
                        );
                    }
                }
            }
            assert(after.ordered());
            after.lemma_entries();
            let goal = before@.insert(key, value);
            assert(after.names()[i as int] == key);
            assert forall|j: int| 0 <= j < after.names().len() implies goal.contains_key(
                #[trigger] after.names()[j],
            ) && goal[after.names()[j]] == after.values()[j] by {
                let k = after.names()[j];
                if j != i {
                    assert(k != key) by {
                        assert(after.names()[i as int] == key);
                    }
                    let h = if found || j < i {
                        j
                    } else {
                        j - 1
                    };
                    assert(before.names()[h] == k);
                    assert(before@[before.names()[h]] == before.values()[h]);
                }
            }
            assert forall|k: Seq<char>| goal.contains_key(k) implies after@.contains_key(k) by {
                if k != key {
                    assert(before.names().contains(k));
                    let h = before.names().index_of(k);
                    let j = if found || h < i {
                        h
                    } else {
                        h + 1
                    };
                    assert(after.names()[j] == k);
                }
            }
            assert forall|k: Seq<char>| after@.contains_key(k) implies goal.contains_key(k)
                && after@[k] == goal[k] by {
                let j = after.names().index_of(k);
                assert(after.names()[j] == k);
            }
            assert(after@ =~= goal);
        }
        *self = NameMap { entries };
    }
}

} // verus!
