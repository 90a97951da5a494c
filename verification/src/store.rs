use crate::text::{lex_lt, lemma_lex_not_after_transitive, lemma_lex_asymmetric};
use vstd::prelude::*;

verus! {

/// Entries keyed by text, each key present once: a map from keys to values
/// kept as a vector of pairs.
pub struct KeyedStore<V> {
    entries: Vec<(String, V)>,
}

/// The index of an entry with key `k`.
spec fn key_index<V>(s: Seq<(Seq<char>, V)>, k: Seq<char>) -> int {
    choose|i: int| 0 <= i < s.len() && s[i].0 == k
}

impl<V> KeyedStore<V> {
    /// The entries in storage order, keys taken as text.
    pub closed spec fn entries(&self) -> Seq<(Seq<char>, V)> {
        self.entries@.map_values(|e: (String, V)| (e.0@, e.1))
    }

    /// The keys in storage order.
    pub closed spec fn keys(&self) -> Seq<Seq<char>> {
        self.entries().map_values(|e: (Seq<char>, V)| e.0)
    }

    /// No key occurs twice.
    pub closed spec fn wf(&self) -> bool {
        self.keys().no_duplicates()
    }

    /// The store as a map from keys to values.
    pub closed spec fn as_map(&self) -> Map<Seq<char>, V> {
        self.keys().to_set().mk_map(|k: Seq<char>| self.entries()[key_index(self.entries(), k)].1)
    }

    proof fn lemma_index_unique(&self, i: int, k: Seq<char>)
        requires
            self.wf(),
            0 <= i < self.entries().len(),
            self.entries()[i].0 == k,
        ensures
            key_index(self.entries(), k) == i,
    {
        let j = key_index(self.entries(), k);
        assert(self.keys()[i] == k);
        assert(self.keys()[j] == k);
    }

    /// How the entries make up the map: each entry is in it, each key of it
    /// comes from an entry, and there are as many keys as entries.
    pub proof fn lemma_entries_make_map(&self)
        requires
            self.wf(),
        ensures
            self@.dom().finite(),
            self@.dom().len() == self.entries().len(),
            forall|i: int|
                0 <= i < self.entries().len() ==> #[trigger] self@.contains_key(
                    self.entries()[i].0,
                ) && self@[self.entries()[i].0] == self.entries()[i].1,
            forall|k: Seq<char>|
                #[trigger] self@.contains_key(k) ==> exists|i: int|
                    0 <= i < self.entries().len() && self.entries()[i].0 == k,
            forall|i: int, j: int|
                0 <= i < self.entries().len() && 0 <= j < self.entries().len() && i != j
                    ==> self.entries()[i].0 != self.entries()[j].0,
    {
        self.keys().unique_seq_to_set();
        assert forall|i: int| 0 <= i < self.entries().len() implies #[trigger] self.as_map().contains_key(
            self.entries()[i].0,
        ) && self.as_map()[self.entries()[i].0] == self.entries()[i].1 by {
            assert(self.keys()[i] == self.entries()[i].0);
            self.lemma_index_unique(i, self.entries()[i].0);
        }
        assert forall|k: Seq<char>| #[trigger] self.as_map().contains_key(k) implies exists|i: int|
            0 <= i < self.entries().len() && self.entries()[i].0 == k by {
            let i = self.keys().index_of(k);
            assert(self.keys()[i] == k);
        }
        assert forall|i: int, j: int|
            0 <= i < self.entries().len() && 0 <= j < self.entries().len() && i != j
                implies self.entries()[i].0 != self.entries()[j].0 by {
            assert(self.keys()[i] == self.entries()[i].0);
            assert(self.keys()[j] == self.entries()[j].0);
        }
    }

    /// An empty store.
    pub fn new() -> (s: Self)
        ensures
            s.wf(),
            s@ == Map::<Seq<char>, V>::empty(),
    {
        let s = KeyedStore { entries: Vec::new() };
        assert(s.keys() =~= Seq::<Seq<char>>::empty());
        assert(s@ =~= Map::<Seq<char>, V>::empty());
        s
    }

    /// The number of entries.
    pub fn len(&self) -> (n: usize)
        requires
            self.wf(),
        ensures
            n == self.entries().len(),
            n == self@.dom().len(),
    {
        proof {
            self.lemma_entries_make_map();
        }
        self.entries.len()
    }

    /// The key of the entry at index `i`.
    pub fn key_at(&self, i: usize) -> (k: &String)
        requires
            i < self.entries().len(),
        ensures
            k@ == self.entries()[i as int].0,
    {
        &self.entries[i].0
    }

    /// The value of the entry at index `i`.
    pub fn value_at(&self, i: usize) -> (v: &V)
        requires
            i < self.entries().len(),
        ensures
            *v == self.entries()[i as int].1,
    {
        &self.entries[i].1
    }

    /// The index of the entry with key `key`, if there is one.
    pub fn find(&self, key: &String) -> (r: Option<usize>)
        requires
            self.wf(),
        ensures
            match r {
                Some(i) => {
                    &&& i < self.entries().len()
                    &&& self.entries()[i as int].0 == key@
                    &&& self@.contains_key(key@)
                    &&& self@[key@] == self.entries()[i as int].1
                },
                None => !self@.contains_key(key@),
            },
    {
        proof {
            self.lemma_entries_make_map();
        }
        let mut i: usize = 0;
        while i < self.entries.len()
            invariant
                i <= self.entries().len(),
                self.wf(),
                self.entries().len() == self.entries@.len(),
                forall|j: int| 0 <= j < i ==> self.entries()[j].0 != key@,
            decreases self.entries@.len() - i,
        {
            if self.entries[i].0 == *key {
                assert(self.entries()[i as int] == (self.entries@[i as int].0@, self.entries@[i as int].1));
                proof {
                    self.lemma_entries_make_map();
                    assert(self.as_map().contains_key(self.entries()[i as int].0));
                }
                return Some(i);
            }
            i += 1;
        }
        None
    }

    /// The value under `key`, if there is one.
    pub fn get(&self, key: &String) -> (r: Option<&V>)
        requires
            self.wf(),
        ensures
            match r {
                Some(v) => self@.contains_key(key@) && *v == self@[key@],
                None => !self@.contains_key(key@),
            },
    {
        match self.find(key) {
            Some(i) => Some(&self.entries[i].1),
            None => None,
        }
    }

    /// Puts `value` under `key`, in place of what was there.
    pub fn insert(&mut self, key: String, value: V)
        requires
            old(self).wf(),
        ensures
            final(self).wf(),
            final(self)@ == old(self)@.insert(key@, value),
    {
        let ghost k = key@;
        let ghost before = self.entries();
        proof {
            self.lemma_entries_make_map();
        }
        match self.find(&key) {
            Some(i) => {
                self.entries.set(i, (key, value));
                assert(self.entries() =~= before.update(i as int, (k, value)));
                assert(self.keys() =~= old(self).keys());
                proof {
                    self.lemma_entries_make_map();
                }
                assert(self@ =~= old(self)@.insert(k, value));
            },
            None => {
                self.entries.push((key, value));
                assert(self.entries() =~= before.push((k, value)));
                assert(self.keys() =~= old(self).keys().push(k));
                assert(self.wf()) by {
                    assert forall|a: int, b: int|
                        0 <= a < self.keys().len() && 0 <= b < self.keys().len() && a != b
                            implies self.keys()[a] != self.keys()[b] by {
                        if a < before.len() && b < before.len() {
                            assert(old(self).keys()[a] == self.keys()[a]);
                            assert(old(self).keys()[b] == self.keys()[b]);
                        } else if a < before.len() {
                            assert(old(self).as_map().contains_key(old(self).entries()[a].0));
                        } else if b < before.len() {
                            assert(old(self).as_map().contains_key(old(self).entries()[b].0));
                        }
                    }
                }
                proof {
                    self.lemma_entries_make_map();
                    old(self).lemma_entries_make_map();
                }
                assert forall|kk: Seq<char>| #[trigger] old(self)@.contains_key(kk) implies self@.contains_key(kk)
                    && self@[kk] == old(self)@[kk] by {
                    let i = choose|i: int| 0 <= i < before.len() && before[i].0 == kk;
                    assert(self.entries()[i] == before[i]);
                    assert(self.as_map().contains_key(self.entries()[i].0));
                }
                assert forall|kk: Seq<char>| #[trigger] self@.contains_key(kk) implies old(self)@.contains_key(kk)
                    || kk == k by {
                    let i = choose|i: int| 0 <= i < self.entries().len() && self.entries()[i].0 == kk;
                    if i < before.len() {
                        assert(self.entries()[i] == before[i]);
                    }
                }
                assert(self.entries()[before.len() as int] == (k, value));
                assert(self.as_map().contains_key(self.entries()[before.len() as int].0));
                assert(self@ =~= old(self)@.insert(k, value));
            },
        }
    }
}

/// A value that carries a name, by which listings are ordered.
pub trait Named {
    spec fn name_of(&self) -> Seq<char>;

    fn name_text(&self) -> (r: &String)
        ensures
            r@ == self.name_of(),
    ;
}

/// `p` lists each index below `n` once.
pub open spec fn is_permutation(p: Seq<usize>, n: nat) -> bool {
    &&& p.len() == n
    &&& forall|a: int| 0 <= a < p.len() ==> p[a] < n
    &&& forall|a: int, b: int| 0 <= a < p.len() && 0 <= b < p.len() && a != b ==> p[a] != p[b]
}

/// The names in `s` never go down in lexicographic order.
pub open spec fn sorted_by_name<V: Named>(s: Seq<V>) -> bool {
    forall|a: int, b: int| 0 <= a < b < s.len() ==> !lex_lt(s[b].name_of(), s[a].name_of())
}

/// `s` holds each value of `m` once per key: there is an order of the keys
/// of `m` in which their values are `s`.
pub open spec fn is_listing<V>(m: Map<Seq<char>, V>, s: Seq<V>) -> bool {
    &&& s.len() == m.dom().len()
    &&& exists|ks: Seq<Seq<char>>|
        #![trigger ks.no_duplicates()]
        ks.len() == s.len() && ks.no_duplicates() && (forall|k: int|
            0 <= k < s.len() ==> m.contains_key(#[trigger] ks[k]) && m[ks[k]] == s[k]) && (
        forall|key: Seq<char>| #[trigger] m.contains_key(key) ==> ks.contains(key))
}

/// Distinct keys, all in a finite set and as many as it has, cover it.
pub proof fn lemma_distinct_keys_cover(dom: Set<Seq<char>>, ks: Seq<Seq<char>>)
    requires
        dom.finite(),
        ks.no_duplicates(),
        ks.len() == dom.len(),
        forall|k: int| 0 <= k < ks.len() ==> dom.contains(#[trigger] ks[k]),
    ensures
        forall|key: Seq<char>| #[trigger] dom.contains(key) ==> ks.contains(key),
{
    ks.unique_seq_to_set();
    assert(ks.to_set().subset_of(dom)) by {
        assert forall|key: Seq<char>| ks.to_set().contains(key) implies dom.contains(key) by {
            let k = ks.index_of(key);
            assert(ks[k] == key);
        }
    }
    vstd::set_lib::lemma_subset_equality(ks.to_set(), dom);
    assert forall|key: Seq<char>| #[trigger] dom.contains(key) implies ks.contains(key) by {
        assert(ks.to_set().contains(key));
    }
}

impl<V: Named> KeyedStore<V> {
    spec fn name_at(&self, i: usize) -> Seq<char> {
        self.entries()[i as int].1.name_of()
    }

    /// The indices of the entries, ordered by the names of their values.
    pub fn order_by_name(&self) -> (p: Vec<usize>)
        requires
            self.wf(),
        ensures
            is_permutation(p@, self.entries().len()),
            forall|a: int, b: int|
                0 <= a < b < p@.len() ==> !lex_lt(
                    self.entries()[p@[b] as int].1.name_of(),
                    self.entries()[p@[a] as int].1.name_of(),
                ),
    {
        let n = self.entries.len();
        assert(self.entries().len() == n);
        let mut p: Vec<usize> = Vec::new();
        let mut i: usize = 0;
        while i < n
            invariant
                i <= n,
                p@.len() == i,
                forall|a: int| 0 <= a < i ==> p@[a] == a,
            decreases n - i,
        {
            p.push(i);
            i += 1;
        }
        assert(is_permutation(p@, n as nat));
        let mut i: usize = 1;
        while i < n
            invariant
                n == self.entries().len(),
                is_permutation(p@, n as nat),
                1 <= i,
                i <= n || n == 0,
                forall|a: int, b: int|
                    0 <= a < b < i && b < n ==> !lex_lt(self.name_at(p@[b]), self.name_at(p@[a])),
            decreases n - i,
        {
            let mut j: usize = i;
            while j > 0 && str_lt_names(self, p[j], p[j - 1])
                invariant
                    n == self.entries().len(),
                    i < n,
                    j <= i,
                    is_permutation(p@, n as nat),
                    forall|a: int, b: int|
                        0 <= a < b <= i && a != j && b != j ==> !lex_lt(
                            self.name_at(p@[b]),
                            self.name_at(p@[a]),
                        ),
                    forall|b: int| j < b <= i ==> !lex_lt(self.name_at(p@[b]), self.name_at(p@[j as int])),
                decreases j,
            {
                let x = p[j];
                let y = p[j - 1];
                p.set(j, y);
                p.set(j - 1, x);
                proof {
                    lemma_lex_asymmetric(self.name_at(x), self.name_at(y));
                    assert forall|b: int| j - 1 < b <= i implies !lex_lt(
                        self.name_at(#[trigger] p@[b]),
                        self.name_at(p@[j - 1]),
                    ) by {
                        if b > j {
                            lemma_lex_not_after_transitive(self.name_at(x), self.name_at(y), self.name_at(p@[b]));
                        }
                    }
                }
                j -= 1;
            }
            proof {
                assert forall|a: int, b: int|
                    0 <= a < b <= i implies !lex_lt(self.name_at(p@[b]), self.name_at(p@[a])) by {
                    if b == j && a < j - 1 {
                        lemma_lex_not_after_transitive(self.name_at(p@[a]), self.name_at(p@[j - 1]), self.name_at(p@[b]));
                    } else if a == j && j < b {
                    } else if b == j && a == j - 1 {
                    }
                }
            }
            i += 1;
        }
        assert forall|a: int, b: int| 0 <= a < b < p@.len() implies !lex_lt(
            self.entries()[p@[b] as int].1.name_of(),
            self.entries()[p@[a] as int].1.name_of(),
        ) by {
            assert(self.name_at(p@[b]) == self.entries()[p@[b] as int].1.name_of());
            assert(self.name_at(p@[a]) == self.entries()[p@[a] as int].1.name_of());
        }
        p
    }

    /// Values picked in the order `p` make a listing of the store.
    pub proof fn lemma_listing(&self, p: Seq<usize>, s: Seq<V>)
        requires
            self.wf(),
            is_permutation(p, self.entries().len()),
            s.len() == p.len(),
            forall|k: int| 0 <= k < s.len() ==> s[k] == self.entries()[p[k] as int].1,
        ensures
            is_listing(self@, s),
    {
        self.lemma_entries_make_map();
        let ks = Seq::new(p.len(), |k: int| self.entries()[p[k] as int].0);
        assert forall|k: int| 0 <= k < s.len() implies self@.contains_key(#[trigger] ks[k]) && self@[ks[k]] == s[k] by {
            assert(self.as_map().contains_key(self.entries()[p[k] as int].0));
        }
        assert(ks.no_duplicates());
        lemma_distinct_keys_cover(self@.dom(), ks);
    }
}

/// Whether the name at entry `a` comes before the name at entry `b`.
fn str_lt_names<V: Named>(store: &KeyedStore<V>, a: usize, b: usize) -> (r: bool)
    requires
        a < store.entries().len(),
        b < store.entries().len(),
    ensures
        r == lex_lt(store.entries()[a as int].1.name_of(), store.entries()[b as int].1.name_of()),
{
    crate::text::str_lt(store.value_at(a).name_text().as_str(), store.value_at(b).name_text().as_str())
}

impl<V> View for KeyedStore<V> {
    type V = Map<Seq<char>, V>;

    closed spec fn view(&self) -> Map<Seq<char>, V> {
        self.as_map()
    }
}

} // verus!
