use vstd::prelude::*;
use core::ops::Range;
use crate::parser::AutomatonKind;
use super::spec::EntryV;

verus! {

/// Keys that can be compared by value.
pub trait KeyEq: View + Sized {
    fn key_eq(&self, other: &Self) -> (r: bool)
        ensures
            r == (self@ == other@);

    fn key_copy(&self) -> (r: Self)
        ensures
            r@ == self@;
}

impl KeyEq for char {
    fn key_eq(&self, other: &Self) -> (r: bool) {
        *self == *other
    }

    fn key_copy(&self) -> (r: Self) {
        *self
    }
}

impl KeyEq for String {
    fn key_eq(&self, other: &Self) -> (r: bool) {
        *self == *other
    }

    fn key_copy(&self) -> (r: Self) {
        self.clone()
    }
}

/// The map built by inserting the pairs in order (a later pair replaces an earlier
/// value for the same key).
pub open spec fn assoc_map<K, V>(s: Seq<(K, V)>) -> Map<K, V>
    decreases s.len(),
{
    if s.len() == 0 {
        Map::empty()
    } else {
        assoc_map(s.drop_last()).insert(s.last().0, s.last().1)
    }
}

/// A finite map kept as pairs in insertion order, each key once.
#[derive(Debug)]
pub struct AssocMap<K: KeyEq, V> {
    entries: Vec<(K, V)>,
}

pub open spec fn key_views<K: View, V>(s: Seq<(K, V)>) -> Seq<(K::V, V)> {
    s.map_values(|e: (K, V)| (e.0@, e.1))
}

proof fn lemma_assoc_contains<K, V>(s: Seq<(K, V)>, k: K)
    ensures
        assoc_map(s).contains_key(k) <==> exists|i: int| 0 <= i < s.len() && #[trigger] s[i].0 == k,
        assoc_map(s).dom().finite(),
    decreases s.len(),
{
    if s.len() > 0 {
        lemma_assoc_contains(s.drop_last(), k);
        if assoc_map(s.drop_last()).contains_key(k) {
            let i = choose|i: int| 0 <= i < s.drop_last().len() && #[trigger] s.drop_last()[i].0 == k;
            assert(s[i].0 == k);
        }
        if exists|i: int| 0 <= i < s.len() && #[trigger] s[i].0 == k {
            let i = choose|i: int| 0 <= i < s.len() && #[trigger] s[i].0 == k;
            if i < s.len() - 1 {
                assert(s.drop_last()[i].0 == k);
            }
        }
    }
}

pub open spec fn distinct_keys<K, V>(s: Seq<(K, V)>) -> bool {
    forall|i: int, j: int| 0 <= i < j < s.len() ==> #[trigger] s[i].0 != #[trigger] s[j].0
}

proof fn lemma_assoc_value<K, V>(s: Seq<(K, V)>, i: int)
    requires
        distinct_keys(s),
        0 <= i < s.len(),
    ensures
        assoc_map(s).contains_key(s[i].0),
        assoc_map(s)[s[i].0] == s[i].1,
    decreases s.len(),
{
    if i < s.len() - 1 {
        assert(distinct_keys(s.drop_last())) by {
            assert forall|a: int, b: int| 0 <= a < b < s.drop_last().len() implies #[trigger] s.drop_last()[a].0
                != #[trigger] s.drop_last()[b].0 by {
                assert(s[a].0 != s[b].0);
            }
        }
        lemma_assoc_value(s.drop_last(), i);
        assert(s.drop_last()[i] == s[i]);
        assert(s[i].0 != s[s.len() - 1].0);
    }
}

proof fn lemma_assoc_len<K, V>(s: Seq<(K, V)>)
    requires
        distinct_keys(s),
    ensures
        assoc_map(s).len() == s.len(),
        assoc_map(s).dom().finite(),
    decreases s.len(),
{
    if s.len() > 0 {
        let t = s.drop_last();
        assert(distinct_keys(t)) by {
            assert forall|a: int, b: int| 0 <= a < b < t.len() implies #[trigger] t[a].0 != #[trigger] t[b].0 by {
                assert(s[a].0 != s[b].0);
            }
        }
        lemma_assoc_len(t);
        lemma_assoc_contains(t, s.last().0);
        if assoc_map(t).contains_key(s.last().0) {
            let i = choose|i: int| 0 <= i < t.len() && #[trigger] t[i].0 == s.last().0;
            assert(s[i].0 != s[s.len() - 1].0);
        }
    }
}

proof fn lemma_assoc_update<K, V>(s: Seq<(K, V)>, i: int, v: V)
    requires
        distinct_keys(s),
        0 <= i < s.len(),
    ensures
        assoc_map(s.update(i, (s[i].0, v))) == assoc_map(s).insert(s[i].0, v),
        distinct_keys(s.update(i, (s[i].0, v))),
    decreases s.len(),
{
    let u = s.update(i, (s[i].0, v));
    assert(distinct_keys(u)) by {
        assert forall|a: int, b: int| 0 <= a < b < u.len() implies #[trigger] u[a].0 != #[trigger] u[b].0 by {
            assert(u[a].0 == s[a].0 && u[b].0 == s[b].0);
        }
    }
    let t = s.drop_last();
    assert(distinct_keys(t)) by {
        assert forall|a: int, b: int| 0 <= a < b < t.len() implies #[trigger] t[a].0 != #[trigger] t[b].0 by {
            assert(s[a].0 != s[b].0);
        }
    }
    if i == s.len() - 1 {
        assert(u.drop_last() =~= t);
        assert(assoc_map(u) =~= assoc_map(s).insert(s[i].0, v));
    } else {
        lemma_assoc_update(t, i, v);
        assert(u.drop_last() =~= t.update(i, (s[i].0, v)));
        assert(s[i].0 != s.last().0);
        assert(assoc_map(u) =~= assoc_map(s).insert(s[i].0, v));
    }
}

impl<K: KeyEq, V> AssocMap<K, V> {
    #[verifier::type_invariant]
    closed spec fn inv(&self) -> bool {
        distinct_keys(key_views(self.entries@))
    }

    /// The map's contents.
    pub closed spec fn view(&self) -> Map<K::V, V> {
        assoc_map(key_views(self.entries@))
    }

    pub fn new() -> (m: Self)
        ensures
            m.view() == Map::<K::V, V>::empty(),
    {
        let m = AssocMap { entries: Vec::new() };
        assert(key_views(m.entries@) =~= Seq::<(K::V, V)>::empty());
        m
    }

    /// Number of keys.
    pub fn len(&self) -> (n: usize)
        ensures
            n == self.view().len(),
            self.view().dom().finite(),
    {
        proof {
            use_type_invariant(self);
            lemma_assoc_len(key_views(self.entries@));
        }
        self.entries.len()
    }

    fn find(&self, k: &K) -> (r: Option<usize>)
        ensures
            match r {
                Some(i) => i < self.entries@.len() && self.entries@[i as int].0@ == k@
                    && self.view().contains_key(k@) && self.view()[k@] == self.entries@[i as int].1,
                None => !self.view().contains_key(k@),
            },
    {
        proof {
            use_type_invariant(self);
        }
        let ghost s = key_views(self.entries@);
        let mut i: usize = 0;
        while i < self.entries.len()
            invariant
                i <= self.entries@.len(),
                s == key_views(self.entries@),
                distinct_keys(s),
                forall|j: int| 0 <= j < i ==> #[trigger] s[j].0 != k@,
            decreases self.entries@.len() - i,
        {
            if self.entries[i].0.key_eq(k) {
                proof {
                    lemma_assoc_value(s, i as int);
                }
                return Some(i);
            }
            i = i + 1;
        }
        proof {
            lemma_assoc_contains(s, k@);
        }
        None
    }

    pub fn contains_key(&self, k: &K) -> (r: bool)
        ensures
            r == self.view().contains_key(k@),
    {
        self.find(k).is_some()
    }

    pub fn get(&self, k: &K) -> (r: Option<&V>)
        ensures
            match r {
                Some(v) => self.view().contains_key(k@) && *v == self.view()[k@],
                None => !self.view().contains_key(k@),
            },
    {
        match self.find(k) {
            Some(i) => Some(&self.entries[i].1),
            None => None,
        }
    }

    /// Sets the value of `k`, replacing any earlier one.
    pub fn insert(&mut self, k: K, v: V)
        ensures
            final(self).view() == old(self).view().insert(k@, v),
    {
        proof {
            use_type_invariant(&*self);
        }
        let ghost s = key_views(self.entries@);
        match self.find(&k) {
            Some(i) => {
                let ghost kv = k@;
                let ghost vv = v;
                let mut entries = Vec::new();
                core::mem::swap(&mut entries, &mut self.entries);
                entries.set(i, (k, v));
                proof {
                    assert(key_views(entries@) =~= s.update(i as int, (s[i as int].0, vv)));
                    lemma_assoc_update(s, i as int, vv);
                }
                self.entries = entries;
            },
            None => {
                let ghost kv = k@;
                let ghost vv = v;
                let mut entries = Vec::new();
                core::mem::swap(&mut entries, &mut self.entries);
                entries.push((k, v));
                proof {
                    assert(key_views(entries@) =~= s.push((kv, vv)));
                    assert(key_views(entries@).drop_last() =~= s);
                    lemma_assoc_contains(s, kv);
                    assert forall|a: int, b: int| 0 <= a < b < s.push((kv, vv)).len() implies #[trigger] s.push((kv, vv))[a].0
                        != #[trigger] s.push((kv, vv))[b].0 by {
                        if b == s.len() {
                            assert(s[a].0 != kv);
                        } else {
                            assert(s[a].0 != s[b].0);
                        }
                    }
                }
                self.entries = entries;
            },
        }
    }
}

/// What the analysis records of an automaton.
#[derive(Debug)]
pub struct AutomatonEntry {
    pub kind: AutomatonKind,
    pub declared_at: Range<usize>,
    pub states: AssocMap<String, Range<usize>>,
    pub initial: String,
    pub finals: AssocMap<String, Range<usize>>,
}

impl View for AutomatonEntry {
    type V = EntryV;

    open spec fn view(&self) -> EntryV {
        EntryV {
            kind: self.kind,
            declared_at: self.declared_at,
            states: self.states.view(),
            initial: self.initial@,
            finals: self.finals.view(),
        }
    }
}

/// The entries of a table, each by its view.
pub open spec fn entries_view(m: Map<Seq<char>, AutomatonEntry>) -> Map<Seq<char>, EntryV> {
    m.map_values(|e: AutomatonEntry| e@)
}

impl KeyEq for (String, char) {
    fn key_eq(&self, other: &Self) -> (r: bool) {
        self.1 == other.1 && self.0 == other.0
    }

    fn key_copy(&self) -> (r: Self) {
        (self.0.clone(), self.1)
    }
}

/// The alphabet and the automata of a program, with where each was declared.
#[derive(Debug)]
pub struct SymbolTable {
    pub alphabet: AssocMap<char, Range<usize>>,
    pub automata: AssocMap<String, AutomatonEntry>,
}

impl SymbolTable {
    pub fn new() -> (t: Self)
        ensures
            t.alphabet.view() == Map::<char, Range<usize>>::empty(),
            t.automata.view() == Map::<Seq<char>, AutomatonEntry>::empty(),
    {
        SymbolTable { alphabet: AssocMap::new(), automata: AssocMap::new() }
    }
}

impl Default for SymbolTable {
    fn default() -> (t: Self)
        ensures
            t.alphabet@ == Map::<char, Range<usize>>::empty(),
            t.automata@ == Map::<Seq<char>, AutomatonEntry>::empty(),
    {
        Self::new()
    }
}

} // verus!
