//! A map that keeps its entries in the order in which their keys were first
//! inserted. The entries lie in a vector; an `indexmap::IndexSet` beside it
//! holds, for each key, two integers that stand for the key, in the same
//! order, and finds the place of a key in constant time.

use indexmap::IndexSet;
use vstd::prelude::*;
use crate::codec::{
    all_wf, lemma_parse_all_fails, lemma_parse_seq_bounds, lemma_parse_seq_wire, parse_all,
    parse_seq, wire_all, wire_seq, Codec, CodecError, Parsed,
};
use crate::compact::{decode_uint, encode_uint, spec_decode_uint, spec_encode_uint};

verus! {

/// The two integers that stand for a key in the index of a map.
pub type KeyCode = (u128, u128);

/// A key of an ordered map: a plain value that two integers stand for.
pub trait MapKey: Copy + DeepView {
    /// The two integers that stand for the key.
    spec fn spec_code(self) -> KeyCode;

    /// Different keys have different codes.
    proof fn lemma_code_injective(a: Self, b: Self)
        ensures
            a.spec_code() == b.spec_code() ==> a == b,
    ;

    /// Keys are the same exactly when their models are.
    proof fn lemma_key_model(a: Self, b: Self)
        ensures
            (a.deep_view() == b.deep_view()) <==> (a == b),
    ;

    /// The two integers that stand for the key.
    fn code(&self) -> (code: KeyCode)
        ensures
            code == self.spec_code(),
    ;
}

/// `indexmap::IndexSet`, a set that keeps the order in which its items were
/// inserted. The proofs do not look inside it: what it holds is named by
/// `index_codes`.
#[verifier::external_type_specification]
#[verifier::external_body]
#[verifier::reject_recursive_types(T)]
#[verifier::reject_recursive_types(S)]
pub struct ExIndexSet<T, S>(IndexSet<T, S>);

/// The codes that an index holds, in the order of their insertion.
pub uninterp spec fn index_codes(index: IndexSet<KeyCode>) -> Seq<KeyCode>;

/// `IndexSet::new`: a set that holds nothing.
#[verifier::external_body]
fn index_new() -> (index: IndexSet<KeyCode>)
    ensures
        index_codes(index) == Seq::<KeyCode>::empty(),
{
    IndexSet::new()
}

/// `IndexSet::insert_full`: a code that the set holds stays where it is,
/// and its place comes back with `false`; a code that it does not hold
/// becomes the last, and its place comes back with `true`.
#[verifier::external_body]
fn index_insert(index: &mut IndexSet<KeyCode>, code: KeyCode) -> (r: (usize, bool))
    ensures
        r.1 == !index_codes(*old(index)).contains(code),
        r.1 ==> r.0 == index_codes(*old(index)).len() && index_codes(*final(index))
            == index_codes(*old(index)).push(code),
        !r.1 ==> r.0 < index_codes(*old(index)).len() && index_codes(*old(index))[r.0 as int]
            == code && index_codes(*final(index)) == index_codes(*old(index)),
{
    index.insert_full(code)
}

/// `IndexSet::get_index_of`: the place of a code that the set holds, and
/// none for a code that it does not hold.
#[verifier::external_body]
fn index_find(index: &IndexSet<KeyCode>, code: &KeyCode) -> (r: Option<usize>)
    ensures
        match r {
            Some(at) => at < index_codes(*index).len() && index_codes(*index)[at as int] == *code,
            None => !index_codes(*index).contains(*code),
        },
{
    index.get_index_of(code)
}

/// The codes of the keys of the entries, in order.
pub open spec fn codes_of<K: MapKey, V>(s: Seq<(K, V)>) -> Seq<KeyCode> {
    Seq::new(s.len(), |i: int| s[i].0.spec_code())
}

/// Entries have a key exactly when their codes have its code; and where no
/// key occurs twice, the code of a key stands where the key stands.
pub proof fn lemma_codes_of_keys<K: MapKey, V>(s: Seq<(K, V)>, key: K)
    ensures
        has_key(s, key) <==> codes_of(s).contains(key.spec_code()),
        forall|i: int|
            0 <= i < s.len() && #[trigger] codes_of(s)[i] == key.spec_code() ==> s[i].0 == key,
        forall|i: int|
            distinct_keys(s) && 0 <= i < s.len() && (#[trigger] s[i]).0 == key ==> i == key_index(
                s,
                key,
            ),
{
    let codes = codes_of(s);
    assert forall|i: int| 0 <= i < s.len() && #[trigger] codes[i] == key.spec_code() implies s[i].0
        == key by {
        K::lemma_code_injective(s[i].0, key);
    }
    if has_key(s, key) {
        let i = key_index(s, key);
        assert(codes[i] == key.spec_code());
    }
    if codes.contains(key.spec_code()) {
        let i = choose|i: int| 0 <= i < codes.len() && codes[i] == key.spec_code();
        assert(s[i].0 == key);
    }
    assert forall|i: int|
        distinct_keys(s) && 0 <= i < s.len() && (#[trigger] s[i]).0 == key implies i == key_index(
        s,
        key,
    ) by {
        let at = key_index(s, key);
        if at < i {
            assert(s[at].0 != s[i].0);
        } else if i < at {
            assert(s[i].0 != s[at].0);
        }
    }
}

/// No key occurs twice among the entries.
pub open spec fn distinct_keys<K, V>(s: Seq<(K, V)>) -> bool {
    forall|i: int, j: int| 0 <= i < j < s.len() ==> (#[trigger] s[i]).0 != (#[trigger] s[j]).0
}

/// Some entry has the key.
pub open spec fn has_key<K, V>(s: Seq<(K, V)>, key: K) -> bool {
    exists|i: int| 0 <= i < s.len() && (#[trigger] s[i]).0 == key
}

/// The place of an entry with the key, where there is one.
pub open spec fn key_index<K, V>(s: Seq<(K, V)>, key: K) -> int {
    choose|i: int| 0 <= i < s.len() && (#[trigger] s[i]).0 == key
}

/// The entries after an insertion: the value of a key that is there is
/// replaced where it stands, a new key goes to the end.
pub open spec fn spec_insert<K, V>(s: Seq<(K, V)>, key: K, value: V) -> Seq<(K, V)> {
    if has_key(s, key) {
        s.update(key_index(s, key), (key, value))
    } else {
        s.push((key, value))
    }
}

/// The entries after inserting each pair of `pairs` in turn, from none.
pub open spec fn spec_collect<K, V>(pairs: Seq<(K, V)>) -> Seq<(K, V)>
    decreases pairs.len(),
{
    if pairs.len() == 0 {
        Seq::empty()
    } else {
        spec_insert(spec_collect(pairs.drop_last()), pairs.last().0, pairs.last().1)
    }
}

/// Insertion keeps the keys distinct, keeps the keys that were there in
/// their places, and never shortens the entries.
pub proof fn lemma_insert_distinct<K, V>(s: Seq<(K, V)>, key: K, value: V)
    requires
        distinct_keys(s),
    ensures
        distinct_keys(spec_insert(s, key, value)),
        s.len() <= spec_insert(s, key, value).len() <= s.len() + 1,
        forall|i: int| 0 <= i < s.len() ==> (#[trigger] spec_insert(s, key, value)[i]).0 == s[i].0,
        has_key(spec_insert(s, key, value), key),
{
    let t = spec_insert(s, key, value);
    if has_key(s, key) {
        let at = key_index(s, key);
        assert(t[at].0 == key);
        assert forall|i: int, j: int| 0 <= i < j < t.len() implies (#[trigger] t[i]).0 != (
        #[trigger] t[j]).0 by {
            assert(s[i].0 != s[j].0);
        }
    } else {
        assert(t[s.len() as int].0 == key);
        assert forall|i: int, j: int| 0 <= i < j < t.len() implies (#[trigger] t[i]).0 != (
        #[trigger] t[j]).0 by {
            if j < s.len() {
                assert(s[i].0 != s[j].0);
            } else {
                assert(s[i].0 != key);
            }
        }
    }
}

/// Whatever pairs are collected, the keys of the result are distinct.
pub proof fn lemma_collect_distinct<K, V>(pairs: Seq<(K, V)>)
    ensures
        distinct_keys(spec_collect(pairs)),
        spec_collect(pairs).len() <= pairs.len(),
    decreases pairs.len(),
{
    if pairs.len() > 0 {
        lemma_collect_distinct(pairs.drop_last());
        lemma_insert_distinct(spec_collect(pairs.drop_last()), pairs.last().0, pairs.last().1);
    }
}

/// Collecting pairs whose keys are distinct gives the pairs, in their order.
pub proof fn lemma_collect_of_distinct<K, V>(pairs: Seq<(K, V)>)
    requires
        distinct_keys(pairs),
    ensures
        spec_collect(pairs) == pairs,
    decreases pairs.len(),
{
    if pairs.len() == 0 {
        assert(pairs == Seq::<(K, V)>::empty());
    } else {
        let front = pairs.drop_last();
        assert(distinct_keys(front)) by {
            assert forall|i: int, j: int| 0 <= i < j < front.len() implies (#[trigger] front[i]).0
                != (#[trigger] front[j]).0 by {
                assert(pairs[i].0 != pairs[j].0);
            }
        }
        lemma_collect_of_distinct(front);
        assert(!has_key(front, pairs.last().0)) by {
            if has_key(front, pairs.last().0) {
                let i = key_index(front, pairs.last().0);
                assert(pairs[i].0 != pairs[pairs.len() - 1].0);
            }
        }
        assert(front.push(pairs.last()) == pairs);
    }
}

/// Each collected entry is one of the pairs.
pub proof fn lemma_collect_members<K, V>(pairs: Seq<(K, V)>)
    ensures
        forall|i: int|
            0 <= i < spec_collect(pairs).len() ==> pairs.contains(#[trigger] spec_collect(pairs)[i]),
    decreases pairs.len(),
{
    if pairs.len() > 0 {
        let front = pairs.drop_last();
        let got = spec_collect(front);
        let all = spec_collect(pairs);
        lemma_collect_members(front);
        assert forall|i: int| 0 <= i < all.len() implies pairs.contains(#[trigger] all[i]) by {
            if all[i] == pairs.last() {
                assert(pairs[pairs.len() - 1] == all[i]);
            } else {
                assert(all[i] == got[i]);
                assert(front.contains(got[i]));
                let j = choose|j: int| 0 <= j < front.len() && front[j] == got[i];
                assert(pairs[j] == all[i]);
            }
        }
    }
}

/// The models of entries with distinct keys have distinct keys.
pub proof fn lemma_deep_distinct<K: MapKey, V: DeepView>(s: Seq<(K, V)>)
    requires
        distinct_keys(s),
    ensures
        distinct_keys(deep_entries(s)),
{
    let d = deep_entries(s);
    assert forall|i: int, j: int| 0 <= i < j < d.len() implies (#[trigger] d[i]).0 != (
    #[trigger] d[j]).0 by {
        K::lemma_key_model(s[i].0, s[j].0);
        assert(s[i].0 != s[j].0);
    }
}

/// Inserting into the entries inserts the models into the models of the
/// entries.
pub proof fn lemma_deep_insert<K: MapKey, V: DeepView>(s: Seq<(K, V)>, key: K, value: V)
    requires
        distinct_keys(s),
    ensures
        deep_entries(spec_insert(s, key, value)) == spec_insert(
            deep_entries(s),
            key.deep_view(),
            value.deep_view(),
        ),
{
    let d = deep_entries(s);
    let dk = key.deep_view();
    if has_key(s, key) {
        let i = key_index(s, key);
        assert(d[i].0 == dk);
        let j = key_index(d, dk);
        K::lemma_key_model(s[j].0, key);
        if i < j {
            assert(s[i].0 != s[j].0);
        } else if j < i {
            assert(s[j].0 != s[i].0);
        }
        assert(deep_entries(s.update(i, (key, value))) == d.update(
            i,
            (dk, value.deep_view()),
        ));
    } else {
        if has_key(d, dk) {
            let j = key_index(d, dk);
            K::lemma_key_model(s[j].0, key);
            assert(s[j].0 == key);
        }
        assert(deep_entries(s.push((key, value))) == d.push((dk, value.deep_view())));
    }
}

/// What a map is made of: the index of the codes of its keys, and its
/// entries.
#[derive(Debug, PartialEq, Eq)]
struct Store<K, V> {
    index: IndexSet<KeyCode>,
    entries: Vec<(K, V)>,
}

/// The index holds the codes of the keys of the entries, in their order,
/// and no key occurs twice.
spec fn store_is_sound<K: MapKey, V>(store: Store<K, V>) -> bool {
    index_codes(store.index) == codes_of(store.entries@) && distinct_keys(store.entries@)
}

/// A store without entries.
fn empty_store<K: MapKey, V>() -> (store: Store<K, V>)
    ensures
        store.entries@ == Seq::<(K, V)>::empty(),
        store_is_sound(store),
{
    let store = Store { index: index_new(), entries: Vec::new() };
    assert(codes_of(store.entries@) == Seq::<KeyCode>::empty());
    store
}

/// Adds an entry with a key that the store does not hold.
fn store_push<K: MapKey, V>(store: &mut Store<K, V>, key: K, value: V)
    requires
        store_is_sound(*old(store)),
        !has_key(old(store).entries@, key),
    ensures
        store_is_sound(*final(store)),
        final(store).entries@ == old(store).entries@.push((key, value)),
{
    let ghost before = store.entries@;
    proof {
        lemma_codes_of_keys(before, key);
        lemma_insert_distinct(before, key, value);
    }
    let placed = index_insert(&mut store.index, key.code());
    assert(placed.1);
    store.entries.push((key, value));
    assert(codes_of(store.entries@) == codes_of(before).push(key.spec_code()));
}

/// An insertion-ordered map: its view is the sequence of its entries, in
/// which no key occurs twice.
#[derive(Debug, PartialEq, Eq)]
pub struct OrderedMap<K: MapKey, V> {
    store: Store<K, V>,
}

impl<K: MapKey, V> View for OrderedMap<K, V> {
    type V = Seq<(K, V)>;

    closed spec fn view(&self) -> Seq<(K, V)> {
        self.store.entries@
    }
}

impl<K: MapKey, V: DeepView> DeepView for OrderedMap<K, V> {
    type V = Seq<(K::V, V::V)>;

    open spec fn deep_view(&self) -> Seq<(K::V, V::V)> {
        deep_entries(self@)
    }
}

/// The models of the entries, in order.
pub open spec fn deep_entries<K: DeepView, V: DeepView>(s: Seq<(K, V)>) -> Seq<(K::V, V::V)> {
    Seq::new(s.len(), |i: int| (s[i].0.deep_view(), s[i].1.deep_view()))
}

impl<K: MapKey, V> Default for OrderedMap<K, V> {
    /// A map without entries.
    fn default() -> (m: Self)
        ensures
            m@ == Seq::<(K, V)>::empty(),
    {
        OrderedMap { store: empty_store() }
    }
}

impl<K: MapKey, V: Clone> Clone for OrderedMap<K, V> {
    /// A map with the same keys in the same order, each with a clone of its
    /// value.
    fn clone(&self) -> (r: Self)
        ensures
            r@.len() == self@.len(),
            forall|i: int|
                0 <= i < self@.len() ==> (#[trigger] r@[i]).0 == self@[i].0 && cloned(
                    self@[i].1,
                    r@[i].1,
                ),
    {
        proof {
            use_type_invariant(self);
        }
        let mut store: Store<K, V> = empty_store();
        let mut i: usize = 0;
        while i < self.store.entries.len()
            invariant
                i <= self.store.entries.len(),
                distinct_keys(self.store.entries@),
                store_is_sound(store),
                store.entries@.len() == i,
                forall|j: int|
                    0 <= j < i ==> (#[trigger] store.entries@[j]).0 == self.store.entries@[j].0
                        && cloned(self.store.entries@[j].1, store.entries@[j].1),
            decreases self.store.entries.len() - i,
        {
            let key: K = self.store.entries[i].0;
            let value: V = self.store.entries[i].1.clone();
            proof {
                if has_key(store.entries@, key) {
                    let at = key_index(store.entries@, key);
                    assert(self.store.entries@[at].0 != self.store.entries@[i as int].0);
                }
            }
            store_push(&mut store, key, value);
            i += 1;
        }
        OrderedMap { store }
    }
}

impl<K: MapKey, V> OrderedMap<K, V> {
    #[verifier::type_invariant]
    spec fn is_sound(self) -> bool {
        store_is_sound(self.store)
    }

    /// A map without entries.
    pub fn new() -> (m: Self)
        ensures
            m@ == Seq::<(K, V)>::empty(),
    {
        OrderedMap { store: empty_store() }
    }

    /// The number of entries.
    pub fn len(&self) -> (n: usize)
        ensures
            n == self@.len(),
            distinct_keys(self@),
    {
        proof {
            use_type_invariant(self);
        }
        self.store.entries.len()
    }

    /// Whether the map has no entry.
    pub fn is_empty(&self) -> (b: bool)
        ensures
            b == (self@.len() == 0),
    {
        self.store.entries.len() == 0
    }

    /// The entry at place `i` in insertion order, if there are that many.
    pub fn get_index(&self, i: usize) -> (r: Option<(&K, &V)>)
        ensures
            match r {
                Some((k, v)) => i < self@.len() && *k == self@[i as int].0 && *v
                    == self@[i as int].1,
                None => i >= self@.len(),
            },
    {
        if i < self.store.entries.len() {
            let entry = &self.store.entries[i];
            Some((&entry.0, &entry.1))
        } else {
            None
        }
    }

    /// The place of the key in insertion order, if the map has the key.
    pub fn get_index_of(&self, key: &K) -> (r: Option<usize>)
        ensures
            match r {
                Some(i) => i < self@.len() && self@[i as int].0 == *key && i == key_index(
                    self@,
                    *key,
                ),
                None => !has_key(self@, *key),
            },
            distinct_keys(self@),
    {
        proof {
            use_type_invariant(self);
            lemma_codes_of_keys(self@, *key);
        }
        let found = index_find(&self.store.index, &key.code());
        proof {
            if let Some(at) = found {
                assert(codes_of(self@)[at as int] == key.spec_code());
            }
        }
        found
    }

    /// Whether the map has the key.
    pub fn contains_key(&self, key: &K) -> (b: bool)
        ensures
            b == has_key(self@, *key),
    {
        self.get_index_of(key).is_some()
    }

    /// The value of the key, if the map has the key.
    pub fn get(&self, key: &K) -> (r: Option<&V>)
        ensures
            match r {
                Some(v) => has_key(self@, *key) && *v == self@[key_index(self@, *key)].1,
                None => !has_key(self@, *key),
            },
    {
        match self.get_index_of(key) {
            Some(i) => Some(&self.store.entries[i].1),
            None => None,
        }
    }

    /// Inserts the pair. Where the key is there already, its value is
    /// replaced where it stands and the former value is returned; otherwise
    /// the pair becomes the last entry.
    pub fn insert(&mut self, key: K, value: V) -> (former: Option<V>)
        ensures
            final(self)@ == spec_insert(old(self)@, key, value),
            match former {
                Some(v) => has_key(old(self)@, key) && v == old(self)@[key_index(
                    old(self)@,
                    key,
                )].1,
                None => !has_key(old(self)@, key),
            },
            distinct_keys(old(self)@),
            distinct_keys(final(self)@),
    {
        proof {
            use_type_invariant(&*self);
            lemma_insert_distinct(self@, key, value);
            lemma_codes_of_keys(self@, key);
        }
        let ghost before = self.store.entries@;
        let found = self.get_index_of(&key);
        let mut store: Store<K, V> = empty_store();
        core::mem::swap(&mut self.store, &mut store);
        let former = match found {
            Some(i) => {
                let gone = store.entries.remove(i);
                store.entries.insert(i, (key, value));
                proof {
                    let after = store.entries@;
                    assert(after == before.update(i as int, (key, value)));
                    assert(codes_of(after) == codes_of(before));
                }
                Some(gone.1)
            },
            None => {
                store_push(&mut store, key, value);
                None
            },
        };
        core::mem::swap(&mut self.store, &mut store);
        former
    }
}

impl<K: MapKey, A, B> OrderedMap<K, (A, B)> {
    /// Parts a map of pairs into the map of the first components and the
    /// map of the second, both with the keys of `self` in their order.
    pub fn unzip(self) -> (r: (OrderedMap<K, A>, OrderedMap<K, B>))
        ensures
            r.0@ == self@.map_values(|e: (K, (A, B))| (e.0, e.1.0)),
            r.1@ == self@.map_values(|e: (K, (A, B))| (e.0, e.1.1)),
    {
        proof {
            use_type_invariant(&self);
        }
        let ghost all = self.store.entries@;
        let mut entries: Vec<(K, (A, B))> = self.store.entries;
        let mut stack: Vec<(K, (A, B))> = Vec::new();
        while entries.len() > 0
            invariant
                entries@.len() + stack@.len() == all.len(),
                forall|i: int| 0 <= i < entries@.len() ==> entries@[i] == all[i],
                forall|i: int|
                    0 <= i < stack@.len() ==> (#[trigger] stack@[i]) == all[all.len() - 1 - i],
            decreases entries.len(),
        {
            let entry = entries.pop().unwrap();
            stack.push(entry);
        }
        let mut firsts: Store<K, A> = empty_store();
        let mut seconds: Store<K, B> = empty_store();
        while stack.len() > 0
            invariant
                distinct_keys(all),
                store_is_sound(firsts),
                store_is_sound(seconds),
                firsts.entries@.len() + stack@.len() == all.len(),
                seconds.entries@.len() == firsts.entries@.len(),
                forall|i: int|
                    0 <= i < stack@.len() ==> (#[trigger] stack@[i]) == all[all.len() - 1 - i],
                forall|i: int|
                    0 <= i < firsts.entries@.len() ==> (#[trigger] firsts.entries@[i]) == (
                        all[i].0,
                        all[i].1.0,
                    ),
                forall|i: int|
                    0 <= i < seconds.entries@.len() ==> (#[trigger] seconds.entries@[i]) == (
                        all[i].0,
                        all[i].1.1,
                    ),
            decreases stack.len(),
        {
            let ghost n = firsts.entries@.len() as int;
            let (key, (a, b)) = stack.pop().unwrap();
            proof {
                assert(key == all[n].0);
                if has_key(firsts.entries@, key) {
                    let at = key_index(firsts.entries@, key);
                    assert(all[at].0 != all[n].0);
                }
                if has_key(seconds.entries@, key) {
                    let at = key_index(seconds.entries@, key);
                    assert(all[at].0 != all[n].0);
                }
            }
            store_push(&mut firsts, key, a);
            store_push(&mut seconds, key, b);
        }
        proof {
            assert(firsts.entries@ == all.map_values(|e: (K, (A, B))| (e.0, e.1.0)));
            assert(seconds.entries@ == all.map_values(|e: (K, (A, B))| (e.0, e.1.1)));
        }
        (OrderedMap { store: firsts }, OrderedMap { store: seconds })
    }
}

impl<K: MapKey, V> OrderedMap<K, V> {
    /// The keys, in insertion order.
    pub fn keys(&self) -> (r: Vec<K>)
        ensures
            r@ == self@.map_values(|e: (K, V)| e.0),
    {
        let mut keys: Vec<K> = Vec::new();
        let mut i: usize = 0;
        while i < self.store.entries.len()
            invariant
                i <= self.store.entries.len(),
                keys@.len() == i,
                forall|j: int| 0 <= j < i ==> (#[trigger] keys@[j]) == self.store.entries@[j].0,
            decreases self.store.entries.len() - i,
        {
            keys.push(self.store.entries[i].0);
            i += 1;
        }
        assert(keys@ == self@.map_values(|e: (K, V)| e.0));
        keys
    }
}

impl<K: MapKey + Codec, V: Codec> Codec for OrderedMap<K, V> {
    open spec fn wf(m: Seq<(K::V, V::V)>) -> bool {
        all_wf::<(K, V)>(m) && distinct_keys(m) && m.len() <= u64::MAX
    }

    /// The entries as a sequence of pairs, in insertion order.
    open spec fn wire(m: Seq<(K::V, V::V)>) -> Seq<u8> {
        wire_seq::<(K, V)>(m)
    }

    /// The pairs at the front of `s`, inserted in the order in which they
    /// are read.
    open spec fn parse(s: Seq<u8>) -> Parsed<Seq<(K::V, V::V)>> {
        match parse_seq::<(K, V)>(s) {
            Err(e) => Err(e),
            Ok((pairs, n)) => Ok((spec_collect(pairs), n)),
        }
    }

    proof fn lemma_parse_bounds(s: Seq<u8>) {
        lemma_parse_seq_bounds::<(K, V)>(s);
        if let Ok((pairs, n)) = parse_seq::<(K, V)>(s) {
            lemma_collect_distinct(pairs);
            lemma_collect_members(pairs);
            let got = spec_collect(pairs);
            assert forall|i: int| 0 <= i < got.len() implies <(K, V) as Codec>::wf(
                #[trigger] got[i],
            ) by {
                assert(pairs.contains(got[i]));
                let j = choose|j: int| 0 <= j < pairs.len() && pairs[j] == got[i];
                assert(<(K, V) as Codec>::wf(pairs[j]));
            }
        }
    }

    proof fn lemma_parse_wire(m: Seq<(K::V, V::V)>, rest: Seq<u8>) {
        lemma_parse_seq_wire::<(K, V)>(m, rest);
        lemma_collect_of_distinct(m);
    }

    fn encode_to(&self, dest: &mut Vec<u8>) {
        proof {
            use_type_invariant(self);
            lemma_deep_distinct(self@);
        }
        let ghost start = dest@;
        let ghost ms = self.deep_view();
        encode_uint(self.store.entries.len() as u64, dest);
        let ghost head = dest@;
        let mut i: usize = 0;
        assert(wire_all::<(K, V)>(ms.take(0)) == Seq::<u8>::empty());
        assert(head + Seq::<u8>::empty() == head);
        while i < self.store.entries.len()
            invariant
                i <= self.store.entries.len(),
                ms == deep_entries(self.store.entries@),
                dest@ == head + wire_all::<(K, V)>(ms.take(i as int)),
                all_wf::<(K, V)>(ms.take(i as int)),
            decreases self.store.entries.len() - i,
        {
            self.store.entries[i].encode_to(dest);
            proof {
                let now = ms.take(i + 1);
                assert(now.drop_last() == ms.take(i as int));
                assert(now.last() == self.store.entries@[i as int].deep_view());
                assert(dest@ == head + (wire_all::<(K, V)>(ms.take(i as int)) + <(
                    K,
                    V,
                ) as Codec>::wire(now.last())));
                assert forall|j: int| 0 <= j < now.len() implies <(K, V) as Codec>::wf(
                    #[trigger] now[j],
                ) by {
                    if j < i {
                        assert(now[j] == ms.take(i as int)[j]);
                    }
                }
            }
            i += 1;
        }
        assert(ms.take(i as int) == ms);
        assert(dest@ == start + (spec_encode_uint(ms.len() as u64) + wire_all::<(K, V)>(ms)));
    }

    fn decode_at(input: &[u8], pos: usize) -> (r: Result<(Self, usize), CodecError>) {
        let ghost s = input@.skip(pos as int);
        let (count, first) = match decode_uint(input, pos) {
            Ok(found) => found,
            Err(e) => { return Err(e); },
        };
        if count > (input.len() - first) as u64 {
            return Err(CodecError::LengthOutOfBounds);
        }
        let ghost body = s.skip(first - pos);
        assert(body == input@.skip(first as int));
        let mut map: OrderedMap<K, V> = OrderedMap::new();
        let ghost mut pairs: Seq<(K::V, V::V)> = Seq::empty();
        let mut at: usize = first;
        let mut i: u64 = 0;
        assert(map.deep_view() == Seq::<(K::V, V::V)>::empty());
        while i < count
            invariant
                i <= count,
                pos <= first <= at <= input.len(),
                s == input@.skip(pos as int),
                body == input@.skip(first as int),
                body == s.skip(first - pos),
                spec_decode_uint(s) == Ok::<(u64, nat), CodecError>(
                    (count, (first - pos) as nat),
                ),
                count <= s.len() - (first - pos),
                parse_all::<(K, V)>(body, i as nat) == Ok::<
                    (Seq<(K::V, V::V)>, nat),
                    CodecError,
                >((pairs, (at - first) as nat)),
                map.deep_view() == spec_collect(pairs),
            decreases count - i,
        {
            assert(body.skip(at - first) == input@.skip(at as int));
            match <(K, V) as Codec>::decode_at(input, at) {
                Ok((entry, next)) => {
                    let ghost before = map@;
                    let ghost model = entry.deep_view();
                    let (key, value) = entry;
                    map.insert(key, value);
                    proof {
                        lemma_deep_insert(before, key, value);
                        assert(pairs.push(model).drop_last() == pairs);
                        pairs = pairs.push(model);
                    }
                    at = next;
                },
                Err(e) => {
                    proof {
                        lemma_parse_all_fails::<(K, V)>(body, (i + 1) as nat, count as nat);
                    }
                    return Err(e);
                },
            }
            i += 1;
        }
        Ok((map, at))
    }
}

} // verus!
