//! A map from texts to values, kept in the order of its keys.

use crate::chain_ids::ChainId;
use crate::text::lemma_text_order_total;
use crate::text::str_order;
use crate::text::text_order;
use crate::text::Order;
use vstd::prelude::*;

verus! {

/// A key of a `SortedMap`: a value that is found and ordered by a text.
pub trait MapKey {
    /// The text by which the key is found.
    spec fn key_text(&self) -> Seq<char>;

    fn as_key(&self) -> (r: &str)
        ensures
            r@ == self.key_text(),
    ;

    fn clone_key(&self) -> (r: Self) where Self: Sized
        ensures
            r.key_text() == self.key_text(),
    ;
}

impl MapKey for String {
    open spec fn key_text(&self) -> Seq<char> {
        self@
    }

    fn as_key(&self) -> (r: &str) {
        self.as_str()
    }

    fn clone_key(&self) -> (r: Self) {
        self.clone()
    }
}

impl MapKey for ChainId {
    open spec fn key_text(&self) -> Seq<char> {
        self@
    }

    fn as_key(&self) -> (r: &str) {
        self.as_str()
    }

    fn clone_key(&self) -> (r: Self) {
        self.clone()
    }
}

/// `texts` is strictly increasing in the order of texts.
pub open spec fn increasing(texts: Seq<Seq<char>>) -> bool {
    forall|i: int, j: int|
        0 <= i < j < texts.len() ==> text_order(#[trigger] texts[i], #[trigger] texts[j])
            == Order::Less
}

/// A map from texts to values. Its entries are held in the strictly
/// increasing order of their keys, so that no key occurs twice, a key is
/// found by bisection, and the entries are always gone through in one order.
#[derive(Debug)]
pub struct SortedMap<K: MapKey, T> {
    entries: Vec<(K, T)>,
}

impl<K: MapKey, T> View for SortedMap<K, T> {
    type V = Map<Seq<char>, T>;

    /// The map from each key's text to the value that stands with it.
    open spec fn view(&self) -> Map<Seq<char>, T> {
        Map::new(
            |text: Seq<char>| self.key_texts().contains(text),
            |text: Seq<char>| self.values()[self.key_texts().index_of(text)],
        )
    }
}

impl<K: MapKey, T: Clone> Clone for SortedMap<K, T> {
    /// A map with the same key texts, and under each a clone of the value.
    fn clone(&self) -> (r: Self)
        ensures
            r.key_texts() == self.key_texts(),
            r.values().len() == self.values().len(),
            r.values().len() == r.key_texts().len(),
            forall|i: int|
                0 <= i < self.values().len() ==> cloned::<T>(
                    #[trigger] self.values()[i],
                    r.values()[i],
                ),
    {
        proof {
            use_type_invariant(self);
        }
        let mut entries: Vec<(K, T)> = Vec::new();
        let mut i: usize = 0;
        while i < self.entries.len()
            invariant
                i <= self.entries.len(),
                entries.len() == i,
                forall|j: int|
                    0 <= j < i ==> (#[trigger] entries@[j]).0.key_text()
                        == self.entries@[j].0.key_text(),
                forall|j: int|
                    0 <= j < i ==> cloned::<T>(self.entries@[j].1, (#[trigger] entries@[j]).1),
            decreases self.entries.len() - i,
        {
            let key = self.entries[i].0.clone_key();
            let value = self.entries[i].1.clone();
            entries.push((key, value));
            i += 1;
        }
        assert(Self::texts_of(entries@) =~= self.key_texts());
        let r = SortedMap { entries };
        assert(r.values().len() == self.values().len());
        r
    }
}

impl<K: MapKey, T> SortedMap<K, T> {
    /// The keys, in their order.
    pub closed spec fn keys(&self) -> Seq<K> {
        Seq::new(self.entries@.len(), |i: int| self.entries@[i].0)
    }

    /// The texts of the keys, in their order.
    pub closed spec fn key_texts(&self) -> Seq<Seq<char>> {
        Self::texts_of(self.entries@)
    }

    /// The texts of the keys of `entries`, place by place.
    spec fn texts_of(entries: Seq<(K, T)>) -> Seq<Seq<char>> {
        Seq::new(entries.len(), |i: int| entries[i].0.key_text())
    }

    /// The values, in the order of their keys.
    pub closed spec fn values(&self) -> Seq<T> {
        Seq::new(self.entries@.len(), |i: int| self.entries@[i].1)
    }

    /// The keys are strictly increasing.
    #[verifier::type_invariant]
    pub closed spec fn wf(self) -> bool {
        increasing(self.key_texts())
    }

    /// Keys, key texts and values stand place by place.
    pub proof fn lemma_entries(&self)
        ensures
            self.keys().len() == self.key_texts().len(),
            self.values().len() == self.key_texts().len(),
            forall|i: int|
                0 <= i < self.key_texts().len() ==> #[trigger] self.key_texts()[i]
                    == self.keys()[i].key_text(),
    {
    }

    /// In a map whose keys are strictly increasing, no key text occurs twice,
    /// and the view holds each key text with the value at its place.
    pub proof fn lemma_view(&self)
        requires
            increasing(self.key_texts()),
        ensures
            self.key_texts().no_duplicates(),
            self.values().len() == self.key_texts().len(),
            self@.dom() =~= self.key_texts().to_set(),
            forall|i: int|
                0 <= i < self.key_texts().len() ==> {
                    &&& self@.contains_key(#[trigger] self.key_texts()[i])
                    &&& self@[self.key_texts()[i]] == self.values()[i]
                },
            forall|text: Seq<char>| #[trigger]
                self@.contains_key(text) ==> {
                    &&& 0 <= self.key_texts().index_of(text) < self.key_texts().len()
                    &&& self.key_texts()[self.key_texts().index_of(text)] == text
                },
    {
        let texts = self.key_texts();
        assert forall|i: int, j: int| 0 <= i < texts.len() && 0 <= j < texts.len() && i
            != j implies texts[i] != texts[j] by {
            lemma_text_order_total(texts[i], texts[j], texts[j]);
            if i < j {
                assert(text_order(texts[i], texts[j]) == Order::Less);
            } else {
                assert(text_order(texts[j], texts[i]) == Order::Less);
                lemma_text_order_total(texts[j], texts[i], texts[i]);
            }
        }
        assert forall|i: int| 0 <= i < texts.len() implies {
            &&& self@.contains_key(#[trigger] texts[i])
            &&& self@[texts[i]] == self.values()[i]
        } by {
            assert(texts.contains(texts[i]));
            let k = texts.index_of(texts[i]);
            assert(0 <= k < texts.len() && texts[k] == texts[i]);
        }
    }

    /// The map without entries.
    pub fn new() -> (r: Self)
        ensures
            r@ == Map::<Seq<char>, T>::empty(),
            r.key_texts().len() == 0,
    {
        let r = SortedMap { entries: Vec::new() };
        assert(r@ =~= Map::<Seq<char>, T>::empty());
        r
    }

    /// The number of entries.
    pub fn len(&self) -> (r: usize)
        ensures
            r == self.key_texts().len(),
            r == self.keys().len(),
            r == self.values().len(),
            increasing(self.key_texts()),
    {
        proof {
            use_type_invariant(self);
        }
        self.entries.len()
    }

    /// Whether the map has no entries.
    pub fn is_empty(&self) -> (r: bool)
        ensures
            r == (self.key_texts().len() == 0),
    {
        self.entries.len() == 0
    }

    /// The key at place `i` of the order.
    pub fn key_at(&self, i: usize) -> (r: &K)
        requires
            i < self.key_texts().len(),
        ensures
            *r == self.keys()[i as int],
            r.key_text() == self.key_texts()[i as int],
    {
        &self.entries[i].0
    }

    /// The value at place `i` of the order of the keys.
    pub fn value_at(&self, i: usize) -> (r: &T)
        requires
            i < self.key_texts().len(),
        ensures
            *r == self.values()[i as int],
    {
        &self.entries[i].1
    }

    /// The place of `key` among the keys, or where it would stand.
    fn search(&self, key: &str) -> (r: Result<usize, usize>)
        ensures
            increasing(self.key_texts()),
            match r {
                Ok(at) => at < self.key_texts().len() && self.key_texts()[at as int] == key@,
                Err(at) => {
                    &&& at <= self.key_texts().len()
                    &&& forall|j: int|
                        0 <= j < at ==> text_order(#[trigger] self.key_texts()[j], key@)
                            == Order::Less
                    &&& forall|j: int|
                        at <= j < self.key_texts().len() ==> text_order(
                            key@,
                            #[trigger] self.key_texts()[j],
                        ) == Order::Less
                },
            },
    {
        proof {
            use_type_invariant(self);
        }
        let ghost texts = self.key_texts();
        let mut lo: usize = 0;
        let mut hi: usize = self.entries.len();
        while lo < hi
            invariant
                lo <= hi <= self.entries.len(),
                texts == self.key_texts(),
                texts.len() == self.entries.len(),
                increasing(texts),
                forall|j: int| 0 <= j < lo ==> text_order(#[trigger] texts[j], key@) == Order::Less,
                forall|j: int|
                    hi <= j < texts.len() ==> text_order(key@, #[trigger] texts[j]) == Order::Less,
            decreases hi - lo,
        {
            let mid: usize = lo + (hi - lo) / 2;
            let probe = self.entries[mid].0.as_key();
            assert(probe@ == texts[mid as int]);
            proof {
                lemma_text_order_total(probe@, key@, key@);
            }
            match str_order(probe, key) {
                Order::Equal => {
                    return Ok(mid);
                },
                Order::Less => {
                    assert forall|j: int| 0 <= j < mid + 1 implies text_order(
                        #[trigger] texts[j],
                        key@,
                    ) == Order::Less by {
                        if j < mid {
                            lemma_text_order_total(texts[j], texts[mid as int], key@);
                        }
                    }
                    lo = mid + 1;
                },
                Order::Greater => {
                    assert forall|j: int| mid <= j < texts.len() implies text_order(
                        key@,
                        #[trigger] texts[j],
                    ) == Order::Less by {
                        lemma_text_order_total(key@, texts[mid as int], texts[mid as int]);
                        if j > mid {
                            lemma_text_order_total(key@, texts[mid as int], texts[j]);
                        }
                    }
                    hi = mid;
                },
            }
        }
        Err(lo)
    }

    /// A key that compares `Less` or `Greater` with every key of the map is
    /// not in it.
    proof fn lemma_absent(&self, key: Seq<char>, at: int)
        requires
            0 <= at <= self.key_texts().len(),
            forall|j: int|
                0 <= j < at ==> text_order(#[trigger] self.key_texts()[j], key) == Order::Less,
            forall|j: int|
                at <= j < self.key_texts().len() ==> text_order(key, #[trigger] self.key_texts()[j])
                    == Order::Less,
        ensures
            !self.key_texts().contains(key),
            !self@.contains_key(key),
    {
        let texts = self.key_texts();
        if texts.contains(key) {
            let j = choose|j: int| 0 <= j < texts.len() && texts[j] == key;
            lemma_text_order_total(key, key, key);
            if j < at {
                assert(text_order(texts[j], key) == Order::Less);
            } else {
                assert(text_order(key, texts[j]) == Order::Less);
            }
        }
    }

    /// The value that stands with `key`, if there is one.
    pub fn get(&self, key: &str) -> (r: Option<&T>)
        ensures
            match r {
                Some(value) => self@.contains_key(key@) && *value == self@[key@],
                None => !self@.contains_key(key@),
            },
    {
        match self.search(key) {
            Ok(at) => {
                proof {
                    self.lemma_view();
                }
                Some(&self.entries[at].1)
            },
            Err(at) => {
                proof {
                    self.lemma_absent(key@, at as int);
                }
                None
            },
        }
    }

    /// Whether some value stands with `key`.
    pub fn contains_key(&self, key: &str) -> (r: bool)
        ensures
            r == self@.contains_key(key@),
    {
        self.get(key).is_some()
    }

    /// Giving the value at one place another value puts that value under the
    /// key of the place.
    proof fn lemma_replaced(before: Self, after: Self, at: int, value: T)
        requires
            increasing(before.key_texts()),
            0 <= at < before.key_texts().len(),
            after.key_texts() == before.key_texts(),
            after.values() == before.values().update(at, value),
        ensures
            after@ == before@.insert(before.key_texts()[at], value),
    {
        before.lemma_view();
        after.lemma_view();
        let text = before.key_texts()[at];
        assert forall|t: Seq<char>| #[trigger]
            after@.contains_key(t) && t != text implies after@[t] == before@[t] by {
            let i = after.key_texts().index_of(t);
            assert(i != at);
        }
        assert(after@ =~= before@.insert(text, value));
    }

    /// A text that stands between its neighbours keeps the texts increasing
    /// when it is put between them.
    proof fn lemma_increasing_insert(texts: Seq<Seq<char>>, at: int, text: Seq<char>)
        requires
            increasing(texts),
            0 <= at <= texts.len(),
            forall|j: int| 0 <= j < at ==> text_order(#[trigger] texts[j], text) == Order::Less,
            forall|j: int|
                at <= j < texts.len() ==> text_order(text, #[trigger] texts[j]) == Order::Less,
        ensures
            increasing(texts.insert(at, text)),
    {
        let after = texts.insert(at, text);
        assert forall|i: int, j: int| 0 <= i < j < after.len() implies text_order(
            #[trigger] after[i],
            #[trigger] after[j],
        ) == Order::Less by {
            if j < at {
                assert(after[i] == texts[i] && after[j] == texts[j]);
            } else if j == at {
                assert(after[i] == texts[i]);
            } else if i < at {
                assert(after[i] == texts[i] && after[j] == texts[j - 1]);
            } else if i == at {
                assert(after[j] == texts[j - 1]);
            } else {
                assert(after[i] == texts[i - 1] && after[j] == texts[j - 1]);
            }
        }
    }

    /// Putting a new key with its value at its place in the order puts the
    /// value under the key and leaves the rest.
    proof fn lemma_inserted(before: Self, after: Self, at: int, text: Seq<char>, value: T)
        requires
            increasing(before.key_texts()),
            increasing(after.key_texts()),
            0 <= at <= before.key_texts().len(),
            !before.key_texts().contains(text),
            after.key_texts() == before.key_texts().insert(at, text),
            after.values() == before.values().insert(at, value),
        ensures
            after@ == before@.insert(text, value),
    {
        before.lemma_view();
        after.lemma_view();
        let old_texts = before.key_texts();
        let new_texts = after.key_texts();
        assert(new_texts[at] == text);
        assert forall|t: Seq<char>| #[trigger]
            after@.contains_key(t) && t != text implies before@.contains_key(t) && after@[t]
            == before@[t] by {
            let i = new_texts.index_of(t);
            if i < at {
                assert(old_texts[i] == t);
            } else {
                assert(i > at);
                assert(old_texts[i - 1] == t);
            }
        }
        assert forall|t: Seq<char>| #[trigger] before@.contains_key(t) implies after@.contains_key(
            t,
        ) by {
            let i = old_texts.index_of(t);
            if i < at {
                assert(new_texts[i] == t);
            } else {
                assert(new_texts[i + 1] == t);
            }
        }
        assert(after@ =~= before@.insert(text, value));
    }

    /// Puts `value` under `key`, and gives back the value that stood there.
    pub fn insert(&mut self, key: K, value: T) -> (r: Option<T>)
        ensures
            final(self)@ == old(self)@.insert(key.key_text(), value),
            r == if old(self)@.contains_key(key.key_text()) {
                Some(old(self)@[key.key_text()])
            } else {
                None::<T>
            },
    {
        let found = self.search(key.as_key());
        let ghost before = *self;
        let ghost text = key.key_text();
        proof {
            before.lemma_view();
        }
        let mut entries: Vec<(K, T)> = Vec::new();
        std::mem::swap(&mut entries, &mut self.entries);
        match found {
            Ok(at) => {
                let (kept, old_value) = entries.remove(at);
                entries.insert(at, (kept, value));
                assert(Self::texts_of(entries@) =~= before.key_texts());
                self.entries = entries;
                proof {
                    assert(self.values() =~= before.values().update(at as int, value));
                    Self::lemma_replaced(before, *self, at as int, value);
                }
                Some(old_value)
            },
            Err(at) => {
                entries.insert(at, (key, value));
                proof {
                    assert(Self::texts_of(entries@) =~= before.key_texts().insert(at as int, text));
                    Self::lemma_increasing_insert(before.key_texts(), at as int, text);
                }
                self.entries = entries;
                proof {
                    before.lemma_absent(text, at as int);
                    assert(self.values() =~= before.values().insert(at as int, value));
                    Self::lemma_inserted(before, *self, at as int, text, value);
                }
                None
            },
        }
    }
}

} // verus!
