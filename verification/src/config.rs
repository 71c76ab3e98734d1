//! The configuration store: an ordered map from keys to elements, iterated in
//! lexicographic order of the keys.

use crate::convert::{lossy_text, EleExt, ToEle};
use crate::ele::{Ele, EleView};
use crate::extension::{
    dispatched_set, first_to_set, get_answers, law_write_then_read, lemma_first_to_set, local_key,
    namespace_of, outcome_view, own_names, routed_get, routed_set, set_answers, EngineError,
    EngineExtension, EngineExtensionManager, ErrorView,
};
use crate::text::{
    chars_of, compare_chars, continues_with, lemma_lex_asymmetric, lemma_lex_transitive, lex_lt,
    starts_with, Order,
};
use vstd::prelude::*;

verus! {

/// Each key sorts strictly before every later one.
pub open spec fn sorted_keys(keys: Seq<Seq<char>>) -> bool {
    forall|i: int, j: int| 0 <= i < j < keys.len() ==> lex_lt(#[trigger] keys[i], #[trigger] keys[j])
}

/// An ordered map from configuration keys to elements.
#[derive(Debug, PartialEq)]
pub struct ConfigStore {
    entries: Vec<(String, Ele)>,
}

impl View for ConfigStore {
    type V = Map<Seq<char>, EleView>;

    /// The store as a map from keys to values.
    closed spec fn view(&self) -> Map<Seq<char>, EleView> {
        Map::new(
            |k: Seq<char>| self.keys_view().contains(k),
            |k: Seq<char>| self.values_view()[self.keys_view().index_of(k)],
        )
    }
}

impl Default for ConfigStore {
    fn default() -> (r: Self)
        ensures
            r.wf(),
            r@ == Map::<Seq<char>, EleView>::empty(),
    {
        ConfigStore::new()
    }
}

impl ConfigStore {
    /// The keys, in the order in which the store is iterated.
    pub closed spec fn keys_view(&self) -> Seq<Seq<char>> {
        Seq::new(self.entries@.len(), |i: int| self.entries@[i].0@)
    }

    /// The values, in the order of their keys.
    pub closed spec fn values_view(&self) -> Seq<EleView> {
        Seq::new(self.entries@.len(), |i: int| self.entries@[i].1@)
    }

    /// The store's invariant: the keys are in strictly increasing
    /// lexicographic order, so no key occurs twice.
    pub closed spec fn wf(&self) -> bool {
        sorted_keys(self.keys_view())
    }

    /// How the iteration order and the map belong together: the keys are
    /// sorted, they are exactly the map's domain, and each key maps to the
    /// value at its position.
    pub proof fn lemma_order(&self)
        requires
            self.wf(),
        ensures
            sorted_keys(self.keys_view()),
            self.keys_view().no_duplicates(),
            self.keys_view().len() == self.values_view().len(),
            self@.dom() == self.keys_view().to_set(),
            self@.dom().finite(),
            self@.dom().len() == self.keys_view().len(),
            forall|i: int|
                0 <= i < self.keys_view().len() ==> self@.contains_key(#[trigger] self.keys_view()[i])
                    && self@[self.keys_view()[i]] == self.values_view()[i],
    {
        let keys = self.keys_view();
        assert forall|i: int, j: int| 0 <= i < keys.len() && 0 <= j < keys.len() && i != j implies keys[i]
            != keys[j] by {
            if i < j {
                lemma_lex_asymmetric(keys[i], keys[j]);
            } else {
                lemma_lex_asymmetric(keys[j], keys[i]);
            }
        }
        assert(self@.dom() =~= keys.to_set());
        keys.unique_seq_to_set();
        assert forall|i: int| 0 <= i < keys.len() implies self@.contains_key(#[trigger] keys[i])
            && self@[keys[i]] == self.values_view()[i] by {
            assert(keys.contains(keys[i]));
            let j = keys.index_of(keys[i]);
            assert(j == i);
        }
    }

    /// An empty store.
    pub fn new() -> (r: Self)
        ensures
            r.wf(),
            r@ == Map::<Seq<char>, EleView>::empty(),
            r.keys_view() == Seq::<Seq<char>>::empty(),
    {
        let r = ConfigStore { entries: Vec::new() };
        proof {
            assert(r.keys_view() =~= Seq::<Seq<char>>::empty());
            assert(r@ =~= Map::<Seq<char>, EleView>::empty());
        }
        r
    }

    /// The position of the first key that does not sort before `key`, and
    /// whether that key is `key` itself.
    fn locate(&self, key: &Vec<char>) -> (r: (usize, bool))
        requires
            self.wf(),
        ensures
            r.0 <= self.entries@.len(),
            forall|j: int| 0 <= j < r.0 ==> lex_lt(#[trigger] self.keys_view()[j], key@),
            r.1 ==> r.0 < self.entries@.len() && self.keys_view()[r.0 as int] == key@,
            !r.1 ==> forall|j: int|
                r.0 <= j < self.entries@.len() ==> lex_lt(key@, #[trigger] self.keys_view()[j]),
            r.1 == self.keys_view().contains(key@),
    {
        let ghost keys = self.keys_view();
        let mut lo: usize = 0;
        let mut hi: usize = self.entries.len();
        while lo < hi
            invariant
                self.wf(),
                keys == self.keys_view(),
                lo <= hi <= self.entries@.len(),
                forall|j: int| 0 <= j < lo ==> lex_lt(#[trigger] keys[j], key@),
                forall|j: int| hi <= j < self.entries@.len() ==> lex_lt(key@, #[trigger] keys[j]),
            decreases hi - lo,
        {
            let mid: usize = lo + (hi - lo) / 2;
            let there = chars_of(self.entries[mid].0.as_str());
            assert(there@ == keys[mid as int]);
            match compare_chars(&there, key) {
                Order::Before => {
                    proof {
                        assert forall|j: int| 0 <= j < mid + 1 implies lex_lt(#[trigger] keys[j], key@) by {
                            if j < mid {
                                lemma_lex_transitive(keys[j], keys[mid as int], key@, 0);
                            }
                        }
                    }
                    lo = mid + 1;
                },
                Order::Same => {
                    proof {
                        assert forall|j: int| 0 <= j < mid implies lex_lt(#[trigger] keys[j], key@) by {
                            assert(lex_lt(keys[j], keys[mid as int]));
                        }
                        assert(keys.contains(key@));
                    }
                    return (mid, true);
                },
                Order::After => {
                    proof {
                        assert forall|j: int| mid <= j < self.entries@.len() implies lex_lt(
                            key@,
                            #[trigger] keys[j],
                        ) by {
                            if mid < j {
                                lemma_lex_transitive(key@, keys[mid as int], keys[j], 0);
                            }
                        }
                    }
                    hi = mid;
                },
            }
        }
        proof {
            if keys.contains(key@) {
                let j = choose|j: int| 0 <= j < keys.len() && keys[j] == key@;
                if j < lo {
                    lemma_lex_asymmetric(keys[j], key@);
                } else {
                    lemma_lex_asymmetric(key@, keys[j]);
                }
            }
        }
        (lo, false)
    }

    /// The value stored under `key`, if any.
    pub fn get(&self, key: &str) -> (r: Option<Ele>)
        requires
            self.wf(),
        ensures
            r is Some <==> self@.contains_key(key@),
            r is Some ==> r->0@ == self@[key@],
    {
        proof {
            self.lemma_order();
        }
        let k = chars_of(key);
        let (at, found) = self.locate(&k);
        if found {
            Some(self.entries[at].1.clone())
        } else {
            None
        }
    }

    /// Stores `value` under `key`, replacing what was there.
    pub fn set<T: ToEle>(&mut self, key: &str, value: T)
        requires
            old(self).wf(),
        ensures
            final(self).wf(),
            final(self)@ == old(self)@.insert(key@, value.ele_view()),
    {
        proof {
            self.lemma_order();
        }
        let k = chars_of(key);
        let (at, found) = self.locate(&k);
        let ele = value.to_ele();
        let ghost before = *self;
        if found {
            self.entries.set(at, (key.to_owned(), ele));
            proof {
                assert(self.keys_view() =~= before.keys_view());
                assert(self.values_view() =~= before.values_view().update(at as int, ele@));
                self.lemma_order();
                assert(self@ =~= before@.insert(key@, ele@)) by {
                    assert forall|kk: Seq<char>| self@.contains_key(kk) implies #[trigger] self@[kk]
                        == before@.insert(key@, ele@)[kk] by {
                        let i = self.keys_view().index_of(kk);
                        assert(self.keys_view()[i] == kk);
                        assert(before@[before.keys_view()[i]] == before.values_view()[i]);
                    }
                }
            }
        } else {
            self.entries.insert(at, (key.to_owned(), ele));
            proof {
                let keys = before.keys_view();
                assert(self.keys_view() =~= keys.insert(at as int, key@));
                assert(self.values_view() =~= before.values_view().insert(at as int, ele@));
                assert(sorted_keys(self.keys_view())) by {
                    let now = self.keys_view();
                    assert forall|i: int, j: int| 0 <= i < j < now.len() implies lex_lt(
                        #[trigger] now[i],
                        #[trigger] now[j],
                    ) by {
                        if j < at {
                            assert(now[i] == keys[i] && now[j] == keys[j]);
                        } else if j == at {
                            assert(now[i] == keys[i]);
                        } else if i < at {
                            assert(now[i] == keys[i] && now[j] == keys[j - 1]);
                        } else if i == at {
                            assert(now[j] == keys[j - 1]);
                        } else {
                            assert(now[i] == keys[i - 1] && now[j] == keys[j - 1]);
                        }
                    }
                }
                self.lemma_order();
                assert(self@ =~= before@.insert(key@, ele@)) by {
                    let now = self.keys_view();
                    assert forall|kk: Seq<char>| self@.contains_key(kk) <==> before@.insert(
                        key@,
                        ele@,
                    ).contains_key(kk) by {
                        if self@.contains_key(kk) {
                            let i = now.index_of(kk);
                            assert(now[i] == kk);
                            if i < at {
                                assert(keys[i] == kk);
                            } else if i > at {
                                assert(keys[i - 1] == kk);
                            }
                        }
                        if before@.contains_key(kk) {
                            let i = keys.index_of(kk);
                            assert(keys[i] == kk);
                            if i < at {
                                assert(now[i] == kk);
                            } else {
                                assert(now[i + 1] == kk);
                            }
                        }
                        if kk == key@ {
                            assert(now[at as int] == kk);
                        }
                    }
                    assert forall|kk: Seq<char>| self@.contains_key(kk) implies #[trigger] self@[kk]
                        == before@.insert(key@, ele@)[kk] by {
                        let i = now.index_of(kk);
                        assert(now[i] == kk);
                        if i < at {
                            assert(keys[i] == kk);
                            assert(before@[keys[i]] == before.values_view()[i]);
                        } else if i > at {
                            assert(keys[i - 1] == kk);
                            assert(before@[keys[i - 1]] == before.values_view()[i - 1]);
                        }
                    }
                }
            }
        }
    }
}

/// The keys that start with `prefix`.
pub open spec fn with_prefix(prefix: Seq<char>) -> Set<Seq<char>> {
    Set::new(|k: Seq<char>| starts_with(k, prefix))
}

/// The texts of a sequence of strings.
pub open spec fn texts(v: Seq<String>) -> Seq<Seq<char>> {
    Seq::new(v.len(), |i: int| v[i]@)
}

impl ConfigStore {
    /// Takes out the entry at position `at`.
    fn remove_at(&mut self, at: usize) -> (r: (String, Ele))
        requires
            old(self).wf(),
            at < old(self).keys_view().len(),
        ensures
            final(self).wf(),
            r.0@ == old(self).keys_view()[at as int],
            r.1@ == old(self).values_view()[at as int],
            final(self).keys_view() == old(self).keys_view().remove(at as int),
            final(self).values_view() == old(self).values_view().remove(at as int),
            final(self)@ == old(self)@.remove(r.0@),
    {
        let ghost before = *self;
        proof {
            before.lemma_order();
        }
        let r = self.entries.remove(at);
        proof {
            let keys = before.keys_view();
            let now = self.keys_view();
            assert(r.0@ == keys[at as int]);
            assert(now =~= keys.remove(at as int));
            assert(self.values_view() =~= before.values_view().remove(at as int));
            assert forall|i: int, j: int| 0 <= i < j < now.len() implies lex_lt(
                #[trigger] now[i],
                #[trigger] now[j],
            ) by {
                let a = if i < at { i } else { i + 1 };
                let b = if j < at { j } else { j + 1 };
                assert(now[i] == keys[a] && now[j] == keys[b]);
            }
            self.lemma_order();
            assert(self@ =~= before@.remove(r.0@)) by {
                assert forall|kk: Seq<char>| self@.contains_key(kk) <==> before@.remove(r.0@).contains_key(
                    kk,
                ) by {
                    if self@.contains_key(kk) {
                        let i = now.index_of(kk);
                        assert(now[i] == kk);
                        let a = if i < at { i } else { i + 1 };
                        assert(keys[a] == kk);
                        assert(keys[a] != keys[at as int]);
                    }
                    if before@.contains_key(kk) && kk != r.0@ {
                        let i = keys.index_of(kk);
                        assert(keys[i] == kk);
                        let a = if i < at { i } else { i - 1 };
                        assert(now[a] == kk);
                    }
                }
                assert forall|kk: Seq<char>| self@.contains_key(kk) implies #[trigger] self@[kk]
                    == before@.remove(r.0@)[kk] by {
                    let i = now.index_of(kk);
                    assert(now[i] == kk);
                    let a = if i < at { i } else { i + 1 };
                    assert(keys[a] == kk);
                    assert(before@[keys[a]] == before.values_view()[a]);
                }
            }
        }
        r
    }

    /// Appends an entry whose key sorts after every key of the store.
    fn push_last(&mut self, key: String, value: Ele)
        requires
            old(self).wf(),
            forall|j: int|
                0 <= j < old(self).keys_view().len() ==> lex_lt(#[trigger] old(self).keys_view()[j], key@),
        ensures
            final(self).wf(),
            final(self).keys_view() == old(self).keys_view().push(key@),
            final(self).values_view() == old(self).values_view().push(value@),
            final(self)@ == old(self)@.insert(key@, value@),
    {
        let ghost before = *self;
        proof {
            before.lemma_order();
        }
        self.entries.push((key, value));
        proof {
            let keys = before.keys_view();
            let now = self.keys_view();
            assert(now =~= keys.push(key@));
            assert(self.values_view() =~= before.values_view().push(value@));
            assert forall|i: int, j: int| 0 <= i < j < now.len() implies lex_lt(
                #[trigger] now[i],
                #[trigger] now[j],
            ) by {
                assert(now[i] == keys[i]);
                if j < keys.len() {
                    assert(now[j] == keys[j]);
                }
            }
            self.lemma_order();
            assert(self@ =~= before@.insert(key@, value@)) by {
                assert forall|kk: Seq<char>| self@.contains_key(kk) <==> before@.insert(
                    key@,
                    value@,
                ).contains_key(kk) by {
                    if self@.contains_key(kk) {
                        let i = now.index_of(kk);
                        assert(now[i] == kk);
                        if i < keys.len() {
                            assert(keys[i] == kk);
                        }
                    }
                    if before@.contains_key(kk) {
                        let i = keys.index_of(kk);
                        assert(keys[i] == kk);
                        assert(now[i] == kk);
                    }
                    if kk == key@ {
                        assert(now[keys.len() as int] == kk);
                    }
                }
                assert forall|kk: Seq<char>| self@.contains_key(kk) implies #[trigger] self@[kk]
                    == before@.insert(key@, value@)[kk] by {
                    let i = now.index_of(kk);
                    assert(now[i] == kk);
                    assert(self@[now[i]] == self.values_view()[i]);
                    if i < keys.len() {
                        assert(keys[i] == kk);
                        lemma_lex_asymmetric(keys[i], key@);
                        assert(before@[keys[i]] == before.values_view()[i]);
                    }
                }
            }
        }
    }

    /// The value stored under `key`, as text.
    pub fn get_str(&self, key: &str) -> (r: Option<String>)
        requires
            self.wf(),
        ensures
            r is Some <==> self@.contains_key(key@),
            r is Some ==> r->0@ == lossy_text(self@[key@]),
    {
        match self.get(key) {
            Some(ele) => Some(ele.to_string_lossy()),
            None => None,
        }
    }

    /// Takes out the entry of `key` and returns its value, if there was one.
    pub fn remove(&mut self, key: &str) -> (r: Option<Ele>)
        requires
            old(self).wf(),
        ensures
            final(self).wf(),
            final(self)@ == old(self)@.remove(key@),
            r is Some <==> old(self)@.contains_key(key@),
            r is Some ==> r->0@ == old(self)@[key@],
    {
        proof {
            self.lemma_order();
        }
        let k = chars_of(key);
        let (at, found) = self.locate(&k);
        if found {
            let gone = self.remove_at(at);
            Some(gone.1)
        } else {
            proof {
                assert(self@.remove(key@) =~= self@);
            }
            None
        }
    }

    /// Whether `key` has an entry.
    pub fn contains_key(&self, key: &str) -> (r: bool)
        requires
            self.wf(),
        ensures
            r == self@.contains_key(key@),
    {
        let k = chars_of(key);
        let (_, found) = self.locate(&k);
        found
    }

    /// All keys, in lexicographic order.
    pub fn keys(&self) -> (r: Vec<String>)
        requires
            self.wf(),
        ensures
            texts(r@) == self.keys_view(),
            sorted_keys(texts(r@)),
            texts(r@).to_set() == self@.dom(),
    {
        proof {
            self.lemma_order();
        }
        let mut out: Vec<String> = Vec::new();
        let mut i: usize = 0;
        while i < self.entries.len()
            invariant
                i <= self.entries@.len(),
                out@.len() == i,
                forall|j: int| 0 <= j < i ==> (#[trigger] out@[j])@ == self.keys_view()[j],
            decreases self.entries@.len() - i,
        {
            out.push(self.entries[i].0.clone());
            i += 1;
        }
        proof {
            assert(texts(out@) =~= self.keys_view());
        }
        out
    }

    /// A copy of the whole store.
    pub fn all(&self) -> (r: ConfigStore)
        requires
            self.wf(),
        ensures
            r.wf(),
            r@ == self@,
            r.keys_view() == self.keys_view(),
    {
        let r = self.get_with_prefix("");
        proof {
            reveal_strlit("");
            assert forall|k: Seq<char>| with_prefix(""@).contains(k) by {
                assert(k.subrange(0, 0) =~= ""@);
            }
            assert(r@ =~= self@);
            self.lemma_order();
            r.lemma_order();
            lemma_same_keys(r.keys_view(), self.keys_view());
        }
        r
    }

    /// Takes out every entry.
    pub fn clear(&mut self)
        ensures
            final(self).wf(),
            final(self)@ == Map::<Seq<char>, EleView>::empty(),
    {
        self.entries.clear();
        proof {
            assert(self.keys_view() =~= Seq::<Seq<char>>::empty());
            assert(self@ =~= Map::<Seq<char>, EleView>::empty());
        }
    }

    /// The number of entries.
    pub fn len(&self) -> (n: usize)
        requires
            self.wf(),
        ensures
            n == self@.dom().len(),
            n == self.keys_view().len(),
    {
        proof {
            self.lemma_order();
        }
        self.entries.len()
    }

    /// Whether the store has no entry.
    pub fn is_empty(&self) -> (r: bool)
        requires
            self.wf(),
        ensures
            r == (self@.dom().len() == 0),
            r == (self@ == Map::<Seq<char>, EleView>::empty()),
    {
        proof {
            self.lemma_order();
            if self.entries@.len() == 0 {
                assert(self.keys_view() =~= Seq::<Seq<char>>::empty());
                assert(self@ =~= Map::<Seq<char>, EleView>::empty());
            } else {
                assert(self@.contains_key(self.keys_view()[0]));
            }
        }
        self.entries.len() == 0
    }

    /// The entries whose key starts with `prefix`, as a store of their own.
    pub fn get_with_prefix(&self, prefix: &str) -> (r: ConfigStore)
        requires
            self.wf(),
        ensures
            r.wf(),
            r@ == self@.restrict(with_prefix(prefix@)),
            sorted_keys(r.keys_view()),
            r.keys_view().to_set() == self@.restrict(with_prefix(prefix@)).dom(),
    {
        proof {
            self.lemma_order();
        }
        let p = chars_of(prefix);
        let ghost keys = self.keys_view();
        let mut out = ConfigStore::new();
        let mut i: usize = 0;
        while i < self.entries.len()
            invariant
                self.wf(),
                out.wf(),
                p@ == prefix@,
                keys == self.keys_view(),
                i <= self.entries@.len(),
                forall|j: int, m: int|
                    0 <= j < out.keys_view().len() && i <= m < keys.len() ==> lex_lt(
                        #[trigger] out.keys_view()[j],
                        #[trigger] keys[m],
                    ),
                forall|k: Seq<char>|
                    out@.contains_key(k) <==> (exists|j: int|
                        0 <= j < i && #[trigger] keys[j] == k && starts_with(k, prefix@)),
                forall|k: Seq<char>| out@.contains_key(k) ==> #[trigger] out@[k] == self@[k],
            decreases self.entries@.len() - i,
        {
            let k = chars_of(self.entries[i].0.as_str());
            proof {
                self.lemma_order();
                assert(k@ == keys[i as int]);
                assert(k@.subrange(0, k@.len() as int) == k@);
            }
            if continues_with(&k, 0, &p) {
                let ghost prev = out;
                proof {
                    assert forall|j: int| 0 <= j < out.keys_view().len() implies lex_lt(
                        #[trigger] out.keys_view()[j],
                        keys[i as int],
                    ) by {}
                }
                out.push_last(self.entries[i].0.clone(), self.entries[i].1.clone());
                proof {
                    let now = out.keys_view();
                    assert forall|j: int, m: int|
                        0 <= j < now.len() && i + 1 <= m < keys.len() implies lex_lt(
                        #[trigger] now[j],
                        #[trigger] keys[m],
                    ) by {
                        if j < prev.keys_view().len() {
                            assert(now[j] == prev.keys_view()[j]);
                        } else {
                            assert(now[j] == keys[i as int]);
                        }
                    }
                    assert forall|kk: Seq<char>|
                        out@.contains_key(kk) <==> (exists|j: int|
                            0 <= j < i + 1 && #[trigger] keys[j] == kk && starts_with(kk, prefix@)) by {
                        if out@.contains_key(kk) {
                            if kk == keys[i as int] {
                                assert(keys[i as int] == kk);
                            } else {
                                assert(prev@.contains_key(kk));
                                let j = choose|j: int|
                                    0 <= j < i && #[trigger] keys[j] == kk && starts_with(kk, prefix@);
                                assert(keys[j] == kk);
                            }
                        }
                    }
                    assert(self@[keys[i as int]] == self.values_view()[i as int]);
                }
            } else {
                proof {
                    assert forall|kk: Seq<char>|
                        out@.contains_key(kk) <==> (exists|j: int|
                            0 <= j < i + 1 && #[trigger] keys[j] == kk && starts_with(kk, prefix@)) by {
                        if out@.contains_key(kk) {
                            let j = choose|j: int|
                                0 <= j < i && #[trigger] keys[j] == kk && starts_with(kk, prefix@);
                            assert(keys[j] == kk);
                        }
                    }
                }
            }
            i += 1;
        }
        proof {
            self.lemma_order();
            assert(out@ =~= self@.restrict(with_prefix(prefix@))) by {
                assert forall|kk: Seq<char>| out@.contains_key(kk) <==> self@.restrict(
                    with_prefix(prefix@),
                ).contains_key(kk) by {
                    if self@.contains_key(kk) && starts_with(kk, prefix@) {
                        let j = keys.index_of(kk);
                        assert(keys[j] == kk);
                    }
                }
            }
            out.lemma_order();
        }
        out
    }

    /// Takes out every entry whose key starts with `prefix`, and returns how
    /// many there were.
    pub fn remove_with_prefix(&mut self, prefix: &str) -> (n: usize)
        requires
            old(self).wf(),
        ensures
            final(self).wf(),
            final(self)@ == old(self)@.remove_keys(with_prefix(prefix@)),
            n == old(self)@.dom().len() - final(self)@.dom().len(),
    {
        let ghost before = *self;
        proof {
            before.lemma_order();
        }
        let p = chars_of(prefix);
        let total: usize = self.entries.len();
        let mut n: usize = 0;
        let mut i: usize = 0;
        while i < self.entries.len()
            invariant
                self.wf(),
                before.wf(),
                p@ == prefix@,
                i <= self.entries@.len(),
                total == before.entries@.len(),
                n + self.entries@.len() == total,
                forall|j: int| 0 <= j < i ==> !starts_with(#[trigger] self.keys_view()[j], prefix@),
                forall|k: Seq<char>|
                    self@.contains_key(k) ==> before@.contains_key(k) && #[trigger] self@[k] == before@[k],
                forall|k: Seq<char>|
                    before@.contains_key(k) && !starts_with(k, prefix@) ==> #[trigger] self@.contains_key(k),
            decreases self.entries@.len() - i,
        {
            let k = chars_of(self.entries[i].0.as_str());
            proof {
                self.lemma_order();
                assert(k@ == self.keys_view()[i as int]);
                assert(k@.subrange(0, k@.len() as int) == k@);
            }
            if continues_with(&k, 0, &p) {
                let ghost prev = *self;
                let _ = self.remove_at(i);
                proof {
                    assert(self.keys_view().len() == prev.keys_view().len() - 1);
                    assert(self.entries@.len() == prev.entries@.len() - 1);
                    assert forall|j: int| 0 <= j < i implies !starts_with(
                        #[trigger] self.keys_view()[j],
                        prefix@,
                    ) by {
                        assert(self.keys_view()[j] == prev.keys_view()[j]);
                    }
                }
                n += 1;
            } else {
                i += 1;
            }
        }
        proof {
            self.lemma_order();
            assert(self@ =~= before@.remove_keys(with_prefix(prefix@))) by {
                assert forall|kk: Seq<char>| self@.contains_key(kk) implies !starts_with(kk, prefix@) by {
                    let j = self.keys_view().index_of(kk);
                    assert(self.keys_view()[j] == kk);
                }
            }
        }
        n
    }
}

/// Two strictly sorted sequences with the same elements are the same
/// sequence.
pub proof fn lemma_same_keys(a: Seq<Seq<char>>, b: Seq<Seq<char>>)
    requires
        sorted_keys(a),
        sorted_keys(b),
        a.to_set() == b.to_set(),
    ensures
        a == b,
    decreases a.len(),
{
    if a.len() == 0 {
        if b.len() > 0 {
            assert(b.to_set().contains(b[0]));
            assert(a.contains(b[0]));
        }
        assert(a =~= b);
    } else if b.len() == 0 {
        assert(a.to_set().contains(a[0]));
        assert(b.contains(a[0]));
    } else {
        let x = a.last();
        let y = b.last();
        assert(a.to_set().contains(x));
        assert(b.contains(x));
        assert(b.to_set().contains(y));
        assert(a.contains(y));
        let i = choose|i: int| 0 <= i < b.len() && b[i] == x;
        let j = choose|j: int| 0 <= j < a.len() && a[j] == y;
        if i < b.len() - 1 && j < a.len() - 1 {
            lemma_lex_transitive(x, y, x, 0);
            crate::text::lemma_lex_irreflexive(x, 0);
        } else if i < b.len() - 1 {
            crate::text::lemma_lex_irreflexive(x, 0);
        } else if j < a.len() - 1 {
            crate::text::lemma_lex_irreflexive(y, 0);
        }
        assert(x == y);
        let a0 = a.drop_last();
        let b0 = b.drop_last();
        assert forall|k: Seq<char>| a0.to_set().contains(k) <==> b0.to_set().contains(k) by {
            if a0.contains(k) {
                let m = choose|m: int| 0 <= m < a0.len() && a0[m] == k;
                assert(a[m] == k);
                lemma_lex_asymmetric(a[m], x);
                assert(a.to_set().contains(k));
                assert(b.contains(k));
                let q = choose|q: int| 0 <= q < b.len() && b[q] == k;
                assert(b0[q] == k);
            }
            if b0.contains(k) {
                let m = choose|m: int| 0 <= m < b0.len() && b0[m] == k;
                assert(b[m] == k);
                lemma_lex_asymmetric(b[m], y);
                assert(b.to_set().contains(k));
                assert(a.contains(k));
                let q = choose|q: int| 0 <= q < a.len() && a[q] == k;
                assert(a0[q] == k);
            }
        }
        assert(a0.to_set() =~= b0.to_set());
        assert(sorted_keys(a0)) by {
            assert forall|i: int, j: int| 0 <= i < j < a0.len() implies lex_lt(
                #[trigger] a0[i],
                #[trigger] a0[j],
            ) by {
                assert(a0[i] == a[i] && a0[j] == a[j]);
            }
        }
        assert(sorted_keys(b0)) by {
            assert forall|i: int, j: int| 0 <= i < j < b0.len() implies lex_lt(
                #[trigger] b0[i],
                #[trigger] b0[j],
            ) by {
                assert(b0[i] == b[i] && b0[j] == b[j]);
            }
        }
        lemma_same_keys(a0, b0);
        assert(a =~= a0.push(x));
        assert(b =~= b0.push(y));
    }
}

/// What is stored under a key is what reading that key gives back, whatever
/// the store held before, and the other keys keep their values.
pub proof fn law_set_then_get(before: Map<Seq<char>, EleView>, key: Seq<char>, value: EleView)
    ensures
        before.insert(key, value).contains_key(key),
        before.insert(key, value)[key] == value,
        lossy_text(before.insert(key, value)[key]) == lossy_text(value),
        forall|other: Seq<char>|
            other != key ==> before.insert(key, value).contains_key(other) == before.contains_key(other),
        forall|other: Seq<char>|
            other != key && before.contains_key(other) ==> before.insert(key, value)[other]
                == before[other],
{
}

/// A prefix scan holds exactly the entries whose key starts with the prefix,
/// each with its value.
pub proof fn law_prefix_scan(store: Map<Seq<char>, EleView>, prefix: Seq<char>, key: Seq<char>)
    ensures
        store.restrict(with_prefix(prefix)).contains_key(key) <==> store.contains_key(key) && starts_with(
            key,
            prefix,
        ),
        store.restrict(with_prefix(prefix)).contains_key(key) ==> store.restrict(with_prefix(prefix))[key]
            == store[key],
{
}

/// The key that the extensions see for a configuration key: the key without
/// a leading `probing.`.
pub open spec fn extension_key(key: Seq<char>) -> Seq<char> {
    if starts_with(key, "probing."@) {
        key.subrange(8, key.len() as int)
    } else {
        key
    }
}

/// What a write-through comes to when the extensions make `routed` of the
/// write: success where one took it or none knew the key, else the error of
/// the extension.
pub open spec fn write_result(routed: Result<(), ErrorView>) -> Result<(), ErrorView> {
    match routed {
        Ok(_) => Ok(()),
        Err(ErrorView::UnsupportedOption(_)) => Ok(()),
        Err(e) => Err(e),
    }
}

/// The second half of a write-through: given what the extensions made of the
/// write, stores the value where one took it or none knew the key, and
/// hands back the error of the extension, with the store untouched,
/// otherwise.
pub fn store_routed(store: &mut ConfigStore, key: &str, value: &str, routed: Result<(), EngineError>) -> (r:
    Result<(), EngineError>)
    requires
        old(store).wf(),
    ensures
        final(store).wf(),
        outcome_view(r) == write_result(outcome_view(routed)),
        r is Ok ==> final(store)@ == old(store)@.insert(key@, EleView::Text(value@)),
        r is Err ==> final(store)@ == old(store)@,
{
    match routed {
        Ok(_) => {},
        Err(EngineError::UnsupportedOption(_)) => {},
        Err(e) => {
            return Err(e);
        },
    }
    store.set(key, value);
    Ok(())
}

/// A write-through that an extension takes is read back from both sides.
/// Let `key` start with `probing.`, let the write of `value` under the rest
/// of the key be settled by the extension at position `i`, which accepts
/// it, and let `after` be the extensions as the write left them. Then the
/// write-through succeeds and the store, which takes the value under `key`,
/// hands it back as a text. If further that extension now answers the read
/// of its local key with `value`, and no extension before it answers the
/// read of its own local key with a value, the registry reads `value` under
/// the rest of the key.
pub proof fn law_write_through<E: EngineExtension>(
    store: Map<Seq<char>, EleView>,
    before: Seq<E>,
    after: Seq<E>,
    key: Seq<char>,
    value: Seq<char>,
    i: int,
)
    requires
        starts_with(key, "probing."@),
        after.len() == before.len(),
        own_names(after) == own_names(before),
        first_to_set(own_names(before), extension_key(key), set_answers(before, extension_key(key), value), 0)
            == Some(i),
        set_answers(before, extension_key(key), value)[i] is Ok,
    ensures
        write_result(
            routed_set(own_names(before), extension_key(key), set_answers(before, extension_key(key), value)),
        ) is Ok,
        store.insert(key, EleView::Text(value))[key] == EleView::Text(value),
        after[i].get_answer(local_key(after[i].name_view(), extension_key(key))) == Ok::<Seq<char>, ErrorView>(
            value,
        ) && (forall|j: int|
            0 <= j < i && starts_with(extension_key(key), namespace_of(#[trigger] after[j].name_view()))
                ==> !(after[j].get_answer(local_key(after[j].name_view(), extension_key(key))) is Ok))
            ==> routed_get(own_names(after), extension_key(key), get_answers(after, extension_key(key)))
            == Ok::<Seq<char>, ErrorView>(value),
{
    let k = extension_key(key);
    lemma_first_to_set(own_names(before), k, set_answers(before, k, value), 0);
    if after[i].get_answer(local_key(after[i].name_view(), k)) == Ok::<Seq<char>, ErrorView>(value) && (forall|
        j: int,
    |
        0 <= j < i && starts_with(k, namespace_of(#[trigger] after[j].name_view())) ==> !(after[j].get_answer(
            local_key(after[j].name_view(), k),
        ) is Ok)) {
        law_write_then_read(before, after, k, value, i);
    }
}

/// Writes a configuration value through to the extension that owns it.
///
/// A key that starts with `probing` goes to the extensions first, without
/// its leading `probing.`: where one takes it, the value is stored as well;
/// where none knows the key, it is stored as plain configuration; where the
/// extension fails otherwise, that error comes back and nothing is stored.
/// Every other key is stored as plain configuration.
pub fn write<E: EngineExtension>(
    manager: &mut EngineExtensionManager<E>,
    store: &mut ConfigStore,
    key: &str,
    value: &str,
) -> (r: Result<(), EngineError>)
    requires
        old(manager).wf(),
        old(store).wf(),
    ensures
        final(manager).wf(),
        final(store).wf(),
        final(manager).names() == old(manager).names(),
        !starts_with(key@, "probing"@) ==> r is Ok && final(manager).members() == old(manager).members(),
        starts_with(key@, "probing"@) ==> {
            let routed = routed_set(
                old(manager).own_names(),
                extension_key(key@),
                set_answers(old(manager).members(), extension_key(key@), value@),
            );
            &&& outcome_view(r) == write_result(routed)
            &&& dispatched_set(
                old(manager).own_names(),
                extension_key(key@),
                set_answers(old(manager).members(), extension_key(key@), value@),
                routed,
                old(manager).members(),
                final(manager).members(),
            )
        },
        r is Ok ==> final(store)@ == old(store)@.insert(key@, EleView::Text(value@)),
        r is Err ==> final(store)@ == old(store)@,
{
    proof {
        reveal_strlit("probing");
        reveal_strlit("probing.");
    }
    if crate::text::text_starts_with(key, "probing") {
        let routed = if crate::text::text_starts_with(key, "probing.") {
            let n: usize = key.unicode_len();
            manager.set_option(key.substring_char(8, n), value)
        } else {
            manager.set_option(key, value)
        };
        store_routed(store, key, value, routed)
    } else {
        store.set(key, value);
        Ok(())
    }
}

} // verus!
