//! The translations of one localization: a mapping from normalized key to
//! translation that keeps the order in which the keys first came.

use vstd::prelude::*;

verus! {

/// One translated phrase. `source` and `target` keep the case in which they
/// were written.
#[derive(Debug)]
pub struct Translation {
    pub comment: String,
    pub source: String,
    pub target: String,
}

/// What a `Translation` stands for in contracts.
pub struct TranslationView {
    pub comment: Seq<char>,
    pub source: Seq<char>,
    pub target: Seq<char>,
}

impl View for Translation {
    type V = TranslationView;

    open spec fn view(&self) -> TranslationView {
        TranslationView { comment: self.comment@, source: self.source@, target: self.target@ }
    }
}

impl Clone for Translation {
    fn clone(&self) -> (copy: Self)
        ensures
            copy@ == self@,
    {
        Translation {
            comment: self.comment.clone(),
            source: self.source.clone(),
            target: self.target.clone(),
        }
    }
}

/// A mapping from key to translation. No key occurs twice, and the keys stay
/// in the order in which each was first inserted.
#[derive(Debug)]
pub struct TranslationMap {
    keys: Vec<String>,
    values: Vec<Translation>,
}

impl View for TranslationMap {
    type V = Map<Seq<char>, TranslationView>;

    closed spec fn view(&self) -> Map<Seq<char>, TranslationView> {
        Map::new(
            |k: Seq<char>| self.order().contains(k),
            |k: Seq<char>| self.values@[self.order().index_of(k)]@,
        )
    }
}

impl Clone for TranslationMap {
    fn clone(&self) -> (copy: Self)
        ensures
            self.wf() ==> copy.wf() && copy@ == self@ && copy.order() == self.order(),
    {
        let mut keys: Vec<String> = Vec::new();
        let mut values: Vec<Translation> = Vec::new();
        let n = if self.keys.len() <= self.values.len() {
            self.keys.len()
        } else {
            self.values.len()
        };
        let mut i: usize = 0;
        while i < n
            invariant
                i <= n,
                n <= self.keys@.len(),
                n <= self.values@.len(),
                keys@.len() == i,
                values@.len() == i,
                forall|k: int| 0 <= k < i ==> keys@[k]@ == self.keys@[k]@,
                forall|k: int| 0 <= k < i ==> values@[k]@ == self.values@[k]@,
            decreases n - i,
        {
            keys.push(self.keys[i].clone());
            values.push(self.values[i].clone());
            i += 1;
        }
        let copy = TranslationMap { keys, values };
        proof {
            if self.wf() {
                assert(copy.order() =~= self.order());
                assert(copy@ =~= self@);
            }
        }
        copy
    }
}

impl TranslationMap {
    /// The keys, in the order in which they were first inserted.
    pub closed spec fn order(&self) -> Seq<Seq<char>> {
        Seq::new(self.keys@.len(), |i: int| self.keys@[i]@)
    }

    /// Every key has its value, and no key occurs twice.
    pub closed spec fn wf(&self) -> bool {
        &&& self.keys@.len() == self.values@.len()
        &&& self.order().no_duplicates()
    }

    /// The keys in `order` are the keys of the mapping, each once.
    pub proof fn lemma_order(&self)
        requires
            self.wf(),
        ensures
            self.order().no_duplicates(),
            self.order().len() == self@.len(),
            self@.dom().finite(),
            self@.dom() == self.order().to_set(),
            forall|k: Seq<char>| self.order().contains(k) <==> self@.contains_key(k),
    {
        self.order().unique_seq_to_set();
        assert(self@.dom() =~= self.order().to_set());
    }

    /// A mapping without entries.
    pub fn new() -> (table: TranslationMap)
        ensures
            table.wf(),
            table@ == Map::<Seq<char>, TranslationView>::empty(),
            table.order() == Seq::<Seq<char>>::empty(),
    {
        let table = TranslationMap { keys: Vec::new(), values: Vec::new() };
        assert(table.order() =~= Seq::<Seq<char>>::empty());
        assert(table@ =~= Map::<Seq<char>, TranslationView>::empty());
        table
    }

    /// The number of entries.
    pub fn len(&self) -> (n: usize)
        requires
            self.wf(),
        ensures
            n == self.order().len(),
            n == self@.len(),
    {
        proof {
            self.lemma_order();
        }
        self.keys.len()
    }

    /// The place of `key` in `order`, if the mapping holds it.
    pub fn position(&self, key: &str) -> (at: Option<usize>)
        requires
            self.wf(),
        ensures
            match at {
                Some(i) => i < self.order().len() && self.order()[i as int] == key@,
                None => !self.order().contains(key@),
            },
    {
        let wanted = key.to_owned();
        let mut i: usize = 0;
        while i < self.keys.len()
            invariant
                i <= self.keys@.len(),
                wanted@ == key@,
                forall|k: int| 0 <= k < i ==> self.order()[k] != key@,
            decreases self.keys@.len() - i,
        {
            if self.keys[i] == wanted {
                return Some(i);
            }
            i += 1;
        }
        None
    }

    /// Whether the mapping holds `key`.
    pub fn contains_key(&self, key: &str) -> (held: bool)
        requires
            self.wf(),
        ensures
            held == self@.contains_key(key@),
    {
        self.position(key).is_some()
    }

    /// The translation stored under `key`.
    pub fn get(&self, key: &str) -> (found: Option<&Translation>)
        requires
            self.wf(),
        ensures
            match found {
                Some(t) => self@.contains_key(key@) && t@ == self@[key@],
                None => !self@.contains_key(key@),
            },
    {
        match self.position(key) {
            Some(i) => {
                assert(self.order().index_of(key@) == i);
                Some(&self.values[i])
            },
            None => None,
        }
    }

    /// The key at place `i` of `order`.
    pub fn key_at(&self, i: usize) -> (key: &String)
        requires
            self.wf(),
            i < self.order().len(),
        ensures
            key@ == self.order()[i as int],
    {
        &self.keys[i]
    }

    /// The translation stored under the key at place `i` of `order`.
    pub fn value_at(&self, i: usize) -> (value: &Translation)
        requires
            self.wf(),
            i < self.order().len(),
        ensures
            self@.contains_key(self.order()[i as int]),
            value@ == self@[self.order()[i as int]],
    {
        proof {
            assert(self.order().index_of(self.order()[i as int]) == i);
        }
        &self.values[i]
    }

    /// Stores `value` under `key`. A value already stored under that key is
    /// replaced, and the key keeps its place; a new key goes to the end.
    pub fn insert(&mut self, key: String, value: Translation)
        requires
            old(self).wf(),
        ensures
            final(self).wf(),
            final(self)@ == old(self)@.insert(key@, value@),
            final(self).order() == if old(self)@.contains_key(key@) {
                old(self).order()
            } else {
                old(self).order().push(key@)
            },
    {
        let ghost before = *self;
        match self.position(key.as_str()) {
            Some(i) => {
                self.values.set(i, value);
                assert(self.order() =~= before.order());
                assert(self@ =~= before@.insert(key@, value@)) by {
                    assert forall|k: Seq<char>| self@.contains_key(k) implies self@[k]
                        == before@.insert(key@, value@)[k] by {
                        let j = self.order().index_of(k);
                        assert(self.order()[j] == k);
                        if k != key@ {
                            assert(j != i);
                        } else {
                            assert(j == i);
                        }
                    }
                }
            },
            None => {
                self.keys.push(key);
                self.values.push(value);
                assert(self.order() =~= before.order().push(key@));
                assert(self.order().no_duplicates());
                assert(self@ =~= before@.insert(key@, value@)) by {
                    assert forall|k: Seq<char>| before.order().contains(k) implies self.order().contains(k) by {
                        let j = before.order().index_of(k);
                        assert(self.order()[j] == k);
                    }
                    assert(self.order()[before.order().len() as int] == key@);
                    assert forall|k: Seq<char>| self@.contains_key(k) implies self@[k]
                        == before@.insert(key@, value@)[k] by {
                        let j = self.order().index_of(k);
                        assert(self.order()[j] == k);
                        if k != key@ {
                            assert(j < before.order().len());
                            assert(before.order()[j] == k);
                            assert(before.order().index_of(k) == j);
                        } else {
                            assert(j == before.order().len());
                        }
                    }
                }
            },
        }
    }
}

} // verus!
