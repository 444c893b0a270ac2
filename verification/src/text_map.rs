//! A map with text keys.

use vstd::prelude::*;

verus! {

/// A map from text keys to values. No key occurs twice.
#[derive(Debug)]
pub struct TextMap<V> {
    entries: Vec<(String, V)>,
}

/// Whether no key occurs twice.
pub open spec fn distinct_keys<V>(pairs: Seq<(Seq<char>, V)>) -> bool {
    forall|i: int, j: int|
        0 <= i < j < pairs.len() ==> (#[trigger] pairs[i]).0 != (#[trigger] pairs[j]).0
}

/// Whether `pairs` lists the entries of `map`, each once.
pub open spec fn lists<V>(pairs: Seq<(Seq<char>, V)>, map: Map<Seq<char>, V>) -> bool {
    &&& distinct_keys(pairs)
    &&& forall|i: int|
        0 <= i < pairs.len() ==> map.contains_key((#[trigger] pairs[i]).0) && map[pairs[i].0]
            == pairs[i].1
    &&& forall|key: Seq<char>| #[trigger]
        map.contains_key(key) ==> exists|i: int|
            0 <= i < pairs.len() && (#[trigger] pairs[i]).0 == key
}

impl<V> TextMap<V> {
    /// The entries in the order in which they are stored.
    pub closed spec fn pairs(self) -> Seq<(Seq<char>, V)> {
        self.entries@.map_values(|entry: (String, V)| (entry.0@, entry.1))
    }

    #[verifier::type_invariant]
    spec fn keys_occur_once(self) -> bool {
        distinct_keys(self.pairs())
    }

    /// The values stored under each key.
    pub closed spec fn as_map(self) -> Map<Seq<char>, V> {
        let pairs = self.pairs();
        Map::new(
            |key: Seq<char>| exists|i: int| 0 <= i < pairs.len() && (#[trigger] pairs[i]).0 == key,
            |key: Seq<char>|
                pairs[choose|i: int| 0 <= i < pairs.len() && (#[trigger] pairs[i]).0 == key].1,
        )
    }
}

impl<V> View for TextMap<V> {
    type V = Map<Seq<char>, V>;

    open spec fn view(&self) -> Map<Seq<char>, V> {
        self.as_map()
    }
}

impl<V> TextMap<V> {
    proof fn lemma_lists(self)
        requires
            distinct_keys(self.pairs()),
        ensures
            lists(self.pairs(), self@),
    {
        let pairs = self.pairs();
        assert forall|i: int| 0 <= i < pairs.len() implies self@.contains_key(
            (#[trigger] pairs[i]).0,
        ) && self@[pairs[i].0] == pairs[i].1 by {
            let k = choose|k: int| 0 <= k < pairs.len() && (#[trigger] pairs[k]).0 == pairs[i].0;
            assert(pairs[k].0 == pairs[i].0);
            if k < i {
                assert(pairs[k].0 != pairs[i].0);
            } else if i < k {
                assert(pairs[i].0 != pairs[k].0);
            }
        }
    }

    /// An empty map.
    pub fn new() -> (map: TextMap<V>)
        ensures
            map@ == Map::<Seq<char>, V>::empty(),
    {
        let map = TextMap { entries: Vec::new() };
        proof {
            map.lemma_lists();
            assert(map@ =~= Map::<Seq<char>, V>::empty());
        }
        map
    }

    /// The number of entries.
    pub fn len(&self) -> (len: usize)
        ensures
            len == self.pairs().len(),
            lists(self.pairs(), self@),
    {
        proof {
            use_type_invariant(self);
            self.lemma_lists();
        }
        self.entries.len()
    }

    /// The key of the entry at a position.
    pub fn key_at(&self, position: usize) -> (key: &String)
        requires
            position < self.pairs().len(),
        ensures
            key@ == self.pairs()[position as int].0,
    {
        &self.entries[position].0
    }

    /// The value of the entry at a position.
    pub fn value_at(&self, position: usize) -> (value: &V)
        requires
            position < self.pairs().len(),
        ensures
            *value == self.pairs()[position as int].1,
    {
        &self.entries[position].1
    }

    fn position_of(entries: &Vec<(String, V)>, key: &String) -> (position: Option<usize>)
        ensures
            match position {
                Some(at) => at < entries@.len() && entries@[at as int].0@ == key@,
                None => forall|i: int|
                    0 <= i < entries@.len() ==> (#[trigger] entries@[i]).0@ != key@,
            },
    {
        let mut at: usize = 0;
        while at < entries.len()
            invariant
                at <= entries@.len(),
                forall|i: int| 0 <= i < at ==> (#[trigger] entries@[i]).0@ != key@,
            decreases entries@.len() - at,
        {
            if entries[at].0 == *key {
                return Some(at);
            }
            at = at + 1;
        }
        None
    }

    /// The value stored under a key.
    pub fn get(&self, key: &String) -> (value: Option<&V>)
        ensures
            match value {
                Some(found) => self@.contains_key(key@) && self@[key@] == *found,
                None => !self@.contains_key(key@),
            },
    {
        proof {
            use_type_invariant(self);
            self.lemma_lists();
        }
        match Self::position_of(&self.entries, key) {
            Some(at) => {
                assert(self.pairs()[at as int].0 == key@);
                Some(&self.entries[at].1)
            },
            None => {
                assert(!self@.contains_key(key@)) by {
                    if self@.contains_key(key@) {
                        let i = choose|i: int|
                            0 <= i < self.pairs().len() && (#[trigger] self.pairs()[i]).0 == key@;
                        assert(self.entries@[i].0@ == key@);
                    }
                }
                None
            },
        }
    }

    /// Takes the value stored under a key out of the map.
    pub fn remove(&mut self, key: &String) -> (value: Option<V>)
        ensures
            final(self)@ == old(self)@.remove(key@),
            match value {
                Some(found) => old(self)@.contains_key(key@) && old(self)@[key@] == found,
                None => !old(self)@.contains_key(key@),
            },
    {
        proof {
            use_type_invariant(&*self);
            self.lemma_lists();
        }
        let ghost before = *self;
        let mut entries: Vec<(String, V)> = Vec::new();
        std::mem::swap(&mut entries, &mut self.entries);
        match Self::position_of(&entries, key) {
            Some(at) => {
                let (_, value) = entries.remove(at);
                let ghost kept = TextMap { entries };
                proof {
                    assert(before.pairs()[at as int].0 == key@);
                    assert(kept.pairs() =~= before.pairs().remove(at as int));
                    kept.lemma_lists();
                    assert forall|k: Seq<char>| #[trigger] kept@.contains_key(k) <==> before@.remove(
                        key@,
                    ).contains_key(k) by {
                        if kept@.contains_key(k) {
                            let i = choose|i: int|
                                0 <= i < kept.pairs().len() && (#[trigger] kept.pairs()[i]).0 == k;
                            let j = if i < at { i } else { i + 1 };
                            assert(before.pairs()[j].0 == k);
                        }
                        if before@.contains_key(k) && k != key@ {
                            let i = choose|i: int|
                                0 <= i < before.pairs().len() && (#[trigger] before.pairs()[i]).0
                                    == k;
                            let j = if i < at { i } else { i - 1 };
                            assert(kept.pairs()[j].0 == k);
                        }
                    }
                    assert forall|k: Seq<char>| #[trigger] kept@.contains_key(k) implies kept@[k]
                        == before@[k] by {
                        let i = choose|i: int|
                            0 <= i < kept.pairs().len() && (#[trigger] kept.pairs()[i]).0 == k;
                        let j = if i < at { i } else { i + 1 };
                        assert(before.pairs()[j].0 == k);
                    }
                    assert(kept@ =~= before@.remove(key@));
                }
                self.entries = entries;
                Some(value)
            },
            None => {
                self.entries = entries;
                proof {
                    assert(!before@.contains_key(key@)) by {
                        if before@.contains_key(key@) {
                            let i = choose|i: int|
                                0 <= i < before.pairs().len() && (#[trigger] before.pairs()[i]).0
                                    == key@;
                            assert(before.entries@[i].0@ == key@);
                        }
                    }
                    assert(before@.remove(key@) =~= before@);
                }
                None
            },
        }
    }

    /// Stores a value under a key that the map does not hold.
    fn append(&mut self, key: String, value: V)
        requires
            !old(self)@.contains_key(key@),
        ensures
            final(self)@ == old(self)@.insert(key@, value),
    {
        proof {
            use_type_invariant(&*self);
            self.lemma_lists();
        }
        let ghost before = *self;
        let ghost k0 = key@;
        let mut entries: Vec<(String, V)> = Vec::new();
        std::mem::swap(&mut entries, &mut self.entries);
        entries.push((key, value));
        proof {
            let after = TextMap { entries };
            assert(after.pairs() =~= before.pairs().push((k0, value)));
            assert(distinct_keys(after.pairs())) by {
                assert forall|i: int, j: int| 0 <= i < j < after.pairs().len() implies (
                #[trigger] after.pairs()[i]).0 != (#[trigger] after.pairs()[j]).0 by {
                    assert(before.pairs()[i].0 == after.pairs()[i].0);
                    if j < before.pairs().len() {
                        assert(before.pairs()[j].0 == after.pairs()[j].0);
                    }
                }
            }
            after.lemma_lists();
            assert forall|k: Seq<char>| #[trigger] after@.contains_key(k) <==> before@.insert(
                k0,
                value,
            ).contains_key(k) by {
                if after@.contains_key(k) {
                    let i = choose|i: int|
                        0 <= i < after.pairs().len() && (#[trigger] after.pairs()[i]).0 == k;
                    if i < before.pairs().len() {
                        assert(before.pairs()[i].0 == k);
                    }
                }
                if before@.contains_key(k) {
                    let i = choose|i: int|
                        0 <= i < before.pairs().len() && (#[trigger] before.pairs()[i]).0 == k;
                    assert(after.pairs()[i].0 == k);
                }
                assert(after.pairs()[before.pairs().len() as int].0 == k0);
            }
            assert forall|k: Seq<char>| #[trigger] after@.contains_key(k) implies after@[k]
                == before@.insert(k0, value)[k] by {
                let i = choose|i: int|
                    0 <= i < after.pairs().len() && (#[trigger] after.pairs()[i]).0 == k;
                if i < before.pairs().len() {
                    assert(before.pairs()[i].0 == k);
                }
            }
            assert(after@ =~= before@.insert(k0, value));
        }
        self.entries = entries;
    }

    /// Stores a value under a key, in place of the one that was there.
    pub fn insert(&mut self, key: String, value: V)
        ensures
            final(self)@ == old(self)@.insert(key@, value),
    {
        let ghost before = self@;
        let _ = self.remove(&key);
        assert(before.remove(key@).insert(key@, value) =~= before.insert(key@, value));
        self.append(key, value);
    }

    /// Stores a value under a key unless there is one.
    pub fn insert_if_absent(&mut self, key: String, value: V)
        ensures
            final(self)@ == if old(self)@.contains_key(key@) {
                old(self)@
            } else {
                old(self)@.insert(key@, value)
            },
    {
        if self.get(&key).is_none() {
            self.append(key, value);
        }
    }
}

/// The texts of a list, as a set.
pub open spec fn text_set(texts: Seq<String>) -> Set<Seq<char>> {
    Set::new(|text: Seq<char>| exists|i: int| 0 <= i < texts.len() && (#[trigger] texts[i])@ == text)
}

/// The texts of a list with one more.
pub proof fn lemma_text_set_push(texts: Seq<String>, text: String)
    ensures
        text_set(texts.push(text)) == text_set(texts).insert(text@),
{
    let longer = texts.push(text);
    assert forall|t: Seq<char>| text_set(longer).contains(t) <==> text_set(texts).insert(
        text@,
    ).contains(t) by {
        if text_set(longer).contains(t) {
            let i = choose|i: int| 0 <= i < longer.len() && (#[trigger] longer[i])@ == t;
            if i < texts.len() {
                assert(texts[i]@ == t);
            }
        }
        if text_set(texts).contains(t) {
            let i = choose|i: int| 0 <= i < texts.len() && (#[trigger] texts[i])@ == t;
            assert(longer[i]@ == t);
        }
        assert(longer[texts.len() as int]@ == text@);
    }
    assert(text_set(longer) =~= text_set(texts).insert(text@));
}

/// Whether a text occurs in a list.
pub fn has_text(texts: &Vec<String>, text: &String) -> (found: bool)
    ensures
        found == text_set(texts@).contains(text@),
{
    let mut at: usize = 0;
    while at < texts.len()
        invariant
            at <= texts@.len(),
            forall|i: int| 0 <= i < at ==> (#[trigger] texts@[i])@ != text@,
        decreases texts@.len() - at,
    {
        if texts[at] == *text {
            return true;
        }
        at = at + 1;
    }
    false
}

impl<V> TextMap<V> {
    /// Drops the entries whose keys are not in the list.
    pub fn retain(&mut self, keys: &Vec<String>)
        ensures
            final(self)@ == old(self)@.restrict(text_set(keys@)),
    {
        proof {
            use_type_invariant(&*self);
            self.lemma_lists();
        }
        let ghost before = *self;
        let ghost wanted = text_set(keys@);
        let mut entries: Vec<(String, V)> = Vec::new();
        std::mem::swap(&mut entries, &mut self.entries);
        let ghost all = entries@;
        let mut kept: TextMap<V> = TextMap::new();
        for entry in iter: entries
            invariant
                iter.seq() == all,
                all == before.entries@,
                wanted == text_set(keys@),
                lists(before.pairs(), before@),
                forall|k: Seq<char>| #[trigger]
                    kept@.contains_key(k) <==> wanted.contains(k) && exists|i: int|
                        0 <= i < iter.index() && (#[trigger] before.pairs()[i]).0 == k,
                forall|k: Seq<char>| #[trigger] kept@.contains_key(k) ==> kept@[k] == before@[k],
        {
            let ghost at = iter.index();
            let (key, value) = entry;
            assert(before.pairs()[at] == (key@, value));
            if has_text(keys, &key) {
                assert(!kept@.contains_key(key@));
                kept.append(key, value);
            }
        }
        proof {
            assert forall|k: Seq<char>| #[trigger] kept@.contains_key(k) <==> before@.restrict(
                wanted,
            ).contains_key(k) by {}
            assert(kept@ =~= before@.restrict(wanted));
            use_type_invariant(&kept);
        }
        self.entries = kept.entries;
    }
}

impl TextMap<String> {
    /// A copy of the map.
    pub fn duplicate(&self) -> (copy: TextMap<String>)
        ensures
            copy@ == self@,
    {
        let mut entries: Vec<(String, String)> = Vec::new();
        let mut at: usize = 0;
        while at < self.entries.len()
            invariant
                at == entries@.len(),
                at <= self.entries@.len(),
                entries@ =~= self.entries@.take(at as int),
            decreases self.entries@.len() - at,
        {
            entries.push((self.entries[at].0.clone(), self.entries[at].1.clone()));
            at = at + 1;
        }
        proof {
            use_type_invariant(self);
            assert(entries@ =~= self.entries@);
        }
        TextMap { entries }
    }
}

} // verus!
