//! A map from text to values, kept in the order of its keys.

use vstd::prelude::*;

use crate::text;

verus! {

/// The entries, each key once, in ascending order of the keys.
pub struct Table<V> {
    entries: Vec<(String, V)>,
}

spec fn keys_of<V>(entries: Seq<(String, V)>) -> Seq<Seq<char>> {
    entries.map_values(|entry: (String, V)| entry.0@)
}

/// Every key sorts before the ones after it.
pub open spec fn ascending(keys: Seq<Seq<char>>) -> bool {
    forall|i: int, j: int| 0 <= i < j < keys.len() ==> #[trigger] text::before(keys[i], keys[j])
}

spec fn map_of<V>(entries: Seq<(String, V)>) -> Map<Seq<char>, V> {
    Map::new(
        |key: Seq<char>| keys_of(entries).contains(key),
        |key: Seq<char>| entries[keys_of(entries).index_of(key)].1,
    )
}

/// No text stands twice in an ascending list.
pub proof fn lemma_ascending_distinct(keys: Seq<Seq<char>>)
    requires
        ascending(keys),
    ensures
        forall|i: int, j: int|
            0 <= i < keys.len() && 0 <= j < keys.len() && i != j ==> keys[i] != keys[j],
{
    assert forall|i: int, j: int|
        0 <= i < keys.len() && 0 <= j < keys.len() && i != j implies keys[i] != keys[j] by {
        text::lemma_before_irreflexive(keys[i]);
        if i < j {
            assert(text::before(keys[i], keys[j]));
        } else {
            assert(text::before(keys[j], keys[i]));
        }
    }
}

proof fn lemma_map_of<V>(entries: Seq<(String, V)>)
    requires
        ascending(keys_of(entries)),
    ensures
        forall|key: Seq<char>|
            #[trigger] map_of(entries).contains_key(key) <==> keys_of(entries).contains(key),
        forall|i: int|
            0 <= i < entries.len() ==> {
                &&& map_of(entries).contains_key(#[trigger] entries[i].0@)
                &&& map_of(entries)[entries[i].0@] == entries[i].1
            },
{
    lemma_ascending_distinct(keys_of(entries));
    assert forall|i: int| 0 <= i < entries.len() implies {
        &&& map_of(entries).contains_key(#[trigger] entries[i].0@)
        &&& map_of(entries)[entries[i].0@] == entries[i].1
    } by {
        assert(keys_of(entries)[i] == entries[i].0@);
        let at = keys_of(entries).index_of(entries[i].0@);
        assert(0 <= at < entries.len() && keys_of(entries)[at] == entries[i].0@);
    }
}

impl<V> View for Table<V> {
    type V = Map<Seq<char>, V>;

    closed spec fn view(&self) -> Map<Seq<char>, V> {
        map_of(self.entries@)
    }
}

impl<V> Table<V> {
    #[verifier::type_invariant]
    spec fn in_order(self) -> bool {
        ascending(keys_of(self.entries@))
    }

    /// The keys, in ascending order.
    pub closed spec fn keys(&self) -> Seq<Seq<char>> {
        keys_of(self.entries@)
    }

    /// The keys are those of the map, and there is an end to them.
    pub proof fn lemma_keys(&self)
        ensures
            forall|key: Seq<char>|
                #[trigger] self@.contains_key(key) <==> self.keys().contains(key),
            self@.dom().finite(),
    {
        vstd::seq_lib::seq_to_set_is_finite(self.keys());
        assert(self@.dom() =~= self.keys().to_set());
    }

    /// A table with no entry.
    pub fn new() -> (res: Self)
        ensures
            res@ == Map::<Seq<char>, V>::empty(),
            res.keys() == Seq::<Seq<char>>::empty(),
    {
        let res = Table { entries: Vec::new() };
        proof {
            assert(res@ =~= Map::<Seq<char>, V>::empty());
        }
        res
    }

    /// How many entries there are; the keys are those of the map, each once.
    pub fn len(&self) -> (res: usize)
        ensures
            res == self.keys().len(),
            ascending(self.keys()),
            forall|key: Seq<char>|
                #[trigger] self@.contains_key(key) <==> self.keys().contains(key),
            self.keys() == in_order(self@.dom()),
    {
        proof {
            use_type_invariant(self);
            lemma_map_of(self.entries@);
            assert(lists(self.keys(), self@.dom()));
            lemma_ascending_is_one(self.keys(), in_order(self@.dom()));
        }
        self.entries.len()
    }

    /// Whether there is no entry.
    pub fn is_empty(&self) -> (res: bool)
        ensures
            res == (self.keys().len() == 0),
            res == (self@ == Map::<Seq<char>, V>::empty()),
    {
        proof {
            use_type_invariant(self);
            lemma_map_of(self.entries@);
            if self.entries@.len() == 0 {
                assert(self@ =~= Map::<Seq<char>, V>::empty());
            } else {
                assert(self@.contains_key(self.entries@[0].0@));
            }
        }
        self.entries.len() == 0
    }

    /// The key in place `at`.
    pub fn key_at(&self, at: usize) -> (res: &str)
        requires
            at < self.keys().len(),
        ensures
            res@ == self.keys()[at as int],
            self@.contains_key(res@),
    {
        proof {
            use_type_invariant(self);
            lemma_map_of(self.entries@);
        }
        self.entries[at].0.as_str()
    }

    /// The value of the key in place `at`.
    pub fn value_at(&self, at: usize) -> (res: &V)
        requires
            at < self.keys().len(),
        ensures
            self@.contains_key(self.keys()[at as int]),
            *res == self@[self.keys()[at as int]],
    {
        proof {
            use_type_invariant(self);
            lemma_map_of(self.entries@);
        }
        &self.entries[at].1
    }

    /// How many keys sort before `key`, and whether `key` comes next.
    fn place(&self, key: &str) -> (res: (usize, bool))
        ensures
            res.0 <= self.entries@.len(),
            forall|j: int| 0 <= j < res.0 ==> text::before(#[trigger] self.keys()[j], key@),
            res.1 ==> res.0 < self.entries@.len() && self.keys()[res.0 as int] == key@,
            !res.1 ==> forall|j: int|
                res.0 <= j < self.entries@.len() ==> text::before(key@, #[trigger] self.keys()[j]),
            res.1 == self@.contains_key(key@),
    {
        proof {
            use_type_invariant(self);
            lemma_map_of(self.entries@);
            lemma_ascending_distinct(self.keys());
        }
        let mut at: usize = 0;
        while at < self.entries.len() && text::sorts_before(self.entries[at].0.as_str(), key)
            invariant
                at <= self.entries@.len(),
                forall|j: int| 0 <= j < at ==> text::before(#[trigger] self.keys()[j], key@),
            decreases self.entries@.len() - at,
        {
            at += 1;
        }
        let found = at < self.entries.len() && text::same(self.entries[at].0.as_str(), key);
        proof {
            if at < self.entries@.len() {
                text::lemma_before_total(self.keys()[at as int], key@);
            }
            assert forall|j: int| !found && at <= j < self.entries@.len() implies text::before(
                key@,
                #[trigger] self.keys()[j],
            ) by {
                if at < j {
                    assert(text::before(self.keys()[at as int], self.keys()[j]));
                    text::lemma_before_transitive(key@, self.keys()[at as int], self.keys()[j]);
                }
            }
            if !found && self.keys().contains(key@) {
                let j = choose|j: int| 0 <= j < self.keys().len() && self.keys()[j] == key@;
                text::lemma_before_irreflexive(key@);
                assert(text::before(self.keys()[j], key@) || text::before(key@, self.keys()[j]));
            }
        }
        (at, found)
    }

    /// Whether `key` has a value.
    pub fn contains_key(&self, key: &str) -> (res: bool)
        ensures
            res == self@.contains_key(key@),
    {
        self.place(key).1
    }

    /// The value of `key`.
    pub fn get(&self, key: &str) -> (res: Option<&V>)
        ensures
            match res {
                Some(value) => self@.contains_key(key@) && *value == self@[key@],
                None => !self@.contains_key(key@),
            },
    {
        let (at, found) = self.place(key);
        if found {
            proof {
                use_type_invariant(self);
                lemma_map_of(self.entries@);
            }
            Some(&self.entries[at].1)
        } else {
            None
        }
    }

    /// Takes `key` out and returns its value.
    pub fn remove(&mut self, key: &str) -> (res: Option<V>)
        ensures
            final(self)@ == old(self)@.remove(key@),
            match res {
                Some(value) => old(self)@.contains_key(key@) && value == old(self)@[key@],
                None => !old(self)@.contains_key(key@),
            },
    {
        proof {
            use_type_invariant(&*self);
            lemma_map_of(self.entries@);
            lemma_ascending_distinct(self.keys());
        }
        let (at, found) = self.place(key);
        if !found {
            proof {
                assert(self@.remove(key@) =~= self@);
            }
            return None;
        }
        let mut entries: Vec<(String, V)> = Vec::new();
        std::mem::swap(&mut entries, &mut self.entries);
        let ghost before_removal = entries@;
        let taken = entries.remove(at);
        proof {
            assert forall|i: int, j: int| 0 <= i < j < entries@.len() implies #[trigger] text::before(
                keys_of(entries@)[i],
                keys_of(entries@)[j],
            ) by {
                let p = if i < at {
                    i
                } else {
                    i + 1
                };
                let q = if j < at {
                    j
                } else {
                    j + 1
                };
                assert(text::before(keys_of(before_removal)[p], keys_of(before_removal)[q]));
            }
            lemma_map_of(entries@);
            assert forall|k: Seq<char>| #[trigger]
                map_of(entries@).contains_key(k) <==> map_of(before_removal).remove(
                    key@,
                ).contains_key(k) by {
                if map_of(entries@).contains_key(k) {
                    let i = choose|i: int| 0 <= i < entries@.len() && keys_of(entries@)[i] == k;
                    let p = if i < at {
                        i
                    } else {
                        i + 1
                    };
                    assert(keys_of(before_removal)[p] == k);
                }
                if map_of(before_removal).contains_key(k) && k != key@ {
                    let p = choose|p: int|
                        0 <= p < before_removal.len() && keys_of(before_removal)[p] == k;
                    let i = if p < at {
                        p
                    } else {
                        p - 1
                    };
                    assert(keys_of(entries@)[i] == k);
                }
            }
            assert forall|k: Seq<char>| map_of(entries@).contains_key(k) implies #[trigger] map_of(
                entries@,
            )[k] == map_of(before_removal).remove(key@)[k] by {
                let i = choose|i: int| 0 <= i < entries@.len() && keys_of(entries@)[i] == k;
                let p = if i < at {
                    i
                } else {
                    i + 1
                };
                assert(entries@[i].0@ == k && before_removal[p].0@ == k);
                assert(entries@[i] == before_removal[p]);
            }
            assert(map_of(entries@) =~= map_of(before_removal).remove(key@));
        }
        self.entries = entries;
        Some(taken.1)
    }

    /// Gives `key` the value, in place of the one it had.
    pub fn insert(&mut self, key: String, value: V)
        ensures
            final(self)@ == old(self)@.insert(key@, value),
    {
        let ghost before_all = self@;
        self.remove(key.as_str());
        proof {
            use_type_invariant(&*self);
            lemma_map_of(self.entries@);
            lemma_ascending_distinct(self.keys());
        }
        let (at, found) = self.place(key.as_str());
        let ghost key_view = key@;
        let mut entries: Vec<(String, V)> = Vec::new();
        std::mem::swap(&mut entries, &mut self.entries);
        let ghost without = entries@;
        entries.insert(at, (key, value));
        proof {
            assert forall|i: int, j: int| 0 <= i < j < entries@.len() implies #[trigger] text::before(
                keys_of(entries@)[i],
                keys_of(entries@)[j],
            ) by {
                let p = if i < at {
                    i
                } else {
                    i - 1
                };
                let q = if j < at {
                    j
                } else {
                    j - 1
                };
                if i != at && j != at {
                    assert(text::before(keys_of(without)[p], keys_of(without)[q]));
                } else if i == at {
                    assert(text::before(key_view, keys_of(without)[q]));
                } else {
                    assert(text::before(keys_of(without)[p], key_view));
                }
            }
            lemma_map_of(entries@);
            assert forall|k: Seq<char>| #[trigger]
                map_of(entries@).contains_key(k) <==> map_of(without).insert(
                    key_view,
                    value,
                ).contains_key(k) by {
                if map_of(entries@).contains_key(k) && k != key_view {
                    let i = choose|i: int| 0 <= i < entries@.len() && keys_of(entries@)[i] == k;
                    let p = if i < at {
                        i
                    } else {
                        i - 1
                    };
                    assert(keys_of(without)[p] == k);
                }
                if map_of(without).contains_key(k) {
                    let p = choose|p: int| 0 <= p < without.len() && keys_of(without)[p] == k;
                    let i = if p < at {
                        p
                    } else {
                        p + 1
                    };
                    assert(keys_of(entries@)[i] == k);
                }
                if k == key_view {
                    assert(keys_of(entries@)[at as int] == k);
                }
            }
            assert forall|k: Seq<char>| map_of(entries@).contains_key(k) implies #[trigger] map_of(
                entries@,
            )[k] == map_of(without).insert(key_view, value)[k] by {
                let i = choose|i: int| 0 <= i < entries@.len() && keys_of(entries@)[i] == k;
                assert(entries@[i].0@ == k);
                if i == at {
                    assert(k == key_view);
                } else {
                    let p = if i < at {
                        i
                    } else {
                        i - 1
                    };
                    assert(without[p].0@ == k);
                    assert(k != key_view) by {
                        assert(keys_of(without)[p] == k);
                    }
                }
            }
            assert(map_of(entries@) =~= map_of(without).insert(key_view, value));
            assert(before_all.remove(key_view).insert(key_view, value) =~= before_all.insert(
                key_view,
                value,
            ));
        }
        self.entries = entries;
    }

    /// Keeps the entries whose key is one of `names` and drops the others.
    pub fn retain(&mut self, names: &[String])
        ensures
            final(self)@ == old(self)@.restrict(text::texts(names@).to_set()),
    {
        let ghost whole = self@;
        let mut at: usize = self.len();
        let ghost keys = self.keys();
        let ghost listed = text::texts(names@).to_set();
        let mut doomed: Vec<String> = Vec::new();
        let mut i: usize = 0;
        while i < at
            invariant
                i <= at == keys.len(),
                keys == self.keys(),
                self@ == whole,
                listed == text::texts(names@).to_set(),
                forall|k: Seq<char>| #[trigger]
                    text::texts(doomed@).contains(k) <==> keys.take(i as int).contains(k)
                        && !listed.contains(k),
            decreases at - i,
        {
            let key = self.key_at(i);
            let ghost dropped = text::texts(doomed@);
            let kept = text::holds(names, key);
            proof {
                text::lemma_contains_take(keys, i as int);
            }
            if !kept {
                let name = key.to_owned();
                doomed.push(name);
                proof {
                    assert(text::texts(doomed@) =~= dropped.push(key@));
                    text::lemma_contains_push(dropped, key@);
                }
            }
            i += 1;
        }
        proof {
            assert(keys.take(at as int) =~= keys);
            assert(whole.remove_keys(text::texts(doomed@).take(0).to_set()) =~= whole);
        }
        at = 0;
        while at < doomed.len()
            invariant
                at <= doomed@.len(),
                self@ == whole.remove_keys(text::texts(doomed@).take(at as int).to_set()),
            decreases doomed@.len() - at,
        {
            self.remove(doomed[at].as_str());
            proof {
                let gone = text::texts(doomed@);
                text::lemma_contains_take(gone, at as int);
                assert(self@ =~= whole.remove_keys(gone.take(at + 1).to_set()));
            }
            at += 1;
        }
        proof {
            assert(text::texts(doomed@).take(at as int) =~= text::texts(doomed@));
            assert(self@ =~= whole.restrict(listed));
        }
    }
}

/// The list holds the texts of the set, each once, in ascending order.
pub open spec fn lists(list: Seq<Seq<char>>, texts: Set<Seq<char>>) -> bool {
    &&& ascending(list)
    &&& forall|x: Seq<char>| #[trigger] list.contains(x) <==> texts.contains(x)
}

/// The texts of a set in ascending order.
pub open spec fn in_order(texts: Set<Seq<char>>) -> Seq<Seq<char>> {
    choose|list: Seq<Seq<char>>| lists(list, texts)
}

/// There is one way to list the same texts in ascending order.
pub proof fn lemma_ascending_is_one(a: Seq<Seq<char>>, b: Seq<Seq<char>>)
    requires
        ascending(a),
        ascending(b),
        forall|x: Seq<char>| #[trigger] a.contains(x) <==> b.contains(x),
    ensures
        a == b,
    decreases a.len(),
{
    if a.len() == 0 {
        if b.len() > 0 {
            assert(b.contains(b[0]));
            assert(a.contains(b[0]));
        }
        assert(a =~= b);
    } else {
        assert(a.contains(a.last()));
        assert(b.len() > 0);
        assert(b.contains(b.last()));
        assert(a.contains(b.last()));
        let i = choose|i: int| 0 <= i < a.len() && a[i] == b.last();
        let j = choose|j: int| 0 <= j < b.len() && b[j] == a.last();
        if a.last() != b.last() {
            assert(text::before(a[i], a[a.len() - 1]));
            assert(text::before(b[j], b[b.len() - 1]));
            text::lemma_before_transitive(a.last(), b.last(), a.last());
            text::lemma_before_irreflexive(a.last());
        }
        let rest = a.drop_last();
        let others = b.drop_last();
        lemma_ascending_distinct(a);
        lemma_ascending_distinct(b);
        assert forall|x: Seq<char>| #[trigger] rest.contains(x) <==> others.contains(x) by {
            if rest.contains(x) {
                let k = choose|k: int| 0 <= k < rest.len() && rest[k] == x;
                assert(a[k] == x);
                assert(a.contains(x));
                let m = choose|m: int| 0 <= m < b.len() && b[m] == x;
                assert(m < b.len() - 1);
                assert(others[m] == x);
            }
            if others.contains(x) {
                let k = choose|k: int| 0 <= k < others.len() && others[k] == x;
                assert(b[k] == x);
                assert(b.contains(x));
                assert(a.contains(x));
                let m = choose|m: int| 0 <= m < a.len() && a[m] == x;
                assert(m < a.len() - 1);
                assert(rest[m] == x);
            }
        }
        assert(ascending(rest)) by {
            assert forall|i: int, j: int| 0 <= i < j < rest.len() implies #[trigger] text::before(
                rest[i],
                rest[j],
            ) by {
                assert(text::before(a[i], a[j]));
            }
        }
        assert(ascending(others)) by {
            assert forall|i: int, j: int| 0 <= i < j < others.len() implies #[trigger] text::before(
                others[i],
                others[j],
            ) by {
                assert(text::before(b[i], b[j]));
            }
        }
        lemma_ascending_is_one(rest, others);
        assert(a =~= rest.push(a.last()));
        assert(b =~= others.push(b.last()));
    }
}

} // verus!
