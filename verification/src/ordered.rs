//! Maps and sets whose keys are names, kept in the order of those names.
use crate::ids::Name;
use crate::text::{self, compare_text, Place};
use vstd::prelude::*;

verus! {

/// Each text comes before the ones that follow it.
pub open spec fn is_ascending(texts: Seq<Seq<char>>) -> bool {
    forall|i: int, j: int| 0 <= i < j < texts.len() ==> #[trigger] text::text_below(texts[i], texts[j])
}

/// The members of a finite set in ascending order.
pub open spec fn ascending(texts: Set<Seq<char>>) -> Seq<Seq<char>> {
    choose|list: Seq<Seq<char>>| is_ascending(list) && list.to_set() == texts
}

/// An ascending list holds nothing twice.
pub proof fn lemma_ascending_unique(list: Seq<Seq<char>>)
    requires
        is_ascending(list),
    ensures
        list.no_duplicates(),
{
    assert forall|i: int, j: int| 0 <= i < j < list.len() implies list[i] != list[j] by {
        assert(text::text_below(list[i], list[j]));
        text::lemma_text_below_irreflexive(list[i]);
    }
}

/// There is one way only to list a set in ascending order.
proof fn lemma_ascending_only_one(a: Seq<Seq<char>>, b: Seq<Seq<char>>)
    requires
        is_ascending(a),
        is_ascending(b),
        a.to_set() == b.to_set(),
    ensures
        a == b,
    decreases a.len(),
{
    if a.len() == 0 {
        if b.len() > 0 {
            assert(b.to_set().contains(b[0]));
            assert(a.contains(b[0]));
        }
        assert(a =~= b);
    } else {
        assert(a.to_set().contains(a.last()));
        assert(b.contains(a.last()));
        let k = choose|k: int| 0 <= k < b.len() && b[k] == a.last();
        assert(b.to_set().contains(b.last()));
        assert(a.contains(b.last()));
        let m = choose|m: int| 0 <= m < a.len() && a[m] == b.last();
        if k < b.len() - 1 {
            assert(text::text_below(b[k], b[b.len() - 1]));
            if m < a.len() - 1 {
                assert(text::text_below(a[m], a[a.len() - 1]));
                text::lemma_text_below_transitive(a.last(), b.last(), a.last());
                text::lemma_text_below_irreflexive(a.last());
            } else {
                text::lemma_text_below_irreflexive(a.last());
            }
        }
        assert(a.last() == b.last());
        lemma_ascending_unique(a);
        lemma_ascending_unique(b);
        let a0 = a.drop_last();
        let b0 = b.drop_last();
        assert(is_ascending(a0)) by {
            assert forall|i: int, j: int| 0 <= i < j < a0.len() implies #[trigger] text::text_below(
                a0[i],
                a0[j],
            ) by {
                assert(text::text_below(a[i], a[j]));
            }
        }
        assert(is_ascending(b0)) by {
            assert forall|i: int, j: int| 0 <= i < j < b0.len() implies #[trigger] text::text_below(
                b0[i],
                b0[j],
            ) by {
                assert(text::text_below(b[i], b[j]));
            }
        }
        assert forall|t: Seq<char>| a0.to_set().contains(t) == b0.to_set().contains(t) by {
            if a0.contains(t) {
                let i = choose|i: int| 0 <= i < a0.len() && a0[i] == t;
                assert(a[i] == t);
                assert(a.to_set().contains(t));
                assert(b.contains(t));
                let j = choose|j: int| 0 <= j < b.len() && b[j] == t;
                assert(j < b.len() - 1);
                assert(b0[j] == t);
            }
            if b0.contains(t) {
                let i = choose|i: int| 0 <= i < b0.len() && b0[i] == t;
                assert(b[i] == t);
                assert(b.to_set().contains(t));
                assert(a.contains(t));
                let j = choose|j: int| 0 <= j < a.len() && a[j] == t;
                assert(j < a.len() - 1);
                assert(a0[j] == t);
            }
        }
        assert(a0.to_set() =~= b0.to_set());
        lemma_ascending_only_one(a0, b0);
        assert(a =~= a0.push(a.last()));
        assert(b =~= b0.push(b.last()));
    }
}

/// An ascending list is the ascending list of its members.
pub proof fn lemma_ascending(list: Seq<Seq<char>>)
    requires
        is_ascending(list),
    ensures
        ascending(list.to_set()) == list,
        list.no_duplicates(),
        list.to_set().finite(),
        list.to_set().len() == list.len(),
{
    lemma_ascending_unique(list);
    list.unique_seq_to_set();
    let chosen = ascending(list.to_set());
    assert(is_ascending(chosen) && chosen.to_set() == list.to_set());
    lemma_ascending_only_one(chosen, list);
}

proof fn lemma_insert_ascending(list: Seq<Seq<char>>, item: Seq<char>, at: int)
    requires
        is_ascending(list),
        0 <= at <= list.len(),
        forall|i: int| 0 <= i < at ==> text::text_below(#[trigger] list[i], item),
        forall|i: int| at <= i < list.len() ==> text::text_below(item, #[trigger] list[i]),
    ensures
        is_ascending(list.insert(at, item)),
        list.insert(at, item).to_set() == list.to_set().insert(item),
{
    let longer = list.insert(at, item);
    assert forall|i: int, j: int| 0 <= i < j < longer.len() implies #[trigger] text::text_below(
        longer[i],
        longer[j],
    ) by {
        let a = if i < at { i } else { i - 1 };
        let b = if j < at { j } else { j - 1 };
        if i != at && j != at {
            assert(text::text_below(list[a], list[b]));
        } else if i == at {
            assert(text::text_below(item, list[b]));
        } else {
            assert(text::text_below(list[a], item));
        }
    }
    assert forall|text: Seq<char>| longer.to_set().contains(text)
        == list.to_set().insert(item).contains(text) by {
        if longer.contains(text) && text != item {
            let i = choose|i: int| 0 <= i < longer.len() && longer[i] == text;
            let a = if i < at { i } else { i - 1 };
            assert(list[a] == text);
        }
        if list.contains(text) {
            let i = choose|i: int| 0 <= i < list.len() && list[i] == text;
            let b = if i < at { i } else { i + 1 };
            assert(longer[b] == text);
        }
        assert(longer[at] == item);
    }
    assert(longer.to_set() =~= list.to_set().insert(item));
}

/// Where an item has its place in an ascending list that does not hold it.
proof fn lemma_place(list: Seq<Seq<char>>, item: Seq<char>) -> (at: int)
    requires
        is_ascending(list),
        !list.contains(item),
    ensures
        0 <= at <= list.len(),
        forall|i: int| 0 <= i < at ==> text::text_below(#[trigger] list[i], item),
        forall|i: int| at <= i < list.len() ==> text::text_below(item, #[trigger] list[i]),
    decreases list.len(),
{
    if list.len() == 0 {
        0
    } else {
        let last = list.len() - 1;
        text::lemma_text_below_total(list[last], item);
        assert(list[last] != item);
        if text::text_below(list[last], item) {
            assert forall|i: int| 0 <= i < list.len() implies text::text_below(
                #[trigger] list[i],
                item,
            ) by {
                if i < last {
                    assert(text::text_below(list[i], list[last]));
                    text::lemma_text_below_transitive(list[i], list[last], item);
                }
            }
            list.len() as int
        } else {
            let fewer = list.drop_last();
            assert(is_ascending(fewer)) by {
                assert forall|i: int, j: int|
                    0 <= i < j < fewer.len() implies #[trigger] text::text_below(
                    fewer[i],
                    fewer[j],
                ) by {
                    assert(text::text_below(list[i], list[j]));
                }
            }
            assert(!fewer.contains(item)) by {
                if fewer.contains(item) {
                    let i = choose|i: int| 0 <= i < fewer.len() && fewer[i] == item;
                    assert(list[i] == item);
                }
            }
            let at = lemma_place(fewer, item);
            assert forall|i: int| 0 <= i < at implies text::text_below(
                #[trigger] list[i],
                item,
            ) by {
                assert(fewer[i] == list[i]);
            }
            assert forall|i: int| at <= i < list.len() implies text::text_below(
                item,
                #[trigger] list[i],
            ) by {
                if i < last {
                    assert(fewer[i] == list[i]);
                }
            }
            at
        }
    }
}

proof fn lemma_can_be_listed(texts: Set<Seq<char>>) -> (list: Seq<Seq<char>>)
    requires
        texts.finite(),
    ensures
        is_ascending(list),
        list.to_set() == texts,
    decreases texts.len(),
{
    if texts.len() == 0 {
        let list = Seq::<Seq<char>>::empty();
        assert(list.to_set() =~= texts);
        list
    } else {
        let item = texts.choose();
        let rest = lemma_can_be_listed(texts.remove(item));
        assert(!rest.contains(item)) by {
            assert(!rest.to_set().contains(item));
        }
        let at = lemma_place(rest, item);
        lemma_insert_ascending(rest, item, at);
        assert(texts.remove(item).insert(item) =~= texts);
        rest.insert(at, item)
    }
}

/// A finite set can be listed in ascending order.
pub proof fn lemma_ascending_of(texts: Set<Seq<char>>)
    requires
        texts.finite(),
    ensures
        is_ascending(ascending(texts)),
        ascending(texts).to_set() == texts,
        ascending(texts).no_duplicates(),
{
    let list = lemma_can_be_listed(texts);
    lemma_ascending(list);
    lemma_ascending_unique(list);
}

/// A map from names to values, walked in the order of the names.
#[derive(Debug, PartialEq, Eq)]
pub struct OrderedMap<K: Name, V> {
    entries: Vec<(K, V)>,
}

impl<K: Name, V> View for OrderedMap<K, V> {
    type V = Map<Seq<char>, V>;

    closed spec fn view(&self) -> Map<Seq<char>, V> {
        entry_map(self.entries@)
    }
}

spec fn entry_keys<K: Name, V>(entries: Seq<(K, V)>) -> Seq<Seq<char>> {
    entries.map_values(|entry: (K, V)| entry.0@)
}

spec fn entry_map<K: Name, V>(entries: Seq<(K, V)>) -> Map<Seq<char>, V> {
    Map::new(
        |key: Seq<char>| entry_keys(entries).contains(key),
        |key: Seq<char>| entries[entry_keys(entries).index_of(key)].1,
    )
}

proof fn lemma_entries<K: Name, V>(entries: Seq<(K, V)>)
    requires
        is_ascending(entry_keys(entries)),
    ensures
        entry_map(entries).dom() == entry_keys(entries).to_set(),
        entry_map(entries).dom().finite(),
        entry_map(entries).len() == entries.len(),
        ascending(entry_map(entries).dom()) == entry_keys(entries),
        forall|i: int|
            0 <= i < entries.len() ==> {
                &&& entry_map(entries).contains_key(#[trigger] entries[i].0@)
                &&& entry_map(entries)[entries[i].0@] == entries[i].1
            },
{
    let keys = entry_keys(entries);
    lemma_ascending(keys);
    assert(entry_map(entries).dom() =~= keys.to_set());
    assert forall|i: int| 0 <= i < entries.len() implies {
        &&& entry_map(entries).contains_key(#[trigger] entries[i].0@)
        &&& entry_map(entries)[entries[i].0@] == entries[i].1
    } by {
        assert(keys[i] == entries[i].0@);
        assert(keys.contains(keys[i]));
        let j = keys.index_of(keys[i]);
        assert(keys[j] == keys[i]);
        assert(j == i);
    }
}

impl<K: Name, V> OrderedMap<K, V> {
    #[verifier::type_invariant]
    spec fn inv(self) -> bool {
        is_ascending(entry_keys(self.entries@))
    }

    /// The empty map.
    pub fn new() -> (map: Self)
        ensures
            map@ == Map::<Seq<char>, V>::empty(),
    {
        let map = OrderedMap { entries: Vec::new() };
        assert(map@ =~= Map::<Seq<char>, V>::empty());
        map
    }

    /// How many names the map knows: walking it by position meets each of them
    /// once.
    pub fn len(&self) -> (count: usize)
        ensures
            count == self@.len(),
            self@.dom().finite(),
            ascending(self@.dom()).len() == self@.len(),
            is_ascending(ascending(self@.dom())),
            ascending(self@.dom()).no_duplicates(),
            ascending(self@.dom()).to_set() == self@.dom(),
    {
        proof {
            use_type_invariant(self);
            lemma_entries(self.entries@);
            lemma_ascending(entry_keys(self.entries@));
        }
        self.entries.len()
    }

    /// Whether the map knows no name.
    pub fn is_empty(&self) -> (empty: bool)
        ensures
            empty == (self@ == Map::<Seq<char>, V>::empty()),
    {
        proof {
            use_type_invariant(self);
            lemma_entries(self.entries@);
            if self.entries@.len() > 0 {
                assert(self@.contains_key(self.entries@[0].0@));
            } else {
                assert(self@ =~= Map::<Seq<char>, V>::empty());
            }
        }
        self.entries.len() == 0
    }

    /// Where the name stands, or where it would have to stand.
    fn find(&self, key: &str) -> (at: (usize, bool))
        ensures
            at.0 <= self.entries@.len(),
            forall|i: int| 0 <= i < at.0 ==> text::text_below(#[trigger] self.entries@[i].0@, key@),
            at.1 ==> at.0 < self.entries@.len() && self.entries@[at.0 as int].0@ == key@,
            forall|i: int|
                at.0 <= i < self.entries@.len() && !(at.1 && i == at.0) ==> text::text_below(
                    key@,
                    #[trigger] self.entries@[i].0@,
                ),
    {
        proof {
            use_type_invariant(self);
        }
        let mut low: usize = 0;
        let mut high: usize = self.entries.len();
        let ghost keys = entry_keys(self.entries@);
        while low < high
            invariant
                low <= high <= self.entries@.len(),
                keys == entry_keys(self.entries@),
                is_ascending(keys),
                forall|i: int| 0 <= i < low ==> text::text_below(#[trigger] self.entries@[i].0@, key@),
                forall|i: int|
                    high <= i < self.entries@.len() ==> text::text_below(
                        key@,
                        #[trigger] self.entries@[i].0@,
                    ),
            decreases high - low,
        {
            let middle = low + (high - low) / 2;
            assert(keys[middle as int] == self.entries@[middle as int].0@);
            match compare_text(self.entries[middle].0.name(), key) {
                Place::Before => {
                    assert forall|i: int| 0 <= i <= middle implies text::text_below(
                        #[trigger] self.entries@[i].0@,
                        key@,
                    ) by {
                        if i < middle {
                            assert(keys[i] == self.entries@[i].0@);
                            assert(text::text_below(keys[i], keys[middle as int]));
                            text::lemma_text_below_transitive(keys[i], keys[middle as int], key@);
                        }
                    }
                    low = middle + 1;
                },
                Place::After => {
                    assert forall|i: int| middle <= i < self.entries@.len() implies text::text_below(
                        key@,
                        #[trigger] self.entries@[i].0@,
                    ) by {
                        if i > middle {
                            assert(keys[i] == self.entries@[i].0@);
                            assert(text::text_below(keys[middle as int], keys[i]));
                            text::lemma_text_below_transitive(key@, keys[middle as int], keys[i]);
                        }
                    }
                    high = middle;
                },
                Place::Same => {
                    assert forall|i: int| 0 <= i < middle implies text::text_below(
                        #[trigger] self.entries@[i].0@,
                        key@,
                    ) by {
                        assert(keys[i] == self.entries@[i].0@);
                        assert(text::text_below(keys[i], keys[middle as int]));
                    }
                    assert forall|i: int| middle < i < self.entries@.len() implies text::text_below(
                        key@,
                        #[trigger] self.entries@[i].0@,
                    ) by {
                        assert(keys[i] == self.entries@[i].0@);
                        assert(text::text_below(keys[middle as int], keys[i]));
                    }
                    return (middle, true);
                },
            }
        }
        (low, false)
    }

    proof fn lemma_found(entries: Seq<(K, V)>, key: Seq<char>, at: (usize, bool))
        requires
            is_ascending(entry_keys(entries)),
            at.0 <= entries.len(),
            forall|i: int| 0 <= i < at.0 ==> text::text_below(#[trigger] entries[i].0@, key),
            at.1 ==> at.0 < entries.len() && entries[at.0 as int].0@ == key,
            forall|i: int|
                at.0 <= i < entries.len() && !(at.1 && i == at.0) ==> text::text_below(
                    key,
                    #[trigger] entries[i].0@,
                ),
        ensures
            at.1 == entry_map(entries).contains_key(key),
            at.1 ==> entry_map(entries)[key] == entries[at.0 as int].1,
    {
        lemma_entries(entries);
        let keys = entry_keys(entries);
        text::lemma_text_below_irreflexive(key);
        if keys.contains(key) {
            let j = choose|j: int| 0 <= j < keys.len() && keys[j] == key;
            assert(entries[j].0@ == key);
        }
    }

    /// What the map holds for a name.
    pub fn get(&self, key: &K) -> (value: Option<&V>)
        ensures
            match value {
                Some(v) => self@.contains_key(key@) && *v == self@[key@],
                None => !self@.contains_key(key@),
            },
    {
        let at = self.find(key.name());
        proof {
            use_type_invariant(self);
            Self::lemma_found(self.entries@, key@, at);
        }
        if at.1 {
            Some(&self.entries[at.0].1)
        } else {
            None
        }
    }

    /// Whether the map knows the name.
    pub fn contains_key(&self, key: &K) -> (known: bool)
        ensures
            known == self@.contains_key(key@),
    {
        self.get(key).is_some()
    }

    /// The name at a position in the order of the names.
    pub fn key_at(&self, index: usize) -> (key: &K)
        requires
            index < self@.len(),
        ensures
            key@ == ascending(self@.dom())[index as int],
            self@.contains_key(key@),
    {
        proof {
            use_type_invariant(self);
            lemma_entries(self.entries@);
            assert(entry_keys(self.entries@)[index as int] == self.entries@[index as int].0@);
        }
        &self.entries[index].0
    }

    /// The value at a position in the order of the names.
    pub fn value_at(&self, index: usize) -> (value: &V)
        requires
            index < self@.len(),
        ensures
            *value == self@[ascending(self@.dom())[index as int]],
    {
        proof {
            use_type_invariant(self);
            lemma_entries(self.entries@);
            assert(entry_keys(self.entries@)[index as int] == self.entries@[index as int].0@);
        }
        &self.entries[index].1
    }

    /// Lets the map hold a value for a name, and hands back what it held before.
    pub fn insert(&mut self, key: K, value: V) -> (before: Option<V>)
        ensures
            final(self)@ == old(self)@.insert(key@, value),
            match before {
                Some(v) => old(self)@.contains_key(key@) && v == old(self)@[key@],
                None => !old(self)@.contains_key(key@),
            },
    {
        let at = self.find(key.name());
        proof {
            use_type_invariant(&*self);
            Self::lemma_found(self.entries@, key@, at);
        }
        let ghost old_entries = self.entries@;
        let mut entries: Vec<(K, V)> = Vec::new();
        std::mem::swap(&mut entries, &mut self.entries);
        let before = if at.1 {
            let (_, old_value) = entries.remove(at.0);
            Some(old_value)
        } else {
            None
        };
        let ghost mid_entries = entries@;
        let ghost key_view = key@;
        entries.insert(at.0, (key, value));
        proof {
            let k = at.0 as int;
            if at.1 {
                assert(mid_entries =~= old_entries.remove(k));
            }
            let skip: int = if at.1 { 1 } else { 0 };
            assert(entries@.len() == old_entries.len() + 1 - skip);
            assert forall|i: int| 0 <= i < entries@.len() implies #[trigger] entries@[i] == (if i
                < k {
                old_entries[i]
            } else if i == k {
                (key, value)
            } else {
                old_entries[i - 1 + skip]
            }) by {}
            Self::lemma_placed(old_entries, entries@, key_view, value, at);
        }
        self.entries = entries;
        before
    }

    proof fn lemma_placed(
        old_entries: Seq<(K, V)>,
        new_entries: Seq<(K, V)>,
        key: Seq<char>,
        value: V,
        at: (usize, bool),
    )
        requires
            is_ascending(entry_keys(old_entries)),
            at.0 <= old_entries.len(),
            forall|i: int| 0 <= i < at.0 ==> text::text_below(#[trigger] old_entries[i].0@, key),
            at.1 ==> at.0 < old_entries.len() && old_entries[at.0 as int].0@ == key,
            forall|i: int|
                at.0 <= i < old_entries.len() && !(at.1 && i == at.0) ==> text::text_below(
                    key,
                    #[trigger] old_entries[i].0@,
                ),
            ({
                let skip: int = if at.1 { 1 } else { 0 };
                &&& new_entries.len() == old_entries.len() + 1 - skip
                &&& new_entries[at.0 as int].0@ == key
                &&& new_entries[at.0 as int].1 == value
                &&& forall|i: int|
                    0 <= i < new_entries.len() && i != at.0 ==> #[trigger] new_entries[i] == (if i
                        < at.0 {
                        old_entries[i]
                    } else {
                        old_entries[i - 1 + skip]
                    })
            }),
        ensures
            is_ascending(entry_keys(new_entries)),
            entry_map(new_entries) == entry_map(old_entries).insert(key, value),
    {
        let k = at.0 as int;
        let skip: int = if at.1 { 1 } else { 0 };
        let old_keys = entry_keys(old_entries);
        let keys = entry_keys(new_entries);
        assert forall|i: int, j: int| 0 <= i < j < keys.len() implies #[trigger] text::text_below(
            keys[i],
            keys[j],
        ) by {
            let oi = if i < k { i } else { i - 1 + skip };
            let oj = if j < k { j } else { j - 1 + skip };
            if i != k && j != k {
                assert(keys[i] == old_keys[oi]);
                assert(keys[j] == old_keys[oj]);
                assert(text::text_below(old_keys[oi], old_keys[oj]));
            } else if i == k {
                assert(keys[j] == old_entries[oj].0@);
            } else {
                assert(keys[i] == old_entries[oi].0@);
            }
        }
        lemma_entries(old_entries);
        lemma_entries(new_entries);
        Self::lemma_found(old_entries, key, at);
        let old_map = entry_map(old_entries);
        let map = entry_map(new_entries);
        let want = old_map.insert(key, value);
        assert forall|t: Seq<char>| map.dom().contains(t) == want.dom().contains(t) by {
            if map.dom().contains(t) && t != key {
                let i = choose|i: int| 0 <= i < keys.len() && keys[i] == t;
                let oi = if i < k { i } else { i - 1 + skip };
                assert(new_entries[i] == old_entries[oi]);
                assert(old_map.contains_key(old_entries[oi].0@));
            }
            if old_map.dom().contains(t) {
                let i = choose|i: int| 0 <= i < old_keys.len() && old_keys[i] == t;
                if at.1 && i == k {
                    assert(map.contains_key(new_entries[k].0@));
                } else {
                    let ni = if i < k { i } else { i + 1 - skip };
                    assert(new_entries[ni] == old_entries[i]);
                    assert(map.contains_key(new_entries[ni].0@));
                }
            }
            assert(map.contains_key(new_entries[k].0@));
        }
        assert forall|t: Seq<char>| map.dom().contains(t) implies map[t] == want[t] by {
            let i = choose|i: int| 0 <= i < keys.len() && keys[i] == t;
            assert(map[new_entries[i].0@] == new_entries[i].1);
            if i != k {
                let oi = if i < k { i } else { i - 1 + skip };
                assert(new_entries[i] == old_entries[oi]);
                assert(old_map[old_entries[oi].0@] == old_entries[oi].1);
                if t == key {
                    text::lemma_text_below_irreflexive(key);
                }
            }
        }
        assert(map =~= want);
    }

    /// Lets the map forget a name, and hands back what it held for it.
    pub fn remove(&mut self, key: &K) -> (before: Option<V>)
        ensures
            final(self)@ == old(self)@.remove(key@),
            match before {
                Some(v) => old(self)@.contains_key(key@) && v == old(self)@[key@],
                None => !old(self)@.contains_key(key@),
            },
    {
        let at = self.find(key.name());
        proof {
            use_type_invariant(&*self);
            Self::lemma_found(self.entries@, key@, at);
        }
        if !at.1 {
            assert(self@.remove(key@) =~= self@);
            return None;
        }
        let ghost old_entries = self.entries@;
        let mut entries: Vec<(K, V)> = Vec::new();
        std::mem::swap(&mut entries, &mut self.entries);
        let (_, value) = entries.remove(at.0);
        proof {
            let k = at.0 as int;
            let old_keys = entry_keys(old_entries);
            let keys = entry_keys(entries@);
            assert(keys =~= old_keys.remove(k));
            assert forall|i: int, j: int| 0 <= i < j < keys.len() implies #[trigger] text::text_below(
                keys[i],
                keys[j],
            ) by {
                let oi = if i < k { i } else { i + 1 };
                let oj = if j < k { j } else { j + 1 };
                assert(text::text_below(old_keys[oi], old_keys[oj]));
            }
            lemma_entries(old_entries);
            lemma_entries(entries@);
            let old_map = entry_map(old_entries);
            let map = entry_map(entries@);
            assert forall|t: Seq<char>| map.dom().contains(t) == old_map.remove(
                key@,
            ).dom().contains(t) by {
                if map.dom().contains(t) {
                    let i = choose|i: int| 0 <= i < keys.len() && keys[i] == t;
                    let oi = if i < k { i } else { i + 1 };
                    assert(entries@[i] == old_entries[oi]);
                    assert(old_map.contains_key(old_entries[oi].0@));
                    lemma_ascending_unique(old_keys);
                    assert(old_keys[oi] != old_keys[k]);
                }
                if old_map.dom().contains(t) && t != key@ {
                    let i = choose|i: int| 0 <= i < old_keys.len() && old_keys[i] == t;
                    let ni = if i < k { i } else { i - 1 };
                    assert(entries@[ni] == old_entries[i]);
                    assert(map.contains_key(entries@[ni].0@));
                }
            }
            assert forall|t: Seq<char>| map.dom().contains(t) implies map[t] == old_map[t] by {
                let i = choose|i: int| 0 <= i < keys.len() && keys[i] == t;
                let oi = if i < k { i } else { i + 1 };
                assert(entries@[i] == old_entries[oi]);
                assert(map[entries@[i].0@] == entries@[i].1);
                assert(old_map[old_entries[oi].0@] == old_entries[oi].1);
            }
            assert(map =~= old_map.remove(key@));
        }
        self.entries = entries;
        Some(value)
    }

    /// Gives the pairs of the map away, in the order of the names.
    pub fn into_entries(self) -> (entries: Vec<(K, V)>)
        ensures
            entries@.len() == self@.len(),
            entries@.map_values(|entry: (K, V)| entry.0@) == ascending(self@.dom()),
            forall|i: int|
                0 <= i < entries@.len() ==> self@[(#[trigger] entries@[i]).0@] == entries@[i].1,
    {
        proof {
            use_type_invariant(&self);
            lemma_entries(self.entries@);
            assert(entry_keys(self.entries@) =~= self.entries@.map_values(
                |entry: (K, V)| entry.0@,
            ));
        }
        self.entries
    }
}

impl<K: Name + Clone, V: Clone> Clone for OrderedMap<K, V> {
    fn clone(&self) -> (copy: Self)
        ensures
            (forall|a: K, b: K| #[trigger] cloned(a, b) ==> a@ == b@) ==> {
                &&& copy@.dom() == self@.dom()
                &&& forall|key: Seq<char>|
                    self@.contains_key(key) ==> cloned(self@[key], #[trigger] copy@[key])
            },
    {
        proof {
            use_type_invariant(self);
            lemma_entries(self.entries@);
        }
        let mut copy = OrderedMap { entries: Vec::new() };
        let mut i: usize = 0;
        while i < self.entries.len()
            invariant
                i <= self.entries@.len(),
                is_ascending(entry_keys(self.entries@)),
                (forall|a: K, b: K| #[trigger] cloned(a, b) ==> a@ == b@) ==> {
                    &&& copy@.dom() == entry_keys(self.entries@.take(i as int)).to_set()
                    &&& forall|j: int|
                        0 <= j < i ==> cloned(
                            (#[trigger] self.entries@[j]).1,
                            copy@[self.entries@[j].0@],
                        )
                },
            decreases self.entries.len() - i,
        {
            let ghost before = copy@;
            let key = self.entries[i].0.clone();
            let value = self.entries[i].1.clone();
            copy.insert(key, value);
            proof {
                if forall|a: K, b: K| #[trigger] cloned(a, b) ==> a@ == b@ {
                    assert(cloned(self.entries@[i as int].0, key));
                    let keys = entry_keys(self.entries@);
                    lemma_ascending_unique(keys);
                    let now = entry_keys(self.entries@.take(i + 1));
                    let past = entry_keys(self.entries@.take(i as int));
                    assert(now =~= past.push(key@));
                    assert(now.to_set() =~= past.to_set().insert(key@)) by {
                        assert forall|t: Seq<char>| now.contains(t) == (past.contains(t) || t == key@) by {
                            if past.contains(t) {
                                let j = choose|j: int| 0 <= j < past.len() && past[j] == t;
                                assert(now[j] == t);
                            }
                            if t == key@ {
                                assert(now[now.len() - 1] == t);
                            }
                        }
                    }
                    assert forall|j: int| 0 <= j < i + 1 implies cloned(
                        (#[trigger] self.entries@[j]).1,
                        copy@[self.entries@[j].0@],
                    ) by {
                        assert(keys[j] == self.entries@[j].0@);
                        assert(keys[i as int] == self.entries@[i as int].0@);
                        if j < i {
                            assert(keys[j] != keys[i as int]);
                        }
                    }
                }
            }
            i += 1;
        }
        proof {
            if forall|a: K, b: K| #[trigger] cloned(a, b) ==> a@ == b@ {
                assert(self.entries@.take(i as int) =~= self.entries@);
                lemma_entries(self.entries@);
                assert forall|key: Seq<char>| self@.contains_key(key) implies cloned(
                    self@[key],
                    #[trigger] copy@[key],
                ) by {
                    let keys = entry_keys(self.entries@);
                    let j = choose|j: int| 0 <= j < keys.len() && keys[j] == key;
                    assert(self.entries@[j].0@ == key);
                }
            }
        }
        copy
    }
}

/// A set of texts.
#[derive(Debug, PartialEq, Eq)]
pub struct OrderedSet {
    items: OrderedMap<String, ()>,
}

impl View for OrderedSet {
    type V = Set<Seq<char>>;

    closed spec fn view(&self) -> Set<Seq<char>> {
        self.items@.dom()
    }
}

impl OrderedSet {
    /// The empty set.
    pub fn new() -> (set: Self)
        ensures
            set@ == Set::<Seq<char>>::empty(),
    {
        let set = OrderedSet { items: OrderedMap::new() };
        assert(set@ =~= Set::<Seq<char>>::empty());
        set
    }

    /// Adds a text; says whether it is new to the set.
    pub fn insert(&mut self, text: String) -> (added: bool)
        ensures
            final(self)@ == old(self)@.insert(text@),
            added == !old(self)@.contains(text@),
    {
        let ghost key = text@;
        let before = self.items.insert(text, ());
        assert(self@ =~= old(self)@.insert(key));
        match before {
            Some(_) => false,
            None => true,
        }
    }

    /// Whether the set holds a text.
    pub fn contains(&self, text: &String) -> (answer: bool)
        ensures
            answer == self@.contains(text@),
    {
        self.items.contains_key(text)
    }

    /// Whether the set holds nothing.
    pub fn is_empty(&self) -> (empty: bool)
        ensures
            empty == (self@ == Set::<Seq<char>>::empty()),
    {
        proof {
            if self.items@ == Map::<Seq<char>, ()>::empty() {
                assert(self@ =~= Set::<Seq<char>>::empty());
            }
            if self@ == Set::<Seq<char>>::empty() {
                assert(self.items@ =~= Map::<Seq<char>, ()>::empty());
            }
        }
        self.items.is_empty()
    }

    /// How many texts the set holds: walking it by position meets each of them
    /// once.
    pub fn len(&self) -> (count: usize)
        ensures
            count == self@.len(),
            self@.finite(),
            ascending(self@).len() == self@.len(),
            ascending(self@).to_set() == self@,
    {
        self.items.len()
    }

    /// The text at a position of the set's order.
    pub fn text_at(&self, i: usize) -> (text: &String)
        requires
            i < self@.len(),
        ensures
            text@ == ascending(self@)[i as int],
    {
        let count = self.items.len();
        self.items.key_at(i)
    }

    /// Whether the other set holds all that this one holds.
    pub fn is_subset(&self, other: &Self) -> (answer: bool)
        ensures
            answer == self@.subset_of(other@),
    {
        let count = self.len();
        let ghost texts = ascending(self@);
        let mut i: usize = 0;
        while i < count
            invariant
                i <= count,
                count == self@.len(),
                count == texts.len(),
                texts == ascending(self@),
                texts.to_set() == self@,
                forall|j: int| 0 <= j < i ==> other@.contains(#[trigger] texts[j]),
            decreases count - i,
        {
            if !other.contains(self.text_at(i)) {
                proof {
                    assert(texts.contains(texts[i as int]));
                    assert(self@.contains(texts[i as int]));
                }
                return false;
            }
            i += 1;
        }
        proof {
            assert forall|text: Seq<char>| self@.contains(text) implies other@.contains(text) by {
                assert(texts.to_set().contains(text));
                let j = choose|j: int| 0 <= j < texts.len() && texts[j] == text;
                assert(other@.contains(texts[j]));
            }
        }
        true
    }

    /// Whether the two sets hold the same.
    pub fn same(&self, other: &Self) -> (answer: bool)
        ensures
            answer == (self@ == other@),
    {
        if self.is_subset(other) && other.is_subset(self) {
            assert(self@ =~= other@);
            true
        } else {
            false
        }
    }
}

impl Clone for OrderedSet {
    fn clone(&self) -> (copy: Self)
        ensures
            copy@ == self@,
    {
        let copy = OrderedSet { items: self.items.clone() };
        assert(copy@ =~= self@);
        copy
    }
}

} // verus!
