//! What lists, options and maps look like once each item is taken by its view,
//! and comparison by value.
use crate::ids::Name;
use crate::ordered::OrderedMap;
use crate::text::same_text;
use vstd::prelude::*;

verus! {

/// The views of the items of a list.
pub open spec fn all_views<T: View>(list: Seq<T>) -> Seq<T::V> {
    list.map_values(|item: T| item@)
}

/// The view of an item that may be absent.
pub open spec fn some_view<T: View>(item: Option<T>) -> Option<T::V> {
    match item {
        Some(value) => Some(value@),
        None => None,
    }
}

/// The views of the items of a map.
pub open spec fn map_views<T: View>(map: Map<Seq<char>, T>) -> Map<Seq<char>, T::V> {
    map.map_values(|item: T| item@)
}

/// An outcome by the views of what came out or went wrong.
pub open spec fn outcome_view<T: View, E: View>(outcome: Result<T, E>) -> Result<T::V, E::V> {
    match outcome {
        Ok(value) => Ok(value@),
        Err(error) => Err(error@),
    }
}

/// An outcome without a value, by the view of what went wrong.
pub open spec fn plain_outcome<E: View>(outcome: Result<(), E>) -> Result<(), E::V> {
    match outcome {
        Ok(()) => Ok(()),
        Err(error) => Err(error@),
    }
}

/// An outcome with a value that may be absent, by views.
pub open spec fn some_outcome<T: View, E: View>(outcome: Result<Option<T>, E>) -> Result<
    Option<T::V>,
    E::V,
> {
    match outcome {
        Ok(value) => Ok(some_view(value)),
        Err(error) => Err(error@),
    }
}

/// An outcome with a list of values, by views.
pub open spec fn list_outcome<T: View, E: View>(outcome: Result<Vec<T>, E>) -> Result<
    Seq<T::V>,
    E::V,
> {
    match outcome {
        Ok(list) => Ok(all_views(list@)),
        Err(error) => Err(error@),
    }
}

/// Taking views goes along with replacing one item of a map.
pub proof fn lemma_map_views_insert<T: View>(map: Map<Seq<char>, T>, key: Seq<char>, item: T)
    ensures
        map_views(map.insert(key, item)) == map_views(map).insert(key, item@),
{
    assert(map_views(map.insert(key, item)) =~= map_views(map).insert(key, item@));
}

/// Taking views goes along with removing one item of a map.
pub proof fn lemma_map_views_remove<T: View>(map: Map<Seq<char>, T>, key: Seq<char>)
    ensures
        map_views(map.remove(key)) == map_views(map).remove(key),
{
    assert(map_views(map.remove(key)) =~= map_views(map).remove(key));
}

/// The copy of a list has the views of the list.
pub proof fn lemma_cloned_list<T: View + Clone>(list: Seq<T>, copy: Seq<T>)
    requires
        list.len() == copy.len(),
        forall|i: int| 0 <= i < list.len() ==> cloned(#[trigger] list[i], copy[i]),
        forall|a: T, b: T| #[trigger] cloned(a, b) ==> a@ == b@,
    ensures
        all_views(copy) == all_views(list),
{
    assert forall|i: int| 0 <= i < list.len() implies #[trigger] copy[i]@ == list[i]@ by {
        assert(cloned(list[i], copy[i]));
    }
    assert(all_views(copy) =~= all_views(list));
}

/// The copy of a map has the views of the map.
pub proof fn lemma_cloned_map<T: View + Clone>(map: Map<Seq<char>, T>, copy: Map<Seq<char>, T>)
    requires
        map.dom() == copy.dom(),
        forall|key: Seq<char>| map.contains_key(key) ==> cloned(map[key], #[trigger] copy[key]),
        forall|a: T, b: T| #[trigger] cloned(a, b) ==> a@ == b@,
    ensures
        map_views(copy) == map_views(map),
{
    assert forall|key: Seq<char>| map.contains_key(key) implies #[trigger] copy[key]@
        == map[key]@ by {
        assert(cloned(map[key], copy[key]));
    }
    assert(map_views(copy) =~= map_views(map));
}

/// Comparison by value.
pub trait Same: Sized {
    /// Whether the two hold the same.
    spec fn same_spec(&self, other: &Self) -> bool;

    /// Compares the two.
    fn same(&self, other: &Self) -> (answer: bool)
        ensures
            answer == self.same_spec(other),
    ;
}

impl Same for String {
    open spec fn same_spec(&self, other: &Self) -> bool {
        self@ == other@
    }

    fn same(&self, other: &Self) -> (answer: bool) {
        same_text(self.as_str(), other.as_str())
    }
}

impl<T: Same> Same for Option<T> {
    open spec fn same_spec(&self, other: &Self) -> bool {
        match *self {
            Some(a) => match *other {
                Some(b) => a.same_spec(&b),
                None => false,
            },
            None => *other is None,
        }
    }

    fn same(&self, other: &Self) -> (answer: bool) {
        match self {
            Some(a) => match other {
                Some(b) => {
                    let answer = a.same(b);
                    assert(self.same_spec(other) == a.same_spec(b));
                    answer
                },
                None => false,
            },
            None => other.is_none(),
        }
    }
}

impl<T: Same> Same for Vec<T> {
    open spec fn same_spec(&self, other: &Self) -> bool {
        &&& self@.len() == other@.len()
        &&& forall|i: int| 0 <= i < self@.len() ==> (#[trigger] self@[i]).same_spec(&other@[i])
    }

    fn same(&self, other: &Self) -> (answer: bool) {
        if self.len() != other.len() {
            return false;
        }
        let mut i: usize = 0;
        while i < self.len()
            invariant
                i <= self.len(),
                self.len() == other.len(),
                forall|j: int| 0 <= j < i ==> (#[trigger] self@[j]).same_spec(&other@[j]),
            decreases self.len() - i,
        {
            if !self[i].same(&other[i]) {
                assert(!self@[i as int].same_spec(&other@[i as int]));
                return false;
            }
            i += 1;
        }
        true
    }
}

impl<K: Name, V: Same> Same for OrderedMap<K, V> {
    open spec fn same_spec(&self, other: &Self) -> bool {
        &&& self@.dom() == other@.dom()
        &&& forall|key: Seq<char>|
            self@.contains_key(key) ==> (#[trigger] self@[key]).same_spec(&other@[key])
    }

    fn same(&self, other: &Self) -> (answer: bool) {
        let count = self.len();
        if count != other.len() {
            return false;
        }
        let ghost keys = crate::ordered::ascending(self@.dom());
        let mut i: usize = 0;
        while i < count
            invariant
                i <= count,
                count == keys.len(),
                count == self@.len(),
                count == other@.len(),
                keys == crate::ordered::ascending(self@.dom()),
                keys.to_set() == self@.dom(),
                forall|j: int|
                    0 <= j < i ==> {
                        &&& other@.contains_key(#[trigger] keys[j])
                        &&& self@[keys[j]].same_spec(&other@[keys[j]])
                    },
            decreases count - i,
        {
            proof {
                assert(keys.contains(keys[i as int]));
                assert(self@.dom().contains(keys[i as int]));
            }
            match other.get(self.key_at(i)) {
                None => {
                    return false;
                },
                Some(theirs) => {
                    if !self.value_at(i).same(theirs) {
                        assert(!self@[keys[i as int]].same_spec(&other@[keys[i as int]]));
                        return false;
                    }
                },
            }
            i += 1;
        }
        proof {
            assert forall|key: Seq<char>| self@.contains_key(key) implies {
                &&& other@.contains_key(key)
                &&& self@[key].same_spec(&other@[key])
            } by {
                assert(keys.to_set().contains(key));
                let j = choose|j: int| 0 <= j < keys.len() && keys[j] == key;
                assert(other@.contains_key(keys[j]));
            }
            assert(self@.dom().subset_of(other@.dom()));
            vstd::set_lib::lemma_subset_equality(self@.dom(), other@.dom());
        }
        true
    }
}

/// Lists of items that are compared by their views are compared by their views.
pub proof fn lemma_same_list<T: Same + View>(a: Vec<T>, b: Vec<T>)
    requires
        forall|x: T, y: T| #[trigger] x.same_spec(&y) == (x@ == y@),
    ensures
        a.same_spec(&b) == (all_views(a@) == all_views(b@)),
{
    if a.same_spec(&b) {
        assert(all_views(a@) =~= all_views(b@));
    }
    if all_views(a@) == all_views(b@) {
        assert(all_views(a@).len() == all_views(b@).len());
        assert forall|i: int| 0 <= i < a@.len() implies (#[trigger] a@[i]).same_spec(&b@[i]) by {
            assert(all_views(a@)[i] == all_views(b@)[i]);
        }
    }
}

/// Maps to items that are compared by their views are compared by their views.
pub proof fn lemma_same_map<K: Name, T: Same + View>(a: OrderedMap<K, T>, b: OrderedMap<K, T>)
    requires
        forall|x: T, y: T| #[trigger] x.same_spec(&y) == (x@ == y@),
    ensures
        a.same_spec(&b) == (map_views(a@) == map_views(b@)),
{
    if a.same_spec(&b) {
        assert(map_views(a@) =~= map_views(b@));
    }
    if map_views(a@) == map_views(b@) {
        assert(map_views(a@).dom() =~= a@.dom());
        assert(map_views(b@).dom() =~= b@.dom());
        assert forall|key: Seq<char>| a@.contains_key(key) implies (#[trigger] a@[key]).same_spec(
            &b@[key],
        ) by {
            assert(map_views(a@)[key] == map_views(b@)[key]);
        }
    }
}

} // verus!
