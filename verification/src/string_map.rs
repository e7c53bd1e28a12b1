//! A map from strings to values, for the few names that one script defines.
//!
//! The hash map of the standard library is specified by vstd only for keys
//! whose hashing vstd has a model of, and strings are not among them: of a
//! map from strings its contracts would say nothing. So the map is kept as
//! a list of entries, of which a later one replaces an earlier one.

use crate::text::same_text;
use vstd::prelude::*;

verus! {

/// The map that a list of entries stands for: each entry binds its key, and
/// a later entry replaces an earlier one with the same key.
pub open spec fn map_of<T>(entries: Seq<(Seq<char>, T)>) -> Map<Seq<char>, T>
    decreases entries.len(),
{
    if entries.len() == 0 {
        Map::empty()
    } else {
        map_of(entries.drop_last()).insert(entries.last().0, entries.last().1)
    }
}

/// A key that no entry from `from` on holds is bound as the entries before
/// `from` bind it.
pub proof fn lemma_map_of_skips<T>(entries: Seq<(Seq<char>, T)>, from: int, key: Seq<char>)
    requires
        0 <= from <= entries.len(),
        forall|j: int| from <= j < entries.len() ==> (#[trigger] entries[j]).0 != key,
    ensures
        map_of(entries).dom().contains(key) == map_of(entries.take(from)).dom().contains(key),
        map_of(entries).dom().contains(key) ==> map_of(entries)[key] == map_of(
            entries.take(from),
        )[key],
    decreases entries.len() - from,
{
    if from == entries.len() {
        assert(entries.take(from) =~= entries);
    } else {
        let shorter = entries.drop_last();
        assert(entries.last() == entries[entries.len() - 1]);
        assert forall|j: int| from <= j < shorter.len() implies (#[trigger] shorter[j]).0 != key by {
            assert(shorter[j] == entries[j]);
        }
        lemma_map_of_skips(shorter, from, key);
        assert(shorter.take(from) =~= entries.take(from));
    }
}

/// A finite map from strings to values of type `V`.
#[derive(Debug)]
pub struct StringMap<V> {
    entries: Vec<(String, V)>,
}

impl<V: DeepView> View for StringMap<V> {
    type V = Map<Seq<char>, V::V>;

    closed spec fn view(&self) -> Map<Seq<char>, V::V> {
        map_of(self.entries.deep_view())
    }
}

impl<V: DeepView> DeepView for StringMap<V> {
    type V = Map<Seq<char>, V::V>;

    open spec fn deep_view(&self) -> Map<Seq<char>, V::V> {
        self@
    }
}

impl<V: DeepView> StringMap<V> {
    /// The map that binds nothing.
    pub fn new() -> (map: StringMap<V>)
        ensures
            map@ == Map::<Seq<char>, V::V>::empty(),
    {
        let map = StringMap { entries: Vec::new() };
        assert(map.entries.deep_view() =~= Seq::<(Seq<char>, V::V)>::empty());
        map
    }

    /// The value bound to `key`, if one is.
    pub fn get(&self, key: &str) -> (value: Option<&V>)
        ensures
            match value {
                Some(v) => self@.dom().contains(key@) && self@[key@] == v.deep_view(),
                None => !self@.dom().contains(key@),
            },
    {
        let ghost all = self.entries.deep_view();
        let mut i: usize = self.entries.len();
        while i > 0
            invariant
                all == self.entries.deep_view(),
                i <= self.entries@.len(),
                forall|j: int| i <= j < all.len() ==> (#[trigger] all[j]).0 != key@,
            decreases i,
        {
            i = i - 1;
            assert(all[i as int] == self.entries@[i as int].deep_view());
            if same_text(self.entries[i].0.as_str(), key) {
                proof {
                    lemma_map_of_skips(all, i + 1, key@);
                    let upto = all.take(i + 1);
                    assert(upto.last() == all[i as int]);
                }
                return Some(&self.entries[i].1);
            }
        }
        proof {
            lemma_map_of_skips(all, 0, key@);
            assert(all.take(0) =~= Seq::<(Seq<char>, V::V)>::empty());
        }
        None
    }

    /// Whether `key` is bound.
    pub fn contains_key(&self, key: &str) -> (held: bool)
        ensures
            held == self@.dom().contains(key@),
    {
        self.get(key).is_some()
    }

    /// Binds `key` to `value`, in place of what `key` was bound to before.
    pub fn insert(&mut self, key: String, value: V)
        ensures
            final(self)@ == old(self)@.insert(key@, value.deep_view()),
    {
        let ghost before = self.entries.deep_view();
        self.entries.push((key, value));
        proof {
            let after = self.entries.deep_view();
            assert(after =~= before.push((key@, value.deep_view())));
            assert(after.drop_last() =~= before);
        }
    }
}

} // verus!
