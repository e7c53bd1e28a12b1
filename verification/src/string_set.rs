//! A set of strings that remembers the order in which its members came.
//!
//! The hash set of the standard library is specified by vstd only for keys
//! whose hashing vstd has a model of, and strings are not among them: of a
//! set of strings its contracts would say nothing. So the set is kept in a
//! vector, and holds nothing twice.

use crate::text::same_text;
use vstd::prelude::*;

verus! {

/// A finite set of strings. No string is held twice; members are kept in
/// the order in which they were first inserted.
#[derive(Debug)]
pub struct StringSet {
    items: Vec<String>,
}

impl View for StringSet {
    type V = Set<Seq<char>>;

    /// The members.
    open spec fn view(&self) -> Set<Seq<char>> {
        self.names().to_set()
    }
}

impl DeepView for StringSet {
    type V = Set<Seq<char>>;

    open spec fn deep_view(&self) -> Set<Seq<char>> {
        self@
    }
}

impl Clone for StringSet {
    fn clone(&self) -> (copy: StringSet)
        ensures
            copy@ == self@,
            copy.names() == self.names(),
    {
        let items: Vec<String> = self.to_vec();
        StringSet { items }
    }
}

impl StringSet {
    #[verifier::type_invariant]
    spec fn holds_nothing_twice(self) -> bool {
        self.items.deep_view().no_duplicates()
    }

    /// The members in the order in which they are held.
    pub closed spec fn names(&self) -> Seq<Seq<char>> {
        self.items.deep_view()
    }

    /// The set without members.
    pub fn new() -> (set: StringSet)
        ensures
            set@ == Set::<Seq<char>>::empty(),
            set.names() == Seq::<Seq<char>>::empty(),
    {
        let set = StringSet { items: Vec::new() };
        assert(set.items.deep_view() =~= Seq::<Seq<char>>::empty());
        assert(set@ =~= Set::<Seq<char>>::empty());
        set
    }

    /// The number of members.
    pub fn len(&self) -> (n: usize)
        ensures
            n == self.names().len(),
            n == self@.len(),
            self.names().no_duplicates(),
    {
        proof {
            use_type_invariant(self);
            self.names().unique_seq_to_set();
        }
        self.items.len()
    }

    /// Whether the set has no member.
    pub fn is_empty(&self) -> (empty: bool)
        ensures
            empty == (self@ == Set::<Seq<char>>::empty()),
            empty == (self.names().len() == 0),
    {
        proof {
            use_type_invariant(self);
            self.names().unique_seq_to_set();
            if self.names().len() == 0 {
                assert(self@ =~= Set::<Seq<char>>::empty());
            }
        }
        self.items.len() == 0
    }

    /// The member at position `i` of `names()`.
    pub fn get(&self, i: usize) -> (name: &String)
        requires
            i < self.names().len(),
        ensures
            name@ == self.names()[i as int],
            self@.contains(name@),
    {
        assert(self.items.deep_view()[i as int] == self.items@[i as int].deep_view());
        &self.items[i]
    }

    /// The position at which `name` is held, if it is a member.
    fn position(&self, name: &str) -> (found: Option<usize>)
        ensures
            match found {
                Some(i) => i < self.names().len() && self.names()[i as int] == name@,
                None => !self@.contains(name@),
            },
    {
        let n: usize = self.items.len();
        let mut i: usize = 0;
        while i < n
            invariant
                n == self.items@.len(),
                i <= n,
                forall|j: int| 0 <= j < i ==> self.names()[j] != name@,
            decreases n - i,
        {
            assert(self.items.deep_view()[i as int] == self.items@[i as int].deep_view());
            if same_text(self.items[i].as_str(), name) {
                return Some(i);
            }
            i = i + 1;
        }
        None
    }

    /// Whether `name` is a member.
    pub fn contains(&self, name: &str) -> (held: bool)
        ensures
            held == self@.contains(name@),
    {
        match self.position(name) {
            Some(i) => {
                assert(self.names().contains(name@));
                true
            },
            None => false,
        }
    }

    /// Adds `name`. Returns whether it was new.
    pub fn insert(&mut self, name: String) -> (added: bool)
        ensures
            final(self)@ == old(self)@.insert(name@),
            added == !old(self)@.contains(name@),
            final(self).names() == if added {
                old(self).names().push(name@)
            } else {
                old(self).names()
            },
    {
        proof {
            use_type_invariant(&*self);
        }
        match self.position(name.as_str()) {
            Some(i) => {
                assert(self.names().contains(name@));
                assert(self@ =~= self@.insert(name@));
                false
            },
            None => {
                let ghost before = self.items.deep_view();
                let mut items: Vec<String> = Vec::new();
                core::mem::swap(&mut items, &mut self.items);
                items.push(name);
                proof {
                    assert(items.deep_view() =~= before.push(name@));
                    assert(!before.contains(name@));
                    assert(before.push(name@).no_duplicates());
                }
                self.items = items;
                proof {
                    assert(before.push(name@).to_set() =~= before.to_set().insert(name@)) by {
                        assert forall|a: Seq<char>|
                            before.push(name@).contains(a) <==> before.contains(a) || a == name@ by {
                            if before.contains(a) {
                                let i = choose|i: int| 0 <= i < before.len() && before[i] == a;
                                assert(before.push(name@)[i] == a);
                            }
                            if a == name@ {
                                assert(before.push(name@)[before.len() as int] == a);
                            }
                        }
                    }
                }
                true
            },
        }
    }

    /// Takes `name` out. Returns whether it was a member.
    pub fn remove(&mut self, name: &str) -> (removed: bool)
        ensures
            final(self)@ == old(self)@.remove(name@),
            removed == old(self)@.contains(name@),
    {
        proof {
            use_type_invariant(&*self);
        }
        match self.position(name) {
            Some(i) => {
                let ghost before = self.items.deep_view();
                assert(before.contains(name@));
                let mut items: Vec<String> = Vec::new();
                core::mem::swap(&mut items, &mut self.items);
                items.remove(i);
                proof {
                    assert(items.deep_view() =~= before.remove(i as int));
                    assert(before.remove(i as int).no_duplicates());
                }
                self.items = items;
                proof {
                    let after = self.items.deep_view();
                    assert(after =~= before.remove(i as int));
                    assert(after.no_duplicates());
                    assert(after.to_set() =~= before.to_set().remove(name@)) by {
                        assert forall|a: Seq<char>|
                            after.contains(a) <==> before.contains(a) && a != name@ by {
                            if after.contains(a) {
                                let j = choose|j: int| 0 <= j < after.len() && after[j] == a;
                                if j < i {
                                    assert(before[j] == a);
                                } else {
                                    assert(before[j + 1] == a);
                                }
                            }
                            if before.contains(a) && a != name@ {
                                let j = choose|j: int| 0 <= j < before.len() && before[j] == a;
                                if j < i {
                                    assert(after[j] == a);
                                } else {
                                    assert(after[j - 1] == a);
                                }
                            }
                        }
                    }
                }
                true
            },
            None => {
                assert(self@ =~= self@.remove(name@));
                false
            },
        }
    }

    /// Adds every member of `other`.
    pub fn extend(&mut self, other: &StringSet)
        ensures
            final(self)@ == old(self)@.union(other@),
    {
        let n: usize = other.len();
        let mut i: usize = 0;
        while i < n
            invariant
                n == other.names().len(),
                i <= n,
                self@ == old(self)@.union(other.names().take(i as int).to_set()),
            decreases n - i,
        {
            let name: String = other.get(i).clone();
            self.insert(name);
            proof {
                let seen = other.names().take(i as int);
                let next = other.names().take(i + 1);
                assert(next =~= seen.push(other.names()[i as int]));
                assert(next.to_set() =~= seen.to_set().insert(other.names()[i as int])) by {
                    assert forall|a: Seq<char>|
                        next.contains(a) <==> seen.contains(a) || a == other.names()[i as int] by {
                        if seen.contains(a) {
                            let j = choose|j: int| 0 <= j < seen.len() && seen[j] == a;
                            assert(next[j] == a);
                        }
                        if a == other.names()[i as int] {
                            assert(next[i as int] == a);
                        }
                    }
                }
                assert(self@ =~= old(self)@.union(next.to_set()));
            }
            i = i + 1;
        }
        proof {
            assert(other.names().take(n as int) =~= other.names());
        }
    }

    /// The members, in the order in which they are held.
    pub fn to_vec(&self) -> (names: Vec<String>)
        ensures
            names.deep_view() == self.names(),
            names.deep_view().no_duplicates(),
            names.deep_view().to_set() == self@,
    {
        proof {
            use_type_invariant(self);
        }
        let n: usize = self.items.len();
        let mut names: Vec<String> = Vec::new();
        let mut i: usize = 0;
        while i < n
            invariant
                n == self.items@.len(),
                i <= n,
                names.deep_view() =~= self.items.deep_view().take(i as int),
            decreases n - i,
        {
            let ghost before = names.deep_view();
            names.push(self.items[i].clone());
            proof {
                assert(self.items.deep_view()[i as int] == self.items@[i as int].deep_view());
                assert(names.deep_view() =~= before.push(self.items@[i as int]@));
            }
            i = i + 1;
        }
        proof {
            assert(self.items.deep_view().take(n as int) =~= self.items.deep_view());
        }
        names
    }
}

} // verus!
