//! Sets of package names.

use crate::text::str_eq;
use vstd::prelude::*;

verus! {

/// A set of names, kept in the order in which they first came.
#[derive(Debug)]
pub struct NameSet {
    names: Vec<String>,
}

impl View for NameSet {
    type V = Set<Seq<char>>;

    /// The names as a set.
    open spec fn view(&self) -> Set<Seq<char>> {
        self.items().to_set()
    }
}

impl NameSet {
    /// The names in their order.
    pub closed spec fn items(&self) -> Seq<Seq<char>> {
        Seq::new(self.names@.len(), |i: int| self.names@[i]@)
    }

    /// No name occurs twice.
    pub open spec fn wf(&self) -> bool {
        self.items().no_duplicates()
    }

    /// The empty set.
    pub fn new() -> (set: NameSet)
        ensures
            set.wf(),
            set.items() == Seq::<Seq<char>>::empty(),
            set@ == Set::<Seq<char>>::empty(),
    {
        let set = NameSet { names: Vec::new() };
        proof {
            assert(set.items() =~= Seq::<Seq<char>>::empty());
            assert(set@ =~= Set::<Seq<char>>::empty());
        }
        set
    }

    /// How many names the set holds.
    pub fn len(&self) -> (n: usize)
        ensures
            n == self.items().len(),
    {
        self.names.len()
    }

    /// Whether the set holds nothing.
    pub fn is_empty(&self) -> (empty: bool)
        ensures
            empty == (self.items().len() == 0),
            empty == (self@ == Set::<Seq<char>>::empty()),
    {
        proof {
            if self.items().len() == 0 {
                assert(self@ =~= Set::<Seq<char>>::empty());
            } else {
                assert(self.items().contains(self.items()[0]));
                assert(self@.contains(self.items()[0]));
            }
        }
        self.names.len() == 0
    }

    /// The name at place `i`.
    pub fn name(&self, i: usize) -> (name: &String)
        requires
            i < self.items().len(),
        ensures
            name@ == self.items()[i as int],
    {
        &self.names[i]
    }

    /// Whether the set holds `name`.
    pub fn contains(&self, name: &str) -> (found: bool)
        ensures
            found == self@.contains(name@),
    {
        let mut i: usize = 0;
        while i < self.names.len()
            invariant
                i <= self.names.len(),
                forall|k: int| 0 <= k < i ==> self.items()[k] != name@,
            decreases self.names.len() - i,
        {
            if str_eq(self.names[i].as_str(), name) {
                assert(self.items()[i as int] == name@);
                return true;
            }
            i += 1;
        }
        false
    }

    /// Adds `name`; says whether it was new.
    pub fn insert(&mut self, name: String) -> (added: bool)
        requires
            old(self).wf(),
        ensures
            final(self).wf(),
            added == !old(self)@.contains(name@),
            final(self)@ == old(self)@.insert(name@),
            added ==> final(self).items() == old(self).items().push(name@),
            !added ==> final(self).items() == old(self).items(),
    {
        let ghost before = self.items();
        if self.contains(name.as_str()) {
            assert(self@ =~= self@.insert(name@));
            return false;
        }
        let ghost added_name = name@;
        self.names.push(name);
        proof {
            let after = self.items();
            assert(after =~= before.push(added_name));
            assert forall|x: Seq<char>| after.to_set().contains(x) <==> before.to_set().insert(
                added_name,
            ).contains(x) by {
                if after.contains(x) {
                    let k = choose|k: int| 0 <= k < after.len() && after[k] == x;
                    if k < before.len() {
                        assert(before[k] == x);
                    }
                }
                if before.contains(x) {
                    let k = choose|k: int| 0 <= k < before.len() && before[k] == x;
                    assert(after[k] == x);
                }
                if x == added_name {
                    assert(after[before.len() as int] == x);
                }
            }
            assert(after.to_set() =~= before.to_set().insert(added_name));
        }
        true
    }
}

} // verus!
