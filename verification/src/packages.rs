//! Package sets: every name mapped to one version.

use crate::assoc::{
    distinct_keys, has_key, lemma_pairs_map, lemma_pairs_map_empty, lemma_push_pair,
    lemma_update_pair, pairs_map,
};
use crate::text::{has_char, str_eq};
use vstd::prelude::*;

verus! {

/// A package name is not empty and holds no slash.
pub open spec fn valid_name(name: Seq<char>) -> bool {
    name.len() > 0 && !name.contains('/')
}

/// A version is not empty.
pub open spec fn valid_version(version: Seq<char>) -> bool {
    version.len() > 0
}

/// Every pair of `pairs` has a valid name and a valid version.
pub open spec fn valid_pairs(pairs: Seq<(Seq<char>, Seq<char>)>) -> bool {
    forall|i: int|
        0 <= i < pairs.len() ==> valid_name(#[trigger] pairs[i].0) && valid_version(pairs[i].1)
}

/// Whether `name` may name a package.
pub fn is_valid_name(name: &str) -> (ok: bool)
    ensures
        ok == valid_name(name@),
{
    !name.is_empty() && !has_char(name, '/')
}

/// Whether `version` may be a package's version.
pub fn is_valid_version(version: &str) -> (ok: bool)
    ensures
        ok == valid_version(version@),
{
    !version.is_empty()
}

/// One package: its name and its version.
#[derive(Debug)]
pub struct Package {
    pub name: String,
    pub version: String,
}

impl Package {
    /// The package as a pair of character sequences.
    pub open spec fn pair(&self) -> (Seq<char>, Seq<char>) {
        (self.name@, self.version@)
    }
}

/// A set of packages in which no name occurs twice, kept in the order in
/// which the names first came.
#[derive(Debug)]
pub struct Packages {
    entries: Vec<Package>,
}

impl View for Packages {
    type V = Map<Seq<char>, Seq<char>>;

    /// The mapping from each name to its version.
    open spec fn view(&self) -> Map<Seq<char>, Seq<char>> {
        pairs_map(self.pairs())
    }
}

impl Packages {
    /// The (name, version) pairs in their order.
    pub closed spec fn pairs(&self) -> Seq<(Seq<char>, Seq<char>)> {
        Seq::new(self.entries@.len(), |i: int| self.entries@[i].pair())
    }

    /// Names are distinct, names and versions are valid.
    pub open spec fn wf(&self) -> bool {
        &&& distinct_keys(self.pairs())
        &&& valid_pairs(self.pairs())
    }

    /// The empty set.
    pub fn new() -> (set: Packages)
        ensures
            set.wf(),
            set.pairs() == Seq::<(Seq<char>, Seq<char>)>::empty(),
            set@ == Map::<Seq<char>, Seq<char>>::empty(),
    {
        let set = Packages { entries: Vec::new() };
        proof {
            assert(set.pairs() =~= Seq::<(Seq<char>, Seq<char>)>::empty());
            lemma_pairs_map_empty(set.pairs());
        }
        set
    }

    /// How many packages the set holds.
    pub fn len(&self) -> (n: usize)
        ensures
            n == self.pairs().len(),
    {
        self.entries.len()
    }

    /// Whether the set holds nothing.
    pub fn is_empty(&self) -> (empty: bool)
        requires
            self.wf(),
        ensures
            empty == (self.pairs().len() == 0),
            empty == (self@ == Map::<Seq<char>, Seq<char>>::empty()),
    {
        proof {
            lemma_pairs_map(self.pairs());
            if self.pairs().len() == 0 {
                lemma_pairs_map_empty(self.pairs());
            } else {
                assert(self@.contains_key(self.pairs()[0].0));
            }
        }
        self.entries.len() == 0
    }

    /// The package at place `i`.
    pub fn entry(&self, i: usize) -> (package: &Package)
        requires
            i < self.pairs().len(),
        ensures
            package.pair() == self.pairs()[i as int],
    {
        &self.entries[i]
    }

    /// The place of `name`, if the set holds it.
    fn position(&self, name: &str) -> (place: Option<usize>)
        ensures
            match place {
                Some(i) => i < self.pairs().len() && self.pairs()[i as int].0 == name@,
                None => !has_key(self.pairs(), name@),
            },
    {
        let mut i: usize = 0;
        while i < self.entries.len()
            invariant
                i <= self.entries.len(),
                forall|k: int| 0 <= k < i ==> self.pairs()[k].0 != name@,
            decreases self.entries.len() - i,
        {
            if str_eq(self.entries[i].name.as_str(), name) {
                return Some(i);
            }
            i += 1;
        }
        None
    }

    /// The version recorded for `name`.
    pub fn get(&self, name: &str) -> (version: Option<&String>)
        requires
            self.wf(),
        ensures
            match version {
                Some(v) => self@.contains_key(name@) && self@[name@] == v@,
                None => !self@.contains_key(name@),
            },
    {
        proof {
            lemma_pairs_map(self.pairs());
        }
        match self.position(name) {
            Some(i) => Some(&self.entries[i].version),
            None => None,
        }
    }

    /// Whether the set holds a package called `name`.
    pub fn contains(&self, name: &str) -> (found: bool)
        requires
            self.wf(),
        ensures
            found == self@.contains_key(name@),
    {
        proof {
            lemma_pairs_map(self.pairs());
        }
        self.position(name).is_some()
    }

    /// Records `version` for `name`, in place of an earlier version of that
    /// name. An invalid name or version is refused and nothing changes.
    pub fn insert(&mut self, name: String, version: String) -> (accepted: bool)
        requires
            old(self).wf(),
        ensures
            final(self).wf(),
            accepted == (valid_name(name@) && valid_version(version@)),
            accepted ==> final(self)@ == old(self)@.insert(name@, version@),
            accepted && old(self)@.contains_key(name@) ==> exists|i: int|
                0 <= i < old(self).pairs().len() && old(self).pairs()[i].0 == name@
                    && final(self).pairs() == old(self).pairs().update(i, (name@, version@)),
            accepted && !old(self)@.contains_key(name@) ==> final(self).pairs()
                == old(self).pairs().push((name@, version@)),
            !accepted ==> final(self).pairs() == old(self).pairs(),
    {
        if !is_valid_name(name.as_str()) || !is_valid_version(version.as_str()) {
            return false;
        }
        let ghost before = self.pairs();
        proof {
            lemma_pairs_map(before);
        }
        match self.position(name.as_str()) {
            Some(i) => {
                let ghost pair = (name@, version@);
                self.entries.set(i, Package { name, version });
                proof {
                    assert(self.pairs() =~= before.update(i as int, pair));
                    lemma_update_pair(before, i as int, pair);
                }
            },
            None => {
                let ghost pair = (name@, version@);
                self.entries.push(Package { name, version });
                proof {
                    assert(self.pairs() =~= before.push(pair));
                    lemma_push_pair(before, pair);
                }
            },
        }
        true
    }
}

} // verus!
