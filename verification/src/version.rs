//! What the distribution's version comparator said of pairs of versions.

use crate::assoc::{
    distinct_keys, has_key, lemma_pairs_map, lemma_pairs_map_empty, lemma_push_pair,
    lemma_update_pair, pairs_map,
};
use crate::text::str_eq;
use vstd::prelude::*;

verus! {

/// How the first of two versions stands to the second.
#[derive(Clone, Copy, Debug, PartialEq, Eq, Structural)]
pub enum VersionOrder {
    Less,
    Equal,
    Greater,
}

/// One answer of the comparator: `left` compared with `right`.
#[derive(Debug)]
pub struct Verdict {
    pub left: String,
    pub right: String,
    pub order: VersionOrder,
}

impl Verdict {
    /// The verdict as a key and a value.
    pub open spec fn pair(&self) -> ((Seq<char>, Seq<char>), VersionOrder) {
        ((self.left@, self.right@), self.order)
    }
}

/// The comparator's answers so far, one for each pair of versions asked.
#[derive(Debug)]
pub struct Verdicts {
    entries: Vec<Verdict>,
}

impl View for Verdicts {
    type V = Map<(Seq<char>, Seq<char>), VersionOrder>;

    /// The answers as a mapping from (left, right) to the order.
    open spec fn view(&self) -> Map<(Seq<char>, Seq<char>), VersionOrder> {
        pairs_map(self.pairs())
    }
}

impl Verdicts {
    /// The answers in the order in which their pairs were first asked.
    pub closed spec fn pairs(&self) -> Seq<((Seq<char>, Seq<char>), VersionOrder)> {
        Seq::new(self.entries@.len(), |i: int| self.entries@[i].pair())
    }

    /// No pair of versions has two answers.
    pub open spec fn wf(&self) -> bool {
        distinct_keys(self.pairs())
    }

    /// No answers yet.
    pub fn new() -> (table: Verdicts)
        ensures
            table.wf(),
            table.pairs() == Seq::<((Seq<char>, Seq<char>), VersionOrder)>::empty(),
            table@ == Map::<(Seq<char>, Seq<char>), VersionOrder>::empty(),
    {
        let table = Verdicts { entries: Vec::new() };
        proof {
            assert(table.pairs() =~= Seq::<((Seq<char>, Seq<char>), VersionOrder)>::empty());
            lemma_pairs_map_empty(table.pairs());
        }
        table
    }

    /// How many pairs have an answer.
    pub fn len(&self) -> (n: usize)
        ensures
            n == self.pairs().len(),
    {
        self.entries.len()
    }

    fn position(&self, left: &str, right: &str) -> (place: Option<usize>)
        ensures
            match place {
                Some(i) => i < self.pairs().len() && self.pairs()[i as int].0 == (left@, right@),
                None => !has_key(self.pairs(), (left@, right@)),
            },
    {
        let mut i: usize = 0;
        while i < self.entries.len()
            invariant
                i <= self.entries.len(),
                forall|k: int| 0 <= k < i ==> self.pairs()[k].0 != (left@, right@),
            decreases self.entries.len() - i,
        {
            if str_eq(self.entries[i].left.as_str(), left) && str_eq(
                self.entries[i].right.as_str(),
                right,
            ) {
                return Some(i);
            }
            i += 1;
        }
        None
    }

    /// The answer recorded for `left` compared with `right`.
    pub fn get(&self, left: &str, right: &str) -> (order: Option<VersionOrder>)
        requires
            self.wf(),
        ensures
            order == if self@.contains_key((left@, right@)) {
                Some(self@[(left@, right@)])
            } else {
                None
            },
    {
        proof {
            lemma_pairs_map(self.pairs());
        }
        match self.position(left, right) {
            Some(i) => Some(self.entries[i].order),
            None => None,
        }
    }

    /// Records the comparator's answer for `left` compared with `right`, in
    /// place of an earlier answer for the same pair.
    pub fn record(&mut self, left: String, right: String, order: VersionOrder)
        requires
            old(self).wf(),
        ensures
            final(self).wf(),
            final(self)@ == old(self)@.insert((left@, right@), order),
    {
        let ghost before = self.pairs();
        let ghost pair = ((left@, right@), order);
        match self.position(left.as_str(), right.as_str()) {
            Some(i) => {
                self.entries.set(i, Verdict { left, right, order });
                proof {
                    assert(self.pairs() =~= before.update(i as int, pair));
                    lemma_update_pair(before, i as int, pair);
                }
            },
            None => {
                self.entries.push(Verdict { left, right, order });
                proof {
                    assert(self.pairs() =~= before.push(pair));
                    lemma_push_pair(before, pair);
                }
            },
        }
    }

    /// Whether the comparator takes `wanted` and `found` for the same
    /// version. Identical strings are the same version without an answer;
    /// different strings are the same version only where the recorded answer
    /// is `Equal`.
    pub fn same_version(&self, wanted: &str, found: &str) -> (same: bool)
        requires
            self.wf(),
        ensures
            same == same_version(self@, wanted@, found@),
    {
        if str_eq(wanted, found) {
            return true;
        }
        match self.get(wanted, found) {
            Some(VersionOrder::Equal) => true,
            _ => false,
        }
    }
}

/// Whether `wanted` and `found` are the same version under the answers
/// `verdicts`.
pub open spec fn same_version(
    verdicts: Map<(Seq<char>, Seq<char>), VersionOrder>,
    wanted: Seq<char>,
    found: Seq<char>,
) -> bool {
    wanted == found || (verdicts.contains_key((wanted, found)) && verdicts[(wanted, found)]
        == VersionOrder::Equal)
}

} // verus!
