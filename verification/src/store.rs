//! The snapshots that the snapshot directory holds, and which of them a
//! clean-up removes.

use crate::cache::CacheIndex;
use crate::snapshot::{usable_with, Snapshot};
use vstd::prelude::*;

verus! {

/// A snapshot together with the path of the file that holds it.
#[derive(Debug)]
pub struct StoredSnapshot {
    pub path: String,
    pub snapshot: Snapshot,
}

/// Every snapshot of `stored` is well formed.
pub open spec fn all_wf(stored: Seq<StoredSnapshot>) -> bool {
    forall|i: int| 0 <= i < stored.len() ==> (#[trigger] stored[i]).snapshot.wf()
}

/// Whether a clean-up removes `snapshot`: it is not pinned and the caches
/// cannot restore it.
pub open spec fn doomed(snapshot: Snapshot, index: Map<Seq<char>, Set<Seq<char>>>) -> bool {
    !snapshot.pinned && !usable_with(snapshot.packages@, index)
}

/// The paths of the doomed snapshots among `stored`, in their order.
pub open spec fn doomed_paths(
    stored: Seq<StoredSnapshot>,
    index: Map<Seq<char>, Set<Seq<char>>>,
) -> Seq<Seq<char>>
    decreases stored.len(),
{
    if stored.len() == 0 {
        Seq::empty()
    } else if doomed(stored.last().snapshot, index) {
        doomed_paths(stored.drop_last(), index).push(stored.last().path@)
    } else {
        doomed_paths(stored.drop_last(), index)
    }
}

/// The files that a clean-up deletes: those of the snapshots that are
/// neither pinned nor usable with the caches.
pub fn cleanable(stored: &Vec<StoredSnapshot>, index: &CacheIndex) -> (paths: Vec<String>)
    requires
        all_wf(stored@),
    ensures
        crate::text::views(paths@) == doomed_paths(stored@, index@),
{
    let mut paths: Vec<String> = Vec::new();
    let mut i: usize = 0;
    assert(crate::text::views(paths@) =~= doomed_paths(stored@.take(0), index@));
    while i < stored.len()
        invariant
            i <= stored.len(),
            all_wf(stored@),
            crate::text::views(paths@) == doomed_paths(stored@.take(i as int), index@),
        decreases stored.len() - i,
    {
        proof {
            assert(stored@.take(i + 1).drop_last() =~= stored@.take(i as int));
            assert(stored@.take(i + 1).last() == stored@[i as int]);
        }
        let entry = &stored[i];
        let ghost before = crate::text::views(paths@);
        if !entry.snapshot.pinned && !entry.snapshot.usable(index) {
            paths.push(entry.path.clone());
            assert(crate::text::views(paths@) =~= before.push(entry.path@));
        }
        i += 1;
    }
    assert(stored@.take(stored.len() as int) =~= stored@);
    paths
}

/// A clean-up deletes the file of every doomed snapshot, and every file it
/// deletes is that of a doomed snapshot.
pub proof fn lemma_doomed_paths(
    stored: Seq<StoredSnapshot>,
    index: Map<Seq<char>, Set<Seq<char>>>,
)
    ensures
        forall|i: int|
            0 <= i < stored.len() && doomed((#[trigger] stored[i]).snapshot, index)
                ==> doomed_paths(stored, index).contains(stored[i].path@),
        forall|path: Seq<char>| #[trigger]
            doomed_paths(stored, index).contains(path) ==> holds_doomed(stored, index, path),
    decreases stored.len(),
{
    if stored.len() > 0 {
        let shorter = stored.drop_last();
        let last = stored.last();
        lemma_doomed_paths(shorter, index);
        let before = doomed_paths(shorter, index);
        let after = doomed_paths(stored, index);
        assert forall|i: int|
            0 <= i < stored.len() && doomed(
                (#[trigger] stored[i]).snapshot,
                index,
            ) implies after.contains(stored[i].path@) by {
            if i < shorter.len() {
                assert(shorter[i] == stored[i]);
                let k = choose|k: int| 0 <= k < before.len() && before[k] == stored[i].path@;
                assert(after[k] == stored[i].path@);
            } else {
                assert(after[after.len() - 1] == last.path@);
            }
        }
        assert forall|path: Seq<char>| #[trigger] after.contains(path) implies holds_doomed(
            stored,
            index,
            path,
        ) by {
            let k = choose|k: int| 0 <= k < after.len() && after[k] == path;
            if k < before.len() {
                assert(before[k] == path);
                assert(before.contains(path));
                let i = choose|i: int|
                    0 <= i < shorter.len() && (#[trigger] shorter[i]).path@ == path && doomed(
                        shorter[i].snapshot,
                        index,
                    );
                assert(stored[i] == shorter[i]);
            } else {
                assert(stored[stored.len() - 1].path@ == path);
            }
        }
    }
}

/// Whether `path` is the path of a doomed snapshot among `stored`.
pub open spec fn holds_doomed(
    stored: Seq<StoredSnapshot>,
    index: Map<Seq<char>, Set<Seq<char>>>,
    path: Seq<char>,
) -> bool {
    exists|i: int|
        0 <= i < stored.len() && (#[trigger] stored[i]).path@ == path && doomed(
            stored[i].snapshot,
            index,
        )
}

/// After a clean-up, every snapshot whose file is left is pinned or usable
/// with the caches.
pub proof fn lemma_clean_safety(
    stored: Seq<StoredSnapshot>,
    index: Map<Seq<char>, Set<Seq<char>>>,
    i: int,
)
    requires
        0 <= i < stored.len(),
        !doomed_paths(stored, index).contains(stored[i].path@),
    ensures
        stored[i].snapshot.pinned || usable_with(stored[i].snapshot.packages@, index),
{
    lemma_doomed_paths(stored, index);
}

} // verus!
