//! The difference between a snapshot and what is installed now.

use crate::assoc::lemma_pairs_map;
use crate::names::NameSet;
use crate::packages::Packages;
use crate::snapshot::Snapshot;
use crate::text::str_eq;
use crate::version::{same_version, VersionOrder, Verdicts};
use vstd::prelude::*;

verus! {

/// What has to happen to make the installed packages those of a snapshot.
#[derive(Debug)]
pub struct StateDiff {
    /// Packages to install in the snapshot's version: those that are gone
    /// and those whose version changed.
    pub to_add_or_alter: Packages,
    /// Packages that are installed now but were not when the snapshot was
    /// taken.
    pub to_remove: NameSet,
}

impl StateDiff {
    /// Both sides are well formed.
    pub open spec fn wf(&self) -> bool {
        self.to_add_or_alter.wf() && self.to_remove.wf()
    }

    /// Whether nothing has to be done.
    pub fn is_empty(&self) -> (empty: bool)
        requires
            self.wf(),
        ensures
            empty == (self.to_add_or_alter@ == Map::<Seq<char>, Seq<char>>::empty()
                && self.to_remove@ == Set::<Seq<char>>::empty()),
    {
        self.to_add_or_alter.is_empty() && self.to_remove.is_empty()
    }
}

/// Whether the snapshot's version of `name` has to be installed: the
/// snapshot holds `name`, and either nothing of that name is installed or
/// the installed version is another one.
pub open spec fn needs_install(
    snapshot: Map<Seq<char>, Seq<char>>,
    installed: Map<Seq<char>, Seq<char>>,
    verdicts: Map<(Seq<char>, Seq<char>), VersionOrder>,
    name: Seq<char>,
) -> bool {
    snapshot.contains_key(name) && (!installed.contains_key(name) || !same_version(
        verdicts,
        snapshot[name],
        installed[name],
    ))
}

/// Whether `name` has to be removed: it is installed and the snapshot does
/// not hold it.
pub open spec fn needs_removal(
    snapshot: Map<Seq<char>, Seq<char>>,
    installed: Map<Seq<char>, Seq<char>>,
    name: Seq<char>,
) -> bool {
    installed.contains_key(name) && !snapshot.contains_key(name)
}

/// The packages to install, each with the snapshot's version.
pub open spec fn diff_to_add_or_alter(
    snapshot: Map<Seq<char>, Seq<char>>,
    installed: Map<Seq<char>, Seq<char>>,
    verdicts: Map<(Seq<char>, Seq<char>), VersionOrder>,
) -> Map<Seq<char>, Seq<char>> {
    Map::new(
        |name: Seq<char>| needs_install(snapshot, installed, verdicts, name),
        |name: Seq<char>| snapshot[name],
    )
}

/// The names to remove.
pub open spec fn diff_to_remove(
    snapshot: Map<Seq<char>, Seq<char>>,
    installed: Map<Seq<char>, Seq<char>>,
) -> Set<Seq<char>> {
    Set::new(|name: Seq<char>| needs_removal(snapshot, installed, name))
}

/// The packages of `wanted` that are not installed, in their order.
pub open spec fn missing_pairs(
    wanted: Seq<(Seq<char>, Seq<char>)>,
    installed: Map<Seq<char>, Seq<char>>,
) -> Seq<(Seq<char>, Seq<char>)>
    decreases wanted.len(),
{
    if wanted.len() == 0 {
        Seq::empty()
    } else if !installed.contains_key(wanted.last().0) {
        missing_pairs(wanted.drop_last(), installed).push(wanted.last())
    } else {
        missing_pairs(wanted.drop_last(), installed)
    }
}

/// The installed packages that the snapshot holds in another version, in
/// their order, each with the snapshot's version.
pub open spec fn changed_pairs(
    found: Seq<(Seq<char>, Seq<char>)>,
    snapshot: Map<Seq<char>, Seq<char>>,
    verdicts: Map<(Seq<char>, Seq<char>), VersionOrder>,
) -> Seq<(Seq<char>, Seq<char>)>
    decreases found.len(),
{
    if found.len() == 0 {
        Seq::empty()
    } else if snapshot.contains_key(found.last().0) && !same_version(
        verdicts,
        snapshot[found.last().0],
        found.last().1,
    ) {
        changed_pairs(found.drop_last(), snapshot, verdicts).push(
            (found.last().0, snapshot[found.last().0]),
        )
    } else {
        changed_pairs(found.drop_last(), snapshot, verdicts)
    }
}

/// The installed names that the snapshot does not hold, in their order.
pub open spec fn extra_names(
    found: Seq<(Seq<char>, Seq<char>)>,
    snapshot: Map<Seq<char>, Seq<char>>,
) -> Seq<Seq<char>>
    decreases found.len(),
{
    if found.len() == 0 {
        Seq::empty()
    } else if !snapshot.contains_key(found.last().0) {
        extra_names(found.drop_last(), snapshot).push(found.last().0)
    } else {
        extra_names(found.drop_last(), snapshot)
    }
}

/// Whether `name` stands among the first `upto` pairs.
pub open spec fn seen(pairs: Seq<(Seq<char>, Seq<char>)>, upto: int, name: Seq<char>) -> bool {
    exists|k: int| 0 <= k < upto && k < pairs.len() && #[trigger] pairs[k].0 == name
}

/// The difference between `snapshot` and the `installed` packages, where
/// `verdicts` holds what the version comparator said of the versions that
/// differ as strings.
pub fn package_diff(snapshot: &Snapshot, installed: &Packages, verdicts: &Verdicts) -> (diff:
    StateDiff)
    requires
        snapshot.wf(),
        installed.wf(),
        verdicts.wf(),
    ensures
        diff.wf(),
        diff.to_add_or_alter@ == diff_to_add_or_alter(snapshot.packages@, installed@, verdicts@),
        diff.to_remove@ == diff_to_remove(snapshot.packages@, installed@),
        diff.to_add_or_alter@.dom().disjoint(diff.to_remove@),
        diff.to_add_or_alter.pairs() == missing_pairs(snapshot.packages.pairs(), installed@)
            + changed_pairs(installed.pairs(), snapshot.packages@, verdicts@),
        diff.to_remove.items() == extra_names(installed.pairs(), snapshot.packages@),
{
    let mut to_add_or_alter = Packages::new();
    let mut to_remove = NameSet::new();
    let ghost wanted = snapshot.packages@;
    let ghost found = installed@;
    let ghost wanted_pairs = snapshot.packages.pairs();
    let ghost found_pairs = installed.pairs();
    proof {
        lemma_pairs_map(wanted_pairs);
        lemma_pairs_map(found_pairs);
    }

    // A package of the snapshot that is not installed at all comes back.
    let mut i: usize = 0;
    while i < snapshot.packages.len()
        invariant
            i <= wanted_pairs.len(),
            snapshot.wf(),
            installed.wf(),
            wanted == snapshot.packages@,
            found == installed@,
            wanted_pairs == snapshot.packages.pairs(),
            to_add_or_alter.wf(),
            to_add_or_alter@ =~= Map::new(
                |name: Seq<char>| seen(wanted_pairs, i as int, name) && !found.contains_key(name),
                |name: Seq<char>| wanted[name],
            ),
            to_add_or_alter.pairs() == missing_pairs(wanted_pairs.take(i as int), found),
        decreases wanted_pairs.len() - i,
    {
        let package = snapshot.packages.entry(i);
        proof {
            assert(wanted_pairs.take(i + 1).drop_last() =~= wanted_pairs.take(i as int));
            assert(wanted_pairs.take(i + 1).last() == wanted_pairs[i as int]);
            assert(!seen(wanted_pairs, i as int, package.name@)) by {
                if seen(wanted_pairs, i as int, package.name@) {
                    let k = choose|k: int|
                        0 <= k < i && k < wanted_pairs.len() && #[trigger] wanted_pairs[k].0
                            == package.name@;
                    assert(wanted_pairs[k].0 != wanted_pairs[i as int].0);
                }
            }
            lemma_pairs_map(wanted_pairs);
            assert(wanted_pairs[i as int].0 == package.name@);
            assert(wanted[package.name@] == package.version@);
            assert forall|name: Seq<char>| seen(wanted_pairs, i + 1, name) <==> (seen(
                wanted_pairs,
                i as int,
                name,
            ) || name == package.name@) by {
                if seen(wanted_pairs, i + 1, name) {
                    let k = choose|k: int|
                        0 <= k < i + 1 && k < wanted_pairs.len() && #[trigger] wanted_pairs[k].0
                            == name;
                    if k < i {
                        assert(seen(wanted_pairs, i as int, name));
                    }
                }
                if seen(wanted_pairs, i as int, name) {
                    let k = choose|k: int|
                        0 <= k < i && k < wanted_pairs.len() && #[trigger] wanted_pairs[k].0
                            == name;
                    assert(0 <= k < i + 1 && wanted_pairs[k].0 == name);
                }
            }
        }
        if !installed.contains(package.name.as_str()) {
            let accepted = to_add_or_alter.insert(package.name.clone(), package.version.clone());
            assert(accepted);
        }
        i += 1;
    }

    assert(wanted_pairs.take(wanted_pairs.len() as int) =~= wanted_pairs);
    let ghost missing = missing_pairs(wanted_pairs, found);
    assert(to_add_or_alter.pairs() =~= missing + changed_pairs(
        found_pairs.take(0),
        wanted,
        verdicts@,
    ));
    assert(to_remove.items() =~= extra_names(found_pairs.take(0), wanted));
    // An installed package that the snapshot lacks leaves; one that the
    // snapshot has in another version is installed in the snapshot's.
    let ghost verdict_map = verdicts@;
    let mut j: usize = 0;
    while j < installed.len()
        invariant
            j <= found_pairs.len(),
            snapshot.wf(),
            installed.wf(),
            verdicts.wf(),
            wanted == snapshot.packages@,
            found == installed@,
            verdict_map == verdicts@,
            wanted_pairs == snapshot.packages.pairs(),
            found_pairs == installed.pairs(),
            to_add_or_alter.wf(),
            to_remove.wf(),
            to_add_or_alter@ =~= Map::new(
                |name: Seq<char>|
                    wanted.contains_key(name) && (!found.contains_key(name) || (seen(
                        found_pairs,
                        j as int,
                        name,
                    ) && !same_version(verdict_map, wanted[name], found[name]))),
                |name: Seq<char>| wanted[name],
            ),
            to_remove@ =~= Set::new(
                |name: Seq<char>| seen(found_pairs, j as int, name) && !wanted.contains_key(name),
            ),
            missing == missing_pairs(wanted_pairs, found),
            to_add_or_alter.pairs() == missing + changed_pairs(
                found_pairs.take(j as int),
                wanted,
                verdict_map,
            ),
            to_remove.items() == extra_names(found_pairs.take(j as int), wanted),
        decreases found_pairs.len() - j,
    {
        let package = installed.entry(j);
        let ghost pairs_before = to_add_or_alter.pairs();
        let ghost changed_before = changed_pairs(found_pairs.take(j as int), wanted, verdict_map);
        proof {
            assert(found_pairs.take(j + 1).drop_last() =~= found_pairs.take(j as int));
            assert(found_pairs.take(j + 1).last() == found_pairs[j as int]);
            assert(!seen(found_pairs, j as int, package.name@)) by {
                if seen(found_pairs, j as int, package.name@) {
                    let k = choose|k: int|
                        0 <= k < j && k < found_pairs.len() && #[trigger] found_pairs[k].0
                            == package.name@;
                    assert(found_pairs[k].0 != found_pairs[j as int].0);
                }
            }
            lemma_pairs_map(found_pairs);
            assert(found_pairs[j as int].0 == package.name@);
            assert(found[package.name@] == package.version@);
            assert forall|name: Seq<char>| seen(found_pairs, j + 1, name) <==> (seen(
                found_pairs,
                j as int,
                name,
            ) || name == package.name@) by {
                if seen(found_pairs, j + 1, name) {
                    let k = choose|k: int|
                        0 <= k < j + 1 && k < found_pairs.len() && #[trigger] found_pairs[k].0
                            == name;
                    if k < j {
                        assert(seen(found_pairs, j as int, name));
                    }
                }
                if seen(found_pairs, j as int, name) {
                    let k = choose|k: int|
                        0 <= k < j && k < found_pairs.len() && #[trigger] found_pairs[k].0 == name;
                    assert(0 <= k < j + 1 && found_pairs[k].0 == name);
                }
            }
        }
        match snapshot.packages.get(package.name.as_str()) {
            None => {
                to_remove.insert(package.name.clone());
            },
            Some(version) => {
                if !verdicts.same_version(version.as_str(), package.version.as_str()) {
                    proof {
                        lemma_pairs_map(wanted_pairs);
                    }
                    let accepted = to_add_or_alter.insert(package.name.clone(), version.clone());
                    assert(accepted);
                    assert(to_add_or_alter.pairs() =~= missing + changed_before.push(
                        (package.name@, version@),
                    ));
                }
            },
        }
        j += 1;
    }
    proof {
        lemma_pairs_map(found_pairs);
        assert forall|name: Seq<char>| seen(found_pairs, found_pairs.len() as int, name)
            <==> found.contains_key(name) by {
            if found.contains_key(name) {
                let k = choose|k: int| 0 <= k < found_pairs.len() && #[trigger] found_pairs[k].0
                    == name;
                assert(seen(found_pairs, found_pairs.len() as int, name));
            }
        }
        assert(found_pairs.take(found_pairs.len() as int) =~= found_pairs);
        assert(to_add_or_alter@ =~= diff_to_add_or_alter(wanted, found, verdict_map));
        assert(to_remove@ =~= diff_to_remove(wanted, found));
    }
    StateDiff { to_add_or_alter, to_remove }
}

/// Whether the comparator has to be asked about `name`: it is installed
/// and in the snapshot, in versions that differ as strings.
pub open spec fn in_question(
    snapshot: Map<Seq<char>, Seq<char>>,
    installed: Map<Seq<char>, Seq<char>>,
    name: Seq<char>,
) -> bool {
    snapshot.contains_key(name) && installed.contains_key(name) && snapshot[name]
        != installed[name]
}

/// Whether `question` holds the two versions of `name`, which is in
/// question.
pub open spec fn asks_about(
    question: (String, String),
    snapshot: Map<Seq<char>, Seq<char>>,
    installed: Map<Seq<char>, Seq<char>>,
    name: Seq<char>,
) -> bool {
    in_question(snapshot, installed, name) && question.0@ == snapshot[name] && question.1@
        == installed[name]
}

/// The questions for the comparator: for each installed package that the
/// snapshot holds in a version that differs as a string, the snapshot's
/// version and the installed one, in the order of the installed packages.
pub open spec fn questions(
    found: Seq<(Seq<char>, Seq<char>)>,
    snapshot: Map<Seq<char>, Seq<char>>,
) -> Seq<(Seq<char>, Seq<char>)>
    decreases found.len(),
{
    if found.len() == 0 {
        Seq::empty()
    } else if snapshot.contains_key(found.last().0) && snapshot[found.last().0] != found.last().1 {
        questions(found.drop_last(), snapshot).push((snapshot[found.last().0], found.last().1))
    } else {
        questions(found.drop_last(), snapshot)
    }
}

/// Pairs of strings as pairs of character sequences.
pub open spec fn pair_views(pairs: Seq<(String, String)>) -> Seq<(Seq<char>, Seq<char>)> {
    Seq::new(pairs.len(), |i: int| (pairs[i].0@, pairs[i].1@))
}

/// Whether `question` holds the two versions of some name in question.
pub open spec fn is_question(
    question: (String, String),
    snapshot: Map<Seq<char>, Seq<char>>,
    installed: Map<Seq<char>, Seq<char>>,
) -> bool {
    exists|name: Seq<char>| #[trigger] asks_about(question, snapshot, installed, name)
}

/// Whether one of `asked` holds the two versions of `name`.
pub open spec fn is_asked(
    asked: Seq<(String, String)>,
    snapshot: Map<Seq<char>, Seq<char>>,
    installed: Map<Seq<char>, Seq<char>>,
    name: Seq<char>,
) -> bool {
    exists|k: int| 0 <= k < asked.len() && #[trigger] asks_about(asked[k], snapshot, installed, name)
}

/// The pairs of versions that the comparator has to be asked about before
/// the difference can be computed: for each package that is installed and
/// in the snapshot in versions that differ as strings, the snapshot's
/// version and the installed one, and no other pair.
pub fn version_questions(snapshot: &Snapshot, installed: &Packages) -> (asked: Vec<
    (String, String),
>)
    requires
        snapshot.wf(),
        installed.wf(),
    ensures
        pair_views(asked@) == questions(installed.pairs(), snapshot.packages@),
        forall|k: int|
            0 <= k < asked.len() ==> is_question(
                #[trigger] asked[k],
                snapshot.packages@,
                installed@,
            ),
        forall|name: Seq<char>|
            #[trigger] in_question(snapshot.packages@, installed@, name) ==> is_asked(
                asked@,
                snapshot.packages@,
                installed@,
                name,
            ),
{
    let ghost wanted = snapshot.packages@;
    let ghost found = installed@;
    let ghost found_pairs = installed.pairs();
    let mut asked: Vec<(String, String)> = Vec::new();
    let mut j: usize = 0;
    assert(pair_views(asked@) =~= questions(found_pairs.take(0), wanted));
    while j < installed.len()
        invariant
            j <= found_pairs.len(),
            pair_views(asked@) == questions(found_pairs.take(j as int), wanted),
            snapshot.wf(),
            installed.wf(),
            wanted == snapshot.packages@,
            found == installed@,
            found_pairs == installed.pairs(),
            forall|k: int| 0 <= k < asked.len() ==> is_question(#[trigger] asked[k], wanted, found),
            forall|name: Seq<char>|
                #[trigger] in_question(wanted, found, name) && seen(found_pairs, j as int, name)
                    ==> is_asked(asked@, wanted, found, name),
        decreases found_pairs.len() - j,
    {
        let package = installed.entry(j);
        let ghost before = asked@;
        proof {
            lemma_pairs_map(found_pairs);
            assert(found_pairs[j as int].0 == package.name@);
            assert(found_pairs.take(j + 1).drop_last() =~= found_pairs.take(j as int));
            assert(found_pairs.take(j + 1).last() == found_pairs[j as int]);
        }
        let mut grown = false;
        match snapshot.packages.get(package.name.as_str()) {
            None => {},
            Some(version) => {
                if !str_eq(version.as_str(), package.version.as_str()) {
                    asked.push((version.clone(), package.version.clone()));
                    grown = true;
                    assert(pair_views(asked@) =~= pair_views(before).push(
                        (version@, package.version@),
                    ));
                    assert(asks_about(asked[asked.len() - 1], wanted, found, package.name@));
                }
            },
        }
        proof {
            assert forall|k: int| 0 <= k < asked.len() implies is_question(
                #[trigger] asked[k],
                wanted,
                found,
            ) by {
                if k < before.len() {
                    assert(asked[k] == before[k]);
                }
            }
            assert forall|name: Seq<char>| #[trigger]
                in_question(wanted, found, name) && seen(
                    found_pairs,
                    j + 1,
                    name,
                ) implies is_asked(asked@, wanted, found, name) by {
                let at = choose|at: int|
                    0 <= at < j + 1 && at < found_pairs.len() && #[trigger] found_pairs[at].0
                        == name;
                if at < j {
                    assert(seen(found_pairs, j as int, name));
                    assert(is_asked(before, wanted, found, name));
                    let k = choose|k: int|
                        0 <= k < before.len() && #[trigger] asks_about(
                            before[k],
                            wanted,
                            found,
                            name,
                        );
                    assert(asked[k] == before[k]);
                    assert(asks_about(asked[k], wanted, found, name));
                } else {
                    assert(grown);
                    assert(asks_about(asked[asked.len() - 1], wanted, found, name));
                }
            }
        }
        j += 1;
    }
    proof {
        lemma_pairs_map(found_pairs);
        assert forall|name: Seq<char>| #[trigger] in_question(wanted, found, name) implies seen(
            found_pairs,
            found_pairs.len() as int,
            name,
        ) by {
            let k = choose|k: int| 0 <= k < found_pairs.len() && #[trigger] found_pairs[k].0
                == name;
            assert(seen(found_pairs, found_pairs.len() as int, name));
        }
        assert(found_pairs.take(found_pairs.len() as int) =~= found_pairs);
    }
    asked
}

/// The difference goes by the comparator's answers only for the names in
/// question: two sets of answers that agree on them give one difference.
pub proof fn lemma_questions_suffice(
    snapshot: Map<Seq<char>, Seq<char>>,
    installed: Map<Seq<char>, Seq<char>>,
    first: Map<(Seq<char>, Seq<char>), VersionOrder>,
    second: Map<(Seq<char>, Seq<char>), VersionOrder>,
)
    requires
        forall|name: Seq<char>| #[trigger]
            in_question(snapshot, installed, name) ==> same_version(
                first,
                snapshot[name],
                installed[name],
            ) == same_version(second, snapshot[name], installed[name]),
    ensures
        diff_to_add_or_alter(snapshot, installed, first) == diff_to_add_or_alter(
            snapshot,
            installed,
            second,
        ),
{
    assert forall|name: Seq<char>|
        needs_install(snapshot, installed, first, name) == needs_install(
            snapshot,
            installed,
            second,
            name,
        ) by {
        if snapshot.contains_key(name) && installed.contains_key(name) {
            if snapshot[name] != installed[name] {
                assert(in_question(snapshot, installed, name));
            }
        }
    }
    assert(diff_to_add_or_alter(snapshot, installed, first) =~= diff_to_add_or_alter(
        snapshot,
        installed,
        second,
    ));
}

/// The difference between a package set and itself is empty on both sides,
/// whatever the comparator said.
pub proof fn lemma_diff_identity(
    installed: Map<Seq<char>, Seq<char>>,
    verdicts: Map<(Seq<char>, Seq<char>), VersionOrder>,
)
    ensures
        diff_to_add_or_alter(installed, installed, verdicts) == Map::<
            Seq<char>,
            Seq<char>,
        >::empty(),
        diff_to_remove(installed, installed) == Set::<Seq<char>>::empty(),
{
    assert(diff_to_add_or_alter(installed, installed, verdicts) =~= Map::<
        Seq<char>,
        Seq<char>,
    >::empty());
    assert(diff_to_remove(installed, installed) =~= Set::<Seq<char>>::empty());
}

/// No name is both to be installed and to be removed.
pub proof fn lemma_diff_disjoint(
    snapshot: Map<Seq<char>, Seq<char>>,
    installed: Map<Seq<char>, Seq<char>>,
    verdicts: Map<(Seq<char>, Seq<char>), VersionOrder>,
)
    ensures
        diff_to_add_or_alter(snapshot, installed, verdicts).dom().disjoint(
            diff_to_remove(snapshot, installed),
        ),
{
}

/// Whether `name` stands differently in the snapshot and among the
/// installed packages: it is in one of them only, or it is in both in
/// versions that the comparator does not take for the same.
pub open spec fn differs(
    snapshot: Map<Seq<char>, Seq<char>>,
    installed: Map<Seq<char>, Seq<char>>,
    verdicts: Map<(Seq<char>, Seq<char>), VersionOrder>,
    name: Seq<char>,
) -> bool {
    ||| snapshot.contains_key(name) != installed.contains_key(name)
    ||| (snapshot.contains_key(name) && installed.contains_key(name) && !same_version(
        verdicts,
        snapshot[name],
        installed[name],
    ))
}

/// Every name that stands differently in the snapshot and among the
/// installed packages is on exactly one side of the difference, with the
/// snapshot's version where it is to be installed; every other name is on
/// neither side.
pub proof fn lemma_diff_complete(
    snapshot: Map<Seq<char>, Seq<char>>,
    installed: Map<Seq<char>, Seq<char>>,
    verdicts: Map<(Seq<char>, Seq<char>), VersionOrder>,
    name: Seq<char>,
)
    ensures
        differs(snapshot, installed, verdicts, name) <==> (diff_to_add_or_alter(
            snapshot,
            installed,
            verdicts,
        ).contains_key(name) != diff_to_remove(snapshot, installed).contains(name)),
        !differs(snapshot, installed, verdicts, name) ==> !diff_to_add_or_alter(
            snapshot,
            installed,
            verdicts,
        ).contains_key(name) && !diff_to_remove(snapshot, installed).contains(name),
        diff_to_add_or_alter(snapshot, installed, verdicts).contains_key(name)
            ==> diff_to_add_or_alter(snapshot, installed, verdicts)[name] == snapshot[name],
{
}

} // verus!
