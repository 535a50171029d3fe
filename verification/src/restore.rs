//! Restoring a snapshot: which snapshots are offered, which tarballs are
//! installed, and how the package manager is called.

use crate::cache::{CacheIndex, PackagePath};
use crate::diff::StateDiff;
use crate::names::NameSet;
use crate::packages::Packages;
use crate::snapshot::{usable_with, Error, Snapshot};
use crate::text::{str_eq, views};
use vstd::prelude::*;

verus! {

/// Every snapshot of `snapshots` is well formed.
pub open spec fn all_wf(snapshots: Seq<Snapshot>) -> bool {
    forall|i: int| 0 <= i < snapshots.len() ==> (#[trigger] snapshots[i]).wf()
}

/// The keys of the snapshots' times, in the order of the snapshots.
pub open spec fn keys_of(snapshots: Seq<Snapshot>) -> Seq<int> {
    Seq::new(snapshots.len(), |i: int| snapshots[i].time.key())
}

/// Whether the place `i` goes before the place `j`: its key is smaller, or
/// as large and `i` is the earlier place.
pub open spec fn goes_before(keys: Seq<int>, i: int, j: int) -> bool {
    keys[i] < keys[j] || (keys[i] == keys[j] && i < j)
}

/// Whether `order` names the place `i`.
pub open spec fn listed(order: Seq<usize>, i: int) -> bool {
    exists|k: int| 0 <= k < order.len() && #[trigger] order[k] == i
}

/// The places of the snapshots that the caches can restore.
pub open spec fn usable_places(
    snapshots: Seq<Snapshot>,
    index: Map<Seq<char>, Set<Seq<char>>>,
) -> Set<int> {
    Set::new(
        |i: int| 0 <= i < snapshots.len() && usable_with(snapshots[i].packages@, index),
    )
}

/// Whether `order` holds, in their order, exactly those of the first
/// `upto` places that are in `good`.
pub open spec fn orders(order: Seq<usize>, keys: Seq<int>, good: Set<int>, upto: int) -> bool {
    &&& forall|k: int| 0 <= k < order.len() ==> (#[trigger] order[k]) < upto && good.contains(order[k] as int)
    &&& forall|n: int| 0 <= n < upto && #[trigger] good.contains(n) ==> listed(order, n)
    &&& forall|a: int, b: int|
        0 <= a < b < order.len() ==> goes_before(
            keys,
            #[trigger] order[a] as int,
            #[trigger] order[b] as int,
        )
}

/// One more place that is not in `good` changes nothing.
proof fn lemma_order_skip(order: Seq<usize>, keys: Seq<int>, good: Set<int>, i: int)
    requires
        orders(order, keys, good, i),
        !good.contains(i),
    ensures
        orders(order, keys, good, i + 1),
{
}

/// A place in `good` goes behind everything that is at most as new.
proof fn lemma_order_insert(
    order: Seq<usize>,
    keys: Seq<int>,
    good: Set<int>,
    i: usize,
    place: int,
)
    requires
        orders(order, keys, good, i as int),
        good.contains(i as int),
        0 <= i < keys.len(),
        0 <= place <= order.len(),
        forall|k: int| place <= k < order.len() ==> keys[(#[trigger] order[k]) as int] > keys[i as int],
        place > 0 ==> keys[order[place - 1] as int] <= keys[i as int],
    ensures
        orders(order.insert(place, i), keys, good, i + 1),
{
    let after = order.insert(place, i);
    assert(after[place] == i);
    assert forall|k: int| 0 <= k < after.len() implies (#[trigger] after[k]) < i + 1
        && good.contains(after[k] as int) by {
        if k < place {
            assert(after[k] == order[k]);
        } else if k > place {
            assert(after[k] == order[k - 1]);
        }
    }
    assert forall|n: int| 0 <= n < i + 1 && #[trigger] good.contains(n) implies listed(
        after,
        n,
    ) by {
        if n < i {
            assert(listed(order, n));
            let k = choose|k: int| 0 <= k < order.len() && #[trigger] order[k] == n;
            if k < place {
                assert(after[k] == n);
            } else {
                assert(after[k + 1] == n);
            }
        } else {
            assert(after[place] == n);
        }
    }
    assert forall|a: int, b: int| 0 <= a < b < after.len() implies goes_before(
        keys,
        #[trigger] after[a] as int,
        #[trigger] after[b] as int,
    ) by {
        let x: int = if a < place {
            a
        } else {
            a - 1
        };
        let y: int = if b < place {
            b
        } else {
            b - 1
        };
        if a != place {
            assert(after[a] == order[x]);
        }
        if b != place {
            assert(after[b] == order[y]);
        }
        if a != place && b != place {
            assert(goes_before(keys, order[x] as int, order[y] as int));
        } else if a == place {
            assert(keys[order[y] as int] > keys[i as int]);
        } else {
            // Everything before the place is at most as new.
            if a < place - 1 {
                assert(goes_before(keys, order[a] as int, order[place - 1] as int));
            }
            assert(keys[order[place - 1] as int] <= keys[i as int]);
            assert(order[a] < i);
        }
    }
}

/// The places of the snapshots that the caches can restore, oldest first;
/// of two as old, the one that stands first in `snapshots`.
pub fn restore_order(snapshots: &Vec<Snapshot>, index: &CacheIndex) -> (order: Vec<usize>)
    requires
        all_wf(snapshots@),
    ensures
        orders(
            order@,
            keys_of(snapshots@),
            usable_places(snapshots@, index@),
            snapshots.len() as int,
        ),
{
    let ghost keys = keys_of(snapshots@);
    let ghost good = usable_places(snapshots@, index@);
    let mut order: Vec<usize> = Vec::new();
    let mut i: usize = 0;
    while i < snapshots.len()
        invariant
            i <= snapshots.len(),
            all_wf(snapshots@),
            keys == keys_of(snapshots@),
            good == usable_places(snapshots@, index@),
            orders(order@, keys, good, i as int),
        decreases snapshots.len() - i,
    {
        if snapshots[i].usable(index) {
            let key = snapshots[i].time.sort_key();
            let mut place: usize = order.len();
            while place > 0 && snapshots[order[place - 1]].time.sort_key() > key
                invariant
                    place <= order.len(),
                    i < snapshots.len(),
                    keys == keys_of(snapshots@),
                    key == keys[i as int],
                    forall|k: int| 0 <= k < order.len() ==> (#[trigger] order[k]) < i,
                    forall|k: int|
                        place <= k < order.len() ==> keys[(#[trigger] order[k]) as int] > key,
                decreases place,
            {
                place -= 1;
            }
            proof {
                lemma_order_insert(order@, keys, good, i, place as int);
            }
            order.insert(place, i);
        } else {
            proof {
                lemma_order_skip(order@, keys, good, i as int);
            }
        }
        i += 1;
    }
    order
}

/// The width of the column of numbers in a menu of `count` snapshots.
pub fn menu_width(count: usize) -> (width: usize)
    ensures
        width == 1 + count / 10,
{
    1 + count / 10
}

/// The largest number that the user may pick from a menu of `count`
/// snapshots, counted from 0. With no snapshot to offer there is nothing to
/// pick.
pub fn last_choice(count: usize) -> (last: Result<usize, Error>)
    ensures
        count > 0 ==> last == Ok::<usize, Error>((count - 1) as usize),
        count == 0 ==> last == Err::<usize, Error>(Error::Empty),
{
    if count == 0 {
        Err(Error::Empty)
    } else {
        Ok(count - 1)
    }
}

/// Whether `file` is a tarball of `name` in exactly the version that
/// `wanted` asks for.
pub open spec fn serves(wanted: Map<Seq<char>, Seq<char>>, file: PackagePath, name: Seq<char>) -> bool {
    file.name_spec() == name && wanted.contains_key(name) && wanted[name] == file.version_spec()
}

/// Whether one of `files` serves `name`.
pub open spec fn has_server(
    wanted: Map<Seq<char>, Seq<char>>,
    files: Seq<PackagePath>,
    name: Seq<char>,
) -> bool {
    exists|j: int| 0 <= j < files.len() && serves(wanted, #[trigger] files[j], name)
}

/// The paths of the tarballs to install: of the files that serve a wanted
/// name, for each name the first one, in the order of `files`.
pub open spec fn chosen_paths(wanted: Map<Seq<char>, Seq<char>>, files: Seq<PackagePath>) -> Seq<
    Seq<char>,
>
    decreases files.len(),
{
    if files.len() == 0 {
        Seq::empty()
    } else if serves(wanted, files.last(), files.last().name_spec()) && !has_server(
        wanted,
        files.drop_last(),
        files.last().name_spec(),
    ) {
        chosen_paths(wanted, files.drop_last()).push(files.last().path_spec())
    } else {
        chosen_paths(wanted, files.drop_last())
    }
}

/// Whether every name of `wanted` has a tarball among `files`.
pub open spec fn all_served(wanted: Map<Seq<char>, Seq<char>>, files: Seq<PackagePath>) -> bool {
    forall|name: Seq<char>| #[trigger] wanted.contains_key(name) ==> has_server(wanted, files, name)
}

/// Whether `error` says that the tarball of a wanted name is missing, and
/// it is.
pub open spec fn is_cache_race(
    error: Error,
    wanted: Map<Seq<char>, Seq<char>>,
    files: Seq<PackagePath>,
) -> bool {
    match error {
        Error::CacheRace(name) => wanted.contains_key(name@) && !has_server(wanted, files, name@),
        _ => false,
    }
}

/// Whether `error` names the first of the wanted packages `pairs` that has
/// no tarball among `files`.
pub open spec fn names_first_unserved(
    error: Error,
    pairs: Seq<(Seq<char>, Seq<char>)>,
    wanted: Map<Seq<char>, Seq<char>>,
    files: Seq<PackagePath>,
) -> bool {
    match error {
        Error::CacheRace(name) => exists|k: int|
            0 <= k < pairs.len() && (#[trigger] pairs[k]).0 == name@ && forall|n: int|
                0 <= n < k ==> has_server(wanted, files, (#[trigger] pairs[n]).0),
        _ => false,
    }
}

/// The tarballs to install for `wanted`: for each name one file of `files`
/// with that name and exactly the wanted version, the first where there are
/// several. A name without such a file is a cache race.
pub fn select_tarballs(wanted: &Packages, files: &Vec<PackagePath>) -> (chosen: Result<
    Vec<String>,
    Error,
>)
    requires
        wanted.wf(),
    ensures
        match chosen {
            Ok(paths) => all_served(wanted@, files@) && views(paths@) == chosen_paths(
                wanted@,
                files@,
            ),
            Err(error) => is_cache_race(error, wanted@, files@) && names_first_unserved(
                error,
                wanted.pairs(),
                wanted@,
                files@,
            ),
        },
{
    let mut paths: Vec<String> = Vec::new();
    let mut served = NameSet::new();
    let mut i: usize = 0;
    assert(views(paths@) =~= chosen_paths(wanted@, files@.take(0)));
    while i < files.len()
        invariant
            i <= files.len(),
            wanted.wf(),
            served.wf(),
            views(paths@) == chosen_paths(wanted@, files@.take(i as int)),
            forall|name: Seq<char>| #[trigger]
                served@.contains(name) <==> has_server(wanted@, files@.take(i as int), name),
        decreases files.len() - i,
    {
        let file = &files[i];
        let ghost shorter = files@.take(i as int);
        let ghost longer = files@.take(i + 1);
        let ghost before = views(paths@);
        proof {
            assert(longer.drop_last() =~= shorter);
            assert(longer.last() == files@[i as int]);
            assert forall|name: Seq<char>| has_server(wanted@, longer, name) <==> (has_server(
                wanted@,
                shorter,
                name,
            ) || serves(wanted@, files@[i as int], name)) by {
                if has_server(wanted@, longer, name) {
                    let j = choose|j: int|
                        0 <= j < longer.len() && serves(wanted@, #[trigger] longer[j], name);
                    if j < i {
                        assert(shorter[j] == longer[j]);
                    }
                }
                if has_server(wanted@, shorter, name) {
                    let j = choose|j: int|
                        0 <= j < shorter.len() && serves(wanted@, #[trigger] shorter[j], name);
                    assert(longer[j] == shorter[j]);
                }
                if serves(wanted@, files@[i as int], name) {
                    assert(longer[i as int] == files@[i as int]);
                }
            }
        }
        let fits = match wanted.get(file.name().as_str()) {
            Some(version) => str_eq(version.as_str(), file.version().as_str()),
            None => false,
        };
        assert(fits == serves(wanted@, *file, file.name_spec()));
        if fits {
            let fresh = served.insert(file.name().clone());
            if fresh {
                paths.push(file.path().clone());
                assert(views(paths@) =~= before.push(file.path_spec()));
            }
        }
        i += 1;
    }
    assert(files@.take(files.len() as int) =~= files@);
    let mut k: usize = 0;
    while k < wanted.len()
        invariant
            k <= wanted.pairs().len(),
            wanted.wf(),
            views(paths@) == chosen_paths(wanted@, files@),
            forall|name: Seq<char>| #[trigger]
                served@.contains(name) <==> has_server(wanted@, files@, name),
            forall|n: int| 0 <= n < k ==> has_server(wanted@, files@, (#[trigger] wanted.pairs()[n]).0),
        decreases wanted.pairs().len() - k,
    {
        let package = wanted.entry(k);
        proof {
            crate::assoc::lemma_pairs_map(wanted.pairs());
            assert(wanted@.contains_key(wanted.pairs()[k as int].0));
        }
        if !served.contains(package.name.as_str()) {
            let error = Error::CacheRace(package.name.clone());
            assert(wanted.pairs()[k as int].0 == package.name@);
            assert(names_first_unserved(error, wanted.pairs(), wanted@, files@));
            return Err(error);
        }
        k += 1;
    }
    proof {
        crate::assoc::lemma_pairs_map(wanted.pairs());
        assert forall|name: Seq<char>| #[trigger] wanted@.contains_key(name) implies has_server(
            wanted@,
            files@,
            name,
        ) by {
            let n = choose|n: int| 0 <= n < wanted.pairs().len() && #[trigger] wanted.pairs()[n].0
                == name;
            assert(has_server(wanted@, files@, wanted.pairs()[n].0));
        }
    }
    Ok(paths)
}

/// The arguments with which the package manager installs the tarballs at
/// `paths`.
pub fn install_arguments(paths: Vec<String>) -> (arguments: Vec<String>)
    ensures
        views(arguments@) == seq!["-U"@] + views(paths@),
{
    let mut arguments: Vec<String> = Vec::new();
    arguments.push("-U".to_owned());
    let mut paths = paths;
    let ghost given = views(paths@);
    arguments.append(&mut paths);
    assert(views(arguments@) =~= seq!["-U"@] + given);
    arguments
}

/// The arguments with which the package manager removes the packages
/// `names`.
pub fn removal_arguments(names: &NameSet) -> (arguments: Vec<String>)
    ensures
        views(arguments@) == seq!["-R"@] + names.items(),
{
    let mut arguments: Vec<String> = Vec::new();
    arguments.push("-R".to_owned());
    let mut i: usize = 0;
    assert(views(arguments@) =~= seq!["-R"@] + names.items().take(0));
    while i < names.len()
        invariant
            i <= names.items().len(),
            views(arguments@) == seq!["-R"@] + names.items().take(i as int),
        decreases names.items().len() - i,
    {
        let ghost before = views(arguments@);
        arguments.push(names.name(i).clone());
        assert(views(arguments@) =~= before.push(names.items()[i as int]));
        assert(names.items().take(i + 1) =~= names.items().take(i as int).push(
            names.items()[i as int],
        ));
        i += 1;
    }
    assert(names.items().take(names.items().len() as int) =~= names.items());
    arguments
}

/// The calls of the package manager, each as its arguments.
pub open spec fn calls_of(plan: Seq<Vec<String>>) -> Seq<Seq<Seq<char>>> {
    Seq::new(plan.len(), |i: int| views(plan[i]@))
}

/// The calls that restore a snapshot: first the tarballs are installed,
/// where there are any, then the packages are removed, where there are any.
pub open spec fn planned_calls(
    to_add_or_alter: Map<Seq<char>, Seq<char>>,
    to_remove: Seq<Seq<char>>,
    files: Seq<PackagePath>,
) -> Seq<Seq<Seq<char>>> {
    let install = if to_add_or_alter == Map::<Seq<char>, Seq<char>>::empty() {
        Seq::<Seq<Seq<char>>>::empty()
    } else {
        seq![seq!["-U"@] + chosen_paths(to_add_or_alter, files)]
    };
    let remove = if to_remove.len() == 0 {
        Seq::<Seq<Seq<char>>>::empty()
    } else {
        seq![seq!["-R"@] + to_remove]
    };
    install + remove
}

/// The calls of the package manager that carry out `diff` with the
/// tarballs among `files`, in the order in which they are to be made:
/// packages are installed before others are removed, so that what the
/// remaining packages depend on stays installed throughout. Where a
/// tarball is missing no call is planned.
pub fn restore_plan(diff: &StateDiff, files: &Vec<PackagePath>) -> (plan: Result<
    Vec<Vec<String>>,
    Error,
>)
    requires
        diff.wf(),
    ensures
        match plan {
            Ok(calls) => all_served(diff.to_add_or_alter@, files@) && calls_of(calls@)
                == planned_calls(diff.to_add_or_alter@, diff.to_remove.items(), files@),
            Err(error) => is_cache_race(error, diff.to_add_or_alter@, files@)
                && names_first_unserved(
                error,
                diff.to_add_or_alter.pairs(),
                diff.to_add_or_alter@,
                files@,
            ),
        },
{
    let mut calls: Vec<Vec<String>> = Vec::new();
    if !diff.to_add_or_alter.is_empty() {
        match select_tarballs(&diff.to_add_or_alter, files) {
            Ok(paths) => {
                calls.push(install_arguments(paths));
            },
            Err(error) => {
                return Err(error);
            },
        }
    } else {
        assert(all_served(diff.to_add_or_alter@, files@));
    }
    if !diff.to_remove.is_empty() {
        calls.push(removal_arguments(&diff.to_remove));
    }
    assert(calls_of(calls@) =~= planned_calls(
        diff.to_add_or_alter@,
        diff.to_remove.items(),
        files@,
    ));
    Ok(calls)
}

/// What the end of a call of the package manager means: only exit code 0 is
/// a success, and any failure ends the restoration.
pub fn driver_outcome(status: Option<i32>) -> (outcome: Result<(), Error>)
    ensures
        status == Some(0i32) ==> outcome is Ok,
        status != Some(0i32) ==> outcome == Err::<(), Error>(Error::DriverFailure(status)),
{
    match status {
        Some(0) => Ok(()),
        _ => Err(Error::DriverFailure(status)),
    }
}

} // verus!
