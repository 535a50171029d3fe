use aura::cache::{all_versions, package_paths, CacheIndex, PackagePath};
use aura::diff::{package_diff, StateDiff};
use aura::names::NameSet;
use aura::packages::Packages;
use aura::restore::{
    driver_outcome, install_arguments, last_choice, menu_width, removal_arguments, restore_order,
    restore_plan, select_tarballs,
};
use aura::snapshot::{Error, Snapshot};
use aura::store::{cleanable, StoredSnapshot};
use aura::timestamp::Timestamp;
use aura::version::Verdicts;

fn packages(pairs: &[(&str, &str)]) -> Packages {
    let mut set = Packages::new();
    for (name, version) in pairs {
        assert!(set.insert(name.to_string(), version.to_string()));
    }
    set
}

fn snapshot_at(second: u8, pinned: bool, pairs: &[(&str, &str)]) -> Snapshot {
    let time = Timestamp::new(2024, 3, 17, 14, 8, second).unwrap();
    let mut snapshot = Snapshot::capture(time, packages(pairs));
    snapshot.pinned = pinned;
    snapshot
}

fn files(paths: &[&str]) -> Vec<PackagePath> {
    let all: Vec<String> = paths.iter().map(|path| path.to_string()).collect();
    let found = package_paths(&all);
    assert_eq!(found.len(), paths.len());
    found
}

fn index(paths: &[&str]) -> CacheIndex {
    all_versions(&files(paths))
}

fn strings(items: &[&str]) -> Vec<String> {
    items.iter().map(|item| item.to_string()).collect()
}

#[test]
fn clean_removes_what_is_unpinned_and_unusable() {
    let stored = vec![
        StoredSnapshot { path: "/snap/A.json".to_string(), snapshot: snapshot_at(1, false, &[("p", "2.0-1")]) },
        StoredSnapshot { path: "/snap/B.json".to_string(), snapshot: snapshot_at(2, true, &[("p", "2.0-1")]) },
    ];
    assert_eq!(cleanable(&stored, &CacheIndex::new()), strings(&["/snap/A.json"]));
}

#[test]
fn clean_keeps_what_is_pinned_or_usable() {
    let caches = index(&["/cache/p-2.0-1-x86_64.pkg.zst"]);
    let stored = vec![
        StoredSnapshot { path: "/snap/1.json".to_string(), snapshot: snapshot_at(1, false, &[("p", "2.0-1")]) },
        StoredSnapshot { path: "/snap/2.json".to_string(), snapshot: snapshot_at(2, false, &[("p", "2.0-2")]) },
        StoredSnapshot { path: "/snap/3.json".to_string(), snapshot: snapshot_at(3, true, &[("p", "2.0-2")]) },
        StoredSnapshot { path: "/snap/4.json".to_string(), snapshot: snapshot_at(4, true, &[("p", "2.0-1")]) },
        StoredSnapshot { path: "/snap/5.json".to_string(), snapshot: snapshot_at(5, false, &[("q", "1-1")]) },
        StoredSnapshot { path: "/snap/6.json".to_string(), snapshot: snapshot_at(6, false, &[]) },
    ];
    let doomed = cleanable(&stored, &caches);
    assert_eq!(doomed, strings(&["/snap/2.json", "/snap/5.json"]));
    for entry in &stored {
        if !doomed.contains(&entry.path) {
            assert!(entry.snapshot.pinned || entry.snapshot.usable(&caches));
        }
    }
    assert!(cleanable(&Vec::new(), &caches).is_empty());
}

#[test]
fn restore_offers_the_usable_snapshots_oldest_first() {
    let caches = index(&["/cache/p-2.0-1-x86_64.pkg.zst", "/cache/q-1-1-any.pkg.zst"]);
    let snapshots = vec![
        snapshot_at(30, false, &[("p", "2.0-1")]),
        snapshot_at(10, false, &[("p", "2.0-2")]),
        snapshot_at(20, true, &[("q", "1-1")]),
        snapshot_at(5, false, &[("p", "2.0-1"), ("q", "1-1")]),
        snapshot_at(20, false, &[]),
        snapshot_at(40, false, &[("r", "1-1")]),
    ];
    assert_eq!(restore_order(&snapshots, &caches), vec![3, 2, 4, 0]);
    assert_eq!(restore_order(&snapshots, &CacheIndex::new()), vec![4]);
    assert!(restore_order(&Vec::new(), &caches).is_empty());
}

#[test]
fn restore_keeps_the_order_of_snapshots_of_one_second() {
    let snapshots = vec![
        snapshot_at(7, false, &[]),
        snapshot_at(7, true, &[]),
        snapshot_at(6, false, &[]),
        snapshot_at(7, false, &[]),
    ];
    assert_eq!(restore_order(&snapshots, &CacheIndex::new()), vec![2, 0, 1, 3]);
}

#[test]
fn menu_numbers() {
    assert_eq!(menu_width(0), 1);
    assert_eq!(menu_width(9), 1);
    assert_eq!(menu_width(10), 2);
    assert_eq!(menu_width(19), 2);
    assert_eq!(menu_width(25), 3);
    assert!(matches!(last_choice(0), Err(Error::Empty)));
    assert!(matches!(last_choice(1), Ok(0)));
    assert!(matches!(last_choice(12), Ok(11)));
}

#[test]
fn tarballs_are_chosen_by_name_and_exact_version() {
    let found = files(&[
        "/a/p-2.0-2-x86_64.pkg.zst",
        "/a/q-1-1-any.pkg.zst",
        "/a/p-2.0-1-x86_64.pkg.zst",
        "/b/p-2.0-1-x86_64.pkg.tar.xz",
        "/b/r-3-1-any.pkg.zst",
    ]);
    let chosen = select_tarballs(&packages(&[("p", "2.0-1"), ("r", "3-1")]), &found).unwrap();
    assert_eq!(chosen, strings(&["/a/p-2.0-1-x86_64.pkg.zst", "/b/r-3-1-any.pkg.zst"]));
    assert!(select_tarballs(&Packages::new(), &found).unwrap().is_empty());
}

#[test]
fn missing_tarball_is_a_cache_race() {
    let found = files(&["/a/p-2.0-2-x86_64.pkg.zst", "/a/q-1-1-any.pkg.zst"]);
    match select_tarballs(&packages(&[("q", "1-1"), ("p", "2.0-1")]), &found) {
        Err(Error::CacheRace(name)) => assert_eq!(name, "p"),
        _ => panic!("a tarball of p 2.0-1 is not there"),
    }
    assert!(matches!(
        select_tarballs(&packages(&[("s", "1-1")]), &Vec::new()),
        Err(Error::CacheRace(_))
    ));
}

#[test]
fn driver_arguments() {
    assert_eq!(install_arguments(strings(&["/a/p.pkg", "/b/q.pkg"])), strings(&["-U", "/a/p.pkg", "/b/q.pkg"]));
    assert_eq!(install_arguments(Vec::new()), strings(&["-U"]));
    let mut names = NameSet::new();
    assert!(names.insert("x".to_string()));
    assert!(names.insert("y".to_string()));
    assert!(!names.insert("x".to_string()));
    assert_eq!(names.len(), 2);
    assert!(names.contains("y"));
    assert!(!names.contains("z"));
    assert_eq!(removal_arguments(&names), strings(&["-R", "x", "y"]));
}

#[test]
fn restore_alters_before_it_removes() {
    let wanted = snapshot_at(1, false, &[("p", "2.0-1"), ("q", "1-1")]);
    let installed = packages(&[("q", "1-1"), ("x", "2"), ("y", "3")]);
    let diff = package_diff(&wanted, &installed, &Verdicts::new());
    let found = files(&["/a/q-1-1-any.pkg.zst", "/a/p-2.0-1-x86_64.pkg.zst"]);
    let plan = restore_plan(&diff, &found).unwrap();
    assert_eq!(
        plan,
        vec![strings(&["-U", "/a/p-2.0-1-x86_64.pkg.zst"]), strings(&["-R", "x", "y"])]
    );
}

#[test]
fn restore_plans_only_the_calls_that_are_needed() {
    let found = files(&["/a/p-2.0-1-x86_64.pkg.zst"]);
    let nothing = package_diff(&snapshot_at(1, false, &[("p", "1")]), &packages(&[("p", "1")]), &Verdicts::new());
    assert!(restore_plan(&nothing, &found).unwrap().is_empty());
    let only_add = package_diff(&snapshot_at(1, false, &[("p", "2.0-1")]), &Packages::new(), &Verdicts::new());
    assert_eq!(restore_plan(&only_add, &found).unwrap(), vec![strings(&["-U", "/a/p-2.0-1-x86_64.pkg.zst"])]);
    let only_remove = package_diff(&snapshot_at(1, false, &[]), &packages(&[("x", "2")]), &Verdicts::new());
    assert_eq!(restore_plan(&only_remove, &Vec::new()).unwrap(), vec![strings(&["-R", "x"])]);
}

#[test]
fn restore_plans_nothing_where_a_tarball_is_missing() {
    let diff: StateDiff = package_diff(
        &snapshot_at(1, false, &[("p", "2.0-1")]),
        &packages(&[("x", "2")]),
        &Verdicts::new(),
    );
    match restore_plan(&diff, &files(&["/a/p-2.0-2-x86_64.pkg.zst"])) {
        Err(Error::CacheRace(name)) => assert_eq!(name, "p"),
        _ => panic!("a tarball of p 2.0-1 is not there"),
    }
}

#[test]
fn only_exit_code_zero_is_a_success() {
    assert!(driver_outcome(Some(0)).is_ok());
    assert!(matches!(driver_outcome(Some(1)), Err(Error::DriverFailure(Some(1)))));
    assert!(matches!(driver_outcome(Some(-1)), Err(Error::DriverFailure(Some(-1)))));
    assert!(matches!(driver_outcome(None), Err(Error::DriverFailure(None))));
}
