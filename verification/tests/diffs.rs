use aura::diff::{package_diff, version_questions, StateDiff};
use aura::packages::Packages;
use aura::snapshot::Snapshot;
use aura::timestamp::Timestamp;
use aura::version::{VersionOrder, Verdicts};

fn packages(pairs: &[(&str, &str)]) -> Packages {
    let mut set = Packages::new();
    for (name, version) in pairs {
        assert!(set.insert(name.to_string(), version.to_string()));
    }
    set
}

fn snapshot(pairs: &[(&str, &str)]) -> Snapshot {
    let time = Timestamp::new(2024, 3, 17, 14, 8, 22).unwrap();
    Snapshot::capture(time, packages(pairs))
}

fn install_side(diff: &StateDiff) -> Vec<(String, String)> {
    let mut pairs = Vec::new();
    for i in 0..diff.to_add_or_alter.len() {
        let package = diff.to_add_or_alter.entry(i);
        pairs.push((package.name.clone(), package.version.clone()));
    }
    pairs.sort();
    pairs
}

fn remove_side(diff: &StateDiff) -> Vec<String> {
    let mut names = Vec::new();
    for i in 0..diff.to_remove.len() {
        names.push(diff.to_remove.name(i).clone());
    }
    names.sort();
    names
}

fn pair(name: &str, version: &str) -> (String, String) {
    (name.to_string(), version.to_string())
}

#[test]
fn diff_pure_add() {
    let diff = package_diff(&snapshot(&[("a", "1"), ("b", "1")]), &Packages::new(), &Verdicts::new());
    assert_eq!(install_side(&diff), vec![pair("a", "1"), pair("b", "1")]);
    assert!(remove_side(&diff).is_empty());
    assert!(diff.to_remove.is_empty());
}

#[test]
fn diff_pure_remove() {
    let diff = package_diff(&snapshot(&[]), &packages(&[("x", "2")]), &Verdicts::new());
    assert!(install_side(&diff).is_empty());
    assert!(diff.to_add_or_alter.is_empty());
    assert_eq!(remove_side(&diff), vec!["x".to_string()]);
}

#[test]
fn diff_version_change_upgrade() {
    let mut verdicts = Verdicts::new();
    verdicts.record("2.0-1".to_string(), "1.9-3".to_string(), VersionOrder::Greater);
    let diff = package_diff(&snapshot(&[("p", "2.0-1")]), &packages(&[("p", "1.9-3")]), &verdicts);
    assert_eq!(install_side(&diff), vec![pair("p", "2.0-1")]);
    assert!(remove_side(&diff).is_empty());
}

#[test]
fn diff_version_change_downgrade() {
    let mut verdicts = Verdicts::new();
    verdicts.record("1.9-3".to_string(), "2.0-1".to_string(), VersionOrder::Less);
    let diff = package_diff(&snapshot(&[("p", "1.9-3")]), &packages(&[("p", "2.0-1")]), &verdicts);
    assert_eq!(install_side(&diff), vec![pair("p", "1.9-3")]);
    assert!(remove_side(&diff).is_empty());
}

#[test]
fn diff_of_a_set_with_itself_is_empty() {
    let installed = [("foo", "1.0-1"), ("bar", "2.3-4"), ("baz", "1:0.9-2")];
    let mut verdicts = Verdicts::new();
    verdicts.record("1.0-1".to_string(), "1.0-1".to_string(), VersionOrder::Less);
    let diff = package_diff(&snapshot(&installed), &packages(&installed), &verdicts);
    assert!(diff.is_empty());
    assert_eq!(diff.to_add_or_alter.len(), 0);
    assert_eq!(diff.to_remove.len(), 0);
}

#[test]
fn diff_sides_share_no_name() {
    let wanted = snapshot(&[("a", "1"), ("b", "2"), ("c", "3")]);
    let installed = packages(&[("b", "2"), ("c", "4"), ("d", "5"), ("e", "6")]);
    let diff = package_diff(&wanted, &installed, &Verdicts::new());
    for name in remove_side(&diff) {
        assert!(!diff.to_add_or_alter.contains(&name));
    }
    for (name, _) in install_side(&diff) {
        assert!(!diff.to_remove.contains(&name));
    }
}

#[test]
fn diff_holds_every_difference_once() {
    let wanted = snapshot(&[("a", "1"), ("b", "2"), ("c", "3"), ("f", "1.0")]);
    let installed = packages(&[("b", "2"), ("c", "4"), ("d", "5"), ("f", "1.00")]);
    let mut verdicts = Verdicts::new();
    verdicts.record("3".to_string(), "4".to_string(), VersionOrder::Less);
    verdicts.record("1.0".to_string(), "1.00".to_string(), VersionOrder::Equal);
    let diff = package_diff(&wanted, &installed, &verdicts);
    // a is gone, c changed, d is new; b is the same string, f the same version.
    assert_eq!(install_side(&diff), vec![pair("a", "1"), pair("c", "3")]);
    assert_eq!(remove_side(&diff), vec!["d".to_string()]);
}

#[test]
fn diff_without_a_verdict_installs_the_snapshots_version() {
    let diff = package_diff(&snapshot(&[("p", "1.0")]), &packages(&[("p", "1.00")]), &Verdicts::new());
    assert_eq!(install_side(&diff), vec![pair("p", "1.0")]);
}

#[test]
fn diff_goes_by_the_verdict_for_the_pair_in_its_order() {
    let mut verdicts = Verdicts::new();
    // The answer for (installed, snapshot) is not the answer for (snapshot, installed).
    verdicts.record("1.00".to_string(), "1.0".to_string(), VersionOrder::Equal);
    let diff = package_diff(&snapshot(&[("p", "1.0")]), &packages(&[("p", "1.00")]), &verdicts);
    assert_eq!(install_side(&diff), vec![pair("p", "1.0")]);
}

#[test]
fn installed_duplicates_keep_the_last_version() {
    let mut installed = Packages::new();
    assert!(installed.insert("p".to_string(), "1".to_string()));
    assert!(installed.insert("q".to_string(), "7".to_string()));
    assert!(installed.insert("p".to_string(), "2".to_string()));
    assert_eq!(installed.len(), 2);
    assert_eq!(installed.get("p"), Some(&"2".to_string()));
    let diff = package_diff(&snapshot(&[("p", "2"), ("q", "7")]), &installed, &Verdicts::new());
    assert!(diff.is_empty());
}

#[test]
fn questions_are_the_pairs_that_differ_as_strings() {
    let wanted = snapshot(&[("a", "1"), ("b", "2"), ("c", "3")]);
    let installed = packages(&[("b", "2"), ("c", "4"), ("d", "5")]);
    let asked = version_questions(&wanted, &installed);
    assert_eq!(asked, vec![pair("3", "4")]);
}

#[test]
fn verdicts_keep_the_last_answer() {
    let mut verdicts = Verdicts::new();
    assert_eq!(verdicts.get("1", "2"), None);
    verdicts.record("1".to_string(), "2".to_string(), VersionOrder::Less);
    verdicts.record("1".to_string(), "2".to_string(), VersionOrder::Equal);
    assert_eq!(verdicts.len(), 1);
    assert_eq!(verdicts.get("1", "2"), Some(VersionOrder::Equal));
    assert_eq!(verdicts.get("2", "1"), None);
    assert!(verdicts.same_version("1", "2"));
    assert!(!verdicts.same_version("2", "1"));
    assert!(verdicts.same_version("3", "3"));
}

#[test]
fn packages_refuse_what_is_no_package() {
    let mut set = Packages::new();
    assert!(!set.insert("".to_string(), "1".to_string()));
    assert!(!set.insert("a/b".to_string(), "1".to_string()));
    assert!(!set.insert("a".to_string(), "".to_string()));
    assert!(set.is_empty());
    assert!(set.insert("a".to_string(), "1".to_string()));
    assert!(set.contains("a"));
    assert!(!set.contains("b"));
    assert_eq!(set.get("b"), None);
    assert_eq!(set.entry(0).name, "a");
}

#[test]
fn diff_keeps_the_order_of_its_sources() {
    let wanted = snapshot(&[("z", "1"), ("m", "1"), ("a", "1"), ("k", "2")]);
    let installed = packages(&[("y", "1"), ("k", "1"), ("m", "2"), ("b", "1")]);
    let diff = package_diff(&wanted, &installed, &Verdicts::new());
    let mut install = Vec::new();
    for i in 0..diff.to_add_or_alter.len() {
        let package = diff.to_add_or_alter.entry(i);
        install.push((package.name.clone(), package.version.clone()));
    }
    // First what is gone, as the snapshot lists it; then what changed, as it is installed.
    assert_eq!(install, vec![pair("z", "1"), pair("a", "1"), pair("k", "2"), pair("m", "1")]);
    let mut remove = Vec::new();
    for i in 0..diff.to_remove.len() {
        remove.push(diff.to_remove.name(i).clone());
    }
    assert_eq!(remove, vec!["y".to_string(), "b".to_string()]);
    assert_eq!(version_questions(&wanted, &installed), vec![pair("2", "1"), pair("1", "2")]);
}
