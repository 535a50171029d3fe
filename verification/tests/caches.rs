use aura::cache::{all_versions, file_name, package_paths, parse_tarball_name, CacheIndex, PackagePath};
use aura::packages::Packages;
use aura::snapshot::Snapshot;
use aura::timestamp::Timestamp;

fn snapshot(pairs: &[(&str, &str)]) -> Snapshot {
    let mut set = Packages::new();
    for (name, version) in pairs {
        assert!(set.insert(name.to_string(), version.to_string()));
    }
    Snapshot::capture(Timestamp::new(2024, 3, 17, 14, 8, 22).unwrap(), set)
}

fn parts(name: &str, version: &str, arch: &str) -> Option<(String, String, String)> {
    Some((name.to_string(), version.to_string(), arch.to_string()))
}

#[test]
fn tarball_name_gives_its_parts() {
    assert_eq!(parse_tarball_name("p-2.0-1-x86_64.pkg.zst"), parts("p", "2.0-1", "x86_64"));
    assert_eq!(
        parse_tarball_name("linux-5.10.1.arch1-1-x86_64.pkg.tar.zst"),
        parts("linux", "5.10.1.arch1-1", "x86_64")
    );
    assert_eq!(
        parse_tarball_name("xorg-server-common-1:21.1.4-1-any.pkg.tar.xz"),
        parts("xorg-server-common", "1:21.1.4-1", "any")
    );
}

#[test]
fn tarball_name_with_a_part_missing_is_passed_over() {
    assert_eq!(parse_tarball_name(""), None);
    assert_eq!(parse_tarball_name("p-2.0-1.pkg.zst"), None);
    assert_eq!(parse_tarball_name("p-2.0-1-x86_64.tar.zst"), None);
    assert_eq!(parse_tarball_name("p-2.0-1-x86_64.pkg."), None);
    assert_eq!(parse_tarball_name("p-2.0-1-.pkg.zst"), None);
    assert_eq!(parse_tarball_name("-2.0-1-x86_64.pkg.zst"), None);
    assert_eq!(parse_tarball_name("p--1-x86_64.pkg.zst"), None);
    assert_eq!(parse_tarball_name("p-2.0--x86_64.pkg.zst"), None);
    assert_eq!(parse_tarball_name("p-2.0-1-x86_64.pkg.tar.zst.part-1"), None);
    assert_eq!(parse_tarball_name("README"), None);
}

#[test]
fn file_name_is_what_follows_the_last_slash() {
    assert_eq!(file_name("/var/cache/pacman/pkg/p-2.0-1-any.pkg.zst"), "p-2.0-1-any.pkg.zst");
    assert_eq!(file_name("p-2.0-1-any.pkg.zst"), "p-2.0-1-any.pkg.zst");
    assert_eq!(file_name("/var/cache/"), "");
}

#[test]
fn package_path_keeps_path_and_parts() {
    let file = PackagePath::new("/cache/foo-bar-1.2-3-any.pkg.tar.zst".to_string()).unwrap();
    assert_eq!(file.path(), "/cache/foo-bar-1.2-3-any.pkg.tar.zst");
    assert_eq!(file.name(), "foo-bar");
    assert_eq!(file.version(), "1.2-3");
    assert_eq!(file.arch(), "any");
    assert_eq!(file.into_path(), "/cache/foo-bar-1.2-3-any.pkg.tar.zst");
    assert!(PackagePath::new("/cache-1-2-3.pkg.d/notes.txt".to_string()).is_none());
}

#[test]
fn package_paths_pass_over_other_files() {
    let files = vec![
        "/a/p-2.0-1-x86_64.pkg.zst".to_string(),
        "/a/lost+found".to_string(),
        "/b/q-1-1-any.pkg.tar.xz".to_string(),
        "/b/q-1-1-any.pkg.tar.xz.sig.tmp-1".to_string(),
    ];
    let paths = package_paths(&files);
    assert_eq!(paths.len(), 2);
    assert_eq!(paths[0].path(), "/a/p-2.0-1-x86_64.pkg.zst");
    assert_eq!(paths[1].path(), "/b/q-1-1-any.pkg.tar.xz");
}

#[test]
fn index_holds_each_version_of_each_name() {
    let files = vec![
        "/a/p-2.0-1-x86_64.pkg.zst".to_string(),
        "/a/p-2.0-2-x86_64.pkg.zst".to_string(),
        "/b/p-2.0-1-x86_64.pkg.zst".to_string(),
        "/b/q-1-1-any.pkg.tar.xz".to_string(),
    ];
    let index = all_versions(&package_paths(&files));
    assert!(index.has("p", "2.0-1"));
    assert!(index.has("p", "2.0-2"));
    assert!(index.has("q", "1-1"));
    assert!(!index.has("q", "2.0-1"));
    assert!(!index.has("p", "2.0"));
    assert!(!index.has("r", "1-1"));
}

#[test]
fn usability_goes_by_the_exact_version() {
    let index = all_versions(&package_paths(&vec!["/cache/p-2.0-1-x86_64.pkg.zst".to_string()]));
    assert!(snapshot(&[("p", "2.0-1")]).usable(&index));
    assert!(!snapshot(&[("p", "2.0-2")]).usable(&index));
    assert!(!snapshot(&[("p", "2.0-1"), ("q", "1-1")]).usable(&index));
    assert!(snapshot(&[]).usable(&index));
    assert!(snapshot(&[]).usable(&CacheIndex::new()));
}

#[test]
fn usable_snapshot_stays_usable_with_more_tarballs() {
    let wanted = snapshot(&[("p", "2.0-1"), ("q", "1-1")]);
    let mut index = CacheIndex::new();
    index.insert("p".to_string(), "2.0-1".to_string());
    assert!(!wanted.usable(&index));
    index.insert("q".to_string(), "1-1".to_string());
    assert!(wanted.usable(&index));
    index.insert("q".to_string(), "1-2".to_string());
    index.insert("r".to_string(), "3-1".to_string());
    index.insert("p".to_string(), "2.0-1".to_string());
    assert!(wanted.usable(&index));
}
