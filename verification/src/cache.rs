//! The tarball caches: package files named `name-version-arch.pkg.ext`.

use crate::assoc::has_key;
use crate::packages::Package;
use crate::text::{
    chars_of, find_first, find_last, first_index_of, is_first_index, is_last_index,
    last_index_of, lemma_first_index_of, lemma_last_index_of, slice_of, str_eq, views,
};
use vstd::prelude::*;

verus! {

/// Whether `s` is `.pkg.` and then an extension that is not empty.
pub open spec fn is_package_suffix(s: Seq<char>) -> bool {
    s.len() > 5 && s[0] == '.' && s[1] == 'p' && s[2] == 'k' && s[3] == 'g' && s[4] == '.'
}

/// The name, the version and the architecture that a tarball's file name
/// gives, where it has the form `name-pkgver-pkgrel-arch.pkg.ext`.
///
/// The file name is read from its end: the last hyphen stands before the
/// architecture, the two hyphens before that one enclose `pkgver`, and
/// everything before them is the name, which may hold hyphens itself. The
/// version is `pkgver-pkgrel`. The architecture ends at the first dot after
/// the last hyphen. No part is empty.
pub open spec fn tarball_parts(base: Seq<char>) -> Option<(Seq<char>, Seq<char>, Seq<char>)> {
    let c = last_index_of(base, '-');
    if c < 0 {
        None
    } else {
        let b = last_index_of(base.take(c), '-');
        if b < 0 {
            None
        } else {
            let a = last_index_of(base.take(b), '-');
            let tail = base.skip(c + 1);
            let d = first_index_of(tail, '.');
            if 1 <= a && a + 1 < b && b + 1 < c && 1 <= d && is_package_suffix(tail.skip(d)) {
                Some((base.take(a), base.subrange(a + 1, c), tail.take(d)))
            } else {
                None
            }
        }
    }
}

/// The part of `path` after its last slash.
pub open spec fn base_name(path: Seq<char>) -> Seq<char> {
    path.skip(last_index_of(path, '/') + 1)
}

/// A package file in a cache: its path and what its file name says.
#[derive(Debug)]
pub struct PackagePath {
    path: String,
    name: String,
    version: String,
    arch: String,
}

impl PackagePath {
    /// The path of the file.
    pub closed spec fn path_spec(&self) -> Seq<char> {
        self.path@
    }

    /// The package's name.
    pub closed spec fn name_spec(&self) -> Seq<char> {
        self.name@
    }

    /// The package's version.
    pub closed spec fn version_spec(&self) -> Seq<char> {
        self.version@
    }

    /// The architecture that the package was built for.
    pub closed spec fn arch_spec(&self) -> Seq<char> {
        self.arch@
    }

    /// Name, version and architecture are those of the path's file name.
    pub open spec fn wf(&self) -> bool {
        tarball_parts(base_name(self.path_spec())) == Some(
            (self.name_spec(), self.version_spec(), self.arch_spec()),
        )
    }

    /// The package file at `path`, if the file name is that of a tarball.
    pub fn new(path: String) -> (made: Option<PackagePath>)
        ensures
            match made {
                Some(file) => file.wf() && file.path_spec() == path@,
                None => tarball_parts(base_name(path@)) is None,
            },
    {
        let base = file_name(path.as_str());
        match parse_tarball_name(base.as_str()) {
            Some((name, version, arch)) => Some(PackagePath { path, name, version, arch }),
            None => None,
        }
    }

    /// The path of the file.
    pub fn path(&self) -> (path: &String)
        ensures
            path@ == self.path_spec(),
    {
        &self.path
    }

    /// The package's name.
    pub fn name(&self) -> (name: &String)
        ensures
            name@ == self.name_spec(),
    {
        &self.name
    }

    /// The package's version.
    pub fn version(&self) -> (version: &String)
        ensures
            version@ == self.version_spec(),
    {
        &self.version
    }

    /// The architecture that the package was built for.
    pub fn arch(&self) -> (arch: &String)
        ensures
            arch@ == self.arch_spec(),
    {
        &self.arch
    }

    /// Gives the path back.
    pub fn into_path(self) -> (path: String)
        ensures
            path@ == self.path_spec(),
    {
        self.path
    }
}

/// The part of `path` after its last slash.
pub fn file_name(path: &str) -> (base: String)
    ensures
        base@ == base_name(path@),
{
    let chars = chars_of(path);
    let start: usize = match find_last(&chars, chars.len(), '/') {
        Some(slash) => slash + 1,
        None => 0,
    };
    proof {
        assert(chars@.take(chars@.len() as int) =~= chars@);
        assert(path@.subrange(start as int, path@.len() as int) =~= path@.skip(start as int));
    }
    slice_of(path, start, chars.len())
}

/// The name, the version and the architecture in a tarball's file name.
pub fn parse_tarball_name(base: &str) -> (parts: Option<(String, String, String)>)
    ensures
        match parts {
            Some((name, version, arch)) => tarball_parts(base@) == Some(
                (name@, version@, arch@),
            ),
            None => tarball_parts(base@) is None,
        },
{
    let chars = chars_of(base);
    proof {
        assert(chars@.take(chars@.len() as int) =~= chars@);
    }
    let c = match find_last(&chars, chars.len(), '-') {
        Some(c) => c,
        None => {
            return None;
        },
    };
    let b = match find_last(&chars, c, '-') {
        Some(b) => b,
        None => {
            return None;
        },
    };
    let a_found = find_last(&chars, b, '-');
    let d = find_first(&chars, c + 1, '.');
    let a = match a_found {
        Some(a) => a,
        None => {
            return None;
        },
    };
    if a < 1 || a + 1 >= b || b + 1 >= c || d < 1 {
        return None;
    }
    let dot = c + 1 + d;
    proof {
        assert(chars@.skip(c + 1).skip(d as int) =~= chars@.skip(dot as int));
    }
    if chars.len() - dot <= 5 {
        return None;
    }
    if chars[dot] != '.' || chars[dot + 1] != 'p' || chars[dot + 2] != 'k' || chars[dot + 3]
        != 'g' || chars[dot + 4] != '.' {
        return None;
    }
    let name = slice_of(base, 0, a);
    let version = slice_of(base, a + 1, c);
    let arch = slice_of(base, c + 1, dot);
    proof {
        assert(name@ =~= base@.take(a as int));
        assert(arch@ =~= base@.skip(c + 1).take(d as int));
    }
    Some((name, version, arch))
}

/// The file name of a tarball, put together from its parts.
pub open spec fn tarball_name(
    name: Seq<char>,
    pkgver: Seq<char>,
    pkgrel: Seq<char>,
    arch: Seq<char>,
    ext: Seq<char>,
) -> Seq<char> {
    name + seq!['-'] + pkgver + seq!['-'] + pkgrel + seq!['-'] + arch + seq!['.', 'p', 'k', 'g', '.']
        + ext
}

/// A file name that is put together from a name, the two parts of a
/// version, an architecture and an extension gives the name, the version
/// and the architecture back, where no part is empty, only the name holds a
/// hyphen, and the architecture holds no dot.
pub proof fn lemma_tarball_name_parts(
    name: Seq<char>,
    pkgver: Seq<char>,
    pkgrel: Seq<char>,
    arch: Seq<char>,
    ext: Seq<char>,
)
    requires
        name.len() > 0,
        pkgver.len() > 0 && !pkgver.contains('-'),
        pkgrel.len() > 0 && !pkgrel.contains('-'),
        arch.len() > 0 && !arch.contains('-') && !arch.contains('.'),
        ext.len() > 0 && !ext.contains('-'),
    ensures
        tarball_parts(tarball_name(name, pkgver, pkgrel, arch, ext)) == Some(
            (name, pkgver + seq!['-'] + pkgrel, arch),
        ),
{
    let base = tarball_name(name, pkgver, pkgrel, arch, ext);
    let a = name.len() as int;
    let b = a + 1 + pkgver.len();
    let c = b + 1 + pkgrel.len();
    let d = arch.len() as int;
    let end = c + 1 + d + 5;
    assert(base.len() == end + ext.len());
    assert forall|k: int| 0 <= k < base.len() implies base[k] == (if k < a {
        name[k]
    } else if k == a {
        '-'
    } else if k < b {
        pkgver[k - a - 1]
    } else if k == b {
        '-'
    } else if k < c {
        pkgrel[k - b - 1]
    } else if k == c {
        '-'
    } else if k < c + 1 + d {
        arch[k - c - 1]
    } else if k < end {
        seq!['.', 'p', 'k', 'g', '.'][k - c - 1 - d]
    } else {
        ext[k - end]
    }) by {}
    assert forall|k: int| c < k < base.len() implies base[k] != '-' by {
        if k < c + 1 + d {
            assert(arch.contains(arch[k - c - 1]));
        } else if k >= end {
            assert(ext.contains(ext[k - end]));
        }
    }
    lemma_last_index_of(base, '-');
    assert(is_last_index(base, '-', c));
    let head = base.take(c);
    assert forall|k: int| b < k < head.len() implies head[k] != '-' by {
        assert(head[k] == base[k]);
        assert(pkgrel.contains(pkgrel[k - b - 1]));
    }
    assert(head[b] == base[b]);
    lemma_last_index_of(head, '-');
    assert(is_last_index(head, '-', b));
    let front = head.take(b);
    assert forall|k: int| a < k < front.len() implies front[k] != '-' by {
        assert(front[k] == base[k]);
        assert(pkgver.contains(pkgver[k - a - 1]));
    }
    assert(front[a] == base[a]);
    lemma_last_index_of(front, '-');
    assert(is_last_index(front, '-', a));
    let tail = base.skip(c + 1);
    assert forall|k: int| 0 <= k < d implies tail[k] != '.' by {
        assert(tail[k] == base[k + c + 1]);
        assert(arch.contains(arch[k]));
    }
    assert(tail[d] == base[c + 1 + d]);
    lemma_first_index_of(tail, '.');
    assert(is_first_index(tail, '.', d));
    let suffix = tail.skip(d);
    assert(suffix[0] == base[c + 1 + d]);
    assert(suffix[1] == base[c + 1 + d + 1]);
    assert(suffix[2] == base[c + 1 + d + 2]);
    assert(suffix[3] == base[c + 1 + d + 3]);
    assert(suffix[4] == base[c + 1 + d + 4]);
    assert(is_package_suffix(suffix));
    assert(front =~= base.take(b));
    assert(base.take(a) =~= name);
    assert(base.subrange(a + 1, c) =~= pkgver + seq!['-'] + pkgrel);
    assert(tail.take(d) =~= arch);
}

/// Whether the caches hold a tarball of `name` in exactly `version`.
pub open spec fn available(
    index: Map<Seq<char>, Set<Seq<char>>>,
    name: Seq<char>,
    version: Seq<char>,
) -> bool {
    index.contains_key(name) && index[name].contains(version)
}

/// `index` with `version` added to the versions of `name`.
pub open spec fn add_version(
    index: Map<Seq<char>, Set<Seq<char>>>,
    name: Seq<char>,
    version: Seq<char>,
) -> Map<Seq<char>, Set<Seq<char>>> {
    index.insert(
        name,
        if index.contains_key(name) {
            index[name].insert(version)
        } else {
            Set::empty().insert(version)
        },
    )
}

/// The index that a list of (name, version) pairs stands for: each name
/// with all the versions that stand beside it.
pub open spec fn index_of(pairs: Seq<(Seq<char>, Seq<char>)>) -> Map<Seq<char>, Set<Seq<char>>> {
    Map::new(
        |name: Seq<char>| has_key(pairs, name),
        |name: Seq<char>| Set::new(|version: Seq<char>| pairs.contains((name, version))),
    )
}

/// For each package name, the versions of which some cache holds a tarball.
#[derive(Debug)]
pub struct CacheIndex {
    entries: Vec<Package>,
}

impl View for CacheIndex {
    type V = Map<Seq<char>, Set<Seq<char>>>;

    /// The mapping from each name to its versions.
    open spec fn view(&self) -> Map<Seq<char>, Set<Seq<char>>> {
        index_of(self.pairs())
    }
}

impl CacheIndex {
    /// The (name, version) pairs that were put in, in their order.
    pub closed spec fn pairs(&self) -> Seq<(Seq<char>, Seq<char>)> {
        Seq::new(self.entries@.len(), |i: int| self.entries@[i].pair())
    }

    /// The index of empty caches.
    pub fn new() -> (index: CacheIndex)
        ensures
            index.pairs() == Seq::<(Seq<char>, Seq<char>)>::empty(),
            index@ == Map::<Seq<char>, Set<Seq<char>>>::empty(),
    {
        let index = CacheIndex { entries: Vec::new() };
        proof {
            assert(index.pairs() =~= Seq::<(Seq<char>, Seq<char>)>::empty());
            assert(index@ =~= Map::<Seq<char>, Set<Seq<char>>>::empty());
        }
        index
    }

    /// Whether the caches hold a tarball of `name` in exactly `version`.
    pub fn has(&self, name: &str, version: &str) -> (found: bool)
        ensures
            found == available(self@, name@, version@),
    {
        let mut i: usize = 0;
        while i < self.entries.len()
            invariant
                i <= self.entries.len(),
                forall|k: int| 0 <= k < i ==> self.pairs()[k] != (name@, version@),
            decreases self.entries.len() - i,
        {
            if str_eq(self.entries[i].name.as_str(), name) && str_eq(
                self.entries[i].version.as_str(),
                version,
            ) {
                proof {
                    assert(self.pairs()[i as int] == (name@, version@));
                    assert(self.pairs()[i as int].0 == name@);
                }
                return true;
            }
            i += 1;
        }
        false
    }

    /// Notes that the caches hold a tarball of `name` in `version`.
    pub fn insert(&mut self, name: String, version: String)
        ensures
            final(self)@ == add_version(old(self)@, name@, version@),
    {
        let ghost before = self.pairs();
        let ghost pair = (name@, version@);
        self.entries.push(Package { name, version });
        proof {
            let after = self.pairs();
            assert(after =~= before.push(pair));
            lemma_index_push(before, pair);
        }
    }
}

/// One more pair adds one version to the index.
proof fn lemma_index_push(before: Seq<(Seq<char>, Seq<char>)>, pair: (Seq<char>, Seq<char>))
    ensures
        index_of(before.push(pair)) == add_version(index_of(before), pair.0, pair.1),
{
    let after = before.push(pair);
    let target = add_version(index_of(before), pair.0, pair.1);
    assert(after[before.len() as int] == pair);
    assert forall|name: Seq<char>| has_key(after, name) <==> (has_key(before, name) || name
        == pair.0) by {
        if has_key(after, name) {
            let k = choose|k: int| 0 <= k < after.len() && #[trigger] after[k].0 == name;
            if k < before.len() {
                assert(before[k].0 == name);
            }
        }
        if has_key(before, name) {
            let k = choose|k: int| 0 <= k < before.len() && #[trigger] before[k].0 == name;
            assert(after[k].0 == name);
        }
        if name == pair.0 {
            assert(after[before.len() as int].0 == name);
        }
    }
    assert forall|name: Seq<char>, version: Seq<char>| after.contains((name, version)) <==> (
    before.contains((name, version)) || (name, version) == pair) by {
        if after.contains((name, version)) {
            let k = choose|k: int| 0 <= k < after.len() && after[k] == (name, version);
            if k < before.len() {
                assert(before[k] == (name, version));
            }
        }
        if before.contains((name, version)) {
            let k = choose|k: int| 0 <= k < before.len() && before[k] == (name, version);
            assert(after[k] == (name, version));
        }
    }
    assert forall|name: Seq<char>| index_of(after).contains_key(name) implies index_of(
        after,
    )[name] =~= target[name] by {
        if name == pair.0 && !has_key(before, name) {
            assert forall|version: Seq<char>| !before.contains((name, version)) by {
                if before.contains((name, version)) {
                    let k = choose|k: int| 0 <= k < before.len() && before[k] == (name, version);
                    assert(before[k].0 == name);
                }
            }
        }
    }
    assert(index_of(after) =~~= target);
}

/// The paths among `files` whose file names are those of tarballs, in their
/// order.
pub open spec fn tarball_paths(files: Seq<Seq<char>>) -> Seq<Seq<char>>
    decreases files.len(),
{
    if files.len() == 0 {
        Seq::empty()
    } else if tarball_parts(base_name(files.last())) is Some {
        tarball_paths(files.drop_last()).push(files.last())
    } else {
        tarball_paths(files.drop_last())
    }
}

/// The paths of the package files `paths`.
pub open spec fn paths_of(paths: Seq<PackagePath>) -> Seq<Seq<char>> {
    Seq::new(paths.len(), |i: int| paths[i].path_spec())
}

/// The package files among `files`, in their order. Files whose names are
/// not those of tarballs are passed over.
pub fn package_paths(files: &Vec<String>) -> (paths: Vec<PackagePath>)
    ensures
        forall|k: int| 0 <= k < paths.len() ==> (#[trigger] paths[k]).wf(),
        paths_of(paths@) == tarball_paths(views(files@)),
{
    let ghost all = views(files@);
    let mut paths: Vec<PackagePath> = Vec::new();
    let mut i: usize = 0;
    assert(paths_of(paths@) =~= tarball_paths(all.take(0)));
    while i < files.len()
        invariant
            i <= files.len(),
            all == views(files@),
            forall|k: int| 0 <= k < paths.len() ==> (#[trigger] paths[k]).wf(),
            paths_of(paths@) == tarball_paths(all.take(i as int)),
        decreases files.len() - i,
    {
        proof {
            assert(all.take(i + 1).drop_last() =~= all.take(i as int));
            assert(all.take(i + 1).last() == files@[i as int]@);
        }
        let ghost before = paths_of(paths@);
        match PackagePath::new(files[i].clone()) {
            Some(file) => {
                paths.push(file);
                assert(paths_of(paths@) =~= before.push(files@[i as int]@));
            },
            None => {},
        }
        i += 1;
    }
    assert(all.take(files.len() as int) =~= all);
    paths
}

/// For each name among `paths`, the versions that stand beside it.
pub open spec fn versions_in(paths: Seq<PackagePath>) -> Map<Seq<char>, Set<Seq<char>>> {
    Map::new(
        |name: Seq<char>| exists|i: int| 0 <= i < paths.len() && #[trigger] paths[i].name_spec() == name,
        |name: Seq<char>|
            Set::new(
                |version: Seq<char>|
                    exists|i: int|
                        0 <= i < paths.len() && #[trigger] paths[i].name_spec() == name
                            && paths[i].version_spec() == version,
            ),
    )
}

/// The index of the caches that hold the package files `paths`.
pub fn all_versions(paths: &Vec<PackagePath>) -> (index: CacheIndex)
    ensures
        index@ == versions_in(paths@),
{
    let mut index = CacheIndex::new();
    let mut i: usize = 0;
    assert(index@ =~~= versions_in(paths@.take(0)));
    while i < paths.len()
        invariant
            i <= paths.len(),
            index@ == versions_in(paths@.take(i as int)),
        decreases paths.len() - i,
    {
        let file = &paths[i];
        let ghost before = index@;
        index.insert(file.name().clone(), file.version().clone());
        proof {
            let shorter = paths@.take(i as int);
            let longer = paths@.take(i + 1);
            let target = versions_in(longer);
            assert(longer[i as int] == paths@[i as int]);
            assert forall|name: Seq<char>| target.contains_key(name) <==> index@.contains_key(
                name,
            ) by {
                if target.contains_key(name) {
                    let k = choose|k: int|
                        0 <= k < longer.len() && #[trigger] longer[k].name_spec() == name;
                    if k < i {
                        assert(shorter[k].name_spec() == name);
                    }
                }
                if before.contains_key(name) {
                    let k = choose|k: int|
                        0 <= k < shorter.len() && #[trigger] shorter[k].name_spec() == name;
                    assert(longer[k].name_spec() == name);
                }
            }
            assert forall|name: Seq<char>| target.contains_key(name) implies target[name]
                =~= index@[name] by {
                assert forall|version: Seq<char>| target[name].contains(version)
                    <==> index@[name].contains(version) by {
                    if target[name].contains(version) {
                        let k = choose|k: int|
                            0 <= k < longer.len() && #[trigger] longer[k].name_spec() == name
                                && longer[k].version_spec() == version;
                        if k < i {
                            assert(shorter[k].name_spec() == name);
                        }
                    }
                    if before.contains_key(name) && before[name].contains(version) {
                        let k = choose|k: int|
                            0 <= k < shorter.len() && #[trigger] shorter[k].name_spec() == name
                                && shorter[k].version_spec() == version;
                        assert(longer[k].name_spec() == name);
                    }
                }
            }
            assert(index@ =~~= target);
        }
        i += 1;
    }
    assert(paths@.take(paths.len() as int) =~= paths@);
    index
}

} // verus!
