//! Snapshots: the packages that were installed at one moment.

use crate::assoc::lemma_pairs_map;
use crate::cache::{available, CacheIndex};
use crate::packages::Packages;
use crate::timestamp::{file_name_of, Timestamp};
use vstd::prelude::*;

verus! {

/// What can go wrong while snapshots are saved, cleaned or restored.
#[derive(Debug)]
pub enum Error {
    /// Reading or writing the snapshot directory or a cache failed; the
    /// text is that of the failure.
    Io(String),
    /// A snapshot file does not hold a snapshot; the text says why.
    Serialization(String),
    /// Root privileges could not be had.
    Privilege,
    /// The package manager ended with a failure; its exit code, where it
    /// gave one.
    DriverFailure(Option<i32>),
    /// The user declined.
    Cancelled,
    /// No snapshot can be restored.
    Empty,
    /// The tarball of the named package left the caches after the snapshot
    /// was found usable.
    CacheRace(String),
}

/// The text that tells the user of `error`. Nothing is said of `Empty`,
/// which the caller has reported already.
pub open spec fn message_of(error: Error) -> Seq<char> {
    match error {
        Error::Io(text) => text@,
        Error::Serialization(text) => text@,
        Error::Privilege => "Failed to raise privileges."@,
        Error::DriverFailure(_) => "The package manager failed."@,
        Error::Cancelled => "Action cancelled."@,
        Error::Empty => Seq::empty(),
        Error::CacheRace(name) => "No tarball is left in the cache for "@ + name@,
    }
}

/// The exit code of the process for `error`: never 0, and another one for
/// a cancellation than for a failure of the package manager.
pub open spec fn exit_code_of(error: Error) -> int {
    match error {
        Error::DriverFailure(_) => 2,
        Error::Cancelled => 3,
        _ => 1,
    }
}

impl Error {
    /// The text that tells the user of the error.
    pub fn message(&self) -> (text: String)
        ensures
            text@ == message_of(*self),
    {
        match self {
            Error::Io(text) => text.clone(),
            Error::Serialization(text) => text.clone(),
            Error::Privilege => "Failed to raise privileges.".to_owned(),
            Error::DriverFailure(_) => "The package manager failed.".to_owned(),
            Error::Cancelled => "Action cancelled.".to_owned(),
            Error::Empty => String::new(),
            Error::CacheRace(name) => {
                let mut text = "No tarball is left in the cache for ".to_owned();
                text.append(name.as_str());
                text
            },
        }
    }

    /// The exit code of the process for the error.
    pub fn exit_code(&self) -> (code: i32)
        ensures
            code == exit_code_of(*self),
            code != 0,
    {
        match self {
            Error::DriverFailure(_) => 2,
            Error::Cancelled => 3,
            _ => 1,
        }
    }
}

/// A record of the installed packages and their versions at one moment.
#[derive(Debug)]
pub struct Snapshot {
    /// When the snapshot was taken.
    pub time: Timestamp,
    /// A pinned snapshot is never cleaned away.
    pub pinned: bool,
    /// Every installed package with its version.
    pub packages: Packages,
}

/// A snapshot as a value of mathematics.
pub struct SnapshotView {
    pub time: Timestamp,
    pub pinned: bool,
    pub packages: Map<Seq<char>, Seq<char>>,
}

impl View for Snapshot {
    type V = SnapshotView;

    open spec fn view(&self) -> SnapshotView {
        SnapshotView { time: self.time, pinned: self.pinned, packages: self.packages@ }
    }
}

impl Snapshot {
    /// The time names a moment and the packages are a package set.
    pub open spec fn wf(&self) -> bool {
        self.time.wf() && self.packages.wf()
    }

    /// The snapshot of `installed`, taken at `time`. It starts unpinned.
    pub fn capture(time: Timestamp, installed: Packages) -> (snapshot: Snapshot)
        requires
            time.wf(),
            installed.wf(),
        ensures
            snapshot.wf(),
            snapshot.time == time,
            !snapshot.pinned,
            snapshot.packages == installed,
    {
        Snapshot { time, pinned: false, packages: installed }
    }

    /// The name of the file that holds the snapshot.
    pub fn file_name(&self) -> (name: String)
        requires
            self.wf(),
        ensures
            name@ == file_name_of(self.time),
    {
        self.time.file_name()
    }

    /// Whether the caches hold, for every package of the snapshot, a tarball
    /// of exactly the recorded version.
    pub fn usable(&self, index: &CacheIndex) -> (ok: bool)
        requires
            self.wf(),
        ensures
            ok == usable_with(self.packages@, index@),
    {
        let ghost pairs = self.packages.pairs();
        proof {
            lemma_pairs_map(pairs);
        }
        let mut i: usize = 0;
        while i < self.packages.len()
            invariant
                i <= pairs.len(),
                self.wf(),
                pairs == self.packages.pairs(),
                forall|k: int| 0 <= k < i ==> available(index@, pairs[k].0, pairs[k].1),
            decreases pairs.len() - i,
        {
            let package = self.packages.entry(i);
            if !index.has(package.name.as_str(), package.version.as_str()) {
                proof {
                    lemma_pairs_map(pairs);
                    assert(self.packages@.contains_key(pairs[i as int].0));
                }
                return false;
            }
            i += 1;
        }
        proof {
            lemma_pairs_map(pairs);
            assert forall|name: Seq<char>| self.packages@.contains_key(name) implies available(
                index@,
                name,
                self.packages@[name],
            ) by {
                let k = choose|k: int| 0 <= k < pairs.len() && #[trigger] pairs[k].0 == name;
                assert(available(index@, pairs[k].0, pairs[k].1));
            }
        }
        true
    }
}

/// Whether every package of `packages` is available in `index` in exactly
/// its version.
pub open spec fn usable_with(
    packages: Map<Seq<char>, Seq<char>>,
    index: Map<Seq<char>, Set<Seq<char>>>,
) -> bool {
    forall|name: Seq<char>| #[trigger]
        packages.contains_key(name) ==> available(index, name, packages[name])
}

/// Whether `larger` holds every version that `smaller` holds.
pub open spec fn index_included(
    smaller: Map<Seq<char>, Set<Seq<char>>>,
    larger: Map<Seq<char>, Set<Seq<char>>>,
) -> bool {
    forall|name: Seq<char>, version: Seq<char>|
        available(smaller, name, version) ==> available(larger, name, version)
}

/// A snapshot that is usable with the caches stays usable when the caches
/// gain tarballs.
pub proof fn lemma_usable_monotone(
    packages: Map<Seq<char>, Seq<char>>,
    smaller: Map<Seq<char>, Set<Seq<char>>>,
    larger: Map<Seq<char>, Set<Seq<char>>>,
)
    requires
        usable_with(packages, smaller),
        index_included(smaller, larger),
    ensures
        usable_with(packages, larger),
{
    assert forall|name: Seq<char>| #[trigger] packages.contains_key(name) implies available(
        larger,
        name,
        packages[name],
    ) by {
        assert(available(smaller, name, packages[name]));
    }
}

} // verus!
