//! How `git` is called, and what its end means.

use crate::text::views;
use vstd::prelude::*;

verus! {

/// A failure of `git`.
#[derive(Debug)]
pub enum Error {
    /// `git` could not be run; the text is that of the failure.
    Io(String),
    /// A clone of the repository at the given address failed.
    Clone(String),
    /// A pull in the given directory failed.
    Pull(String),
}

/// The text that tells the user of `error`.
pub open spec fn message_of(error: Error) -> Seq<char> {
    match error {
        Error::Io(text) => text@,
        Error::Clone(url) => "A git clone failed: "@ + url@,
        Error::Pull(dir) => "A git pull failed: "@ + dir@,
    }
}

impl Error {
    /// The text that tells the user of the error.
    pub fn message(&self) -> (text: String)
        ensures
            text@ == message_of(*self),
    {
        match self {
            Error::Io(text) => text.clone(),
            Error::Clone(url) => {
                let mut text = "A git clone failed: ".to_owned();
                text.append(url.as_str());
                text
            },
            Error::Pull(dir) => {
                let mut text = "A git pull failed: ".to_owned();
                text.append(dir.as_str());
                text
            },
        }
    }
}

/// The arguments of a shallow clone of the repository at `url` into the
/// directory `target`.
pub fn clone_arguments(url: &str, target: &str) -> (arguments: Vec<String>)
    ensures
        views(arguments@) == seq!["clone"@, "--depth=1"@, url@, target@],
{
    let mut arguments: Vec<String> = Vec::new();
    arguments.push("clone".to_owned());
    arguments.push("--depth=1".to_owned());
    arguments.push(url.to_owned());
    arguments.push(target.to_owned());
    assert(views(arguments@) =~= seq!["clone"@, "--depth=1"@, url@, target@]);
    arguments
}

/// The arguments of a pull that only fast-forwards.
pub fn pull_arguments() -> (arguments: Vec<String>)
    ensures
        views(arguments@) == seq!["pull"@, "--quiet"@, "--ff-only"@],
{
    let mut arguments: Vec<String> = Vec::new();
    arguments.push("pull".to_owned());
    arguments.push("--quiet".to_owned());
    arguments.push("--ff-only".to_owned());
    assert(views(arguments@) =~= seq!["pull"@, "--quiet"@, "--ff-only"@]);
    arguments
}

/// What the end of a clone of `url` means.
pub fn clone_outcome(success: bool, url: String) -> (outcome: Result<(), Error>)
    ensures
        success ==> outcome is Ok,
        !success ==> outcome == Err::<(), Error>(Error::Clone(url)),
{
    if success {
        Ok(())
    } else {
        Err(Error::Clone(url))
    }
}

/// What the end of a pull in `dir` means.
pub fn pull_outcome(success: bool, dir: String) -> (outcome: Result<(), Error>)
    ensures
        success ==> outcome is Ok,
        !success ==> outcome == Err::<(), Error>(Error::Pull(dir)),
{
    if success {
        Ok(())
    } else {
        Err(Error::Pull(dir))
    }
}

} // verus!
