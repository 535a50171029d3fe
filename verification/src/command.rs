//! The snapshot commands of the command line.

use crate::text::str_eq;
use vstd::prelude::*;

verus! {

/// What a snapshot command does.
#[derive(Clone, Copy, Debug, PartialEq, Eq, Structural)]
pub enum Action {
    /// Saves a snapshot of the installed packages.
    Save,
    /// Removes the snapshots that are neither pinned nor usable.
    Clean,
    /// Lists the snapshot files.
    List,
    /// Offers the usable snapshots and restores the chosen one.
    Restore,
}

/// The action that `flag` asks for: `-B` saves, `-Bc` cleans, `-Bl` lists
/// and `-Br` restores.
pub open spec fn action_of(flag: Seq<char>) -> Option<Action> {
    if flag == "-B"@ {
        Some(Action::Save)
    } else if flag == "-Bc"@ {
        Some(Action::Clean)
    } else if flag == "-Bl"@ {
        Some(Action::List)
    } else if flag == "-Br"@ {
        Some(Action::Restore)
    } else {
        None
    }
}

/// The action that `flag` asks for, if it is a snapshot command.
pub fn action(flag: &str) -> (action: Option<Action>)
    ensures
        action == action_of(flag@),
{
    if str_eq(flag, "-B") {
        Some(Action::Save)
    } else if str_eq(flag, "-Bc") {
        Some(Action::Clean)
    } else if str_eq(flag, "-Bl") {
        Some(Action::List)
    } else if str_eq(flag, "-Br") {
        Some(Action::Restore)
    } else {
        None
    }
}

} // verus!
