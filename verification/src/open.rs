//! The web pages that belong to the program.

use vstd::prelude::*;

verus! {

/// The address of the manual.
pub const BOOK_URL: &'static str = "https://fosskers.github.io/aura/";

/// The address of the source repository.
pub const REPO_URL: &'static str = "https://github.com/fosskers/aura";

/// The address at which a bug is reported.
pub const BUG_URL: &'static str = "https://github.com/fosskers/aura/issues/new";

/// The address under which every package of the AUR has its page.
pub const AUR_PKG_URL: &'static str = "https://aur.archlinux.org/packages/";

/// The address of the manual.
pub fn book() -> (url: String)
    ensures
        url@ == BOOK_URL@,
{
    BOOK_URL.to_owned()
}

/// The address of the source repository.
pub fn repo() -> (url: String)
    ensures
        url@ == REPO_URL@,
{
    REPO_URL.to_owned()
}

/// The address at which a bug is reported.
pub fn bug() -> (url: String)
    ensures
        url@ == BUG_URL@,
{
    BUG_URL.to_owned()
}

/// The address of the program's own page in the AUR.
pub fn aur() -> (url: String)
    ensures
        url@ == AUR_PKG_URL@ + "aura"@,
{
    let mut url = AUR_PKG_URL.to_owned();
    url.append("aura");
    url
}

} // verus!
