//! Orphans: packages that were installed as dependencies and that nothing
//! needs any more.

use crate::names::NameSet;
use crate::packages::Packages;
use crate::text::views;
use crate::utils::{lemma_longest_label, longest_label, SudoError};
use ubyte::ToByteUnit;
use vstd::prelude::*;

verus! {

/// What can go wrong while orphans are adopted or removed.
#[derive(Debug)]
pub enum Error {
    /// The package database refused; the text is its own.
    Alpm(String),
    /// The prompt could not be read; the text is that of the failure.
    Readline(String),
    /// Root privileges could not be had.
    Sudo(SudoError),
    /// The user declined.
    Cancelled,
    /// None of the packages that were named is installed.
    NoneExist,
}

/// The text that tells the user of `error`.
pub open spec fn message_of(error: Error) -> Seq<char> {
    match error {
        Error::Alpm(text) => text@,
        Error::Readline(text) => text@,
        Error::Sudo(_) => "Failed to raise privileges."@,
        Error::NoneExist => "No such packages exist."@,
        Error::Cancelled => "Action cancelled."@,
    }
}

impl Error {
    /// The text that tells the user of the error.
    pub fn message(&self) -> (text: String)
        ensures
            text@ == message_of(*self),
    {
        match self {
            Error::Alpm(text) => text.clone(),
            Error::Readline(text) => text.clone(),
            Error::Sudo(inner) => inner.message(),
            Error::NoneExist => "No such packages exist.".to_owned(),
            Error::Cancelled => "Action cancelled.".to_owned(),
        }
    }
}

/// Those of `requested` that are installed, in their order.
pub open spec fn installed_among(
    requested: Seq<Seq<char>>,
    installed: Map<Seq<char>, Seq<char>>,
) -> Seq<Seq<char>>
    decreases requested.len(),
{
    if requested.len() == 0 {
        Seq::empty()
    } else if installed.contains_key(requested.last()) {
        installed_among(requested.drop_last(), installed).push(requested.last())
    } else {
        installed_among(requested.drop_last(), installed)
    }
}

/// The packages to mark as installed on purpose: those of `requested` that
/// are installed. Names of packages that are not installed are passed over;
/// where none is left there is nothing to adopt.
pub fn adoptable(requested: &Vec<String>, installed: &Packages) -> (targets: Result<
    Vec<String>,
    Error,
>)
    requires
        installed.wf(),
    ensures
        match targets {
            Ok(names) => names.len() > 0 && views(names@) == installed_among(
                views(requested@),
                installed@,
            ),
            Err(error) => error == Error::NoneExist && installed_among(
                views(requested@),
                installed@,
            ).len() == 0,
        },
{
    let ghost all = views(requested@);
    let mut names: Vec<String> = Vec::new();
    let mut i: usize = 0;
    assert(views(names@) =~= installed_among(all.take(0), installed@));
    while i < requested.len()
        invariant
            i <= requested.len(),
            installed.wf(),
            all == views(requested@),
            views(names@) == installed_among(all.take(i as int), installed@),
        decreases requested.len() - i,
    {
        proof {
            assert(all.take(i + 1).drop_last() =~= all.take(i as int));
            assert(all.take(i + 1).last() == requested@[i as int]@);
        }
        let ghost before = views(names@);
        if installed.contains(requested[i].as_str()) {
            names.push(requested[i].clone());
            assert(views(names@) =~= before.push(requested@[i as int]@));
        }
        i += 1;
    }
    assert(all.take(requested.len() as int) =~= all);
    if names.len() == 0 {
        Err(Error::NoneExist)
    } else {
        Ok(names)
    }
}

/// What `ubyte` prints for a size of `size` bytes, such as `3.13MiB`.
pub uninterp spec fn byte_unit_text(size: i64) -> Seq<char>;

/// The size of `size` bytes as a reader likes it. This calls
/// `ubyte::ToByteUnit::bytes`, which takes a negative size for 0, and
/// prints the `ubyte::ByteUnit` it gives by its `Display`, which picks the
/// unit and keeps two decimals. The text depends on `size` alone; nothing
/// else is claimed of it.
#[verifier::external_body]
fn size_text(size: i64) -> (text: String)
    ensures
        text@ == byte_unit_text(size),
{
    format!("{}", size.bytes())
}

/// `count` blanks.
pub open spec fn blanks(count: int) -> Seq<char> {
    Seq::new(count as nat, |i: int| ' ')
}

/// `text` pushed to the right end of a column of `width` characters; a
/// longer text is left as it is.
pub open spec fn right_aligned(text: Seq<char>, width: int) -> Seq<char> {
    if text.len() < width {
        blanks(width - text.len()) + text
    } else {
        text
    }
}

/// `text` pushed to the right end of a column of `width` characters.
pub fn align_right(text: &str, width: usize) -> (column: String)
    ensures
        column@ == right_aligned(text@, width as int),
{
    let mut column = String::new();
    let length = text.unicode_len();
    let mut i: usize = length;
    while i < width
        invariant
            length <= i,
            length < width ==> i <= width,
            length >= width ==> i == length,
            column@ == blanks(i - length),
        decreases width - i,
    {
        proof {
            reveal_strlit(" ");
        }
        column.append(" ");
        assert(column@ =~= blanks(i + 1 - length));
        i += 1;
    }
    let ghost filled = column@;
    column.append(text);
    assert(column@ =~= right_aligned(text@, width as int)) by {
        if length >= width {
            assert(filled =~= Seq::<char>::empty());
        }
    }
    column
}

/// A package that a transaction removes, with the size it has on disk.
#[derive(Debug)]
pub struct Removal {
    pub name: String,
    pub size: i64,
}

/// One line of the report on a removal.
#[derive(Debug)]
pub struct ReportLine {
    /// The package's name.
    pub name: String,
    /// Whether the package is one of the orphans themselves, and not
    /// something that leaves along with them.
    pub orphan: bool,
    /// The number of blanks that bring the name to the width of the longest.
    pub blanks: usize,
    /// The size, in a column of nine characters.
    pub size: String,
}

/// The report that the user sees before orphans are removed.
#[derive(Debug)]
pub struct Report {
    /// One line for each package that leaves.
    pub lines: Vec<ReportLine>,
    /// The width of the rule under the lines.
    pub rule: usize,
    /// The number of blanks after the word `Total`.
    pub total_blanks: usize,
    /// The size of everything that leaves, in a column of nine characters.
    pub total: String,
}

/// The sizes of `removal` added up.
pub open spec fn total_size(removal: Seq<Removal>) -> int
    decreases removal.len(),
{
    if removal.len() == 0 {
        0
    } else {
        total_size(removal.drop_last()) + removal.last().size
    }
}

/// The names of `removal`, in their order.
pub open spec fn removal_names(removal: Seq<Removal>) -> Seq<Seq<char>> {
    Seq::new(removal.len(), |i: int| removal[i].name@)
}

/// Whether `line` is the line of the report for `package`, where the
/// longest name has `longest` characters.
pub open spec fn is_line_for(
    line: ReportLine,
    package: Removal,
    orphans: Set<Seq<char>>,
    longest: int,
) -> bool {
    &&& line.name@ == package.name@
    &&& line.orphan == orphans.contains(package.name@)
    &&& line.blanks == longest - package.name@.len()
    &&& line.size@ == right_aligned(byte_unit_text(package.size), 9)
}

/// Whether `report` is the report on `removal`.
pub open spec fn is_report_on(report: Report, removal: Seq<Removal>, orphans: Set<Seq<char>>) -> bool {
    let longest = longest_label(removal_names(removal));
    &&& report.lines.len() == removal.len()
    &&& forall|i: int|
        0 <= i < removal.len() ==> is_line_for(
            #[trigger] report.lines[i],
            removal[i],
            orphans,
            longest,
        )
    &&& report.rule == longest + 10
    &&& report.total_blanks == if longest > 5 {
        longest - 5
    } else {
        0
    }
    &&& report.total@ == right_aligned(byte_unit_text(total_size(removal) as i64), 9)
}

/// The report on the packages `removal` that leave when the `orphans` are
/// removed. There is none where the sizes add up to more than the machine
/// counts, or the longest name leaves no room for the rule.
pub fn removal_report(orphans: &NameSet, removal: &Vec<Removal>) -> (report: Option<Report>)
    ensures
        match report {
            Some(report) => is_report_on(report, removal@, orphans@) && i64::MIN <= total_size(
                removal@,
            ) <= i64::MAX,
            None => !(i64::MIN <= total_size(removal@) <= i64::MAX) || longest_label(
                removal_names(removal@),
            ) + 10 > usize::MAX,
        },
{
    let ghost names = removal_names(removal@);
    let mut longest: usize = 0;
    let mut total: i128 = 0;
    let mut i: usize = 0;
    assert(names.take(0) =~= Seq::<Seq<char>>::empty());
    assert(removal@.take(0) =~= Seq::<Removal>::empty());
    while i < removal.len()
        invariant
            i <= removal.len(),
            names == removal_names(removal@),
            longest == longest_label(names.take(i as int)),
            total == total_size(removal@.take(i as int)),
            -i * 0x8000_0000_0000_0000 <= total <= i * 0x8000_0000_0000_0000,
        decreases removal.len() - i,
    {
        proof {
            assert(names.take(i + 1).drop_last() =~= names.take(i as int));
            assert(names.take(i + 1).last() == removal@[i as int].name@);
            assert(removal@.take(i + 1).drop_last() =~= removal@.take(i as int));
            assert(removal@.take(i + 1).last() == removal@[i as int]);
        }
        let width = removal[i].name.as_str().unicode_len();
        if width > longest {
            longest = width;
        }
        total = total + removal[i].size as i128;
        i += 1;
    }
    proof {
        assert(names.take(removal.len() as int) =~= names);
        assert(removal@.take(removal.len() as int) =~= removal@);
        lemma_longest_label(names);
    }
    if total < i64::MIN as i128 || total > i64::MAX as i128 || longest > usize::MAX - 10 {
        return None;
    }
    let mut lines: Vec<ReportLine> = Vec::new();
    let mut k: usize = 0;
    while k < removal.len()
        invariant
            k <= removal.len(),
            lines.len() == k,
            names == removal_names(removal@),
            longest == longest_label(names),
            forall|n: int| 0 <= n < names.len() ==> (#[trigger] names[n]).len() <= longest,
            forall|n: int|
                0 <= n < k ==> is_line_for(
                    #[trigger] lines[n],
                    removal[n],
                    orphans@,
                    longest as int,
                ),
        decreases removal.len() - k,
    {
        let package = &removal[k];
        assert(names[k as int] == package.name@);
        let line = ReportLine {
            name: package.name.clone(),
            orphan: orphans.contains(package.name.as_str()),
            blanks: longest - package.name.as_str().unicode_len(),
            size: align_right(size_text(package.size).as_str(), 9),
        };
        lines.push(line);
        k += 1;
    }
    let total_blanks: usize = if longest > 5 {
        longest - 5
    } else {
        0
    };
    let total = align_right(size_text(total as i64).as_str(), 9);
    Some(Report { lines, rule: longest + 10, total_blanks, total })
}

} // verus!
