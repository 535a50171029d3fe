//! The snapshot document: the three fields that a snapshot file holds.
//!
//! A file is a table of named fields. A snapshot's table has exactly the
//! fields `time`, a text, `pinned`, a truth value, and `packages`, a table
//! of texts by name. A table with another field, or without one of the
//! three, is no snapshot.

use crate::assoc::{distinct_keys, has_key, lemma_pairs_map, lemma_push_pair, pairs_map};
use crate::packages::{valid_name, valid_pairs, valid_version, Packages};
use crate::snapshot::{Error, Snapshot, SnapshotView};
use crate::text::str_eq;
use crate::timestamp::{lemma_parse_text, parsed_time, text_of, Timestamp};
use vstd::prelude::*;

verus! {

/// A value inside the table of packages.
#[derive(Debug)]
pub enum Cell {
    /// A text.
    Text(String),
    /// Anything else.
    Other,
}

/// The value of a field.
#[derive(Debug)]
pub enum Field {
    /// A text.
    Text(String),
    /// A truth value.
    Flag(bool),
    /// A table of named values.
    Table(Vec<(String, Cell)>),
    /// Anything else.
    Other,
}

/// What a file holds: named fields, in the order in which they stand.
#[derive(Debug)]
pub struct Document {
    pub fields: Vec<(String, Field)>,
}

/// A cell as a value of mathematics.
pub enum CellView {
    Text(Seq<char>),
    Other,
}

/// A field's value as a value of mathematics.
pub enum FieldView {
    Text(Seq<char>),
    Flag(bool),
    Table(Seq<(Seq<char>, CellView)>),
    Other,
}

impl View for Cell {
    type V = CellView;

    open spec fn view(&self) -> CellView {
        match self {
            Cell::Text(text) => CellView::Text(text@),
            Cell::Other => CellView::Other,
        }
    }
}

/// The cells of a table as values of mathematics.
pub open spec fn cells_view(cells: Seq<(String, Cell)>) -> Seq<(Seq<char>, CellView)> {
    Seq::new(cells.len(), |i: int| (cells[i].0@, cells[i].1@))
}

impl View for Field {
    type V = FieldView;

    open spec fn view(&self) -> FieldView {
        match self {
            Field::Text(text) => FieldView::Text(text@),
            Field::Flag(flag) => FieldView::Flag(*flag),
            Field::Table(cells) => FieldView::Table(cells_view(cells@)),
            Field::Other => FieldView::Other,
        }
    }
}

impl View for Document {
    type V = Seq<(Seq<char>, FieldView)>;

    open spec fn view(&self) -> Seq<(Seq<char>, FieldView)> {
        Seq::new(self.fields@.len(), |i: int| (self.fields@[i].0@, self.fields@[i].1@))
    }
}

/// The package set that a table of cells holds: every cell is a text, every
/// name is a package name, every text a version. Of two cells with one name
/// the later counts.
pub open spec fn table_packages(cells: Seq<(Seq<char>, CellView)>) -> Option<
    Map<Seq<char>, Seq<char>>,
>
    decreases cells.len(),
{
    if cells.len() == 0 {
        Some(Map::empty())
    } else {
        match (table_packages(cells.drop_last()), cells.last().1) {
            (Some(before), CellView::Text(version)) => if valid_name(cells.last().0)
                && valid_version(version) {
                Some(before.insert(cells.last().0, version))
            } else {
                None
            },
            _ => None,
        }
    }
}

/// The snapshot that a document holds, if it holds one: it has the three
/// fields `time`, `pinned` and `packages` and no other, the time names a
/// moment, and the packages are a package set.
pub open spec fn decoded(document: Seq<(Seq<char>, FieldView)>) -> Option<SnapshotView> {
    if document.len() == 3 && has_key(document, "time"@) && has_key(document, "pinned"@)
        && has_key(document, "packages"@) {
        let fields = pairs_map(document);
        match (fields["time"@], fields["pinned"@], fields["packages"@]) {
            (FieldView::Text(text), FieldView::Flag(pinned), FieldView::Table(cells)) => match (
                parsed_time(text),
                table_packages(cells),
            ) {
                (Some(time), Some(packages)) => Some(SnapshotView { time, pinned, packages }),
                _ => None,
            },
            _ => None,
        }
    } else {
        None
    }
}

/// The cells that hold the packages `pairs`.
pub open spec fn cells_of(pairs: Seq<(Seq<char>, Seq<char>)>) -> Seq<(Seq<char>, CellView)> {
    Seq::new(pairs.len(), |i: int| (pairs[i].0, CellView::Text(pairs[i].1)))
}

/// The document that holds a snapshot.
pub open spec fn document_of(time: Timestamp, pinned: bool, pairs: Seq<(Seq<char>, Seq<char>)>) -> Seq<
    (Seq<char>, FieldView),
> {
    seq![
        ("time"@, FieldView::Text(text_of(time))),
        ("pinned"@, FieldView::Flag(pinned)),
        ("packages"@, FieldView::Table(cells_of(pairs))),
    ]
}

/// The three names of the fields differ.
proof fn lemma_field_names()
    ensures
        "time"@ != "pinned"@,
        "time"@ != "packages"@,
        "pinned"@ != "packages"@,
{
    reveal_strlit("time");
    reveal_strlit("pinned");
    reveal_strlit("packages");
    assert("time"@.len() == 4);
    assert("pinned"@.len() == 6);
    assert("packages"@.len() == 8);
}

/// The cells of a package set hold that package set.
proof fn lemma_table_of_cells(pairs: Seq<(Seq<char>, Seq<char>)>)
    requires
        distinct_keys(pairs),
        valid_pairs(pairs),
    ensures
        table_packages(cells_of(pairs)) == Some(pairs_map(pairs)),
    decreases pairs.len(),
{
    if pairs.len() == 0 {
        crate::assoc::lemma_pairs_map_empty(pairs);
    } else {
        let shorter = pairs.drop_last();
        let last = pairs.last();
        assert(distinct_keys(shorter)) by {
            assert forall|i: int, j: int| 0 <= i < j < shorter.len() implies shorter[i].0
                != shorter[j].0 by {
                assert(shorter[i] == pairs[i]);
                assert(shorter[j] == pairs[j]);
            }
        }
        assert(valid_pairs(shorter)) by {
            assert forall|i: int| 0 <= i < shorter.len() implies valid_name(
                #[trigger] shorter[i].0,
            ) && valid_version(shorter[i].1) by {
                assert(shorter[i].0 == pairs[i].0);
                assert(valid_name(pairs[i].0));
            }
        }
        lemma_table_of_cells(shorter);
        assert(!has_key(shorter, last.0)) by {
            if has_key(shorter, last.0) {
                let k = choose|k: int| 0 <= k < shorter.len() && #[trigger] shorter[k].0 == last.0;
                assert(pairs[k].0 == pairs[pairs.len() - 1].0);
            }
        }
        lemma_push_pair(shorter, last);
        assert(shorter.push(last) =~= pairs);
        assert(cells_of(pairs).drop_last() =~= cells_of(shorter));
        assert(cells_of(pairs).last() == (last.0, CellView::Text(last.1)));
        assert(valid_name(pairs[pairs.len() - 1].0) && valid_version(pairs[pairs.len() - 1].1));
    }
}

/// The document of a snapshot holds that snapshot: what is saved is what
/// is loaded, the packages and the pin above all.
pub proof fn lemma_document_round_trip(
    time: Timestamp,
    pinned: bool,
    pairs: Seq<(Seq<char>, Seq<char>)>,
)
    requires
        time.wf(),
        distinct_keys(pairs),
        valid_pairs(pairs),
    ensures
        decoded(document_of(time, pinned, pairs)) == Some(
            SnapshotView { time, pinned, packages: pairs_map(pairs) },
        ),
{
    let document = document_of(time, pinned, pairs);
    lemma_field_names();
    assert(document[0].0 == "time"@);
    assert(document[1].0 == "pinned"@);
    assert(document[2].0 == "packages"@);
    assert(distinct_keys(document));
    lemma_pairs_map(document);
    assert(pairs_map(document)[document[0].0] == document[0].1);
    assert(pairs_map(document)[document[1].0] == document[1].1);
    assert(pairs_map(document)[document[2].0] == document[2].1);
    lemma_parse_text(time);
    lemma_table_of_cells(pairs);
}

/// The place of the first field called `name`.
fn find_field(document: &Document, name: &str) -> (place: Option<usize>)
    ensures
        match place {
            Some(i) => i < document@.len() && document@[i as int].0 == name@,
            None => !has_key(document@, name@),
        },
{
    let mut i: usize = 0;
    while i < document.fields.len()
        invariant
            i <= document.fields.len(),
            forall|k: int| 0 <= k < i ==> document@[k].0 != name@,
        decreases document.fields.len() - i,
    {
        if str_eq(document.fields[i].0.as_str(), name) {
            return Some(i);
        }
        i += 1;
    }
    None
}

/// The package set that the cells of a table hold.
fn packages_of_cells(cells: &Vec<(String, Cell)>) -> (packages: Option<Packages>)
    ensures
        match packages {
            Some(packages) => packages.wf() && table_packages(cells_view(cells@)) == Some(
                packages@,
            ),
            None => table_packages(cells_view(cells@)) is None,
        },
{
    let ghost all = cells_view(cells@);
    let mut packages = Packages::new();
    let mut i: usize = 0;
    assert(all.take(0) =~= Seq::<(Seq<char>, CellView)>::empty());
    while i < cells.len()
        invariant
            i <= cells.len(),
            all == cells_view(cells@),
            packages.wf(),
            table_packages(all.take(i as int)) == Some(packages@),
        decreases cells.len() - i,
    {
        proof {
            assert(all.take(i + 1).drop_last() =~= all.take(i as int));
            assert(all.take(i + 1).last() == all[i as int]);
        }
        let accepted = match &cells[i].1 {
            Cell::Text(version) => packages.insert(cells[i].0.clone(), version.clone()),
            Cell::Other => false,
        };
        if !accepted {
            proof {
                lemma_table_fails_on(all, i + 1);
            }
            return None;
        }
        i += 1;
    }
    assert(all.take(cells.len() as int) =~= all);
    Some(packages)
}

/// A table whose first cells hold no package set holds none.
proof fn lemma_table_fails_on(cells: Seq<(Seq<char>, CellView)>, upto: int)
    requires
        0 <= upto <= cells.len(),
        table_packages(cells.take(upto)) is None,
    ensures
        table_packages(cells) is None,
    decreases cells.len() - upto,
{
    if upto < cells.len() {
        assert(cells.take(upto + 1).drop_last() =~= cells.take(upto));
        lemma_table_fails_on(cells, upto + 1);
    } else {
        assert(cells.take(upto) =~= cells);
    }
}

impl Snapshot {
    /// The document that holds the snapshot.
    pub fn to_document(&self) -> (document: Document)
        requires
            self.wf(),
        ensures
            document@ == document_of(self.time, self.pinned, self.packages.pairs()),
    {
        let ghost pairs = self.packages.pairs();
        let mut cells: Vec<(String, Cell)> = Vec::new();
        let mut i: usize = 0;
        while i < self.packages.len()
            invariant
                i <= pairs.len(),
                pairs == self.packages.pairs(),
                cells_view(cells@) =~= cells_of(pairs.take(i as int)),
            decreases pairs.len() - i,
        {
            let package = self.packages.entry(i);
            let ghost before = cells_view(cells@);
            cells.push((package.name.clone(), Cell::Text(package.version.clone())));
            proof {
                let cell = (pairs[i as int].0, CellView::Text(pairs[i as int].1));
                assert(cells_view(cells@) =~= before.push(cell));
                assert(cells_of(pairs.take(i + 1)) =~= cells_of(pairs.take(i as int)).push(cell));
            }
            i += 1;
        }
        assert(pairs.take(pairs.len() as int) =~= pairs);
        let mut fields: Vec<(String, Field)> = Vec::new();
        fields.push(("time".to_owned(), Field::Text(self.time.text())));
        fields.push(("pinned".to_owned(), Field::Flag(self.pinned)));
        fields.push(("packages".to_owned(), Field::Table(cells)));
        let document = Document { fields };
        assert(document@ =~= document_of(self.time, self.pinned, pairs));
        document
    }

    /// The snapshot that `document` holds. A document with a field too
    /// many or too few, with a time that names no moment, or with something
    /// among its packages that is no package, holds none.
    pub fn from_document(document: &Document) -> (snapshot: Result<Snapshot, Error>)
        ensures
            match snapshot {
                Ok(snapshot) => snapshot.wf() && decoded(document@) == Some(snapshot@),
                Err(error) => decoded(document@) is None && error is Serialization,
            },
    {
        if document.fields.len() != 3 {
            return Err(Error::Serialization("a snapshot has three fields".to_owned()));
        }
        let (time_at, pinned_at, packages_at) = match (
            find_field(document, "time"),
            find_field(document, "pinned"),
            find_field(document, "packages"),
        ) {
            (Some(a), Some(b), Some(c)) => (a, b, c),
            _ => {
                return Err(
                    Error::Serialization("a snapshot has a time, a pin and packages".to_owned()),
                );
            },
        };
        proof {
            lemma_field_names();
            assert(distinct_keys(document@)) by {
                assert forall|i: int, j: int| 0 <= i < j < document@.len() implies document@[i].0
                    != document@[j].0 by {
                    assert(time_at != pinned_at && time_at != packages_at && pinned_at
                        != packages_at);
                }
            }
            lemma_pairs_map(document@);
            assert(pairs_map(document@)[document@[time_at as int].0] == document@[time_at as int].1);
            assert(pairs_map(document@)[document@[pinned_at as int].0]
                == document@[pinned_at as int].1);
            assert(pairs_map(document@)[document@[packages_at as int].0]
                == document@[packages_at as int].1);
        }
        match (
            &document.fields[time_at].1,
            &document.fields[pinned_at].1,
            &document.fields[packages_at].1,
        ) {
            (Field::Text(text), Field::Flag(pinned), Field::Table(cells)) => {
                let time = match Timestamp::parse(text.as_str()) {
                    Some(time) => time,
                    None => {
                        return Err(Error::Serialization("the time names no moment".to_owned()));
                    },
                };
                match packages_of_cells(cells) {
                    Some(packages) => Ok(Snapshot { time, pinned: *pinned, packages }),
                    None => Err(
                        Error::Serialization("the packages hold what is no package".to_owned()),
                    ),
                }
            },
            _ => Err(Error::Serialization("a field holds a value of the wrong kind".to_owned())),
        }
    }
}

} // verus!
