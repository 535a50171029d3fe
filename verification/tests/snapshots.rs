use aura::document::{Cell, Document, Field};
use aura::packages::Packages;
use aura::snapshot::{Error, Snapshot};
use aura::timestamp::Timestamp;
use serde_json::Value;

fn packages(pairs: &[(&str, &str)]) -> Packages {
    let mut set = Packages::new();
    for (name, version) in pairs {
        assert!(set.insert(name.to_string(), version.to_string()));
    }
    set
}

fn to_value(document: &Document) -> Value {
    let mut object = serde_json::Map::new();
    for (name, field) in &document.fields {
        let value = match field {
            Field::Text(text) => Value::String(text.clone()),
            Field::Flag(flag) => Value::Bool(*flag),
            Field::Table(cells) => {
                let mut table = serde_json::Map::new();
                for (key, cell) in cells {
                    let inner = match cell {
                        Cell::Text(text) => Value::String(text.clone()),
                        Cell::Other => Value::Null,
                    };
                    table.insert(key.clone(), inner);
                }
                Value::Object(table)
            }
            Field::Other => Value::Null,
        };
        object.insert(name.clone(), value);
    }
    Value::Object(object)
}

fn to_document(value: &Value) -> Document {
    let mut fields = Vec::new();
    if let Value::Object(object) = value {
        for (name, value) in object {
            let field = match value {
                Value::String(text) => Field::Text(text.clone()),
                Value::Bool(flag) => Field::Flag(*flag),
                Value::Object(table) => {
                    let mut cells = Vec::new();
                    for (key, inner) in table {
                        let cell = match inner {
                            Value::String(text) => Cell::Text(text.clone()),
                            _ => Cell::Other,
                        };
                        cells.push((key.clone(), cell));
                    }
                    Field::Table(cells)
                }
                _ => Field::Other,
            };
            fields.push((name.clone(), field));
        }
    }
    Document { fields }
}

fn load(text: &str) -> Result<Snapshot, Error> {
    let value: Value = serde_json::from_str(text).unwrap();
    Snapshot::from_document(&to_document(&value))
}

#[test]
fn save_then_load_gives_the_installed_packages() {
    let time = Timestamp::new(2024, 3, 17, 14, 8, 22).unwrap();
    let saved = Snapshot::capture(time, packages(&[("foo", "1.0-1"), ("bar", "2.3-4")]));
    assert!(!saved.pinned);
    let text = serde_json::to_string(&to_value(&saved.to_document())).unwrap();
    let loaded = load(&text).unwrap();
    assert_eq!(loaded.packages.len(), 2);
    assert_eq!(loaded.packages.get("foo"), Some(&"1.0-1".to_string()));
    assert_eq!(loaded.packages.get("bar"), Some(&"2.3-4".to_string()));
    assert!(!loaded.pinned);
    assert_eq!(loaded.time, time);
}

#[test]
fn save_then_load_keeps_any_package_set() {
    for count in [0usize, 1, 7, 40] {
        let mut set = Packages::new();
        for i in 0..count {
            assert!(set.insert(format!("pkg-{}", i), format!("{}.{}-{}", i, i * 3, i + 1)));
        }
        let time = Timestamp::new(1999, 12, 31, 23, 59, 59).unwrap();
        let saved = Snapshot::capture(time, set);
        let text = serde_json::to_string(&to_value(&saved.to_document())).unwrap();
        let loaded = load(&text).unwrap();
        assert!(!loaded.pinned);
        assert_eq!(loaded.time, time);
        assert_eq!(loaded.packages.len(), count);
        for i in 0..count {
            let package = saved.packages.entry(i);
            assert_eq!(loaded.packages.get(&package.name), Some(&package.version));
        }
    }
}

#[test]
fn document_has_the_three_fields() {
    let time = Timestamp::new(2024, 3, 17, 14, 8, 22).unwrap();
    let mut saved = Snapshot::capture(time, packages(&[("foo", "1.0-1")]));
    saved.pinned = true;
    let text = serde_json::to_string(&to_value(&saved.to_document())).unwrap();
    assert_eq!(
        text,
        "{\"packages\":{\"foo\":\"1.0-1\"},\"pinned\":true,\"time\":\"2024-03-17T14:08:22\"}"
    );
}

#[test]
fn load_takes_a_time_with_fraction_and_zone() {
    let loaded = load(
        "{\"time\":\"2021-05-31T09:15:02.123456789+09:00\",\"pinned\":true,\"packages\":{\"a\":\"1-1\"}}",
    )
    .unwrap();
    assert_eq!(loaded.time, Timestamp::new(2021, 5, 31, 9, 15, 2).unwrap());
    assert!(loaded.pinned);
    assert_eq!(loaded.packages.get("a"), Some(&"1-1".to_string()));
    assert!(load("{\"time\":\"2021-05-31T09:15:02Z\",\"pinned\":false,\"packages\":{}}").is_ok());
    assert!(load("{\"time\":\"2021-05-31T09:15:02-03:30\",\"pinned\":false,\"packages\":{}}").is_ok());
}

#[test]
fn load_refuses_an_unknown_field() {
    let loaded = load(
        "{\"time\":\"2021-05-31T09:15:02\",\"pinned\":false,\"packages\":{},\"host\":\"box\"}",
    );
    assert!(matches!(loaded, Err(Error::Serialization(_))));
}

#[test]
fn load_refuses_a_missing_field() {
    assert!(matches!(load("{}"), Err(Error::Serialization(_))));
    assert!(matches!(
        load("{\"time\":\"2021-05-31T09:15:02\",\"packages\":{}}"),
        Err(Error::Serialization(_))
    ));
    assert!(matches!(
        load("{\"time\":\"2021-05-31T09:15:02\",\"pinned\":false,\"package\":{}}"),
        Err(Error::Serialization(_))
    ));
    assert!(matches!(load("[1, 2, 3]"), Err(Error::Serialization(_))));
}

#[test]
fn load_refuses_values_of_the_wrong_kind() {
    assert!(matches!(
        load("{\"time\":17,\"pinned\":false,\"packages\":{}}"),
        Err(Error::Serialization(_))
    ));
    assert!(matches!(
        load("{\"time\":\"2021-05-31T09:15:02\",\"pinned\":\"no\",\"packages\":{}}"),
        Err(Error::Serialization(_))
    ));
    assert!(matches!(
        load("{\"time\":\"2021-05-31T09:15:02\",\"pinned\":false,\"packages\":[]}"),
        Err(Error::Serialization(_))
    ));
    assert!(matches!(
        load("{\"time\":\"2021-05-31T09:15:02\",\"pinned\":false,\"packages\":{\"a\":1}}"),
        Err(Error::Serialization(_))
    ));
}

#[test]
fn load_refuses_what_is_no_package() {
    assert!(matches!(
        load("{\"time\":\"2021-05-31T09:15:02\",\"pinned\":false,\"packages\":{\"\":\"1\"}}"),
        Err(Error::Serialization(_))
    ));
    assert!(matches!(
        load("{\"time\":\"2021-05-31T09:15:02\",\"pinned\":false,\"packages\":{\"a/b\":\"1\"}}"),
        Err(Error::Serialization(_))
    ));
    assert!(matches!(
        load("{\"time\":\"2021-05-31T09:15:02\",\"pinned\":false,\"packages\":{\"a\":\"\"}}"),
        Err(Error::Serialization(_))
    ));
}

#[test]
fn load_refuses_a_time_that_names_no_moment() {
    for time in [
        "",
        "yesterday",
        "2021-02-29T09:15:02",
        "2021-13-01T09:15:02",
        "2021-00-10T09:15:02",
        "2021-05-31T24:00:00",
        "2021-05-31T09:60:02",
        "2021-05-31T09:15:61",
        "2021-05-31 09:15:02",
        "2021-05-31T09:15:02.",
        "2021-05-31T09:15:02+0900",
        "2021-05-31T09:15:02.5x",
        "2021-05-31T09:15:0",
    ] {
        let text = format!("{{\"time\":\"{}\",\"pinned\":false,\"packages\":{{}}}}", time);
        assert!(matches!(load(&text), Err(Error::Serialization(_))), "{}", time);
    }
}

#[test]
fn duplicate_field_is_one_field_too_many() {
    let document = Document {
        fields: vec![
            ("time".to_string(), Field::Text("2021-05-31T09:15:02".to_string())),
            ("pinned".to_string(), Field::Flag(false)),
            ("pinned".to_string(), Field::Flag(true)),
            ("packages".to_string(), Field::Table(Vec::new())),
        ],
    };
    assert!(matches!(Snapshot::from_document(&document), Err(Error::Serialization(_))));
    let document = Document {
        fields: vec![
            ("time".to_string(), Field::Text("2021-05-31T09:15:02".to_string())),
            ("pinned".to_string(), Field::Flag(false)),
            ("pinned".to_string(), Field::Flag(true)),
        ],
    };
    assert!(matches!(Snapshot::from_document(&document), Err(Error::Serialization(_))));
}

#[test]
fn later_cell_of_one_name_counts() {
    let document = Document {
        fields: vec![
            (
                "packages".to_string(),
                Field::Table(vec![
                    ("a".to_string(), Cell::Text("1".to_string())),
                    ("b".to_string(), Cell::Text("5".to_string())),
                    ("a".to_string(), Cell::Text("2".to_string())),
                ]),
            ),
            ("pinned".to_string(), Field::Flag(true)),
            ("time".to_string(), Field::Text("2021-05-31T09:15:02".to_string())),
        ],
    };
    let loaded = Snapshot::from_document(&document).unwrap();
    assert_eq!(loaded.packages.len(), 2);
    assert_eq!(loaded.packages.get("a"), Some(&"2".to_string()));
    assert_eq!(loaded.packages.get("b"), Some(&"5".to_string()));
}

#[test]
fn file_name_follows_the_pattern() {
    let time = Timestamp::new(2024, 3, 17, 14, 8, 22).unwrap();
    assert_eq!(time.file_name(), "2024.03(Mar).17.14.08.22.json");
    let snapshot = Snapshot::capture(time, Packages::new());
    assert_eq!(snapshot.file_name(), "2024.03(Mar).17.14.08.22.json");
    assert_eq!(
        Timestamp::new(987, 12, 1, 0, 0, 0).unwrap().file_name(),
        "0987.12(Dec).01.00.00.00.json"
    );
    assert_eq!(
        Timestamp::new(9999, 1, 31, 23, 59, 60).unwrap().file_name(),
        "9999.01(Jan).31.23.59.60.json"
    );
}

#[test]
fn file_name_has_every_month() {
    let months = ["Jan", "Feb", "Mar", "Apr", "May", "Jun", "Jul", "Aug", "Sep", "Oct", "Nov", "Dec"];
    for (i, month) in months.iter().enumerate() {
        let time = Timestamp::new(2020, (i + 1) as u8, 9, 7, 5, 3).unwrap();
        assert_eq!(time.file_name(), format!("2020.{:02}({}).09.07.05.03.json", i + 1, month));
    }
}

#[test]
fn different_seconds_give_different_file_names() {
    let mut times = Vec::new();
    for (year, month, day) in [(2023u16, 12u8, 31u8), (2024, 1, 1), (2024, 1, 11), (2024, 11, 1)] {
        for (hour, minute, second) in [(0u8, 0u8, 0u8), (0, 0, 1), (0, 1, 0), (1, 0, 0), (1, 10, 0), (10, 1, 0)] {
            times.push(Timestamp::new(year, month, day, hour, minute, second).unwrap());
        }
    }
    for (i, a) in times.iter().enumerate() {
        for (j, b) in times.iter().enumerate() {
            assert_eq!(i == j, a.file_name() == b.file_name());
            assert_eq!(i == j, a.sort_key() == b.sort_key());
            assert_eq!(i < j, a.sort_key() < b.sort_key());
        }
    }
}

#[test]
fn timestamp_is_a_moment_that_exists() {
    assert!(Timestamp::new(2024, 2, 29, 0, 0, 0).is_some());
    assert!(Timestamp::new(2023, 2, 29, 0, 0, 0).is_none());
    assert!(Timestamp::new(1900, 2, 29, 0, 0, 0).is_none());
    assert!(Timestamp::new(2000, 2, 29, 0, 0, 0).is_some());
    assert!(Timestamp::new(2024, 4, 31, 0, 0, 0).is_none());
    assert!(Timestamp::new(2024, 4, 30, 23, 59, 60).is_some());
    assert!(Timestamp::new(2024, 0, 1, 0, 0, 0).is_none());
    assert!(Timestamp::new(2024, 13, 1, 0, 0, 0).is_none());
    assert!(Timestamp::new(2024, 1, 0, 0, 0, 0).is_none());
    assert!(Timestamp::new(2024, 1, 1, 24, 0, 0).is_none());
    assert!(Timestamp::new(2024, 1, 1, 0, 60, 0).is_none());
    assert!(Timestamp::new(2024, 1, 1, 0, 0, 61).is_none());
    assert!(Timestamp::new(10000, 1, 1, 0, 0, 0).is_none());
    assert!(Timestamp::new(0, 1, 1, 0, 0, 0).is_some());
    let made = Timestamp { year: 2024, month: 2, day: 30, hour: 0, minute: 0, second: 0 };
    assert!(!made.is_valid());
}

#[test]
fn time_text_is_read_back() {
    let time = Timestamp::new(2024, 3, 17, 14, 8, 22).unwrap();
    assert_eq!(time.text(), "2024-03-17T14:08:22");
    assert_eq!(Timestamp::parse(&time.text()), Some(time));
    assert_eq!(time.sort_key(), 20240317140822);
    let early = Timestamp::new(7, 1, 2, 3, 4, 5).unwrap();
    assert_eq!(early.text(), "0007-01-02T03:04:05");
    assert_eq!(Timestamp::parse("0007-01-02T03:04:05"), Some(early));
}

#[test]
fn error_texts_and_exit_codes() {
    assert_eq!(Error::Io("disk full".to_string()).message(), "disk full");
    assert_eq!(Error::Serialization("bad".to_string()).message(), "bad");
    assert_eq!(Error::Privilege.message(), "Failed to raise privileges.");
    assert_eq!(Error::DriverFailure(Some(1)).message(), "The package manager failed.");
    assert_eq!(Error::Cancelled.message(), "Action cancelled.");
    assert_eq!(Error::Empty.message(), "");
    assert_eq!(
        Error::CacheRace("foo".to_string()).message(),
        "No tarball is left in the cache for foo"
    );
    let errors = [
        Error::Io(String::new()),
        Error::Serialization(String::new()),
        Error::Privilege,
        Error::DriverFailure(None),
        Error::DriverFailure(Some(7)),
        Error::Cancelled,
        Error::Empty,
        Error::CacheRace(String::new()),
    ];
    for error in &errors {
        assert_ne!(error.exit_code(), 0);
    }
    assert_ne!(Error::Cancelled.exit_code(), Error::DriverFailure(Some(1)).exit_code());
    assert_eq!(Error::Cancelled.exit_code(), 3);
    assert_eq!(Error::DriverFailure(None).exit_code(), 2);
    assert_eq!(Error::Empty.exit_code(), 1);
}

#[test]
fn menu_shows_the_month_by_its_name() {
    let time = Timestamp::new(2024, 3, 17, 14, 8, 22).unwrap();
    assert_eq!(time.menu_text(), "2024 March 17 14:08:22");
    let time = Timestamp::new(1987, 9, 1, 0, 0, 5).unwrap();
    assert_eq!(time.menu_text(), "1987 September 01 00:00:05");
    let names = [
        "January", "February", "March", "April", "May", "June", "July", "August", "September",
        "October", "November", "December",
    ];
    for (i, name) in names.iter().enumerate() {
        let time = Timestamp::new(2020, (i + 1) as u8, 9, 7, 5, 3).unwrap();
        assert_eq!(time.menu_text(), format!("2020 {} 09 07:05:03", name));
    }
}
