use aura::command::{action, Action};
use aura::git;
use aura::names::NameSet;
use aura::open::{aur, book, bug, repo, AUR_PKG_URL};
use aura::orphans;
use aura::orphans::{adoptable, align_right, removal_report, Removal};
use aura::packages::Packages;
use aura::utils::{accepts, info_padding, pad, parse_number, selection, sudo, void, SudoError};

fn strings(items: &[&str]) -> Vec<String> {
    items.iter().map(|item| item.to_string()).collect()
}

#[test]
fn flags_name_the_actions() {
    assert_eq!(action("-B"), Some(Action::Save));
    assert_eq!(action("-Bc"), Some(Action::Clean));
    assert_eq!(action("-Bl"), Some(Action::List));
    assert_eq!(action("-Br"), Some(Action::Restore));
    assert_eq!(action("-Bx"), None);
    assert_eq!(action("-b"), None);
    assert_eq!(action(""), None);
    assert_eq!(action("-Bcl"), None);
}

#[test]
fn pad_fills_up_to_the_longest_label() {
    assert_eq!(pad(1, 10, "Name"), 6);
    assert_eq!(pad(2, 10, "Name"), 12);
    assert_eq!(pad(1, 4, "Name"), 0);
    assert_eq!(pad(0, 9, ""), 0);
    assert_eq!(pad(2, 3, "名前"), 2);
}

#[test]
fn info_padding_goes_by_the_language() {
    let labels = strings(&["Name", "Version", "URL"]);
    assert_eq!(info_padding("en", &labels), vec![3, 0, 4]);
    assert_eq!(info_padding("ja", &labels), vec![6, 0, 8]);
    assert_eq!(info_padding("jap", &labels), vec![3, 0, 4]);
    assert!(info_padding("ja", &Vec::new()).is_empty());
}

#[test]
fn empty_answer_and_y_accept() {
    assert!(accepts(""));
    assert!(accepts("y"));
    assert!(accepts("Y"));
    assert!(!accepts("n"));
    assert!(!accepts("yes"));
    assert!(!accepts(" "));
    assert!(!accepts("yY"));
}

#[test]
fn numbers_are_read_as_the_machine_reads_them() {
    let max = usize::MAX.to_string();
    let mut above = max.clone();
    above.push('0');
    for text in ["0", "7", "42", "007", "+5", "+0", "", "+", "-1", "++1", "1+", " 1", "1 ", "1_0", "x", "1.0", "٣", max.as_str(), above.as_str(), "18446744073709551616", "99999999999999999999999"] {
        assert_eq!(parse_number(text), text.parse::<usize>().ok(), "{:?}", text);
    }
    assert_eq!(parse_number("42"), Some(42));
    assert_eq!(parse_number("+5"), Some(5));
    assert_eq!(parse_number("18446744073709551616"), None);
}

#[test]
fn selection_is_a_number_on_the_menu() {
    assert_eq!(selection("0", 0), Some(0));
    assert_eq!(selection("3", 3), Some(3));
    assert_eq!(selection("4", 3), None);
    assert_eq!(selection("+2", 3), Some(2));
    assert_eq!(selection("two", 3), None);
    assert_eq!(selection("", 3), None);
    assert_eq!(selection("-1", 3), None);
}

#[test]
fn sudo_goes_on_only_as_root() {
    assert_eq!(sudo(true), Ok(()));
    assert_eq!(sudo(false), Err(SudoError));
    assert_eq!(SudoError.message(), "Failed to raise privileges.");
}

#[test]
fn void_forgets_the_value_and_lifts_the_error() {
    let fine: Result<(), u64> = void::<&str, u8, u64>(Ok("kept"));
    assert_eq!(fine, Ok(()));
    let failed: Result<(), u64> = void::<&str, u8, u64>(Err(7));
    assert_eq!(failed, Err(7u64));
}

#[test]
fn pages_of_the_program() {
    assert_eq!(book(), "https://fosskers.github.io/aura/");
    assert_eq!(repo(), "https://github.com/fosskers/aura");
    assert_eq!(bug(), "https://github.com/fosskers/aura/issues/new");
    assert_eq!(aur(), "https://aur.archlinux.org/packages/aura");
    assert_eq!(AUR_PKG_URL, "https://aur.archlinux.org/packages/");
}

#[test]
fn git_calls() {
    assert_eq!(
        git::clone_arguments("https://aur.archlinux.org/aura.git", "/tmp/aura"),
        strings(&["clone", "--depth=1", "https://aur.archlinux.org/aura.git", "/tmp/aura"])
    );
    assert_eq!(git::pull_arguments(), strings(&["pull", "--quiet", "--ff-only"]));
    assert!(git::clone_outcome(true, "url".to_string()).is_ok());
    assert!(git::pull_outcome(true, "dir".to_string()).is_ok());
    match git::clone_outcome(false, "https://x/y.git".to_string()) {
        Err(error) => {
            assert!(matches!(&error, git::Error::Clone(url) if url == "https://x/y.git"));
            assert_eq!(error.message(), "A git clone failed: https://x/y.git");
        }
        Ok(()) => panic!("the clone failed"),
    }
    match git::pull_outcome(false, "/tmp/aura".to_string()) {
        Err(error) => {
            assert!(matches!(&error, git::Error::Pull(dir) if dir == "/tmp/aura"));
            assert_eq!(error.message(), "A git pull failed: /tmp/aura");
        }
        Ok(()) => panic!("the pull failed"),
    }
    assert_eq!(git::Error::Io("no git".to_string()).message(), "no git");
}

#[test]
fn only_installed_packages_are_adopted() {
    let mut installed = Packages::new();
    assert!(installed.insert("a".to_string(), "1".to_string()));
    assert!(installed.insert("c".to_string(), "1".to_string()));
    let targets = adoptable(&strings(&["c", "b", "a", "c"]), &installed).unwrap();
    assert_eq!(targets, strings(&["c", "a", "c"]));
    assert!(matches!(
        adoptable(&strings(&["b", "d"]), &installed),
        Err(orphans::Error::NoneExist)
    ));
    assert!(matches!(adoptable(&Vec::new(), &installed), Err(orphans::Error::NoneExist)));
}

#[test]
fn orphan_error_texts() {
    assert_eq!(orphans::Error::Alpm("db locked".to_string()).message(), "db locked");
    assert_eq!(orphans::Error::Readline("eof".to_string()).message(), "eof");
    assert_eq!(orphans::Error::Sudo(SudoError).message(), "Failed to raise privileges.");
    assert_eq!(orphans::Error::NoneExist.message(), "No such packages exist.");
    assert_eq!(orphans::Error::Cancelled.message(), "Action cancelled.");
}

#[test]
fn text_goes_to_the_right_of_its_column() {
    assert_eq!(align_right("3MiB", 9), "     3MiB");
    assert_eq!(align_right("", 3), "   ");
    assert_eq!(align_right("123456789", 9), "123456789");
    assert_eq!(align_right("1234567890", 9), "1234567890");
    assert_eq!(align_right("x", 0), "x");
}

#[test]
fn removal_report_lines_up_names_and_sizes() {
    let mut orphans = NameSet::new();
    orphans.insert("libfoo".to_string());
    let removal = vec![
        Removal { name: "libfoo".to_string(), size: 3 * 1048576 + 140000 },
        Removal { name: "bar".to_string(), size: 323000 },
        Removal { name: "a-long-name".to_string(), size: -5 },
    ];
    let report = removal_report(&orphans, &removal).unwrap();
    assert_eq!(report.lines.len(), 3);
    assert_eq!(report.lines[0].name, "libfoo");
    assert!(report.lines[0].orphan);
    assert_eq!(report.lines[0].blanks, 5);
    assert_eq!(report.lines[0].size, "  3.13MiB");
    assert_eq!(report.lines[1].name, "bar");
    assert!(!report.lines[1].orphan);
    assert_eq!(report.lines[1].blanks, 8);
    assert_eq!(report.lines[1].size, "    323kB");
    assert_eq!(report.lines[2].blanks, 0);
    assert_eq!(report.lines[2].size, "       0B");
    assert_eq!(report.rule, 21);
    assert_eq!(report.total_blanks, 6);
    // 3 MiB + 140 kB + 323 kB - 5 B
    assert_eq!(report.total, "  3.44MiB");
}

#[test]
fn removal_report_of_nothing() {
    let report = removal_report(&NameSet::new(), &Vec::new()).unwrap();
    assert!(report.lines.is_empty());
    assert_eq!(report.rule, 10);
    assert_eq!(report.total_blanks, 0);
    assert_eq!(report.total, "       0B");
}

#[test]
fn removal_report_has_no_total_beyond_the_machine() {
    let removal = vec![
        Removal { name: "a".to_string(), size: i64::MAX },
        Removal { name: "b".to_string(), size: 1 },
    ];
    assert!(removal_report(&NameSet::new(), &removal).is_none());
    let removal = vec![
        Removal { name: "a".to_string(), size: i64::MAX },
        Removal { name: "b".to_string(), size: 1 },
        Removal { name: "c".to_string(), size: -1 },
    ];
    assert!(removal_report(&NameSet::new(), &removal).is_some());
}
