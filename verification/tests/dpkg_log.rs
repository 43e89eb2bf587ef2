use pkg_history::action::Action;
use pkg_history::apt::LogType;
use pkg_history::dpkg::check_startup_packages_remove;
use pkg_history::dpkg::remove_dependencies_from_packages;
use pkg_history::dpkg::startup_from_capture;
use pkg_history::dpkg::InstallationStatus;
use pkg_history::error::ParseErrorSource;
use pkg_history::history::grepped_dpkg_candidates;
use pkg_history::history::try_grepped_dpkg_candidates;
use pkg_history::pattern::Capture;
use pkg_history::sorting::lex_less;
use pkg_history::sorting::dedup_strings;
use pkg_history::sorting::sort_strings;
use pkg_history::stats::Stats;
use pkg_history::stats::TimeBegin;
use pkg_history::text::str_chars;

fn words(ws: &[&str]) -> Vec<String> {
    ws.iter().map(|w| w.to_string()).collect()
}

#[test]
fn status_lines_name_action_and_package() {
    let s = InstallationStatus::get_event(
        "2023-01-05 10:12:13 status installed vim:amd64 2:9.0.1378-2",
        &0,
        LogType::GreppedDpkgLog,
    );
    assert!(matches!(s.action, Action::Installed));
    assert_eq!(s.package_name, "vim");
    let s = InstallationStatus::get_event(
        "2023-01-06 08:00:00 remove libfoo1:amd64 1.2 <none>",
        &1,
        LogType::GreppedDpkgLog,
    );
    assert!(matches!(s.action, Action::Remove));
    assert_eq!(s.package_name, "libfoo1");
}

#[test]
fn the_startup_removal_has_no_package() {
    let line = "2023-01-05 10:12:13 startup packages remove";
    assert!(matches!(check_startup_packages_remove(line), Ok(Some(Action::StartupPackagesRemove))));
    let s = InstallationStatus::get_event(line, &0, LogType::GreppedDpkgLog);
    assert!(matches!(s.action, Action::StartupPackagesRemove));
    assert_eq!(s.package_name, "");
    assert!(matches!(check_startup_packages_remove("startup packages remove"), Ok(None)));
}

#[test]
fn lines_without_a_rule_are_refused() {
    let line = "2023-01-05 10:12:13 status half-installed vim:amd64 2:9.0";
    let e = InstallationStatus::try_get_event(line, &4, LogType::GreppedDpkgLog).err().unwrap();
    assert!(matches!(e.source, ParseErrorSource::NoDpkgRule));
    assert_eq!(e.line_number, 4);
    assert_eq!(e.line, line);
    let e = InstallationStatus::try_get_event(line, &4, LogType::AptHistoryGzip).err().unwrap();
    assert!(matches!(e.source, ParseErrorSource::AptHistoryLogForDpkgEvent));
}

#[test]
fn captures_decide_the_event() {
    let s = InstallationStatus::from_captures(
        Capture::Text(String::from("remove")),
        Capture::Text(String::from("ed")),
        Ok(None),
    )
    .ok()
    .unwrap();
    assert!(matches!(s.action, Action::Remove));
    assert_eq!(s.package_name, "ed");
    let s = InstallationStatus::from_captures(Capture::Unset, Capture::Unset, Ok(None)).ok().unwrap();
    match s.action {
        Action::Other(c) => assert_eq!(c.to_string(), "init"),
        _ => panic!("an unset action is unreadable"),
    }
    assert!(matches!(
        InstallationStatus::from_captures(Capture::NoMatch, Capture::NoMatch, Ok(None)),
        Err(ParseErrorSource::NoDpkgRule)
    ));
    assert!(matches!(
        InstallationStatus::from_captures(Capture::InvalidPattern, Capture::NoMatch, Ok(None)),
        Err(ParseErrorSource::InvalidPattern)
    ));
    assert!(matches!(startup_from_capture(Capture::Text(String::from("x"))), Ok(Some(Action::StartupPackagesRemove))));
    assert!(matches!(startup_from_capture(Capture::InvalidPattern), Err(ParseErrorSource::InvalidPattern)));
}

#[test]
fn the_dpkg_log_is_read_from_its_end() {
    let contents = "2023-01-01 00:00:01 status installed vim:amd64 1\n\
                    2023-01-02 00:00:01 remove vim:amd64 1 <none>\n\
                    2023-01-03 00:00:01 status installed git:amd64 1\n\
                    2023-01-04 00:00:01 status installed curl:amd64 1\n\
                    2023-01-05 00:00:01 status installed curl:amd64 1\n\
                    2023-01-06 00:00:01 startup packages remove\n";
    let (mut time_begin, mut stats) = (TimeBegin::new(), Stats::new());
    let to_install = grepped_dpkg_candidates(contents, &mut time_begin, &mut stats);
    assert!(stats.get("to_install, deduplicating").is_some());
    assert_eq!(to_install, words(&["curl", "git"]));
}

#[test]
fn the_dpkg_log_numbers_lines_from_its_end() {
    let contents = "garbage\n2023-01-01 00:00:01 status installed vim:amd64 1\n";
    let (mut time_begin, mut stats) = (TimeBegin::new(), Stats::new());
    let e = try_grepped_dpkg_candidates(contents, &mut time_begin, &mut stats).err().unwrap();
    assert_eq!(stats.len(), 0);
    assert_eq!(e.line_number, 1);
    assert_eq!(e.line, "garbage");
}

#[test]
fn candidates_are_sorted_once_each() {
    let v = words(&["b", "a", "b", "ä", "A", "ab", "a"]);
    let mut expected = v.clone();
    expected.sort();
    expected.dedup();
    let mut sorted = v.clone();
    sorted.sort();
    assert_eq!(sort_strings(&v), sorted);
    assert_eq!(dedup_strings(&sort_strings(&v)), expected);
    assert_eq!(dedup_strings(&sort_strings(&v)), words(&["A", "a", "ab", "b", "ä"]));
    assert_eq!(dedup_strings(&words(&["a", "b", "a", "a"])), words(&["a", "b", "a"]));
    assert!(lex_less(&str_chars("ab"), &str_chars("b")));
    assert!(lex_less(&str_chars("a"), &str_chars("ab")));
    assert!(!lex_less(&str_chars("ab"), &str_chars("ab")));
}

#[test]
fn packages_others_depend_on_are_dropped() {
    let mut packages = words(&["vim", "git", "libc6", "vim"]);
    let outputs = words(&[
        "vim\nReverse Depends:\n  vim-gtk3\n",
        "git\nReverse Depends:\n",
        "other\nReverse Depends:\n  x\n",
        "vim\nReverse Depends:\n  vim-gtk3\n",
    ]);
    let mut stats = Stats::new();
    remove_dependencies_from_packages(&mut packages, &outputs, &mut stats);
    assert_eq!(packages, words(&["git", "libc6"]));
    assert!(stats.get("remove dependencies, remove from package_list").is_some());
}
