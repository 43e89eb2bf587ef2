use pkg_history::action::Action;
use pkg_history::apt::analyze_apt_arguments;
use pkg_history::apt::try_analyze_apt_arguments;
use pkg_history::apt::analyze_apt_command_in_apt_history_log;
use pkg_history::apt::try_analyze_apt_command_in_apt_history_log;
use pkg_history::apt::InstallationStatusAptHistory;
use pkg_history::apt::LogType;
use pkg_history::error::ParseError;
use pkg_history::error::ParseErrorSource;
use pkg_history::history::apt_history_candidates;
use pkg_history::history::try_apt_history_candidates;
use pkg_history::stats::Stats;
use pkg_history::stats::TimeBegin;

fn words(ws: &[&str]) -> Vec<String> {
    ws.iter().map(|w| w.to_string()).collect()
}

#[test]
fn yes_flags_before_packages_are_passed_over() {
    let packages = analyze_apt_arguments(words(&["-y", "--yes", "vim", "git"]));
    assert_eq!(packages, words(&["vim", "git"]));
    assert_eq!(analyze_apt_arguments(Vec::new()), Vec::<String>::new());
}

#[test]
fn a_flag_after_a_package_is_refused() {
    match try_analyze_apt_arguments(words(&["vim", "-y"])) {
        Err(ParseErrorSource::FlagAfterPackages(f)) => assert_eq!(f, "-y"),
        _ => panic!("expected a flag after the packages"),
    }
    match try_analyze_apt_arguments(words(&["vim", "--purge"])) {
        Err(ParseErrorSource::FlagAfterPackages(f)) => assert_eq!(f, "--purge"),
        _ => panic!("expected a flag after the packages"),
    }
}

#[test]
fn an_unknown_flag_is_refused() {
    match try_analyze_apt_arguments(words(&["-y", "--no-install-recommends", "vim"])) {
        Err(ParseErrorSource::UnknownFlag(f)) => assert_eq!(f, "--no-install-recommends"),
        _ => panic!("expected an unknown flag"),
    }
}

#[test]
fn apt_actions_are_read() {
    let e = analyze_apt_command_in_apt_history_log(words(&["install", "-y", "vim"]));
    assert!(matches!(e.action, Action::Installed));
    assert_eq!(e.packages, words(&["vim"]));
    let e = analyze_apt_command_in_apt_history_log(words(&["reinstall", "curl"]));
    assert!(matches!(e.action, Action::Installed));
    let e = analyze_apt_command_in_apt_history_log(words(&["remove", "nano", "ed"]));
    assert!(matches!(e.action, Action::Remove));
    assert_eq!(e.packages, words(&["nano", "ed"]));
    let e = analyze_apt_command_in_apt_history_log(words(&["autoremove"]));
    match e.action {
        Action::Other(c) => assert_eq!(c.to_string(), "autoremove"),
        _ => panic!("autoremove is not followed"),
    }
    assert!(e.packages.is_empty());
}

#[test]
fn faulty_apt_commands_are_refused() {
    assert!(matches!(
        try_analyze_apt_command_in_apt_history_log(Vec::new()),
        Err(ParseErrorSource::NoAptAction)
    ));
    assert!(matches!(
        try_analyze_apt_command_in_apt_history_log(words(&["autoremove", "-y"])),
        Err(ParseErrorSource::AutoremoveWithArguments)
    ));
    match try_analyze_apt_command_in_apt_history_log(words(&["purge", "vim"])) {
        Err(ParseErrorSource::UnknownAptAction(a)) => assert_eq!(a, "purge"),
        _ => panic!("purge is no known action"),
    }
}

#[test]
fn history_lines_are_read_by_command() {
    let e = InstallationStatusAptHistory::get_event("apt-get install -y vim", &0, LogType::AptHistoryGzip);
    assert!(matches!(e.action, Action::Installed));
    assert_eq!(e.packages, words(&["vim"]));
    let e = InstallationStatusAptHistory::get_event("aptdaemon role='role-commit-packages'", &1, LogType::AptHistoryGzip);
    match e.action {
        Action::Other(c) => assert_eq!(c.to_string(), "aptdaemon"),
        _ => panic!("aptdaemon is not followed"),
    }
    assert!(e.packages.is_empty());
}

#[test]
fn unreadable_history_lines_are_reported_with_their_number() {
    let e: ParseError = InstallationStatusAptHistory::try_get_event("snap install vlc", &7, LogType::AptHistoryGzip)
        .err()
        .unwrap();
    assert_eq!(e.line_number, 7);
    assert_eq!(e.line, "snap install vlc");
    match &e.source {
        ParseErrorSource::UnknownCommand(c) => assert_eq!(c, "snap"),
        _ => panic!("snap is no known command"),
    }
    assert_eq!(
        e.message(),
        "Here is an unknown command: snap,\nline_number: 7,\n line:\nsnap install vlc\n"
    );
    let e = InstallationStatusAptHistory::try_get_event("", &3, LogType::AptHistoryGzip).err().unwrap();
    assert!(matches!(e.source, ParseErrorSource::UnknownCommand(_)));
    let e = InstallationStatusAptHistory::try_get_event("apt install vim", &2, LogType::GreppedDpkgLog).err().unwrap();
    assert!(matches!(e.source, ParseErrorSource::DpkgLogForAptHistoryEvent));
    assert_eq!(e.line_number, 2);
}

#[test]
fn a_history_is_replayed_in_order() {
    let contents = "apt install vim git\napt-get remove vim\napt install -y curl\napt remove nano\naptdaemon role='x'\napt autoremove\n";
    let (mut time_begin, mut stats) = (TimeBegin::new(), Stats::new());
    let (to_install, to_remove) = apt_history_candidates(contents, &mut time_begin, &mut stats);
    assert_eq!(to_install, words(&["git", "curl"]));
    assert_eq!(to_remove, words(&["nano"]));
}

#[test]
fn a_history_stops_at_the_first_unreadable_line() {
    let contents = "apt install vim\r\napt frobnicate vim\r\nsnap install x\r\n";
    let (mut time_begin, mut stats) = (TimeBegin::new(), Stats::new());
    let e = try_apt_history_candidates(contents, &mut time_begin, &mut stats).err().unwrap();
    assert_eq!(stats.len(), 0);
    assert_eq!(e.line_number, 1);
    assert_eq!(e.line, "apt frobnicate vim");
    match &e.source {
        ParseErrorSource::UnknownAptAction(a) => assert_eq!(a, "frobnicate"),
        _ => panic!("frobnicate is no known action"),
    }
}

#[test]
fn installing_more_often_than_removing_leaves_a_candidate() {
    let contents = "apt install vim\napt install vim\napt remove vim\napt remove ed\napt install ed";
    let (mut time_begin, mut stats) = (TimeBegin::new(), Stats::new());
    let (to_install, to_remove) = apt_history_candidates(contents, &mut time_begin, &mut stats);
    assert_eq!(to_install, words(&["vim"]));
    assert!(to_remove.is_empty());
}

#[test]
fn a_readable_history_succeeds_through_the_checked_call() {
    let (mut time_begin, mut stats) = (TimeBegin::new(), Stats::new());
    let (to_install, to_remove) =
        try_apt_history_candidates("apt install vim\napt remove ed\n", &mut time_begin, &mut stats)
            .ok()
            .unwrap();
    assert_eq!(to_install, words(&["vim"]));
    assert_eq!(to_remove, words(&["ed"]));
}
