use pkg_history::action::Action;
use pkg_history::stats::Stats;
use pkg_history::stats::TimeBegin;

#[test]
fn check_properly_removed_from_installation_candidates() {
    let (mut to_install, mut to_remove) = (
        vec![
            String::from("brave"),
            String::from("firefox"),
            String::from("thunderbird"),
        ],
        vec![String::from("inet-utils")],
    );
    let (mut time_begin, mut stats) = (TimeBegin::new(), Stats::new());
    let package = String::from("brave");
    (Action::Remove).manage_installation_candidates_on_action(
        package,
        &mut to_install,
        &mut to_remove,
        &mut time_begin,
        &mut stats,
    );

    assert_eq!(
        to_install,
        vec![String::from("firefox"), String::from("thunderbird"),]
    );

    assert_eq!(to_remove, vec![String::from("inet-utils")]);
}

#[test]
fn check_properly_removed_from_remove_candidates() {
    let (mut to_install, mut to_remove) = (
        vec![
            String::from("brave"),
            String::from("firefox"),
            String::from("thunderbird"),
        ],
        vec![String::from("inet-utils")],
    );
    let (mut time_begin, mut stats) = (TimeBegin::new(), Stats::new());
    let package = String::from("inet-utils");
    (Action::Installed).manage_installation_candidates_on_action(
        package,
        &mut to_install,
        &mut to_remove,
        &mut time_begin,
        &mut stats,
    );
    assert_eq!(
        to_install,
        vec![
            String::from("brave"),
            String::from("firefox"),
            String::from("thunderbird"),
        ],
    );

    assert_eq!(to_remove, Vec::<String>::new(),);
}

#[test]
fn check_properly_adding_to_installation_candidates() {
    let (mut to_install, mut to_remove) = (
        vec![String::from("brave"), String::from("firefox")],
        vec![String::from("inet-utils")],
    );
    let (mut time_begin, mut stats) = (TimeBegin::new(), Stats::new());
    let package = String::from("thunderbird");
    (Action::Installed).manage_installation_candidates_on_action(
        package,
        &mut to_install,
        &mut to_remove,
        &mut time_begin,
        &mut stats,
    );

    assert_eq!(
        to_install,
        vec![
            String::from("brave"),
            String::from("firefox"),
            String::from("thunderbird"),
        ],
    );

    assert_eq!(to_remove, vec![String::from("inet-utils")]);
}

#[test]
fn check_properly_adding_to_remove_candidates() {
    let (mut to_install, mut to_remove) = (
        vec![String::from("brave"), String::from("firefox")],
        vec![String::from("inet-utils")],
    );
    let (mut time_begin, mut stats) = (TimeBegin::new(), Stats::new());
    let package = String::from("thunderbird");
    (Action::Remove).manage_installation_candidates_on_action(
        package,
        &mut to_install,
        &mut to_remove,
        &mut time_begin,
        &mut stats,
    );

    assert_eq!(
        to_install,
        vec![String::from("brave"), String::from("firefox")],
    );
    assert_eq!(
        to_remove,
        vec![String::from("inet-utils"), String::from("thunderbird")]
    );
}

#[test]
fn other_actions_leave_the_candidates_alone() {
    let (mut to_install, mut to_remove) = (
        vec![String::from("brave")],
        vec![String::from("inet-utils")],
    );
    let (mut time_begin, mut stats) = (TimeBegin::new(), Stats::new());
    Action::StartupPackagesRemove.manage_installation_candidates_on_action(
        String::from("brave"),
        &mut to_install,
        &mut to_remove,
        &mut time_begin,
        &mut stats,
    );
    Action::from_str("purge").manage_installation_candidates_on_action(
        String::from("inet-utils"),
        &mut to_install,
        &mut to_remove,
        &mut time_begin,
        &mut stats,
    );
    assert_eq!(to_install, vec![String::from("brave")]);
    assert_eq!(to_remove, vec![String::from("inet-utils")]);
    assert_eq!(stats.len(), 0);
    assert_eq!(time_begin.action_installed_push, std::time::SystemTime::UNIX_EPOCH);
    assert_eq!(time_begin.action_remove_push, std::time::SystemTime::UNIX_EPOCH);
}

#[test]
fn only_the_names_of_the_step_taken_are_recorded() {
    let (mut to_install, mut to_remove) = (Vec::<String>::new(), Vec::<String>::new());
    let (mut time_begin, mut stats) = (TimeBegin::new(), Stats::new());
    Action::Installed.manage_installation_candidates_on_action(
        String::from("vim"),
        &mut to_install,
        &mut to_remove,
        &mut time_begin,
        &mut stats,
    );
    assert!(stats.get("Action::Installed, push").is_some());
    assert!(stats.get("Action::Installed, processing").is_some());
    assert!(stats.get("Action::Installed, remove").is_none());
    assert_eq!(stats.len(), 2);
    assert_eq!(time_begin.action_installed_remove, std::time::SystemTime::UNIX_EPOCH);
    assert_eq!(time_begin.old, std::time::SystemTime::UNIX_EPOCH);
}

#[test]
fn only_the_first_pending_removal_is_cancelled() {
    let mut to_install: Vec<String> = Vec::new();
    let mut to_remove = vec![
        String::from("vim"),
        String::from("nano"),
        String::from("vim"),
    ];
    let (mut time_begin, mut stats) = (TimeBegin::new(), Stats::new());
    Action::Installed.manage_installation_candidates_on_action(
        String::from("vim"),
        &mut to_install,
        &mut to_remove,
        &mut time_begin,
        &mut stats,
    );
    assert!(to_install.is_empty());
    assert_eq!(to_remove, vec![String::from("nano"), String::from("vim")]);
}

#[test]
fn actions_are_named_by_their_words() {
    assert!(matches!(Action::from_str("installed"), Action::Installed));
    assert!(matches!(Action::from_str("remove"), Action::Remove));
    match Action::from_str("configure") {
        Action::Other(c) => assert_eq!(c.to_string(), "configure"),
        _ => panic!("configure is no action this tool follows"),
    }
}
