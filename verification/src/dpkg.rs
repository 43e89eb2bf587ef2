//! Reading the status lines of the dpkg log, and dropping from the
//! installation candidates the packages that others depend on.
use vstd::prelude::*;
use vstd::pervasive::unreached;
use crate::action::Action;
use crate::action::ActionView;
use crate::action::CouldntParse;
use crate::action::action_named;
use crate::action::strs;
use crate::apt::LogType;
use crate::error::ParseError;
use crate::error::ParseErrorSource;
use crate::error::SourceView;
use crate::pattern::Capture;
use crate::pattern::CaptureView;
use crate::pattern::capture_group;
use crate::pattern::regex_capture;
use crate::stats::Stats;
use crate::stats::TimeBeginRemoveDependecies;
use crate::stats::grows_within;
use crate::stats::lemma_grows_within_chain;
use crate::stats::system_time_now;
use crate::stats::update_stats_since;
use crate::text::chars_equal;
use crate::text::chars_equal_str;
use crate::text::lines_spec;
use crate::text::rows;
use crate::text::str_chars;
use crate::text::text_lines;

verus! {

/// A status line of the dpkg log: a timestamp of this millennium, an optional
/// `status `, the action, and the package up to the first colon.
pub const DPKG_STATUS_PATTERN: &'static str =
    r"^2\d{3}\-\d\d\-\d\d \d\d:\d\d:\d\d (status )?(?<action>installed|remove) (?<package_name>[^:]+):";

/// The line dpkg writes when it removes the packages marked at startup.
pub const STARTUP_PACKAGES_PATTERN: &'static str =
    r"^2\d{3}\-\d\d\-\d\d \d\d:\d\d:\d\d (?<startup_packages>startup packages remove)";

/// The action the startup pattern's capture stands for: the removal of the
/// startup packages where the group matched, none where it did not.
pub open spec fn startup_action(c: CaptureView) -> Result<Option<ActionView>, SourceView> {
    match c {
        CaptureView::InvalidPattern => Err(SourceView::InvalidPattern),
        CaptureView::Text(_) => Ok(Some(ActionView::StartupPackagesRemove)),
        _ => Ok(None),
    }
}

/// The view of an optional action.
pub open spec fn option_action_view(a: Option<Action>) -> Option<ActionView> {
    match a {
        Some(x) => Some(x@),
        None => None,
    }
}

/// The action the startup pattern's capture stands for.
pub fn startup_from_capture(c: Capture) -> (r: Result<Option<Action>, ParseErrorSource>)
    ensures
        match r {
            Ok(a) => startup_action(c@) == Ok::<Option<ActionView>, SourceView>(
                option_action_view(a),
            ),
            Err(e) => startup_action(c@) == Err::<Option<ActionView>, SourceView>(e@),
        },
{
    match c {
        Capture::InvalidPattern => Err(ParseErrorSource::InvalidPattern),
        Capture::Text(_) => Ok(Some(Action::StartupPackagesRemove)),
        _ => Ok(None),
    }
}

/// Whether `last_line` records the removal of the startup packages.
pub fn check_startup_packages_remove(last_line: &str) -> (r: Result<Option<Action>, ParseErrorSource>)
    ensures
        match r {
            Ok(a) => startup_action(
                regex_capture(STARTUP_PACKAGES_PATTERN@, last_line@, "startup_packages"@),
            ) == Ok::<Option<ActionView>, SourceView>(option_action_view(a)),
            Err(e) => startup_action(
                regex_capture(STARTUP_PACKAGES_PATTERN@, last_line@, "startup_packages"@),
            ) == Err::<Option<ActionView>, SourceView>(e@),
        },
{
    startup_from_capture(capture_group(STARTUP_PACKAGES_PATTERN, last_line, "startup_packages"))
}

/// The event of a dpkg log line, from what the status pattern captured as
/// action and as package and what the startup check found: a matched action
/// names the action, with the captured package (empty where none was
/// captured); a match without an action is an unreadable `init`; a line the
/// status pattern does not match is the removal of the startup packages, with
/// no package, where the startup check found it, and a fault otherwise.
pub open spec fn dpkg_status(
    action: CaptureView,
    package: CaptureView,
    startup: Result<Option<ActionView>, SourceView>,
) -> Result<(ActionView, Seq<char>), SourceView> {
    match action {
        CaptureView::InvalidPattern => Err(SourceView::InvalidPattern),
        CaptureView::Text(a) => Ok(
            (
                action_named(a),
                match package {
                    CaptureView::Text(p) => p,
                    _ => Seq::<char>::empty(),
                },
            ),
        ),
        CaptureView::Unset => Ok((ActionView::Other("init"@), Seq::<char>::empty())),
        CaptureView::NoMatch => match startup {
            Err(e) => Err(e),
            Ok(Some(s)) => Ok((s, Seq::<char>::empty())),
            Ok(None) => Err(SourceView::NoDpkgRule),
        },
    }
}

/// The event of the dpkg log line `line`, as the patterns read it.
pub open spec fn dpkg_event(line: Seq<char>) -> Result<(ActionView, Seq<char>), SourceView> {
    dpkg_status(
        regex_capture(DPKG_STATUS_PATTERN@, line, "action"@),
        regex_capture(DPKG_STATUS_PATTERN@, line, "package_name"@),
        startup_action(regex_capture(STARTUP_PACKAGES_PATTERN@, line, "startup_packages"@)),
    )
}

/// How a dpkg log line is read: where the status pattern matches with the
/// action `installed` or `remove` and a package, the line installs or removes
/// that package; where the status pattern does not match but the startup
/// pattern does, the line removes the startup packages and names none; where
/// neither matches, the line has no rule.
pub proof fn lemma_dpkg_event_reading(line: Seq<char>, package: Seq<char>)
    ensures
        regex_capture(DPKG_STATUS_PATTERN@, line, "action"@) == CaptureView::Text("installed"@)
            && regex_capture(DPKG_STATUS_PATTERN@, line, "package_name"@) == CaptureView::Text(
            package,
        ) ==> dpkg_event(line) == Ok::<(ActionView, Seq<char>), SourceView>(
            (ActionView::Installed, package),
        ),
        regex_capture(DPKG_STATUS_PATTERN@, line, "action"@) == CaptureView::Text("remove"@)
            && regex_capture(DPKG_STATUS_PATTERN@, line, "package_name"@) == CaptureView::Text(
            package,
        ) ==> dpkg_event(line) == Ok::<(ActionView, Seq<char>), SourceView>(
            (ActionView::Remove, package),
        ),
        regex_capture(DPKG_STATUS_PATTERN@, line, "action"@) == CaptureView::NoMatch && regex_capture(
            STARTUP_PACKAGES_PATTERN@,
            line,
            "startup_packages"@,
        ) is Text ==> dpkg_event(line) == Ok::<(ActionView, Seq<char>), SourceView>(
            (ActionView::StartupPackagesRemove, Seq::<char>::empty()),
        ),
        regex_capture(DPKG_STATUS_PATTERN@, line, "action"@) == CaptureView::NoMatch && (
        regex_capture(STARTUP_PACKAGES_PATTERN@, line, "startup_packages"@) is NoMatch
            || regex_capture(STARTUP_PACKAGES_PATTERN@, line, "startup_packages"@) is Unset)
            ==> dpkg_event(line) == Err::<(ActionView, Seq<char>), SourceView>(
            SourceView::NoDpkgRule,
        ),
{
    reveal_strlit("installed");
    reveal_strlit("remove");
    assert("installed"@.len() != "remove"@.len());
}

/// The event of a status line of the dpkg log: an action and the package it
/// concerns.
pub struct InstallationStatus {
    pub action: Action,
    pub package_name: String,
}

impl View for InstallationStatus {
    type V = (ActionView, Seq<char>);

    open spec fn view(&self) -> (ActionView, Seq<char>) {
        (self.action@, self.package_name@)
    }
}

impl InstallationStatus {
    /// The event that the captures of a dpkg log line stand for.
    pub fn from_captures(
        action: Capture,
        package: Capture,
        startup: Result<Option<Action>, ParseErrorSource>,
    ) -> (r: Result<InstallationStatus, ParseErrorSource>)
        ensures
            ({
                let s = match startup {
                    Ok(a) => Ok::<Option<ActionView>, SourceView>(option_action_view(a)),
                    Err(e) => Err::<Option<ActionView>, SourceView>(e@),
                };
                match r {
                    Ok(status) => dpkg_status(action@, package@, s) == Ok::<
                        (ActionView, Seq<char>),
                        SourceView,
                    >(status@),
                    Err(e) => dpkg_status(action@, package@, s) == Err::<
                        (ActionView, Seq<char>),
                        SourceView,
                    >(e@),
                }
            }),
    {
        match action {
            Capture::InvalidPattern => Err(ParseErrorSource::InvalidPattern),
            Capture::Text(a) => {
                let package_name = match package {
                    Capture::Text(p) => p,
                    _ => String::new(),
                };
                Ok(InstallationStatus { action: Action::from_str(a.as_str()), package_name })
            },
            Capture::Unset => Ok(
                InstallationStatus {
                    action: Action::Other(CouldntParse { line: "init".to_owned() }),
                    package_name: String::new(),
                },
            ),
            Capture::NoMatch => match startup {
                Err(e) => Err(e),
                Ok(Some(s)) => Ok(InstallationStatus { action: s, package_name: String::new() }),
                Ok(None) => Err(ParseErrorSource::NoDpkgRule),
            },
        }
    }

    /// The event of the dpkg log line `last_line`. The log must be the dpkg
    /// log and the line one that `dpkg_event` reads; on any other line the
    /// tool stops. `line_number` serves only to report a line that cannot be
    /// read.
    pub fn get_event(last_line: &str, line_number: &usize, log_type: LogType) -> (status:
        InstallationStatus)
        requires
            log_type is GreppedDpkgLog,
            dpkg_event(last_line@) is Ok,
        ensures
            dpkg_event(last_line@) == Ok::<(ActionView, Seq<char>), SourceView>(status@),
    {
        match dpkg_line_status(last_line) {
            Ok(status) => status,
            Err(_) => unreached(),
        }
    }

    /// The event of the dpkg log line `last_line`, whose number is
    /// `line_number`; an error where the line cannot be read, or where the
    /// log is the apt history.
    pub fn try_get_event(last_line: &str, line_number: &usize, log_type: LogType) -> (r: Result<
        InstallationStatus,
        ParseError,
    >)
        ensures
            match r {
                Ok(status) => log_type is GreppedDpkgLog && dpkg_event(last_line@) == Ok::<
                    (ActionView, Seq<char>),
                    SourceView,
                >(status@),
                Err(e) => {
                    &&& e.line@ == last_line@
                    &&& e.line_number == *line_number
                    &&& match log_type {
                        LogType::AptHistoryGzip => e.source@ == SourceView::AptHistoryLogForDpkgEvent,
                        LogType::GreppedDpkgLog => dpkg_event(last_line@) == Err::<
                            (ActionView, Seq<char>),
                            SourceView,
                        >(e.source@),
                    }
                },
            },
    {
        let source = match log_type {
            LogType::AptHistoryGzip => ParseErrorSource::AptHistoryLogForDpkgEvent,
            LogType::GreppedDpkgLog => {
                match dpkg_line_status(last_line) {
                    Ok(status) => {
                        return Ok(status);
                    },
                    Err(source) => source,
                }
            },
        };
        let mut e = ParseError::from(source, last_line);
        e.set_line_number(*line_number);
        Err(e)
    }
}

/// The event of a dpkg log line, as the patterns read it.
fn dpkg_line_status(line: &str) -> (r: Result<InstallationStatus, ParseErrorSource>)
    ensures
        match r {
            Ok(status) => dpkg_event(line@) == Ok::<(ActionView, Seq<char>), SourceView>(status@),
            Err(e) => dpkg_event(line@) == Err::<(ActionView, Seq<char>), SourceView>(e@),
        },
{
    let action = capture_group(DPKG_STATUS_PATTERN, line, "action");
    let package = capture_group(DPKG_STATUS_PATTERN, line, "package_name");
    let startup = check_startup_packages_remove(line);
    InstallationStatus::from_captures(action, package, startup)
}

/// Whether the output of `apt-cache rdepends` for `package` lists packages
/// that depend on it: its first line is the package, its second line is
/// `Reverse Depends:`, and a third line follows.
pub open spec fn has_reverse_dependencies(package: Seq<char>, output: Seq<char>) -> bool {
    let lines = lines_spec(output);
    lines.len() >= 3 && lines[0] == package && lines[1] == "Reverse Depends:"@
}

/// A package is dropped whenever the output names it, then `Reverse
/// Depends:`, then any number of further lines, one or more; it is kept
/// where the output has fewer lines, or names another package first, or
/// holds anything else on its second line.
pub proof fn lemma_reverse_dependencies_listed(package: Seq<char>, output: Seq<char>)
    ensures
        lines_spec(output).len() >= 3 && lines_spec(output)[0] == package && lines_spec(output)[1]
            == "Reverse Depends:"@ ==> has_reverse_dependencies(package, output),
        lines_spec(output).len() < 3 ==> !has_reverse_dependencies(package, output),
        lines_spec(output).len() > 0 && lines_spec(output)[0] != package
            ==> !has_reverse_dependencies(package, output),
        lines_spec(output).len() > 1 && lines_spec(output)[1] != "Reverse Depends:"@
            ==> !has_reverse_dependencies(package, output),
{
}

/// Dropping dependencies keeps exactly the packages of the list that no
/// `apt-cache rdepends` output at one of their positions shows others depend
/// on, each as often as the list holds it.
pub proof fn lemma_without_dependencies_keeps(
    packages: Seq<Seq<char>>,
    outputs: Seq<Seq<char>>,
    x: Seq<char>,
)
    ensures
        without_dependencies(packages, outputs).contains(x) <==> packages.contains(x) && !(
        exists|i: int|
            0 <= i < packages.len() && packages[i] == x && #[trigger] has_reverse_dependencies(
                x,
                outputs[i],
            )),
        without_dependencies(packages, outputs).to_multiset().count(x) == if depended_on(
            packages,
            outputs,
            packages.len() as int,
            x,
        ) {
            0
        } else {
            packages.to_multiset().count(x)
        },
{
    let f = |p: Seq<char>| !depended_on(packages, outputs, packages.len() as int, p);
    lemma_filter_count(packages, f, x);
    broadcast use vstd::seq_lib::group_to_multiset_ensures;

    if depended_on(packages, outputs, packages.len() as int, x) {
        let i = choose|i: int|
            0 <= i < packages.len() && #[trigger] packages[i] == x && has_reverse_dependencies(
                packages[i],
                outputs[i],
            );
        assert(has_reverse_dependencies(x, outputs[i]));
    }
    if packages.contains(x) && exists|i: int|
        0 <= i < packages.len() && packages[i] == x && #[trigger] has_reverse_dependencies(
            x,
            outputs[i],
        ) {
        let i = choose|i: int|
            0 <= i < packages.len() && packages[i] == x && #[trigger] has_reverse_dependencies(
                x,
                outputs[i],
            );
        assert(depended_on(packages, outputs, packages.len() as int, x));
    }
}

/// Filtering keeps every occurrence of a value the filter keeps, and none of
/// a value it drops.
proof fn lemma_filter_count(s: Seq<Seq<char>>, f: spec_fn(Seq<char>) -> bool, x: Seq<char>)
    ensures
        s.filter(f).to_multiset().count(x) == if f(x) {
            s.to_multiset().count(x)
        } else {
            0
        },
    decreases s.len(),
{
    reveal(Seq::filter);
    broadcast use vstd::multiset::group_multiset_axioms, vstd::seq_lib::group_to_multiset_ensures;

    if s.len() == 0 {
        assert(s.to_multiset() =~= vstd::multiset::Multiset::empty());
    } else {
        lemma_filter_count(s.drop_last(), f, x);
        assert(s.drop_last().push(s.last()) == s);
    }
}

/// Whether `p` is among the first `upto` packages of `packages` whose
/// `apt-cache rdepends` output (at the same index of `outputs`) lists
/// packages that depend on it.
pub open spec fn depended_on(
    packages: Seq<Seq<char>>,
    outputs: Seq<Seq<char>>,
    upto: int,
    p: Seq<char>,
) -> bool {
    exists|i: int|
        0 <= i < upto && #[trigger] packages[i] == p && has_reverse_dependencies(
            packages[i],
            outputs[i],
        )
}

/// The packages of `packages` kept by `remove_dependencies_from_packages`:
/// every occurrence of a package that others depend on is dropped, the rest
/// keep their order.
pub open spec fn without_dependencies(packages: Seq<Seq<char>>, outputs: Seq<Seq<char>>) -> Seq<
    Seq<char>,
> {
    packages.filter(|p: Seq<char>| !depended_on(packages, outputs, packages.len() as int, p))
}

/// The names under which dropping dependencies records its times.
pub open spec fn dependency_stat_names() -> Set<Seq<char>> {
    set![
        "remove dependencies, remove from package_list"@,
        "remove dependencies, iterating over package_list"@,
        "remove dependencies, iterationg over apt-cache output"@,
    ]
}

proof fn lemma_filter_filter(
    s: Seq<Seq<char>>,
    f: spec_fn(Seq<char>) -> bool,
    g: spec_fn(Seq<char>) -> bool,
)
    ensures
        s.filter(f).filter(g) == s.filter(|x: Seq<char>| f(x) && g(x)),
    decreases s.len(),
{
    reveal(Seq::filter);
    if s.len() > 0 {
        lemma_filter_filter(s.drop_last(), f, g);
        let t = s.drop_last().filter(f);
        if f(s.last()) {
            assert(t.push(s.last()).drop_last() == t);
            assert(t.push(s.last()).filter(g) == if g(s.last()) {
                t.filter(g).push(s.last())
            } else {
                t.filter(g)
            });
        }
    }
}

/// Whether an `apt-cache rdepends` output lists packages that depend on
/// `package`.
fn lists_reverse_dependencies(package: &String, output: &String) -> (r: bool)
    ensures
        r == has_reverse_dependencies(package@, output@),
{
    let chars = str_chars(output.as_str());
    let lines = text_lines(chars.as_slice());
    if lines.len() < 3 {
        return false;
    }
    proof {
        assert(rows(lines@)[0] == lines@[0]@);
        assert(rows(lines@)[1] == lines@[1]@);
    }
    let name = str_chars(package.as_str());
    chars_equal(lines[0].as_slice(), name.as_slice()) && chars_equal_str(
        lines[1].as_slice(),
        "Reverse Depends:",
    )
}

proof fn lemma_filter_remove(s: Seq<Seq<char>>, g: spec_fn(Seq<char>) -> bool, p: int)
    requires
        0 <= p < s.len(),
        !g(s[p]),
    ensures
        s.remove(p).filter(g) == s.filter(g),
    decreases s.len(),
{
    reveal(Seq::filter);
    if p == s.len() - 1 {
        assert(s.remove(p) == s.drop_last());
    } else {
        lemma_filter_remove(s.drop_last(), g, p);
        assert(s.remove(p).drop_last() == s.drop_last().remove(p));
        assert(s.remove(p).last() == s.last());
    }
}

proof fn lemma_filter_keeps_all(s: Seq<Seq<char>>, g: spec_fn(Seq<char>) -> bool)
    requires
        forall|i: int| 0 <= i < s.len() ==> g(#[trigger] s[i]),
    ensures
        s.filter(g) == s,
    decreases s.len(),
{
    reveal(Seq::filter);
    if s.len() > 0 {
        lemma_filter_keeps_all(s.drop_last(), g);
        assert(s.drop_last().push(s.last()) =~= s);
    }
}

/// Removes every occurrence of `x` from `list`, one at a time from the
/// first, and records the time each removal takes.
fn remove_every(
    list: &mut Vec<String>,
    x: &String,
    time_begin: &mut TimeBeginRemoveDependecies,
    stats: &mut Stats,
)
    requires
        old(stats).wf(),
    ensures
        strs(final(list)@) == strs(old(list)@).filter(|y: Seq<char>| y != x@),
        final(stats).wf(),
        grows_within(
            old(stats)@,
            final(stats)@,
            set!["remove dependencies, remove from package_list"@],
        ),
{
    let ghost g = |y: Seq<char>| y != x@;
    let ghost target = strs(list@).filter(g);
    let ghost stats0 = stats@;
    loop
        invariant
            g == (|y: Seq<char>| y != x@),
            strs(list@).filter(g) == target,
            target == strs(old(list)@).filter(g),
            stats.wf(),
            stats0 == old(stats)@,
            grows_within(stats0, stats@, set!["remove dependencies, remove from package_list"@]),
        ensures
            strs(list@) == target,
            stats.wf(),
            grows_within(stats0, stats@, set!["remove dependencies, remove from package_list"@]),
        decreases list@.len(),
    {
        match crate::action::position_of(list, x) {
            None => {
                proof {
                    crate::action::lemma_position(strs(list@), x@);
                    assert forall|i: int| 0 <= i < strs(list@).len() implies g(
                        #[trigger] strs(list@)[i],
                    ) by {
                        assert(strs(list@)[i] == list@[i]@);
                        if strs(list@)[i] == x@ {
                            assert(strs(list@).contains(x@));
                        }
                    }
                    lemma_filter_keeps_all(strs(list@), g);
                }
                break;
            },
            Some(p) => {
                time_begin.package_list_remove = system_time_now();
                let ghost before = strs(list@);
                proof {
                    crate::action::lemma_position(before, x@);
                    lemma_filter_remove(before, g, p as int);
                }
                list.remove(p);
                proof {
                    assert(strs(list@) =~= before.remove(p as int));
                }
                let ghost s1 = stats@;
                update_stats_since(
                    &time_begin.package_list_remove,
                    "remove dependencies, remove from package_list".to_owned(),
                    stats,
                );
                proof {
                    lemma_grows_within_chain(
                        stats0,
                        s1,
                        stats@,
                        set!["remove dependencies, remove from package_list"@],
                        set!["remove dependencies, remove from package_list"@],
                        set!["remove dependencies, remove from package_list"@],
                    );
                }
            },
        }
    }
}

/// Drops from the installation candidates every package that other packages
/// depend on, as told by `rdepends_outputs`: at each index, the output of
/// `apt-cache rdepends` for the package at the same index of the list as it
/// is handed in. The time each step takes is recorded in `stats`.
pub fn remove_dependencies_from_packages(
    packages_list: &mut Vec<String>,
    rdepends_outputs: &Vec<String>,
    stats: &mut Stats,
)
    requires
        old(packages_list)@.len() == rdepends_outputs@.len(),
        old(stats).wf(),
    ensures
        strs(final(packages_list)@) == without_dependencies(
            strs(old(packages_list)@),
            strs(rdepends_outputs@),
        ),
        final(stats).wf(),
        grows_within(old(stats)@, final(stats)@, dependency_stat_names()),
{
    let packages = packages_list.clone();
    let ghost pk = strs(packages@);
    let ghost outs = strs(rdepends_outputs@);
    let ghost stats0 = stats@;
    let mut time_begin = TimeBeginRemoveDependecies::new();
    proof {
        assert(pk == strs(old(packages_list)@));
        reveal(Seq::filter);
        assert(pk.filter(|p: Seq<char>| !depended_on(pk, outs, 0, p)) =~= pk.filter(
            |p: Seq<char>| true,
        )) by {
            assert((|p: Seq<char>| !depended_on(pk, outs, 0, p)) =~= (|p: Seq<char>| true));
        }
        lemma_filter_keeps_all(pk, |p: Seq<char>| true);
    }
    let mut i: usize = 0;
    while i < packages.len()
        invariant
            i <= packages@.len(),
            packages@.len() == rdepends_outputs@.len(),
            pk == strs(packages@),
            outs == strs(rdepends_outputs@),
            strs(packages_list@) == pk.filter(|p: Seq<char>| !depended_on(pk, outs, i as int, p)),
            stats.wf(),
            stats0 == old(stats)@,
            grows_within(stats0, stats@, dependency_stat_names()),
        decreases packages@.len() - i,
    {
        let package = &packages[i];
        time_begin.old = system_time_now();
        let drop = lists_reverse_dependencies(package, &rdepends_outputs[i]);
        let ghost before = strs(packages_list@);
        let ghost f = |p: Seq<char>| !depended_on(pk, outs, i as int, p);
        let ghost g = |y: Seq<char>| y != package@;
        let ghost f1 = |p: Seq<char>| !depended_on(pk, outs, i + 1, p);
        proof {
            assert(pk[i as int] == package@);
            assert(outs[i as int] == rdepends_outputs@[i as int]@);
        }
        if drop {
            time_begin.package_list_iterating = system_time_now();
            let ghost s1 = stats@;
            remove_every(packages_list, package, &mut time_begin, stats);
            proof {
                lemma_filter_filter(pk, f, g);
                assert((|x: Seq<char>| f(x) && g(x)) =~= f1) by {
                    assert forall|p: Seq<char>| #[trigger] f1(p) <==> f(p) && g(p) by {
                        if depended_on(pk, outs, i + 1, p) && !depended_on(pk, outs, i as int, p) {
                            let j = choose|j: int|
                                0 <= j < i + 1 && #[trigger] pk[j] == p && has_reverse_dependencies(
                                    pk[j],
                                    outs[j],
                                );
                            assert(j == i);
                        }
                        if depended_on(pk, outs, i as int, p) {
                            let j = choose|j: int|
                                0 <= j < i && #[trigger] pk[j] == p && has_reverse_dependencies(
                                    pk[j],
                                    outs[j],
                                );
                            assert(0 <= j < i + 1);
                        }
                    }
                }
            }
            let ghost s2 = stats@;
            update_stats_since(
                &time_begin.package_list_iterating,
                "remove dependencies, iterating over package_list".to_owned(),
                stats,
            );
            proof {
                lemma_grows_within_chain(
                    stats0,
                    s1,
                    s2,
                    dependency_stat_names(),
                    set!["remove dependencies, remove from package_list"@],
                    dependency_stat_names(),
                );
                lemma_grows_within_chain(
                    stats0,
                    s2,
                    stats@,
                    dependency_stat_names(),
                    set!["remove dependencies, iterating over package_list"@],
                    dependency_stat_names(),
                );
            }
        } else {
            proof {
                assert(f =~= f1) by {
                    assert forall|p: Seq<char>| #[trigger] f1(p) <==> f(p) by {
                        if depended_on(pk, outs, i + 1, p) {
                            let j = choose|j: int|
                                0 <= j < i + 1 && #[trigger] pk[j] == p && has_reverse_dependencies(
                                    pk[j],
                                    outs[j],
                                );
                            assert(j < i);
                        }
                        if depended_on(pk, outs, i as int, p) {
                            let j = choose|j: int|
                                0 <= j < i && #[trigger] pk[j] == p && has_reverse_dependencies(
                                    pk[j],
                                    outs[j],
                                );
                            assert(0 <= j < i + 1);
                        }
                    }
                }
            }
        }
        let ghost s3 = stats@;
        update_stats_since(
            &time_begin.old,
            "remove dependencies, iterationg over apt-cache output".to_owned(),
            stats,
        );
        proof {
            lemma_grows_within_chain(
                stats0,
                s3,
                stats@,
                dependency_stat_names(),
                set!["remove dependencies, iterationg over apt-cache output"@],
                dependency_stat_names(),
            );
        }
        i = i + 1;
    }
}

} // verus!
