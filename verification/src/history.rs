//! Replaying whole logs: every line read in turn, every event applied to the
//! candidate lists.
use vstd::prelude::*;
use crate::action::ActionView;
use crate::action::apply_action;
use crate::action::candidate_stat_names;
use crate::action::replay;
use crate::action::balance;
use crate::action::lemma_balance_append;
use crate::action::lemma_replay_balance;
use crate::action::occurrences;
use crate::action::disjoint;
use crate::dpkg::InstallationStatus;
use crate::dpkg::dpkg_event;
use crate::sorting::sort_strings;
use crate::sorting::dedup_strings;
use crate::sorting::dedup_spec;
use crate::sorting::lemma_dedup_sorted;
use crate::sorting::strictly_sorted;
use crate::stats::system_time_now;
use crate::stats::update_stats_since;
use crate::action::strs;
use crate::apt::InstallationStatusAptHistory;
use crate::apt::LogType;
use crate::apt::apt_history_event;
use crate::error::ParseError;
use crate::error::SourceView;
use crate::stats::Stats;
use crate::stats::TimeBegin;
use crate::stats::grows_within;
use crate::stats::lemma_grows_within_chain;
use crate::text::chars_to_string;
use crate::text::lines_spec;
use crate::text::rows;
use crate::text::str_chars;
use crate::text::text_lines;

verus! {

/// One event per package: the action paired with each package in turn.
pub open spec fn package_events(action: ActionView, packages: Seq<Seq<char>>) -> Seq<
    (ActionView, Seq<char>),
> {
    packages.map_values(|p: Seq<char>| (action, p))
}

/// A command line yields one event per package it names, in order, each
/// with the line's action.
pub proof fn lemma_package_events(action: ActionView, packages: Seq<Seq<char>>)
    ensures
        package_events(action, packages).len() == packages.len(),
        forall|i: int|
            0 <= i < packages.len() ==> #[trigger] package_events(action, packages)[i] == (
                action,
                packages[i],
            ),
{
}

/// The balance of a package over the events of one command line: the times
/// the line names it, counted up for an installation and down for a removal.
pub proof fn lemma_package_events_balance(action: ActionView, packages: Seq<Seq<char>>, x: Seq<char>)
    ensures
        balance(package_events(action, packages), x) == match action {
            ActionView::Installed => packages.to_multiset().count(x) as int,
            ActionView::Remove => -(packages.to_multiset().count(x) as int),
            _ => 0,
        },
    decreases packages.len(),
{
    broadcast use vstd::multiset::group_multiset_axioms, vstd::seq_lib::group_to_multiset_ensures;

    if packages.len() == 0 {
        assert(packages.to_multiset() =~= vstd::multiset::Multiset::empty());
        assert(package_events(action, packages) =~= Seq::<(ActionView, Seq<char>)>::empty());
    } else {
        let p = packages.drop_last();
        lemma_package_events_balance(action, p, x);
        assert(package_events(action, packages).drop_last() =~= package_events(action, p));
        assert(p.push(packages.last()) == packages);
    }
}

/// Installing some packages and then removing the same packages leaves none
/// of them, and nothing else, among the candidates of either list.
pub proof fn lemma_install_then_remove_cancels(packages: Seq<Seq<char>>, x: Seq<char>)
    ensures
        ({
            let lists = replay(
                package_events(ActionView::Installed, packages) + package_events(
                    ActionView::Remove,
                    packages,
                ),
            );
            !lists.0.contains(x) && !lists.1.contains(x)
        }),
{
    broadcast use vstd::seq_lib::group_to_multiset_ensures;

    let events = package_events(ActionView::Installed, packages) + package_events(
        ActionView::Remove,
        packages,
    );
    lemma_balance_append(
        package_events(ActionView::Installed, packages),
        package_events(ActionView::Remove, packages),
        x,
    );
    lemma_package_events_balance(ActionView::Installed, packages, x);
    lemma_package_events_balance(ActionView::Remove, packages, x);
    lemma_replay_balance(events, x);
}

/// The events of the apt history `lines`, in order, or the number of the
/// first line that cannot be read with its fault.
pub open spec fn apt_history_events(lines: Seq<Seq<char>>) -> Result<
    Seq<(ActionView, Seq<char>)>,
    (int, SourceView),
>
    decreases lines.len(),
{
    if lines.len() == 0 {
        Ok(Seq::empty())
    } else {
        match apt_history_events(lines.drop_last()) {
            Err(e) => Err(e),
            Ok(events) => match apt_history_event(lines.last()) {
                Err(source) => Err((lines.len() - 1, source)),
                Ok((action, packages)) => Ok(events + package_events(action, packages)),
            },
        }
    }
}

/// The number of packages the apt history `lines` name, over all lines.
pub open spec fn packages_named(lines: Seq<Seq<char>>) -> int
    decreases lines.len(),
{
    if lines.len() == 0 {
        0
    } else {
        packages_named(lines.drop_last()) + match apt_history_event(lines.last()) {
            Ok((_, packages)) => packages.len() as int,
            Err(_) => 0,
        }
    }
}

/// Every package named on every line of the apt history yields an event with
/// the line's action, and there are no other events: the history reads
/// exactly when each of its lines does, and then it yields as many events as
/// its lines name packages, among them, for each line and each package it
/// names, that package with the line's action.
pub proof fn lemma_apt_history_events_every_package(lines: Seq<Seq<char>>)
    ensures
        apt_history_events(lines) is Ok <==> forall|k: int|
            0 <= k < lines.len() ==> #[trigger] apt_history_event(lines[k]) is Ok,
        apt_history_events(lines) is Ok ==> {
            &&& apt_history_events(lines)->Ok_0.len() == packages_named(lines)
            &&& forall|k: int, j: int|
                0 <= k < lines.len() && 0 <= j < apt_history_event(lines[k])->Ok_0.1.len()
                    ==> apt_history_events(lines)->Ok_0.contains(
                    (
                        apt_history_event(lines[k])->Ok_0.0,
                        #[trigger] apt_history_event(lines[k])->Ok_0.1[j],
                    ),
                )
        },
    decreases lines.len(),
{
    if lines.len() > 0 {
        let p = lines.drop_last();
        let n = lines.len() - 1;
        lemma_apt_history_events_every_package(p);
        assert forall|k: int| 0 <= k < p.len() implies p[k] == lines[k] by {}
        if forall|k: int| 0 <= k < lines.len() ==> #[trigger] apt_history_event(lines[k]) is Ok {
            assert forall|k: int| 0 <= k < p.len() implies #[trigger] apt_history_event(p[k]) is Ok by {
                assert(apt_history_event(lines[k]) is Ok);
            }
            assert(apt_history_event(lines[n]) is Ok);
        }
        if apt_history_events(lines) is Ok {
            assert(apt_history_events(p) is Ok);
            assert forall|k: int| 0 <= k < lines.len() implies #[trigger] apt_history_event(
                lines[k],
            ) is Ok by {
                if k < n {
                    assert(apt_history_event(p[k]) is Ok);
                }
            }
            let ev = apt_history_events(lines)->Ok_0;
            let pe = apt_history_events(p)->Ok_0;
            let (a, ps) = apt_history_event(lines[n])->Ok_0;
            assert(ev == pe + package_events(a, ps));
            lemma_package_events(a, ps);
            assert forall|k: int, j: int|
                0 <= k < lines.len() && 0 <= j < apt_history_event(lines[k])->Ok_0.1.len()
                    implies ev.contains(
                    (
                        apt_history_event(lines[k])->Ok_0.0,
                        #[trigger] apt_history_event(lines[k])->Ok_0.1[j],
                    ),
                ) by {
                if k < n {
                    assert(apt_history_event(p[k]) == apt_history_event(lines[k]));
                    assert(pe.contains(
                        (apt_history_event(p[k])->Ok_0.0, apt_history_event(p[k])->Ok_0.1[j]),
                    ));
                    let m = choose|m: int|
                        0 <= m < pe.len() && pe[m] == (
                            apt_history_event(p[k])->Ok_0.0,
                            apt_history_event(p[k])->Ok_0.1[j],
                        );
                    assert(ev[m] == pe[m]);
                } else {
                    assert(ev[pe.len() + j] == package_events(a, ps)[j]);
                }
            }
        }
    }
}

/// Once a line of the apt history cannot be read, later lines change nothing.
pub proof fn lemma_apt_history_fault_persists(lines: Seq<Seq<char>>, k: int)
    requires
        0 <= k <= lines.len(),
        apt_history_events(lines.take(k)) is Err,
    ensures
        apt_history_events(lines) == apt_history_events(lines.take(k)),
    decreases lines.len() - k,
{
    if k < lines.len() {
        assert(lines.take(k + 1).drop_last() == lines.take(k));
        lemma_apt_history_fault_persists(lines, k + 1);
    } else {
        assert(lines.take(k) == lines);
    }
}

/// Replaying `events` followed by one more event applies that event to the
/// lists the `events` leave.
pub proof fn lemma_replay_push(
    events: Seq<(ActionView, Seq<char>)>,
    more: Seq<(ActionView, Seq<char>)>,
    j: int,
)
    requires
        0 <= j < more.len(),
    ensures
        replay(events + more.take(j + 1)) == apply_action(
            more[j].0,
            more[j].1,
            replay(events + more.take(j)),
        ),
{
    assert((events + more.take(j + 1)).drop_last() == events + more.take(j));
    assert((events + more.take(j + 1)).last() == more[j]);
}

/// Applies the event of one apt history line to the candidate lists.
fn apply_apt_event(
    event: &InstallationStatusAptHistory,
    to_install: &mut Vec<String>,
    to_remove: &mut Vec<String>,
    time_begin: &mut TimeBegin,
    stats: &mut Stats,
    Ghost(events): Ghost<Seq<(ActionView, Seq<char>)>>,
)
    requires
        old(stats).wf(),
        (strs(old(to_install)@), strs(old(to_remove)@)) == replay(events),
    ensures
        (strs(final(to_install)@), strs(final(to_remove)@)) == replay(
            events + package_events(event@.0, event@.1),
        ),
        final(stats).wf(),
        grows_within(old(stats)@, final(stats)@, candidate_stat_names()),
{
    let ghost more = package_events(event@.0, event@.1);
    let ghost stats0 = stats@;
    proof {
        assert(events + more.take(0) == events);
    }
    let mut j: usize = 0;
    while j < event.packages.len()
        invariant
            j <= event.packages@.len(),
            more == package_events(event@.0, event@.1),
            more.len() == event.packages@.len(),
            (strs(to_install@), strs(to_remove@)) == replay(events + more.take(j as int)),
            stats.wf(),
            grows_within(stats0, stats@, candidate_stat_names()),
        decreases event.packages@.len() - j,
    {
        proof {
            lemma_replay_push(events, more, j as int);
            assert(more[j as int] == (event.action@, event.packages@[j as int]@));
        }
        let ghost stats1 = stats@;
        event.action.manage_installation_candidates_on_action(
            event.packages[j].clone(),
            to_install,
            to_remove,
            time_begin,
            stats,
        );
        proof {
            lemma_grows_within_chain(
                stats0,
                stats1,
                stats@,
                candidate_stat_names(),
                candidate_stat_names(),
                candidate_stat_names(),
            );
        }
        j = j + 1;
    }
    proof {
        assert(more.take(more.len() as int) == more);
    }
}

/// The number, fault and text of the first line of the apt history
/// `contents` that cannot be read, if there is one.
fn first_unreadable_apt_history_line(contents: &str) -> (r: Option<ParseError>)
    ensures
        match r {
            None => apt_history_events(lines_spec(contents@)) is Ok,
            Some(e) => {
                &&& apt_history_events(lines_spec(contents@)) == Err::<
                    Seq<(ActionView, Seq<char>)>,
                    (int, SourceView),
                >((e.line_number as int, e.source@))
                &&& e.line@ == lines_spec(contents@)[e.line_number as int]
            },
        },
{
    let chars = str_chars(contents);
    let lines = text_lines(chars.as_slice());
    let ghost all = lines_spec(contents@);
    let ghost mut events: Seq<(ActionView, Seq<char>)> = Seq::empty();
    proof {
        assert(all.take(0) =~= Seq::<Seq<char>>::empty());
    }
    let mut i: usize = 0;
    while i < lines.len()
        invariant
            i <= lines@.len(),
            rows(lines@) == all,
            all == lines_spec(contents@),
            apt_history_events(all.take(i as int)) == Ok::<
                Seq<(ActionView, Seq<char>)>,
                (int, SourceView),
            >(events),
        decreases lines@.len() - i,
    {
        proof {
            assert(all.take(i + 1).drop_last() == all.take(i as int));
            assert(all.take(i + 1).last() == lines@[i as int]@);
        }
        let line = chars_to_string(lines[i].as_slice());
        match InstallationStatusAptHistory::try_get_event(line.as_str(), &i, LogType::AptHistoryGzip) {
            Err(e) => {
                proof {
                    assert(apt_history_events(all.take(i + 1)) == Err::<
                        Seq<(ActionView, Seq<char>)>,
                        (int, SourceView),
                    >((i as int, e.source@)));
                    lemma_apt_history_fault_persists(all, i + 1);
                }
                return Some(e);
            },
            Ok(event) => {
                proof {
                    events = events + package_events(event@.0, event@.1);
                }
            },
        }
        i = i + 1;
    }
    proof {
        assert(all.take(lines@.len() as int) == all);
    }
    None
}

/// The candidate lists of the apt history `contents` (the command lines, one
/// per line): packages to install and packages to remove, after every event
/// of every line, in order, is applied to two empty lists. Every line must be
/// one that `apt_history_event` reads; on any other the tool stops. The time
/// each step takes is recorded in `stats`.
pub fn apt_history_candidates(
    contents: &str,
    time_begin: &mut TimeBegin,
    stats: &mut Stats,
) -> (lists: (Vec<String>, Vec<String>))
    requires
        old(stats).wf(),
        apt_history_events(lines_spec(contents@)) is Ok,
    ensures
        final(stats).wf(),
        grows_within(old(stats)@, final(stats)@, candidate_stat_names()),
        match apt_history_events(lines_spec(contents@)) {
            Ok(events) => {
                &&& (strs(lists.0@), strs(lists.1@)) == replay(events)
                &&& forall|x: Seq<char>|
                    #[trigger] occurrences(strs(lists.0@), x) == if balance(events, x) > 0 {
                        balance(events, x)
                    } else {
                        0
                    }
                &&& forall|x: Seq<char>|
                    #[trigger] occurrences(strs(lists.1@), x) == if balance(events, x) < 0 {
                        -balance(events, x)
                    } else {
                        0
                    }
                &&& disjoint(strs(lists.0@), strs(lists.1@))
            },
            Err(_) => false,
        },
{
    let chars = str_chars(contents);
    let lines = text_lines(chars.as_slice());
    let ghost all = lines_spec(contents@);
    let mut to_install: Vec<String> = Vec::new();
    let mut to_remove: Vec<String> = Vec::new();
    let ghost mut events: Seq<(ActionView, Seq<char>)> = Seq::empty();
    let ghost stats0 = stats@;
    proof {
        assert(all.take(0) =~= Seq::<Seq<char>>::empty());
        assert(strs(to_install@) =~= Seq::<Seq<char>>::empty());
        assert(strs(to_remove@) =~= Seq::<Seq<char>>::empty());
    }
    let mut i: usize = 0;
    while i < lines.len()
        invariant
            i <= lines@.len(),
            rows(lines@) == all,
            all == lines_spec(contents@),
            apt_history_events(all) is Ok,
            apt_history_events(all.take(i as int)) == Ok::<
                Seq<(ActionView, Seq<char>)>,
                (int, SourceView),
            >(events),
            (strs(to_install@), strs(to_remove@)) == replay(events),
            stats.wf(),
            stats0 == old(stats)@,
            grows_within(stats0, stats@, candidate_stat_names()),
        decreases lines@.len() - i,
    {
        proof {
            assert(all.take(i + 1).drop_last() == all.take(i as int));
            assert(all.take(i + 1).last() == lines@[i as int]@);
        }
        let line = chars_to_string(lines[i].as_slice());
        proof {
            if apt_history_event(line@) is Err {
                lemma_apt_history_fault_persists(all, i + 1);
            }
        }
        let event = InstallationStatusAptHistory::get_event(line.as_str(), &i, LogType::AptHistoryGzip);
        let ghost stats1 = stats@;
        apply_apt_event(&event, &mut to_install, &mut to_remove, time_begin, stats, Ghost(events));
        proof {
            events = events + package_events(event@.0, event@.1);
            lemma_grows_within_chain(
                stats0,
                stats1,
                stats@,
                candidate_stat_names(),
                candidate_stat_names(),
                candidate_stat_names(),
            );
        }
        i = i + 1;
    }
    proof {
        assert(all.take(lines@.len() as int) == all);
        assert forall|x: Seq<char>| #[trigger] occurrences(strs(to_install@), x) == if balance(events, x) > 0 {
            balance(events, x)
        } else {
            0
        } by {
            lemma_replay_balance(events, x);
        }
        assert forall|x: Seq<char>| #[trigger] occurrences(strs(to_remove@), x) == if balance(events, x) < 0 {
            -balance(events, x)
        } else {
            0
        } by {
            lemma_replay_balance(events, x);
        }
        lemma_replay_balance(events, Seq::empty());
    }
    (to_install, to_remove)
}

/// The candidate lists of the apt history `contents`, as
/// `apt_history_candidates` gives them, where every line can be read;
/// otherwise the first line that cannot, numbered from zero, with the table
/// of times left as it was.
pub fn try_apt_history_candidates(
    contents: &str,
    time_begin: &mut TimeBegin,
    stats: &mut Stats,
) -> (r: Result<(Vec<String>, Vec<String>), ParseError>)
    requires
        old(stats).wf(),
    ensures
        final(stats).wf(),
        grows_within(old(stats)@, final(stats)@, candidate_stat_names()),
        match r {
            Ok((to_install, to_remove)) => match apt_history_events(lines_spec(contents@)) {
                Ok(events) => {
                    &&& (strs(to_install@), strs(to_remove@)) == replay(events)
                    &&& disjoint(strs(to_install@), strs(to_remove@))
                },
                Err(_) => false,
            },
            Err(e) => {
                &&& final(stats)@ == old(stats)@
                &&& apt_history_events(lines_spec(contents@)) == Err::<
                    Seq<(ActionView, Seq<char>)>,
                    (int, SourceView),
                >((e.line_number as int, e.source@))
                &&& e.line@ == lines_spec(contents@)[e.line_number as int]
            },
        },
{
    match first_unreadable_apt_history_line(contents) {
        Some(e) => Err(e),
        None => Ok(apt_history_candidates(contents, time_begin, stats)),
    }
}

/// The events of the dpkg log `lines`, in order, one per line, or the number
/// of the first line that cannot be read with its fault.
pub open spec fn dpkg_events(lines: Seq<Seq<char>>) -> Result<
    Seq<(ActionView, Seq<char>)>,
    (int, SourceView),
>
    decreases lines.len(),
{
    if lines.len() == 0 {
        Ok(Seq::empty())
    } else {
        match dpkg_events(lines.drop_last()) {
            Err(e) => Err(e),
            Ok(events) => match dpkg_event(lines.last()) {
                Err(source) => Err((lines.len() - 1, source)),
                Ok(event) => Ok(events.push(event)),
            },
        }
    }
}

/// Every line of the dpkg log yields exactly one event: the log reads
/// exactly when each of its lines does, and then its `k`-th event is the
/// event of its `k`-th line.
pub proof fn lemma_dpkg_events_one_per_line(lines: Seq<Seq<char>>)
    ensures
        dpkg_events(lines) is Ok <==> forall|k: int|
            0 <= k < lines.len() ==> #[trigger] dpkg_event(lines[k]) is Ok,
        dpkg_events(lines) is Ok ==> {
            &&& dpkg_events(lines)->Ok_0.len() == lines.len()
            &&& forall|k: int|
                0 <= k < lines.len() ==> #[trigger] dpkg_events(lines)->Ok_0[k] == dpkg_event(
                    lines[k],
                )->Ok_0
        },
    decreases lines.len(),
{
    if lines.len() > 0 {
        let p = lines.drop_last();
        let n = lines.len() - 1;
        lemma_dpkg_events_one_per_line(p);
        assert forall|k: int| 0 <= k < p.len() implies p[k] == lines[k] by {}
        if forall|k: int| 0 <= k < lines.len() ==> #[trigger] dpkg_event(lines[k]) is Ok {
            assert forall|k: int| 0 <= k < p.len() implies #[trigger] dpkg_event(p[k]) is Ok by {
                assert(dpkg_event(lines[k]) is Ok);
            }
            assert(dpkg_event(lines[n]) is Ok);
        }
        if dpkg_events(lines) is Ok {
            assert(dpkg_events(p) is Ok);
            assert forall|k: int| 0 <= k < lines.len() implies #[trigger] dpkg_event(lines[k]) is Ok by {
                if k < n {
                    assert(dpkg_event(p[k]) is Ok);
                }
            }
            let ev = dpkg_events(lines)->Ok_0;
            let pe = dpkg_events(p)->Ok_0;
            assert(ev == pe.push(dpkg_event(lines[n])->Ok_0));
            assert forall|k: int| 0 <= k < lines.len() implies #[trigger] dpkg_events(
                lines,
            )->Ok_0[k] == dpkg_event(lines[k])->Ok_0 by {
                if k < n {
                    assert(ev[k] == pe[k]);
                    assert(pe[k] == dpkg_event(p[k])->Ok_0);
                }
            }
        }
    }
}

/// Once a line of the dpkg log cannot be read, later lines change nothing.
pub proof fn lemma_dpkg_fault_persists(lines: Seq<Seq<char>>, k: int)
    requires
        0 <= k <= lines.len(),
        dpkg_events(lines.take(k)) is Err,
    ensures
        dpkg_events(lines) == dpkg_events(lines.take(k)),
    decreases lines.len() - k,
{
    if k < lines.len() {
        assert(lines.take(k + 1).drop_last() == lines.take(k));
        lemma_dpkg_fault_persists(lines, k + 1);
    } else {
        assert(lines.take(k) == lines);
    }
}

/// The names under which reading the dpkg log records its times.
pub open spec fn dpkg_stat_names() -> Set<Seq<char>> {
    candidate_stat_names().insert("get_event"@).insert("to_install, sorting"@).insert(
        "to_install, deduplicating"@,
    )
}

/// The number, fault and text of the first line of the dpkg log `contents`,
/// read from its end, that cannot be read, if there is one.
fn first_unreadable_dpkg_line(contents: &str) -> (r: Option<ParseError>)
    ensures
        match r {
            None => dpkg_events(lines_spec(contents@).reverse()) is Ok,
            Some(e) => {
                &&& dpkg_events(lines_spec(contents@).reverse()) == Err::<
                    Seq<(ActionView, Seq<char>)>,
                    (int, SourceView),
                >((e.line_number as int, e.source@))
                &&& e.line@ == lines_spec(contents@).reverse()[e.line_number as int]
            },
        },
{
    let chars = str_chars(contents);
    let lines = text_lines(chars.as_slice());
    let ghost all = lines_spec(contents@).reverse();
    let n = lines.len();
    let ghost mut events: Seq<(ActionView, Seq<char>)> = Seq::empty();
    proof {
        assert(all.take(0) =~= Seq::<Seq<char>>::empty());
    }
    let mut k: usize = 0;
    while k < n
        invariant
            k <= n,
            n == lines@.len(),
            all == lines_spec(contents@).reverse(),
            rows(lines@) == lines_spec(contents@),
            dpkg_events(all.take(k as int)) == Ok::<
                Seq<(ActionView, Seq<char>)>,
                (int, SourceView),
            >(events),
        decreases n - k,
    {
        proof {
            assert(all.take(k + 1).drop_last() == all.take(k as int));
            assert(all.take(k + 1).last() == all[k as int]);
            assert(all[k as int] == lines@[n - 1 - k]@);
        }
        let line = chars_to_string(lines[n - 1 - k].as_slice());
        match InstallationStatus::try_get_event(line.as_str(), &k, LogType::GreppedDpkgLog) {
            Err(e) => {
                proof {
                    assert(dpkg_events(all.take(k + 1)) == Err::<
                        Seq<(ActionView, Seq<char>)>,
                        (int, SourceView),
                    >((k as int, e.source@)));
                    lemma_dpkg_fault_persists(all, k + 1);
                }
                return Some(e);
            },
            Ok(status) => {
                proof {
                    events = events.push(status@);
                }
            },
        }
        k = k + 1;
    }
    proof {
        assert(all.take(n as int) == all);
    }
    None
}

/// The packages to install according to the dpkg log `contents` (its status
/// lines): the lines are read from the last to the first and their events
/// applied to two empty lists; the packages to install are then sorted, and
/// repeats dropped. A package is among them exactly when the log installs it
/// more often than it removes it. Every line must be one that `dpkg_event`
/// reads; on any other the tool stops. The time each step takes is recorded
/// in `stats`.
pub fn grepped_dpkg_candidates(
    contents: &str,
    time_begin: &mut TimeBegin,
    stats: &mut Stats,
) -> (to_install: Vec<String>)
    requires
        old(stats).wf(),
        dpkg_events(lines_spec(contents@).reverse()) is Ok,
    ensures
        final(stats).wf(),
        grows_within(old(stats)@, final(stats)@, dpkg_stat_names()),
        match dpkg_events(lines_spec(contents@).reverse()) {
            Ok(events) => {
                &&& strictly_sorted(strs(to_install@))
                &&& forall|x: Seq<char>|
                    strs(to_install@).contains(x) <==> replay(events).0.contains(x)
                &&& forall|x: Seq<char>| strs(to_install@).contains(x) <==> balance(events, x) > 0
            },
            Err(_) => false,
        },
{
    let chars = str_chars(contents);
    let lines = text_lines(chars.as_slice());
    let ghost all = lines_spec(contents@).reverse();
    let n = lines.len();
    let mut to_install: Vec<String> = Vec::new();
    let mut to_remove: Vec<String> = Vec::new();
    let ghost mut events: Seq<(ActionView, Seq<char>)> = Seq::empty();
    let ghost stats0 = stats@;
    proof {
        assert(all.take(0) =~= Seq::<Seq<char>>::empty());
        assert(strs(to_install@) =~= Seq::<Seq<char>>::empty());
        assert(strs(to_remove@) =~= Seq::<Seq<char>>::empty());
    }
    let mut k: usize = 0;
    while k < n
        invariant
            k <= n,
            n == lines@.len(),
            all == lines_spec(contents@).reverse(),
            rows(lines@) == lines_spec(contents@),
            dpkg_events(all) is Ok,
            dpkg_events(all.take(k as int)) == Ok::<
                Seq<(ActionView, Seq<char>)>,
                (int, SourceView),
            >(events),
            (strs(to_install@), strs(to_remove@)) == replay(events),
            stats.wf(),
            stats0 == old(stats)@,
            grows_within(stats0, stats@, dpkg_stat_names()),
        decreases n - k,
    {
        proof {
            assert(all.take(k + 1).drop_last() == all.take(k as int));
            assert(all.take(k + 1).last() == all[k as int]);
            assert(all[k as int] == lines@[n - 1 - k]@);
        }
        time_begin.old = system_time_now();
        let line = chars_to_string(lines[n - 1 - k].as_slice());
        proof {
            if dpkg_event(line@) is Err {
                lemma_dpkg_fault_persists(all, k + 1);
            }
        }
        let status = InstallationStatus::get_event(line.as_str(), &k, LogType::GreppedDpkgLog);
        let ghost s1 = stats@;
        update_stats_since(&time_begin.old, "get_event".to_owned(), stats);
        let ghost s2 = stats@;
        let ghost prev = events;
        proof {
            lemma_grows_within_chain(
                stats0,
                s1,
                s2,
                dpkg_stat_names(),
                set!["get_event"@],
                dpkg_stat_names(),
            );
            events = events.push(status@);
            assert(events.drop_last() == prev);
            assert(events.last() == status@);
        }
        status.action.manage_installation_candidates_on_action(
            status.package_name,
            &mut to_install,
            &mut to_remove,
            time_begin,
            stats,
        );
        proof {
            lemma_grows_within_chain(
                stats0,
                s2,
                stats@,
                dpkg_stat_names(),
                candidate_stat_names(),
                dpkg_stat_names(),
            );
        }
        k = k + 1;
    }
    proof {
        assert(all.take(n as int) == all);
    }
    time_begin.old = system_time_now();
    let sorted = sort_strings(&to_install);
    let ghost s4 = stats@;
    update_stats_since(&time_begin.old, "to_install, sorting".to_owned(), stats);
    time_begin.old = system_time_now();
    let unique = dedup_strings(&sorted);
    let ghost s5 = stats@;
    update_stats_since(&time_begin.old, "to_install, deduplicating".to_owned(), stats);
    proof {
        lemma_grows_within_chain(
            stats0,
            s4,
            s5,
            dpkg_stat_names(),
            set!["to_install, sorting"@],
            dpkg_stat_names(),
        );
        lemma_grows_within_chain(
            stats0,
            s5,
            stats@,
            dpkg_stat_names(),
            set!["to_install, deduplicating"@],
            dpkg_stat_names(),
        );
        lemma_dedup_sorted(strs(sorted@));
        let install = replay(events).0;
        assert forall|x: Seq<char>| strs(sorted@).contains(x) <==> install.contains(x) by {
            broadcast use vstd::seq_lib::group_to_multiset_ensures;
            assert(strs(sorted@).to_multiset().count(x) == install.to_multiset().count(x));
        }
        assert forall|x: Seq<char>| strs(unique@).contains(x) <==> balance(events, x) > 0 by {
            lemma_replay_balance(events, x);
            broadcast use vstd::seq_lib::group_to_multiset_ensures;
            if balance(events, x) > 0 {
                assert(install.to_multiset().count(x) > 0);
                assert(install.contains(x));
            }
            if install.contains(x) {
                assert(occurrences(install, x) > 0);
            }
        }
    }
    unique
}

/// The packages to install according to the dpkg log `contents`, as
/// `grepped_dpkg_candidates` gives them, where every line can be read;
/// otherwise the first line that cannot, numbered from the end of the log
/// from zero, with the table of times left as it was.
pub fn try_grepped_dpkg_candidates(
    contents: &str,
    time_begin: &mut TimeBegin,
    stats: &mut Stats,
) -> (r: Result<Vec<String>, ParseError>)
    requires
        old(stats).wf(),
    ensures
        final(stats).wf(),
        grows_within(old(stats)@, final(stats)@, dpkg_stat_names()),
        match r {
            Ok(to_install) => match dpkg_events(lines_spec(contents@).reverse()) {
                Ok(events) => {
                    &&& strictly_sorted(strs(to_install@))
                    &&& forall|x: Seq<char>|
                        strs(to_install@).contains(x) <==> balance(events, x) > 0
                },
                Err(_) => false,
            },
            Err(e) => {
                &&& final(stats)@ == old(stats)@
                &&& dpkg_events(lines_spec(contents@).reverse()) == Err::<
                    Seq<(ActionView, Seq<char>)>,
                    (int, SourceView),
                >((e.line_number as int, e.source@))
                &&& e.line@ == lines_spec(contents@).reverse()[e.line_number as int]
            },
        },
{
    match first_unreadable_dpkg_line(contents) {
        Some(e) => Err(e),
        None => Ok(grepped_dpkg_candidates(contents, time_begin, stats)),
    }
}

} // verus!
