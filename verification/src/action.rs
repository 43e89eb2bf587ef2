//! What a log line says happened to a package, and how that changes the two
//! candidate lists: packages to install and packages to remove.
use vstd::prelude::*;
use crate::stats::TimeBegin;
use crate::stats::Stats;
use crate::stats::grows_within;
use crate::stats::lemma_grows_within_chain;
use crate::stats::system_time_now;
use crate::stats::update_stats_since;
use crate::text::chars_equal_str;
use crate::text::str_chars;

verus! {

broadcast use vstd::seq_lib::group_to_multiset_ensures;

/// A line, or a word of a line, that names no action this tool follows.
pub struct CouldntParse {
    pub line: String,
}

impl CouldntParse {
    /// The text that could not be read as an action.
    pub fn to_string(&self) -> (s: String)
        ensures
            s@ == self.line@,
    {
        self.line.clone()
    }
}

/// What happened to a package.
pub enum Action {
    Installed,
    Remove,
    StartupPackagesRemove,
    Other(CouldntParse),
}

/// The value an `Action` stands for, the unreadable text taken as characters.
pub enum ActionView {
    Installed,
    Remove,
    StartupPackagesRemove,
    Other(Seq<char>),
}

impl View for Action {
    type V = ActionView;

    open spec fn view(&self) -> ActionView {
        match self {
            Action::Installed => ActionView::Installed,
            Action::Remove => ActionView::Remove,
            Action::StartupPackagesRemove => ActionView::StartupPackagesRemove,
            Action::Other(c) => ActionView::Other(c.line@),
        }
    }
}

/// The action a word names: `installed` and `remove`; any other word is kept
/// as unreadable.
pub open spec fn action_named(word: Seq<char>) -> ActionView {
    if word == "installed"@ {
        ActionView::Installed
    } else if word == "remove"@ {
        ActionView::Remove
    } else {
        ActionView::Other(word)
    }
}

/// The character sequences of a sequence of strings.
pub open spec fn strs(v: Seq<String>) -> Seq<Seq<char>> {
    v.map_values(|s: String| s@)
}

/// The index of the first occurrence of `x` in `s`.
pub open spec fn position(s: Seq<Seq<char>>, x: Seq<char>) -> Option<int>
    decreases s.len(),
{
    if s.len() == 0 {
        None
    } else if s[0] == x {
        Some(0)
    } else {
        match position(s.drop_first(), x) {
            Some(i) => Some(i + 1),
            None => None,
        }
    }
}

/// `position` finds the first occurrence, and finds none only where there is
/// none.
pub proof fn lemma_position(s: Seq<Seq<char>>, x: Seq<char>)
    ensures
        match position(s, x) {
            Some(i) => 0 <= i < s.len() && s[i] == x && forall|j: int| 0 <= j < i ==> s[j] != x,
            None => !s.contains(x),
        },
    decreases s.len(),
{
    if s.len() > 0 && s[0] != x {
        lemma_position(s.drop_first(), x);
        match position(s.drop_first(), x) {
            Some(i) => {
                assert forall|j: int| 0 <= j < i + 1 implies s[j] != x by {
                    if j > 0 {
                        assert(s[j] == s.drop_first()[j - 1]);
                    }
                }
            },
            None => {
                assert forall|j: int| 0 <= j < s.len() implies s[j] != x by {
                    if j > 0 {
                        assert(s[j] == s.drop_first()[j - 1]);
                    }
                }
            },
        }
    }
}

/// The candidate lists after `action` on the package `name`: an installation
/// cancels the first pending removal of the package, if there is one, and is
/// otherwise added to the packages to install; a removal cancels the first
/// pending installation, or is otherwise added to the packages to remove; any
/// other action changes nothing.
pub open spec fn apply_action(
    action: ActionView,
    name: Seq<char>,
    lists: (Seq<Seq<char>>, Seq<Seq<char>>),
) -> (Seq<Seq<char>>, Seq<Seq<char>>) {
    let (install, remove) = lists;
    match action {
        ActionView::Installed => match position(remove, name) {
            Some(p) => (install, remove.remove(p)),
            None => (install.push(name), remove),
        },
        ActionView::Remove => match position(install, name) {
            Some(p) => (install.remove(p), remove),
            None => (install, remove.push(name)),
        },
        _ => (install, remove),
    }
}

/// What an action does to the candidate lists, in terms of the lists alone:
/// an installation of `name` that is pending removal takes out the first
/// occurrence of it among the packages to remove and leaves the rest; an
/// installation of a package not pending removal appends it to the packages
/// to install; a removal does the same with the lists exchanged; any other
/// action leaves both lists as they are.
pub proof fn lemma_apply_action_effect(
    action: ActionView,
    name: Seq<char>,
    install: Seq<Seq<char>>,
    remove: Seq<Seq<char>>,
)
    ensures
        action is Installed && remove.contains(name) ==> exists|i: int|
            0 <= i < remove.len() && remove[i] == name && (forall|j: int|
                0 <= j < i ==> remove[j] != name) && apply_action(action, name, (install, remove))
                == (install, remove.remove(i)),
        action is Installed && !remove.contains(name) ==> apply_action(
            action,
            name,
            (install, remove),
        ) == (install.push(name), remove),
        action is Remove && install.contains(name) ==> exists|i: int|
            0 <= i < install.len() && install[i] == name && (forall|j: int|
                0 <= j < i ==> install[j] != name) && apply_action(action, name, (install, remove))
                == (install.remove(i), remove),
        action is Remove && !install.contains(name) ==> apply_action(
            action,
            name,
            (install, remove),
        ) == (install, remove.push(name)),
        !(action is Installed) && !(action is Remove) ==> apply_action(
            action,
            name,
            (install, remove),
        ) == (install, remove),
{
    lemma_position(install, name);
    lemma_position(remove, name);
    match position(remove, name) {
        Some(i) => {
            assert(remove.contains(name));
        },
        None => {},
    }
    match position(install, name) {
        Some(i) => {
            assert(install.contains(name));
        },
        None => {},
    }
}

/// The names under which the handling of installations and removals records
/// its times.
pub open spec fn candidate_stat_names() -> Set<Seq<char>> {
    set![
        "Action::Installed, remove"@,
        "Action::Installed, push"@,
        "Action::Installed, processing"@,
        "Action::Remove, remove"@,
        "Action::Remove push"@,
        "Action::Remove, processing"@,
    ]
}

/// The names under which the handling of `action` on `name` records its
/// times: for an installation, the step taken (cancelling a removal or adding
/// the package) and the whole; likewise for a removal; none otherwise.
pub open spec fn touched_stat_names(
    action: ActionView,
    name: Seq<char>,
    lists: (Seq<Seq<char>>, Seq<Seq<char>>),
) -> Set<Seq<char>> {
    match action {
        ActionView::Installed => set![
            if position(lists.1, name) is Some {
                "Action::Installed, remove"@
            } else {
                "Action::Installed, push"@
            },
            "Action::Installed, processing"@,
        ],
        ActionView::Remove => set![
            if position(lists.0, name) is Some {
                "Action::Remove, remove"@
            } else {
                "Action::Remove push"@
            },
            "Action::Remove, processing"@,
        ],
        _ => Set::empty(),
    }
}

/// The index of the first string in `v` equal to `name`.
pub(crate) fn position_of(v: &Vec<String>, name: &String) -> (r: Option<usize>)
    ensures
        match r {
            Some(i) => i < v@.len() && position(strs(v@), name@) == Some(i as int),
            None => position(strs(v@), name@) is None,
        },
{
    proof {
        lemma_position(strs(v@), name@);
        assert(strs(v@).len() == v@.len());
        assert(forall|j: int| 0 <= j < v@.len() ==> #[trigger] strs(v@)[j] == v@[j]@);
        match position(strs(v@), name@) {
            Some(p) => {
                assert(strs(v@)[p] == v@[p]@);
                assert forall|j: int| 0 <= j < p implies v@[j]@ != name@ by {
                    assert(strs(v@)[j] == v@[j]@);
                }
            },
            None => {
                assert forall|j: int| 0 <= j < v@.len() implies v@[j]@ != name@ by {
                    assert(strs(v@)[j] == v@[j]@);
                }
            },
        }
    }
    let mut i: usize = 0;
    while i < v.len()
        invariant
            i <= v@.len(),
            forall|j: int| 0 <= j < i ==> v@[j]@ != name@,
            match position(strs(v@), name@) {
                Some(p) => 0 <= p < v@.len() && v@[p]@ == name@ && forall|j: int|
                    0 <= j < p ==> v@[j]@ != name@,
                None => forall|j: int| 0 <= j < v@.len() ==> v@[j]@ != name@,
            },
        decreases v@.len() - i,
    {
        if v[i] == *name {
            proof {
                match position(strs(v@), name@) {
                    Some(p) => {
                        assert(p == i);
                    },
                    None => {
                        assert(v@[i as int]@ == name@);
                    },
                }
            }
            return Some(i);
        }
        i = i + 1;
    }
    proof {
        match position(strs(v@), name@) {
            Some(p) => {
                assert(v@[p]@ == name@);
            },
            None => {},
        }
    }
    None
}

impl Action {
    /// The action named by a word of a log line.
    pub fn from_str(s: &str) -> (a: Action)
        ensures
            a@ == action_named(s@),
    {
        let word = str_chars(s);
        if chars_equal_str(word.as_slice(), "installed") {
            Action::Installed
        } else if chars_equal_str(word.as_slice(), "remove") {
            Action::Remove
        } else {
            Action::Other(CouldntParse { line: s.to_owned() })
        }
    }

    /// Applies this action on `package_name` to the candidate lists, as
    /// `apply_action` says, and records the time each step takes in `stats`
    /// under the names `touched_stat_names` gives, which are among those of
    /// `candidate_stat_names`. Only the reading of the step taken changes in
    /// `time_begin`. Any other action changes nothing.
    pub fn manage_installation_candidates_on_action(
        &self,
        package_name: String,
        to_install: &mut Vec<String>,
        to_remove: &mut Vec<String>,
        time_begin: &mut TimeBegin,
        stats: &mut Stats,
    )
        requires
            old(stats).wf(),
        ensures
            (strs(final(to_install)@), strs(final(to_remove)@)) == apply_action(
                self@,
                package_name@,
                (strs(old(to_install)@), strs(old(to_remove)@)),
            ),
            final(stats).wf(),
            grows_within(old(stats)@, final(stats)@, candidate_stat_names()),
            grows_within(
                old(stats)@,
                final(stats)@,
                touched_stat_names(
                    self@,
                    package_name@,
                    (strs(old(to_install)@), strs(old(to_remove)@)),
                ),
            ),
            final(time_begin).old == old(time_begin).old,
            final(time_begin).program_start == old(time_begin).program_start,
            match self@ {
                ActionView::Installed => {
                    &&& final(time_begin).action_remove_remove == old(time_begin).action_remove_remove
                    &&& final(time_begin).action_remove_push == old(time_begin).action_remove_push
                    &&& if position(strs(old(to_remove)@), package_name@) is Some {
                        final(time_begin).action_installed_push == old(time_begin).action_installed_push
                    } else {
                        final(time_begin).action_installed_remove
                            == old(time_begin).action_installed_remove
                    }
                },
                ActionView::Remove => {
                    &&& final(time_begin).action_installed_remove
                        == old(time_begin).action_installed_remove
                    &&& final(time_begin).action_installed_push == old(time_begin).action_installed_push
                    &&& if position(strs(old(to_install)@), package_name@) is Some {
                        final(time_begin).action_remove_push == old(time_begin).action_remove_push
                    } else {
                        final(time_begin).action_remove_remove == old(time_begin).action_remove_remove
                    }
                },
                _ => *final(time_begin) == *old(time_begin) && final(stats)@ == old(stats)@,
            },
    {
        let ghost touched = touched_stat_names(self@, package_name@, (strs(to_install@), strs(to_remove@)));
        let ghost name = package_name@;
        let ghost install0 = strs(to_install@);
        let ghost remove0 = strs(to_remove@);
        let ghost stats0 = stats@;
        match self {
            Action::Installed => {
                let action_installed = system_time_now();
                match position_of(to_remove, &package_name) {
                    Some(p) => {
                        time_begin.action_installed_remove = system_time_now();
                        to_remove.remove(p);
                        proof {
                            assert(strs(to_remove@) =~= remove0.remove(p as int));
                        }
                        let ghost stats1 = stats@;
                        update_stats_since(
                            &time_begin.action_installed_remove,
                            "Action::Installed, remove".to_owned(),
                            stats,
                        );
                        proof {
                            lemma_grows_within_chain(
                                stats0,
                                stats1,
                                stats@,
                                Set::empty(),
                                set!["Action::Installed, remove"@],
                                touched,
                            );
                        }
                    },
                    None => {
                        time_begin.action_installed_push = system_time_now();
                        to_install.push(package_name);
                        proof {
                            assert(strs(to_install@) =~= install0.push(name));
                        }
                        let ghost stats1 = stats@;
                        update_stats_since(
                            &time_begin.action_installed_push,
                            "Action::Installed, push".to_owned(),
                            stats,
                        );
                        proof {
                            lemma_grows_within_chain(
                                stats0,
                                stats1,
                                stats@,
                                Set::empty(),
                                set!["Action::Installed, push"@],
                                touched,
                            );
                        }
                    },
                }
                let ghost stats2 = stats@;
                update_stats_since(
                    &action_installed,
                    "Action::Installed, processing".to_owned(),
                    stats,
                );
                proof {
                    lemma_grows_within_chain(
                        stats0,
                        stats2,
                        stats@,
                        touched,
                        set!["Action::Installed, processing"@],
                        touched,
                    );
                }
            },
            Action::Remove => {
                let action_remove = system_time_now();
                match position_of(to_install, &package_name) {
                    Some(p) => {
                        time_begin.action_remove_remove = system_time_now();
                        to_install.remove(p);
                        proof {
                            assert(strs(to_install@) =~= install0.remove(p as int));
                        }
                        let ghost stats1 = stats@;
                        update_stats_since(
                            &time_begin.action_remove_remove,
                            "Action::Remove, remove".to_owned(),
                            stats,
                        );
                        proof {
                            lemma_grows_within_chain(
                                stats0,
                                stats1,
                                stats@,
                                Set::empty(),
                                set!["Action::Remove, remove"@],
                                touched,
                            );
                        }
                    },
                    None => {
                        time_begin.action_remove_push = system_time_now();
                        to_remove.push(package_name);
                        proof {
                            assert(strs(to_remove@) =~= remove0.push(name));
                        }
                        let ghost stats1 = stats@;
                        update_stats_since(
                            &time_begin.action_remove_push,
                            "Action::Remove push".to_owned(),
                            stats,
                        );
                        proof {
                            lemma_grows_within_chain(
                                stats0,
                                stats1,
                                stats@,
                                Set::empty(),
                                set!["Action::Remove push"@],
                                touched,
                            );
                        }
                    },
                }
                let ghost stats2 = stats@;
                update_stats_since(&action_remove, "Action::Remove, processing".to_owned(), stats);
                proof {
                    lemma_grows_within_chain(
                        stats0,
                        stats2,
                        stats@,
                        touched,
                        set!["Action::Remove, processing"@],
                        touched,
                    );
                }
            },
            _ => {
                proof {
                    assert(stats@ =~= stats0);
                }
            },
        }
        proof {
            lemma_grows_within_chain(stats0, stats0, stats@, Set::empty(), touched, candidate_stat_names());
        }
    }
}

/// How often `x` occurs in `s`.
pub open spec fn occurrences(s: Seq<Seq<char>>, x: Seq<char>) -> int {
    s.to_multiset().count(x) as int
}

/// No package is in both lists.
pub open spec fn disjoint(a: Seq<Seq<char>>, b: Seq<Seq<char>>) -> bool {
    forall|x: Seq<char>| !(#[trigger] a.contains(x) && b.contains(x))
}

/// What `action` on `name` adds to the balance of installations over
/// removals of the package `x`.
pub open spec fn balance_step(action: ActionView, name: Seq<char>, x: Seq<char>) -> int {
    if name != x {
        0
    } else {
        match action {
            ActionView::Installed => 1,
            ActionView::Remove => -1,
            _ => 0,
        }
    }
}

/// Each action moves the balance of a package, its occurrences among the
/// packages to install less those among the packages to remove, by one up for
/// an installation of it, by one down for a removal of it, and leaves the
/// balance of every other package as it was.
pub proof fn lemma_apply_moves_balance(
    action: ActionView,
    name: Seq<char>,
    lists: (Seq<Seq<char>>, Seq<Seq<char>>),
    x: Seq<char>,
)
    ensures
        ({
            let after = apply_action(action, name, lists);
            occurrences(after.0, x) - occurrences(after.1, x) == occurrences(lists.0, x)
                - occurrences(lists.1, x) + balance_step(action, name, x)
        }),
{
    broadcast use vstd::multiset::group_multiset_axioms;

    lemma_position(lists.0, name);
    lemma_position(lists.1, name);
}

/// The lists never hold one package in both: an action keeps apart lists
/// that were apart.
pub proof fn lemma_apply_keeps_disjoint(
    action: ActionView,
    name: Seq<char>,
    lists: (Seq<Seq<char>>, Seq<Seq<char>>),
)
    requires
        disjoint(lists.0, lists.1),
    ensures
        disjoint(apply_action(action, name, lists).0, apply_action(action, name, lists).1),
{
    broadcast use vstd::multiset::group_multiset_axioms;

    let after = apply_action(action, name, lists);
    lemma_position(lists.0, name);
    lemma_position(lists.1, name);
    assert forall|x: Seq<char>| !(#[trigger] after.0.contains(x) && after.1.contains(x)) by {
        if after.0.contains(x) && after.1.contains(x) {
            assert(after.0.to_multiset().count(x) > 0);
            assert(after.1.to_multiset().count(x) > 0);
            match action {
                ActionView::Installed => {
                    match position(lists.1, name) {
                        Some(p) => {
                            assert(lists.1.remove(p).to_multiset().count(x) <= lists.1.to_multiset().count(x));
                            assert(lists.1.contains(x));
                        },
                        None => {
                            assert(lists.0.push(name).to_multiset().count(x) > 0);
                            if x != name {
                                assert(lists.0.to_multiset().count(x) > 0);
                            }
                        },
                    }
                },
                ActionView::Remove => {
                    match position(lists.0, name) {
                        Some(p) => {
                            assert(lists.0.remove(p).to_multiset().count(x) <= lists.0.to_multiset().count(x));
                            assert(lists.0.contains(x));
                        },
                        None => {
                            assert(lists.1.push(name).to_multiset().count(x) > 0);
                            if x != name {
                                assert(lists.1.to_multiset().count(x) > 0);
                            }
                        },
                    }
                },
                _ => {},
            }
        }
    }
}

/// The candidate lists after the `events`, each an action and a package,
/// applied in order to two empty lists.
pub open spec fn replay(events: Seq<(ActionView, Seq<char>)>) -> (Seq<Seq<char>>, Seq<Seq<char>>)
    decreases events.len(),
{
    if events.len() == 0 {
        (Seq::empty(), Seq::empty())
    } else {
        apply_action(events.last().0, events.last().1, replay(events.drop_last()))
    }
}

/// The installations of `x` among the `events`, less its removals.
pub open spec fn balance(events: Seq<(ActionView, Seq<char>)>, x: Seq<char>) -> int
    decreases events.len(),
{
    if events.len() == 0 {
        0
    } else {
        balance(events.drop_last(), x) + balance_step(events.last().0, events.last().1, x)
    }
}

/// The balance of a package counts its events: the installations of it
/// among the `events`, less the removals of it.
pub proof fn lemma_balance_counts(events: Seq<(ActionView, Seq<char>)>, x: Seq<char>)
    ensures
        balance(events, x) == events.to_multiset().count((ActionView::Installed, x)) as int
            - events.to_multiset().count((ActionView::Remove, x)) as int,
    decreases events.len(),
{
    broadcast use vstd::multiset::group_multiset_axioms, vstd::seq_lib::group_to_multiset_ensures;

    if events.len() == 0 {
        assert(events.to_multiset() =~= vstd::multiset::Multiset::empty());
    } else {
        let p = events.drop_last();
        lemma_balance_counts(p, x);
        assert(p.push(events.last()) == events);
    }
}

/// The balance of a package over two runs of events is the sum of its
/// balances over each.
pub proof fn lemma_balance_append(
    first: Seq<(ActionView, Seq<char>)>,
    second: Seq<(ActionView, Seq<char>)>,
    x: Seq<char>,
)
    ensures
        balance(first + second, x) == balance(first, x) + balance(second, x),
    decreases second.len(),
{
    if second.len() == 0 {
        assert(first + second == first);
    } else {
        lemma_balance_append(first, second.drop_last(), x);
        assert((first + second).drop_last() == first + second.drop_last());
        assert((first + second).last() == second.last());
    }
}

/// After any events, replayed from empty lists, a package is to be installed
/// as many times as it was installed more often than removed, is to be
/// removed as many times as it was removed more often than installed, and is
/// never in both lists.
pub proof fn lemma_replay_balance(events: Seq<(ActionView, Seq<char>)>, x: Seq<char>)
    ensures
        occurrences(replay(events).0, x) == if balance(events, x) > 0 {
            balance(events, x)
        } else {
            0
        },
        occurrences(replay(events).1, x) == if balance(events, x) < 0 {
            -balance(events, x)
        } else {
            0
        },
        disjoint(replay(events).0, replay(events).1),
    decreases events.len(),
{
    broadcast use vstd::multiset::group_multiset_axioms;

    if events.len() == 0 {
        assert(Seq::<Seq<char>>::empty().to_multiset() =~= vstd::multiset::Multiset::empty());
    } else {
        let prev = events.drop_last();
        lemma_replay_balance(prev, x);
        let lists = replay(prev);
        lemma_apply_moves_balance(events.last().0, events.last().1, lists, x);
        lemma_apply_keeps_disjoint(events.last().0, events.last().1, lists);
        let after = replay(events);
        assert(after == apply_action(events.last().0, events.last().1, lists));
        if occurrences(after.0, x) > 0 && occurrences(after.1, x) > 0 {
            assert(after.0.contains(x));
            assert(after.1.contains(x));
        }
    }
}

} // verus!
