//! Reading the command lines of the apt history: which action a command
//! takes, and on which packages.
use vstd::prelude::*;
use vstd::pervasive::unreached;
use crate::action::Action;
use crate::action::ActionView;
use crate::action::CouldntParse;
use crate::action::strs;
use crate::error::ParseError;
use crate::error::ParseErrorSource;
use crate::error::SourceView;
use crate::text::chars_equal_str;
use crate::text::chars_to_string;
use crate::text::rows;
use crate::text::split_chars;
use crate::text::split_spec;
use crate::text::lemma_split_nonempty;
use crate::text::str_chars;

verus! {

/// The logs this tool reads.
pub enum LogType {
    /// The dpkg log, filtered to its status lines.
    GreppedDpkgLog,
    /// The apt history, compressed or not, reduced to its command lines.
    AptHistoryGzip,
}

/// `-y` and `--yes`, the only flags an apt command may carry.
pub open spec fn is_yes_flag(a: Seq<char>) -> bool {
    a == "-y"@ || a == "--yes"@
}

/// An argument that starts with `-`.
pub open spec fn is_flag(a: Seq<char>) -> bool {
    a.len() > 0 && a[0] == '-'
}

/// Reads the arguments of an apt action in order: whether a package has
/// been met yet, and the packages so far. `-y` and `--yes` are passed over
/// before the first package; a flag after the first package, or any other
/// flag before it, is a fault; every other argument is a package.
pub open spec fn scan_arguments(args: Seq<Seq<char>>) -> Result<
    (bool, Seq<Seq<char>>),
    SourceView,
>
    decreases args.len(),
{
    if args.len() == 0 {
        Ok((false, Seq::empty()))
    } else {
        match scan_arguments(args.drop_last()) {
            Err(e) => Err(e),
            Ok((ended, packages)) => {
                let a = args.last();
                if is_yes_flag(a) {
                    if ended {
                        Err(SourceView::FlagAfterPackages(a))
                    } else {
                        Ok((ended, packages))
                    }
                } else if is_flag(a) {
                    if ended {
                        Err(SourceView::FlagAfterPackages(a))
                    } else {
                        Err(SourceView::UnknownFlag(a))
                    }
                } else {
                    Ok((true, packages.push(a)))
                }
            },
        }
    }
}

/// Once the arguments read so far hold a fault, no later argument changes it.
pub proof fn lemma_scan_fault_persists(args: Seq<Seq<char>>, k: int)
    requires
        0 <= k <= args.len(),
        scan_arguments(args.take(k)) is Err,
    ensures
        scan_arguments(args) == scan_arguments(args.take(k)),
    decreases args.len() - k,
{
    if k < args.len() {
        assert(args.take(k + 1).drop_last() == args.take(k));
        lemma_scan_fault_persists(args, k + 1);
    } else {
        assert(args.take(k) == args);
    }
}

/// How an apt history line is read: its first space-separated word is the
/// command; `apt` and `apt-get` lines are read from the words after it;
/// `aptdaemon` lines name no packages and an action this tool does not
/// follow; any other first word is an unknown command.
pub proof fn lemma_apt_history_dispatch(line: Seq<char>)
    ensures
        ({
            let words = split_spec(line, ' ');
            &&& words.len() >= 1
            &&& (words[0] == "apt"@ || words[0] == "apt-get"@) ==> apt_history_event(line)
                == apt_command(words.drop_first())
            &&& words[0] == "aptdaemon"@ ==> apt_history_event(line) == Ok::<
                (ActionView, Seq<Seq<char>>),
                SourceView,
            >((ActionView::Other("aptdaemon"@), Seq::empty()))
            &&& words[0] != "apt"@ && words[0] != "apt-get"@ && words[0] != "aptdaemon"@
                ==> apt_history_event(line) == Err::<(ActionView, Seq<Seq<char>>), SourceView>(
                SourceView::UnknownCommand(words[0]),
            )
        }),
{
    lemma_split_nonempty(line, ' ');
    reveal_strlit("apt");
    reveal_strlit("apt-get");
    reveal_strlit("aptdaemon");
    assert("apt"@.len() != "aptdaemon"@.len());
    assert("apt-get"@.len() != "aptdaemon"@.len());
}

/// The packages named by the arguments of an apt action, or the first fault
/// among them.
pub open spec fn apt_packages(args: Seq<Seq<char>>) -> Result<Seq<Seq<char>>, SourceView> {
    match scan_arguments(args) {
        Ok((_, packages)) => Ok(packages),
        Err(e) => Err(e),
    }
}

/// The first `k` arguments are `-y` or `--yes`, and none after them starts
/// with `-`.
pub open spec fn flags_then_packages(args: Seq<Seq<char>>, k: int) -> bool {
    &&& 0 <= k <= args.len()
    &&& forall|i: int| 0 <= i < k ==> is_yes_flag(#[trigger] args[i])
    &&& forall|i: int| k <= i < args.len() ==> !is_flag(#[trigger] args[i])
}

proof fn lemma_flags_then_packages_unique(args: Seq<Seq<char>>, k1: int, k2: int)
    requires
        flags_then_packages(args, k1),
        flags_then_packages(args, k2),
    ensures
        k1 == k2,
{
    if k1 < k2 {
        assert(is_yes_flag(args[k1]));
        assert(!is_flag(args[k1]));
        reveal_strlit("-y");
        reveal_strlit("--yes");
    } else if k2 < k1 {
        assert(is_yes_flag(args[k2]));
        assert(!is_flag(args[k2]));
        reveal_strlit("-y");
        reveal_strlit("--yes");
    }
}

proof fn lemma_scan_shape(args: Seq<Seq<char>>)
    ensures
        scan_arguments(args) is Ok <==> exists|k: int| flags_then_packages(args, k),
        forall|k: int|
            flags_then_packages(args, k) ==> scan_arguments(args) == Ok::<
                (bool, Seq<Seq<char>>),
                SourceView,
            >((k < args.len(), args.skip(k))),
    decreases args.len(),
{
    reveal_strlit("-y");
    reveal_strlit("--yes");
    if args.len() == 0 {
        assert(flags_then_packages(args, 0));
        assert forall|k: int| flags_then_packages(args, k) implies scan_arguments(args) == Ok::<
            (bool, Seq<Seq<char>>),
            SourceView,
        >((k < args.len(), args.skip(k))) by {
            assert(args.skip(k) =~= Seq::<Seq<char>>::empty());
        }
    } else {
        let prev = args.drop_last();
        let a = args.last();
        let n = args.len() - 1;
        lemma_scan_shape(prev);
        // A shape of `args` restricts to a shape of `prev`.
        assert forall|k: int| flags_then_packages(args, k) implies flags_then_packages(
            prev,
            if k <= n { k } else { n },
        ) by {
            let k2 = if k <= n { k } else { n };
            assert forall|i: int| 0 <= i < k2 implies is_yes_flag(#[trigger] prev[i]) by {
                assert(prev[i] == args[i]);
            }
            assert forall|i: int| k2 <= i < prev.len() implies !is_flag(#[trigger] prev[i]) by {
                assert(prev[i] == args[i]);
            }
        }
        match scan_arguments(prev) {
            Err(_) => {
                assert forall|k: int| !flags_then_packages(args, k) by {
                    if flags_then_packages(args, k) {
                        let k2 = if k <= n { k } else { n };
                        assert(flags_then_packages(prev, k2));
                    }
                }
            },
            Ok((ended, packages)) => {
                let k0 = choose|k: int| flags_then_packages(prev, k);
                assert(ended == (k0 < prev.len()));
                assert(packages == prev.skip(k0));
                if is_yes_flag(a) {
                    if ended {
                        assert(!is_flag(prev[k0]));
                        assert forall|k: int| !flags_then_packages(args, k) by {
                            if flags_then_packages(args, k) {
                                if k <= n {
                                    assert(!is_flag(args[n]));
                                } else {
                                    assert(is_yes_flag(args[k0]));
                                    assert(args[k0] == prev[k0]);
                                }
                            }
                        }
                    } else {
                        assert(flags_then_packages(args, args.len() as int)) by {
                            assert forall|i: int| 0 <= i < args.len() implies is_yes_flag(
                                #[trigger] args[i],
                            ) by {
                                if i < n {
                                    assert(args[i] == prev[i]);
                                }
                            }
                        }
                        assert forall|k: int| flags_then_packages(args, k) implies scan_arguments(
                            args,
                        ) == Ok::<(bool, Seq<Seq<char>>), SourceView>(
                            (k < args.len(), args.skip(k)),
                        ) by {
                            lemma_flags_then_packages_unique(args, k, args.len() as int);
                            assert(args.skip(k) =~= Seq::<Seq<char>>::empty());
                            assert(packages =~= Seq::<Seq<char>>::empty());
                        }
                    }
                } else if is_flag(a) {
                    assert forall|k: int| !flags_then_packages(args, k) by {
                        if flags_then_packages(args, k) {
                            if k <= n {
                                assert(!is_flag(args[n]));
                            } else {
                                assert(is_yes_flag(args[n]));
                            }
                        }
                    }
                } else {
                    assert(flags_then_packages(args, k0)) by {
                        assert forall|i: int| 0 <= i < k0 implies is_yes_flag(#[trigger] args[i]) by {
                            assert(args[i] == prev[i]);
                        }
                        assert forall|i: int| k0 <= i < args.len() implies !is_flag(
                            #[trigger] args[i],
                        ) by {
                            if i < n {
                                assert(args[i] == prev[i]);
                            }
                        }
                    }
                    assert forall|k: int| flags_then_packages(args, k) implies scan_arguments(
                        args,
                    ) == Ok::<(bool, Seq<Seq<char>>), SourceView>((k < args.len(), args.skip(k))) by {
                        lemma_flags_then_packages_unique(args, k, k0);
                        assert(args.skip(k0) =~= prev.skip(k0).push(a));
                    }
                }
            },
        }
    }
}

/// Where the arguments of an apt action are refused, the fault names the
/// first argument at fault: a flag that comes after a package, or a flag
/// other than `-y`/`--yes` that comes before any package, with only `-y` and
/// `--yes` before it.
pub proof fn lemma_apt_argument_faults(args: Seq<Seq<char>>)
    ensures
        apt_packages(args) is Err ==> (apt_packages(args)->Err_0 is FlagAfterPackages
            || apt_packages(args)->Err_0 is UnknownFlag),
        apt_packages(args) is Err && apt_packages(args)->Err_0 is FlagAfterPackages ==> exists|
            i: int,
            j: int,
        |
            #![trigger args[i], args[j]]
            0 <= j < i < args.len() && args[i] == apt_packages(args)->Err_0->FlagAfterPackages_0
                && is_flag(args[i]) && !is_flag(args[j]) && apt_packages(
                args.take(i),
            ) is Ok,
        apt_packages(args) is Err && apt_packages(args)->Err_0 is UnknownFlag ==> exists|i: int|
            0 <= i < args.len() && args[i] == apt_packages(args)->Err_0->UnknownFlag_0 && is_flag(
                args[i],
            ) && !is_yes_flag(args[i]) && forall|j: int|
                0 <= j < i ==> is_yes_flag(#[trigger] args[j]),
    decreases args.len(),
{
    reveal_strlit("-y");
    reveal_strlit("--yes");
    lemma_scan_state(args);
    if args.len() > 0 {
        let p = args.drop_last();
        let n = args.len() - 1;
        lemma_apt_argument_faults(p);
        lemma_scan_state(p);
        assert forall|k: int| 0 <= k <= p.len() implies p.take(k) == args.take(k) by {}
        assert forall|k: int| 0 <= k < p.len() implies p[k] == args[k] by {}
        match scan_arguments(p) {
            Err(e) => {
                if e is FlagAfterPackages {
                    let (i, j) = choose|i: int, j: int|
                        #![trigger p[i], p[j]]
                        0 <= j < i < p.len() && p[i] == e->FlagAfterPackages_0 && is_flag(p[i])
                            && !is_flag(p[j]) && apt_packages(p.take(i)) is Ok;
                    assert(args[i] == p[i] && args[j] == p[j]);
                    assert(p.take(i) == args.take(i));
                    assert(0 <= j < i < args.len() && args[i] == e->FlagAfterPackages_0 && is_flag(
                        args[i],
                    ) && !is_flag(args[j]) && apt_packages(args.take(i)) is Ok);
                } else {
                    let i = choose|i: int|
                        0 <= i < p.len() && p[i] == e->UnknownFlag_0 && is_flag(p[i])
                            && !is_yes_flag(p[i]) && forall|j: int|
                            0 <= j < i ==> is_yes_flag(#[trigger] p[j]);
                    assert(args[i] == p[i]);
                    assert forall|j: int| 0 <= j < i implies is_yes_flag(#[trigger] args[j]) by {
                        assert(args[j] == p[j]);
                    }
                }
            },
            Ok((ended, packages)) => {
                assert(args.take(n) == p);
                if ended {
                    let j = choose|j: int| 0 <= j < p.len() && !is_flag(#[trigger] p[j]);
                    assert(args[j] == p[j]);
                    if apt_packages(args) is Err && apt_packages(args)->Err_0 is FlagAfterPackages {
                        assert(apt_packages(args)->Err_0->FlagAfterPackages_0 == args[n]);
                        assert(0 <= j < n < args.len() && args[n]
                            == apt_packages(args)->Err_0->FlagAfterPackages_0 && is_flag(args[n])
                            && !is_flag(args[j]) && apt_packages(args.take(n)) is Ok);
                    }
                } else {
                    assert forall|j: int| 0 <= j < n implies is_yes_flag(#[trigger] args[j]) by {
                        assert(args[j] == p[j]);
                    }
                }
            },
        }
    }
}

/// Whether a package has been met among the arguments read so far: exactly
/// when one of them is no flag, all others before it being `-y`/`--yes`.
proof fn lemma_scan_state(args: Seq<Seq<char>>)
    ensures
        scan_arguments(args) is Ok ==> (scan_arguments(args)->Ok_0.0 <==> exists|j: int|
            0 <= j < args.len() && !is_flag(#[trigger] args[j])),
        scan_arguments(args) is Ok && !scan_arguments(args)->Ok_0.0 ==> forall|j: int|
            0 <= j < args.len() ==> is_yes_flag(#[trigger] args[j]),
    decreases args.len(),
{
    if args.len() > 0 {
        let p = args.drop_last();
        lemma_scan_state(p);
        assert forall|k: int| 0 <= k < p.len() implies p[k] == args[k] by {}
        if scan_arguments(args) is Ok {
            let st = scan_arguments(p)->Ok_0;
            if st.0 {
                let j = choose|j: int| 0 <= j < p.len() && !is_flag(#[trigger] p[j]);
                assert(!is_flag(args[j]));
            }
            if scan_arguments(args)->Ok_0.0 && !st.0 {
                assert(!is_flag(args[args.len() - 1]));
            }
            if !scan_arguments(args)->Ok_0.0 {
                assert forall|j: int| 0 <= j < args.len() implies is_yes_flag(#[trigger] args[j]) by {
                    if j < p.len() {
                        assert(args[j] == p[j]);
                    }
                }
                assert forall|j: int| 0 <= j < args.len() implies is_flag(#[trigger] args[j]) by {
                    reveal_strlit("-y");
                    reveal_strlit("--yes");
                    assert(is_yes_flag(args[j]));
                }
            }
        }
    }
}

/// The arguments of an apt action are accepted exactly when they are a run
/// of `-y`/`--yes` flags followed by packages, none of which starts with
/// `-`; the packages are then the arguments after the flags.
pub proof fn lemma_apt_arguments_shape(args: Seq<Seq<char>>)
    ensures
        apt_packages(args) is Ok <==> exists|k: int| flags_then_packages(args, k),
        forall|k: int|
            flags_then_packages(args, k) ==> apt_packages(args) == Ok::<Seq<Seq<char>>, SourceView>(
                args.skip(k),
            ),
{
    lemma_scan_shape(args);
}

/// The action and packages of the arguments after `apt` or `apt-get`:
/// `install` and `reinstall` install, `remove` removes, `autoremove` (alone)
/// is an action this tool does not follow.
pub open spec fn apt_command(args: Seq<Seq<char>>) -> Result<
    (ActionView, Seq<Seq<char>>),
    SourceView,
> {
    if args.len() == 0 {
        Err(SourceView::NoAptAction)
    } else {
        let first = args[0];
        let action: Result<ActionView, SourceView> = if first == "autoremove"@ {
            if args.len() != 1 {
                Err(SourceView::AutoremoveWithArguments)
            } else {
                Ok(ActionView::Other("autoremove"@))
            }
        } else if first == "install"@ || first == "reinstall"@ {
            Ok(ActionView::Installed)
        } else if first == "remove"@ {
            Ok(ActionView::Remove)
        } else {
            Err(SourceView::UnknownAptAction(first))
        };
        match action {
            Err(e) => Err(e),
            Ok(a) => match apt_packages(args.drop_first()) {
                Ok(packages) => Ok((a, packages)),
                Err(e) => Err(e),
            },
        }
    }
}

/// An accepted apt command names its action by its first argument and its
/// packages by the rest: `install` and `reinstall` install, `remove`
/// removes, `autoremove` (alone) is not followed; the packages are those that
/// the arguments after the action name, for every action alike. An
/// `install`, `reinstall` or `remove` with acceptable arguments is accepted.
pub proof fn lemma_apt_command_action_and_packages(args: Seq<Seq<char>>)
    ensures
        apt_command(args) is Ok ==> args.len() >= 1 && apt_packages(args.drop_first()) == Ok::<
            Seq<Seq<char>>,
            SourceView,
        >(apt_command(args)->Ok_0.1),
        apt_command(args) is Ok && (args[0] == "install"@ || args[0] == "reinstall"@) ==> apt_command(
            args,
        )->Ok_0.0 == ActionView::Installed,
        apt_command(args) is Ok && args[0] == "remove"@ ==> apt_command(args)->Ok_0.0
            == ActionView::Remove,
        apt_command(args) is Ok && args[0] == "autoremove"@ ==> args.len() == 1 && apt_command(
            args,
        )->Ok_0.0 == ActionView::Other("autoremove"@),
        args.len() >= 1 && (args[0] == "install"@ || args[0] == "reinstall"@ || args[0]
            == "remove"@) && apt_packages(args.drop_first()) is Ok ==> apt_command(args) is Ok,
{
    reveal_strlit("install");
    reveal_strlit("reinstall");
    reveal_strlit("remove");
    reveal_strlit("autoremove");
    assert("install"@.len() != "autoremove"@.len());
    assert("reinstall"@.len() != "autoremove"@.len());
    assert("remove"@.len() != "autoremove"@.len());
    assert("remove"@.len() != "install"@.len());
    assert("remove"@.len() != "reinstall"@.len());
}

/// The event of a command line of the apt history: its words are separated
/// by single spaces; `apt` and `apt-get` commands are read by `apt_command`;
/// `aptdaemon` is an action this tool does not follow, on no packages.
pub open spec fn apt_history_event(line: Seq<char>) -> Result<
    (ActionView, Seq<Seq<char>>),
    SourceView,
> {
    let words = split_spec(line, ' ');
    let command = words[0];
    if command == "apt"@ || command == "apt-get"@ {
        apt_command(words.drop_first())
    } else if command == "aptdaemon"@ {
        Ok((ActionView::Other("aptdaemon"@), Seq::empty()))
    } else {
        Err(SourceView::UnknownCommand(command))
    }
}

/// The packages named by the arguments of an apt action, in order, or the
/// first fault among the arguments.
pub fn try_analyze_apt_arguments(arguments: Vec<String>) -> (r: Result<Vec<String>, ParseErrorSource>)
    ensures
        match r {
            Ok(packages) => apt_packages(strs(arguments@)) == Ok::<Seq<Seq<char>>, SourceView>(
                strs(packages@),
            ),
            Err(e) => apt_packages(strs(arguments@)) == Err::<Seq<Seq<char>>, SourceView>(e@),
        },
{
    let ghost args = strs(arguments@);
    let mut is_flags_ended = false;
    let mut packages_list: Vec<String> = Vec::new();
    let mut i: usize = 0;
    proof {
        assert(args.take(0) =~= Seq::<Seq<char>>::empty());
        assert(strs(packages_list@) =~= Seq::<Seq<char>>::empty());
    }
    while i < arguments.len()
        invariant
            i <= arguments@.len(),
            args == strs(arguments@),
            scan_arguments(args.take(i as int)) == Ok::<(bool, Seq<Seq<char>>), SourceView>(
                (is_flags_ended, strs(packages_list@)),
            ),
        decreases arguments@.len() - i,
    {
        proof {
            assert(args.take(i + 1).drop_last() == args.take(i as int));
            assert(args.take(i + 1).last() == arguments@[i as int]@);
        }
        let argument = &arguments[i];
        let chars = str_chars(argument.as_str());
        let yes = chars_equal_str(chars.as_slice(), "-y") || chars_equal_str(chars.as_slice(), "--yes");
        if yes {
            if is_flags_ended {
                proof {
                    lemma_scan_fault_persists(args, i + 1);
                }
                return Err(ParseErrorSource::FlagAfterPackages(argument.clone()));
            }
        } else if chars.len() > 0 && chars[0] == '-' {
            proof {
                lemma_scan_fault_persists(args, i + 1);
            }
            if is_flags_ended {
                return Err(ParseErrorSource::FlagAfterPackages(argument.clone()));
            } else {
                return Err(ParseErrorSource::UnknownFlag(argument.clone()));
            }
        } else {
            is_flags_ended = true;
            let ghost before = strs(packages_list@);
            packages_list.push(argument.clone());
            proof {
                assert(strs(packages_list@) =~= before.push(argument@));
            }
        }
        i = i + 1;
    }
    proof {
        assert(args.take(arguments@.len() as int) == args);
    }
    Ok(packages_list)
}

/// The packages named by the arguments of an apt action, in order. The
/// arguments must be some `-y`/`--yes` flags followed by packages (see
/// `lemma_apt_arguments_shape`); on any other arguments the tool stops.
pub fn analyze_apt_arguments(arguments: Vec<String>) -> (packages: Vec<String>)
    requires
        apt_packages(strs(arguments@)) is Ok,
    ensures
        apt_packages(strs(arguments@)) == Ok::<Seq<Seq<char>>, SourceView>(strs(packages@)),
{
    match try_analyze_apt_arguments(arguments) {
        Ok(packages) => packages,
        Err(_) => unreached(),
    }
}

/// The event of a command line of the apt history: an action and the packages
/// it concerns.
pub struct InstallationStatusAptHistory {
    pub action: Action,
    pub packages: Vec<String>,
}

impl View for InstallationStatusAptHistory {
    type V = (ActionView, Seq<Seq<char>>);

    open spec fn view(&self) -> (ActionView, Seq<Seq<char>>) {
        (self.action@, strs(self.packages@))
    }
}

/// The action and packages of the arguments after `apt` or `apt-get`, or the
/// first fault among them.
pub fn try_analyze_apt_command_in_apt_history_log(arguments: Vec<String>) -> (r: Result<
    InstallationStatusAptHistory,
    ParseErrorSource,
>)
    ensures
        match r {
            Ok(event) => apt_command(strs(arguments@)) == Ok::<
                (ActionView, Seq<Seq<char>>),
                SourceView,
            >(event@),
            Err(e) => apt_command(strs(arguments@)) == Err::<
                (ActionView, Seq<Seq<char>>),
                SourceView,
            >(e@),
        },
{
    let ghost args = strs(arguments@);
    if arguments.len() == 0 {
        return Err(ParseErrorSource::NoAptAction);
    }
    proof {
        assert(args[0] == arguments@[0]@);
    }
    let first = str_chars(arguments[0].as_str());
    let action = if chars_equal_str(first.as_slice(), "autoremove") {
        if arguments.len() != 1 {
            return Err(ParseErrorSource::AutoremoveWithArguments);
        }
        Action::Other(CouldntParse { line: "autoremove".to_owned() })
    } else if chars_equal_str(first.as_slice(), "install") || chars_equal_str(
        first.as_slice(),
        "reinstall",
    ) {
        Action::Installed
    } else if chars_equal_str(first.as_slice(), "remove") {
        Action::Remove
    } else {
        return Err(ParseErrorSource::UnknownAptAction(arguments[0].clone()));
    };
    let mut rest: Vec<String> = Vec::new();
    let mut i: usize = 1;
    while i < arguments.len()
        invariant
            1 <= i <= arguments@.len(),
            args == strs(arguments@),
            strs(rest@) == args.subrange(1, i as int),
        decreases arguments@.len() - i,
    {
        let ghost before = strs(rest@);
        rest.push(arguments[i].clone());
        proof {
            assert(strs(rest@) =~= before.push(arguments@[i as int]@));
            assert(args.subrange(1, i + 1) =~= args.subrange(1, i as int).push(args[i as int]));
        }
        i = i + 1;
    }
    proof {
        assert(args.subrange(1, args.len() as int) =~= args.drop_first());
    }
    match try_analyze_apt_arguments(rest) {
        Ok(packages) => Ok(InstallationStatusAptHistory { action, packages }),
        Err(e) => Err(e),
    }
}

/// The action and packages of the arguments after `apt` or `apt-get`. The
/// arguments must name an action this tool knows (`autoremove` alone,
/// `install`, `reinstall` or `remove`) followed by acceptable arguments; on
/// any others the tool stops.
pub fn analyze_apt_command_in_apt_history_log(arguments: Vec<String>) -> (event:
    InstallationStatusAptHistory)
    requires
        apt_command(strs(arguments@)) is Ok,
    ensures
        apt_command(strs(arguments@)) == Ok::<(ActionView, Seq<Seq<char>>), SourceView>(event@),
{
    match try_analyze_apt_command_in_apt_history_log(arguments) {
        Ok(event) => event,
        Err(_) => unreached(),
    }
}

impl InstallationStatusAptHistory {
    /// The event of the apt history line `last_line`. The log must be the
    /// apt history and the line one that `apt_history_event` reads; on any
    /// other line the tool stops. `line_number` serves only to report a
    /// line that cannot be read.
    pub fn get_event(last_line: &str, line_number: &usize, log_type: LogType) -> (event:
        InstallationStatusAptHistory)
        requires
            log_type is AptHistoryGzip,
            apt_history_event(last_line@) is Ok,
        ensures
            apt_history_event(last_line@) == Ok::<(ActionView, Seq<Seq<char>>), SourceView>(
                event@,
            ),
    {
        match apt_history_line_event(last_line) {
            Ok(event) => event,
            Err(_) => unreached(),
        }
    }

    /// The event of the apt history line `last_line`, whose number is
    /// `line_number`; an error where the line cannot be read, or where the
    /// log is the dpkg log.
    pub fn try_get_event(last_line: &str, line_number: &usize, log_type: LogType) -> (r: Result<
        InstallationStatusAptHistory,
        ParseError,
    >)
        ensures
            match r {
                Ok(event) => log_type is AptHistoryGzip && apt_history_event(last_line@) == Ok::<
                    (ActionView, Seq<Seq<char>>),
                    SourceView,
                >(event@),
                Err(e) => {
                    &&& e.line@ == last_line@
                    &&& e.line_number == *line_number
                    &&& match log_type {
                        LogType::GreppedDpkgLog => e.source@ == SourceView::DpkgLogForAptHistoryEvent,
                        LogType::AptHistoryGzip => apt_history_event(last_line@) == Err::<
                            (ActionView, Seq<Seq<char>>),
                            SourceView,
                        >(e.source@),
                    }
                },
            },
    {
        let source = match log_type {
            LogType::GreppedDpkgLog => ParseErrorSource::DpkgLogForAptHistoryEvent,
            LogType::AptHistoryGzip => {
                match apt_history_line_event(last_line) {
                    Ok(event) => {
                        return Ok(event);
                    },
                    Err(source) => source,
                }
            },
        };
        let mut e = ParseError::from(source, last_line);
        e.set_line_number(*line_number);
        Err(e)
    }
}

fn apt_history_line_event(line: &str) -> (r: Result<InstallationStatusAptHistory, ParseErrorSource>)
    ensures
        match r {
            Ok(event) => apt_history_event(line@) == Ok::<
                (ActionView, Seq<Seq<char>>),
                SourceView,
            >(event@),
            Err(e) => apt_history_event(line@) == Err::<(ActionView, Seq<Seq<char>>), SourceView>(
                e@,
            ),
        },
{
    let chars = str_chars(line);
    let words = split_chars(chars.as_slice(), ' ');
    proof {
        lemma_split_nonempty(line@, ' ');
        assert(rows(words@)[0] == words@[0]@);
    }
    let command = &words[0];
    if chars_equal_str(command.as_slice(), "apt") || chars_equal_str(command.as_slice(), "apt-get") {
        let mut arguments: Vec<String> = Vec::new();
        let mut i: usize = 1;
        while i < words.len()
            invariant
                1 <= i <= words@.len(),
                rows(words@) == split_spec(line@, ' '),
                strs(arguments@) == rows(words@).subrange(1, i as int),
            decreases words@.len() - i,
        {
            let ghost before = strs(arguments@);
            arguments.push(chars_to_string(words[i].as_slice()));
            proof {
                assert(rows(words@)[i as int] == words@[i as int]@);
                assert(strs(arguments@) =~= before.push(words@[i as int]@));
                assert(rows(words@).subrange(1, i + 1) =~= rows(words@).subrange(1, i as int).push(
                    rows(words@)[i as int],
                ));
            }
            i = i + 1;
        }
        proof {
            assert(rows(words@).subrange(1, words@.len() as int) =~= rows(words@).drop_first());
        }
        try_analyze_apt_command_in_apt_history_log(arguments)
    } else if chars_equal_str(command.as_slice(), "aptdaemon") {
        let packages: Vec<String> = Vec::new();
        proof {
            assert(strs(packages@) =~= Seq::<Seq<char>>::empty());
        }
        Ok(
            InstallationStatusAptHistory {
                action: Action::Other(CouldntParse { line: "aptdaemon".to_owned() }),
                packages,
            },
        )
    } else {
        Err(ParseErrorSource::UnknownCommand(chars_to_string(command.as_slice())))
    }
}

} // verus!
