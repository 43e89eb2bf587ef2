//! Time measurements: a duration value, a table of accumulated durations
//! keyed by name, the clock readings taken while the logs are analysed, and
//! the text form in which durations are reported.
use vstd::prelude::*;
use std::time::Duration;
use std::time::SystemTime;
use std::time::SystemTimeError;
use crate::text::decimal;
use crate::text::push_decimal;

verus! {

/// Nanoseconds in a second.
pub const NANOS_PER_SEC: u128 = 1_000_000_000u128;

/// Nanoseconds in a millisecond.
pub const NANOS_PER_MILLI: u128 = 1_000_000u128;

/// The longest span a `std::time::Duration` holds: `u64::MAX` seconds and
/// 999 999 999 nanoseconds, in nanoseconds.
pub const MAX_NANOS: u128 = 18_446_744_073_709_551_615_999_999_999u128;

#[verifier::external_type_specification]
#[verifier::external_body]
pub struct ExSystemTime(SystemTime);

#[verifier::external_type_specification]
#[verifier::external_body]
pub struct ExSystemTimeError(SystemTimeError);

/// A span of time, counted in nanoseconds, with the range of
/// `std::time::Duration`.
#[derive(Clone, Copy, Debug)]
pub struct Elapsed {
    nanos: u128,
}

impl Elapsed {
    #[verifier::type_invariant]
    closed spec fn in_range(self) -> bool {
        self.nanos <= MAX_NANOS
    }
}

impl View for Elapsed {
    type V = nat;

    /// The span in nanoseconds.
    closed spec fn view(&self) -> nat {
        self.nanos as nat
    }
}

impl Elapsed {
    fn of_nanos(nanos: u128) -> (e: Elapsed)
        requires
            nanos <= MAX_NANOS,
        ensures
            e@ == nanos,
    {
        Elapsed { nanos }
    }

    /// The span of `secs` whole seconds.
    pub fn from_secs(secs: u64) -> (e: Elapsed)
        ensures
            e@ == secs * NANOS_PER_SEC,
    {
        assert(secs * NANOS_PER_SEC <= MAX_NANOS) by (nonlinear_arith)
            requires
                secs <= u64::MAX,
        ;
        Elapsed { nanos: secs as u128 * NANOS_PER_SEC }
    }

    /// The number of whole seconds in the span.
    pub fn as_secs(&self) -> (s: u64)
        ensures
            s == self@ / NANOS_PER_SEC as nat,
    {
        proof {
            use_type_invariant(self);
        }
        (self.nanos / NANOS_PER_SEC) as u64
    }

    /// The whole milliseconds of the part of the span below one second.
    pub fn subsec_millis(&self) -> (m: u32)
        ensures
            m == (self@ % NANOS_PER_SEC as nat) / NANOS_PER_MILLI as nat,
            m < 1000,
    {
        ((self.nanos % NANOS_PER_SEC) / NANOS_PER_MILLI) as u32
    }

    /// The number of whole milliseconds in the span.
    pub fn as_millis(&self) -> (m: u128)
        ensures
            m == self@ / NANOS_PER_MILLI as nat,
    {
        self.nanos / NANOS_PER_MILLI
    }

    /// The sum of two spans, or `None` where it leaves the range of
    /// `std::time::Duration`.
    pub fn checked_add(&self, other: &Elapsed) -> (r: Option<Elapsed>)
        ensures
            match r {
                Some(e) => e@ == self@ + other@ && self@ + other@ <= MAX_NANOS,
                None => self@ + other@ > MAX_NANOS,
            },
    {
        proof {
            use_type_invariant(self);
            use_type_invariant(other);
        }
        if self.nanos <= MAX_NANOS - other.nanos {
            Some(Elapsed { nanos: self.nanos + other.nanos })
        } else {
            None
        }
    }
}

/// The current time of the system clock; `SystemTime::now`. Nothing is
/// stated of the instant it returns.
#[verifier::external_body]
pub(crate) fn system_time_now() -> SystemTime {
    SystemTime::now()
}

/// `SystemTime::UNIX_EPOCH`. Nothing is stated of the instant.
#[verifier::external_body]
pub(crate) fn unix_epoch() -> SystemTime {
    SystemTime::UNIX_EPOCH
}

/// The time that has passed since `t` by the system clock, or an error where
/// `t` lies after the present; `SystemTime::elapsed`. Nothing is stated of
/// which of the two comes back, nor of the span.
#[verifier::external_body]
fn system_time_elapsed(t: &SystemTime) -> Result<Duration, SystemTimeError> {
    t.elapsed()
}

/// The whole span of `d` in nanoseconds; `Duration::as_nanos`. A `Duration`
/// holds at most `u64::MAX` seconds and 999 999 999 nanoseconds.
#[verifier::external_body]
fn duration_as_nanos(d: &Duration) -> (n: u128)
    ensures
        n <= MAX_NANOS,
{
    d.as_nanos()
}

/// A table of named durations: for each name, the total of the spans
/// recorded under it.
pub struct Stats {
    names: Vec<String>,
    totals: Vec<Elapsed>,
    model: Ghost<Map<Seq<char>, nat>>,
}

impl View for Stats {
    type V = Map<Seq<char>, nat>;

    /// Each recorded name, with its total in nanoseconds.
    closed spec fn view(&self) -> Map<Seq<char>, nat> {
        self.model@
    }
}

/// The total recorded under `name` in `m`, zero where there is none.
pub open spec fn total_of(m: Map<Seq<char>, nat>, name: Seq<char>) -> nat {
    if m.contains_key(name) {
        m[name]
    } else {
        0
    }
}

impl Stats {
    /// The table's internal invariant: one entry per name, and the entries
    /// agree with the view.
    pub closed spec fn wf(&self) -> bool {
        &&& self.names@.len() == self.totals@.len()
        &&& forall|i: int|
            0 <= i < self.names@.len() ==> {
                &&& self.model@.contains_key(#[trigger] self.names@[i]@)
                &&& self.model@[self.names@[i]@] == self.totals@[i]@
            }
        &&& forall|k: Seq<char>|
            self.model@.contains_key(k) ==> exists|i: int|
                0 <= i < self.names@.len() && #[trigger] self.names@[i]@ == k
        &&& forall|i: int, j: int|
            0 <= i < j < self.names@.len() ==> self.names@[i]@ != self.names@[j]@
    }

    /// An empty table.
    pub fn new() -> (s: Stats)
        ensures
            s.wf(),
            s@ == Map::<Seq<char>, nat>::empty(),
    {
        Stats { names: Vec::new(), totals: Vec::new(), model: Ghost(Map::empty()) }
    }

    fn find(&self, name: &String) -> (r: Option<usize>)
        requires
            self.wf(),
        ensures
            match r {
                Some(i) => i < self.names@.len() && self.names@[i as int]@ == name@,
                None => !self@.contains_key(name@),
            },
    {
        let mut i: usize = 0;
        while i < self.names.len()
            invariant
                self.wf(),
                i <= self.names@.len(),
                forall|j: int| 0 <= j < i ==> self.names@[j]@ != name@,
            decreases self.names@.len() - i,
        {
            if self.names[i] == *name {
                return Some(i);
            }
            i = i + 1;
        }
        None
    }

    /// The total recorded under `name`, if any.
    pub fn get(&self, name: &str) -> (r: Option<Elapsed>)
        requires
            self.wf(),
        ensures
            match r {
                Some(e) => self@.contains_key(name@) && e@ == self@[name@],
                None => !self@.contains_key(name@),
            },
    {
        let key = name.to_owned();
        match self.find(&key) {
            Some(i) => Some(self.totals[i]),
            None => None,
        }
    }

    /// The number of names in the table.
    pub fn len(&self) -> (n: usize)
        requires
            self.wf(),
        ensures
            n == self@.dom().len(),
    {
        proof {
            self.lemma_dom_len();
        }
        self.names.len()
    }

    proof fn lemma_dom_len(&self)
        requires
            self.wf(),
        ensures
            self@.dom().len() == self.names@.len(),
            self@.dom().finite(),
    {
        let keys = self.names@.map_values(|s: String| s@);
        assert forall|i: int, j: int| 0 <= i < j < keys.len() implies keys[i] != keys[j] by {
            assert(keys[i] == self.names@[i]@);
            assert(keys[j] == self.names@[j]@);
        }
        assert(keys.no_duplicates());
        assert(keys.to_set() =~= self@.dom()) by {
            assert forall|k: Seq<char>| keys.to_set().contains(k) implies self@.dom().contains(k) by {
                let i = choose|i: int| 0 <= i < keys.len() && keys[i] == k;
                assert(self.names@[i]@ == k);
            }
            assert forall|k: Seq<char>| self@.dom().contains(k) implies keys.to_set().contains(k) by {
                let i = choose|i: int| 0 <= i < self.names@.len() && #[trigger] self.names@[i]@ == k;
                assert(keys[i] == k);
            }
        }
        keys.unique_seq_to_set();
    }

    /// The name and total of the entry at `index`, entries being kept in the
    /// order in which their names were first recorded.
    pub fn entry(&self, index: usize) -> (r: (&String, Elapsed))
        requires
            self.wf(),
            index < self@.dom().len(),
        ensures
            r.0@ == self.entry_name(index as int),
            self@.contains_key(r.0@),
            self@[r.0@] == r.1@,
    {
        proof {
            self.lemma_dom_len();
        }
        (&self.names[index], self.totals[index])
    }

    /// The name of the entry at `index`.
    pub closed spec fn entry_name(&self, index: int) -> Seq<char> {
        self.names@[index]@
    }

    /// The entries at the indices below the table's size name every recorded
    /// name, each once: reading them in turn lists the whole table.
    pub proof fn lemma_entries_list_the_table(&self)
        requires
            self.wf(),
        ensures
            self@.dom().finite(),
            forall|k: Seq<char>|
                self@.contains_key(k) <==> exists|j: int|
                    0 <= j < self@.dom().len() && #[trigger] self.entry_name(j) == k,
            forall|i: int, j: int|
                0 <= i < j < self@.dom().len() ==> self.entry_name(i) != self.entry_name(j),
    {
        self.lemma_dom_len();
        assert forall|k: Seq<char>|
            self@.contains_key(k) implies exists|j: int|
                0 <= j < self@.dom().len() && #[trigger] self.entry_name(j) == k by {
            let j = choose|j: int| 0 <= j < self.names@.len() && #[trigger] self.names@[j]@ == k;
            assert(self.entry_name(j) == k);
        }
        assert forall|k: Seq<char>|
            (exists|j: int| 0 <= j < self@.dom().len() && #[trigger] self.entry_name(j) == k)
                implies self@.contains_key(k) by {
            let j = choose|j: int| 0 <= j < self@.dom().len() && #[trigger] self.entry_name(j) == k;
            assert(self.names@[j]@ == k);
        }
    }

    /// Adds `span` to the total recorded under `name`, which starts from zero
    /// where the name is new.
    pub fn record(&mut self, name: String, span: Elapsed)
        requires
            old(self).wf(),
            total_of(old(self)@, name@) + span@ <= MAX_NANOS,
        ensures
            final(self).wf(),
            final(self)@ == old(self)@.insert(name@, total_of(old(self)@, name@) + span@),
    {
        match self.find(&name) {
            Some(i) => {
                let old_total = self.totals[i];
                match old_total.checked_add(&span) {
                    Some(sum) => {
                        self.totals.set(i, sum);
                        proof {
                            self.model@ = self.model@.insert(name@, sum@);
                            assert forall|k: Seq<char>|
                                self.model@.contains_key(k) implies exists|j: int|
                                    0 <= j < self.names@.len() && #[trigger] self.names@[j]@ == k by {
                                if k != name@ {
                                    assert(old(self).model@.contains_key(k));
                                    let j = choose|j: int|
                                        0 <= j < old(self).names@.len()
                                            && #[trigger] old(self).names@[j]@ == k;
                                    assert(self.names@[j]@ == k);
                                } else {
                                    assert(self.names@[i as int]@ == k);
                                }
                            }
                        }
                    },
                    None => {},
                }
            },
            None => {
                proof {
                    use_type_invariant(&span);
                }
                let ghost key = name@;
                self.names.push(name);
                self.totals.push(span);
                proof {
                    self.model@ = self.model@.insert(key, span@);
                    let n = self.names@.len() - 1;
                    assert(self.names@[n]@ == key);
                    assert forall|k: Seq<char>|
                        self.model@.contains_key(k) implies exists|j: int|
                            0 <= j < self.names@.len() && #[trigger] self.names@[j]@ == k by {
                        if k != key {
                            assert(old(self).model@.contains_key(k));
                            let j = choose|j: int|
                                0 <= j < old(self).names@.len() && #[trigger] old(self).names@[j]@ == k;
                            assert(self.names@[j]@ == k);
                        }
                    }
                    assert forall|i: int|
                        0 <= i < self.names@.len() implies {
                        &&& self.model@.contains_key(#[trigger] self.names@[i]@)
                        &&& self.model@[self.names@[i]@] == self.totals@[i]@
                    } by {
                        if i < n {
                            assert(old(self).names@[i] == self.names@[i]);
                        }
                    }
                }
            },
        }
    }
}

impl Elapsed {
    /// Adds this span to the total recorded under `stats_name`.
    pub fn update_stats(&self, stats_name: String, stats: &mut Stats)
        requires
            old(stats).wf(),
            total_of(old(stats)@, stats_name@) + self@ <= MAX_NANOS,
        ensures
            final(stats).wf(),
            final(stats)@ == old(stats)@.insert(
                stats_name@,
                total_of(old(stats)@, stats_name@) + self@,
            ),
    {
        stats.record(stats_name, *self);
    }
}

/// Recording one span and then another under the same name leaves the
/// table as recording their sum once would.
pub proof fn lemma_record_accumulates(m: Map<Seq<char>, nat>, name: Seq<char>, a: nat, b: nat)
    ensures
        ({
            let once = m.insert(name, total_of(m, name) + a);
            once.insert(name, total_of(once, name) + b)
        }) == m.insert(name, total_of(m, name) + a + b),
{
    let once = m.insert(name, total_of(m, name) + a);
    assert(total_of(once, name) == total_of(m, name) + a);
    assert(once.insert(name, total_of(once, name) + b) =~= m.insert(name, total_of(m, name) + a + b));
}

/// The table `after` differs from `before` only under `names`: no other
/// name is added or changed, and no total shrinks.
pub open spec fn grows_within(
    before: Map<Seq<char>, nat>,
    after: Map<Seq<char>, nat>,
    names: Set<Seq<char>>,
) -> bool {
    &&& forall|k: Seq<char>| #[trigger]
        after.contains_key(k) ==> before.contains_key(k) || names.contains(k)
    &&& forall|k: Seq<char>| #[trigger]
        before.contains_key(k) ==> after.contains_key(k) && after[k] >= before[k]
    &&& forall|k: Seq<char>|
        !names.contains(k) && #[trigger] before.contains_key(k) ==> after[k] == before[k]
}

/// Growth within some names, followed by growth within others, is growth
/// within both; and growth within some names is growth within any more.
pub proof fn lemma_grows_within_chain(
    a: Map<Seq<char>, nat>,
    b: Map<Seq<char>, nat>,
    c: Map<Seq<char>, nat>,
    first: Set<Seq<char>>,
    second: Set<Seq<char>>,
    all: Set<Seq<char>>,
)
    requires
        grows_within(a, b, first),
        grows_within(b, c, second),
        first.subset_of(all),
        second.subset_of(all),
    ensures
        grows_within(a, c, all),
{
    assert forall|k: Seq<char>| #[trigger] c.contains_key(k) implies a.contains_key(k) || all.contains(k) by {
        if !all.contains(k) {
            assert(b.contains_key(k));
        }
    }
    assert forall|k: Seq<char>| !all.contains(k) && #[trigger] a.contains_key(k) implies c[k] == a[k] by {
        assert(b.contains_key(k));
    }
}

impl Stats {
    /// Adds a measured span to the total recorded under `name`, where there
    /// is a measurement and the total stays within the range of
    /// `std::time::Duration`; otherwise leaves the table as it is.
    pub fn record_measurement(&mut self, name: String, measured: Option<Elapsed>)
        requires
            old(self).wf(),
        ensures
            final(self).wf(),
            match measured {
                Some(span) => if total_of(old(self)@, name@) + span@ <= MAX_NANOS {
                    final(self)@ == old(self)@.insert(name@, total_of(old(self)@, name@) + span@)
                } else {
                    final(self)@ == old(self)@
                },
                None => final(self)@ == old(self)@,
            },
    {
        match measured {
            Some(span) => {
                let current = self.get(name.as_str());
                let fits = match current {
                    Some(total) => match total.checked_add(&span) {
                        Some(_) => true,
                        None => false,
                    },
                    None => {
                        proof {
                            use_type_invariant(&span);
                        }
                        true
                    },
                };
                if fits {
                    self.record(name, span);
                }
            },
            None => {},
        }
    }
}

/// Adds the time that has passed since `start` to the total recorded under
/// `stats_name`. The clock decides the span: the table is left as it was
/// where `start` lies after the present or the total would leave the range
/// of `std::time::Duration`; otherwise the entry for `stats_name` holds its
/// former total (zero where it is new) plus the span.
pub fn update_stats_since(start: &SystemTime, stats_name: String, stats: &mut Stats)
    requires
        old(stats).wf(),
    ensures
        final(stats).wf(),
        grows_within(old(stats)@, final(stats)@, set![stats_name@]),
        final(stats)@ == old(stats)@ || (final(stats)@.contains_key(stats_name@)
            && final(stats)@ == old(stats)@.insert(stats_name@, final(stats)@[stats_name@])
            && final(stats)@[stats_name@] >= total_of(old(stats)@, stats_name@)),
{
    let measured = match system_time_elapsed(start) {
        Ok(d) => Some(Elapsed::of_nanos(duration_as_nanos(&d))),
        Err(_) => None,
    };
    stats.record_measurement(stats_name, measured);
}

/// The clock readings taken while a log is analysed, each the start of a
/// measured step.
pub struct TimeBegin {
    pub old: SystemTime,
    pub program_start: SystemTime,
    pub action_installed_remove: SystemTime,
    pub action_installed_push: SystemTime,
    pub action_remove_remove: SystemTime,
    pub action_remove_push: SystemTime,
}

impl TimeBegin {
    /// Readings set to the Unix epoch, but for the program start, which is
    /// read from the clock. The five epoch readings are one and the same
    /// instant.
    pub fn new() -> (t: TimeBegin)
        ensures
            t.action_installed_remove == t.old,
            t.action_installed_push == t.old,
            t.action_remove_remove == t.old,
            t.action_remove_push == t.old,
    {
        let epoch = unix_epoch();
        TimeBegin {
            old: epoch,
            program_start: system_time_now(),
            action_installed_remove: epoch,
            action_installed_push: epoch,
            action_remove_remove: epoch,
            action_remove_push: epoch,
        }
    }
}

/// The clock readings taken while dependencies are removed from the
/// candidates.
pub struct TimeBeginRemoveDependecies {
    pub old: SystemTime,
    pub package_list_iterating: SystemTime,
    pub package_list_remove: SystemTime,
}

impl TimeBeginRemoveDependecies {
    /// Readings set to the Unix epoch, all three the same instant.
    pub fn new() -> (t: TimeBeginRemoveDependecies)
        ensures
            t.package_list_iterating == t.old,
            t.package_list_remove == t.old,
    {
        let epoch = unix_epoch();
        TimeBeginRemoveDependecies {
            old: epoch,
            package_list_iterating: epoch,
            package_list_remove: epoch,
        }
    }
}

/// How a span of `nanos` nanoseconds is reported: from two seconds on, in
/// whole minutes and the remaining seconds; at one second, in seconds and the
/// milliseconds beyond; below one second, in milliseconds.
pub open spec fn duration_text(nanos: nat) -> Seq<char> {
    let secs = nanos / NANOS_PER_SEC as nat;
    if secs >= 2 {
        decimal(secs / 60) + "min "@ + decimal(secs % 60) + "sec"@
    } else if secs == 1 {
        decimal(secs) + "sec "@ + decimal((nanos % NANOS_PER_SEC as nat) / NANOS_PER_MILLI as nat)
            + "ms"@
    } else {
        decimal(nanos / NANOS_PER_MILLI as nat) + "ms"@
    }
}

/// The text in which a span is reported.
pub fn format_duration(d: &Elapsed) -> (s: String)
    ensures
        s@ == duration_text(d@),
{
    let seconds = d.as_secs();
    let mut s = String::new();
    if seconds >= 2 {
        push_decimal(&mut s, (seconds / 60) as u128);
        s.append("min ");
        push_decimal(&mut s, (seconds % 60) as u128);
        s.append("sec");
    } else if seconds == 1 {
        push_decimal(&mut s, seconds as u128);
        s.append("sec ");
        push_decimal(&mut s, d.subsec_millis() as u128);
        s.append("ms");
    } else {
        push_decimal(&mut s, d.as_millis());
        s.append("ms");
    }
    s
}

} // verus!
