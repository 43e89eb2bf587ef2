//! Checking that the lines of the dpkg log come in the order of their
//! timestamps. The timestamps are read by the `time` crate.
use vstd::prelude::*;
use vstd::pervasive::unreached;
use crate::pattern::Capture;
use crate::pattern::CaptureView;
use crate::pattern::capture_group;
use crate::pattern::regex_capture;
use crate::text::chars_to_string;
use crate::text::lines_spec;
use crate::text::rows;
use crate::text::str_chars;
use crate::text::text_lines;

verus! {

/// The timestamp at the start of a dpkg log line, followed by a space.
pub const TIMESTAMP_PATTERN: &'static str = r"^(?<time>\d{4}\-\d\d\-\d\d \d\d:\d\d:\d\d) ";

/// How the timestamps of the dpkg log are written, in the format description
/// language of the `time` crate.
pub const TIMESTAMP_FORMAT: &'static str = "[year]-[month]-[day] [hour]:[minute]:[second]";

/// The fields of a `time::PrimitiveDateTime`.
#[derive(Clone, Copy, Debug, PartialEq, Eq, Structural)]
pub struct DateTimeParts {
    pub year: i32,
    pub month: u8,
    pub day: u8,
    pub hour: u8,
    pub minute: u8,
    pub second: u8,
    pub nanosecond: u32,
}

/// What `time::PrimitiveDateTime::parse` makes of `text` with the format
/// description that `time::format_description::parse` makes of `format`: the
/// fields of the date and time, or the text of the error.
pub uninterp spec fn datetime_parse(format: Seq<char>, text: Seq<char>) -> Result<
    DateTimeParts,
    Seq<char>,
>;

/// Parses the format description `format` with
/// `time::format_description::parse`, then `text` with
/// `time::PrimitiveDateTime::parse`, and hands back the fields of the result,
/// or the error's text. The contract states only that the outcome is the one
/// `datetime_parse` names for the two texts; which texts parse, and into
/// what, is left unsaid.
#[verifier::external_body]
fn parse_datetime(format: &str, text: &str) -> (r: Result<DateTimeParts, String>)
    ensures
        match r {
            Ok(p) => datetime_parse(format@, text@) == Ok::<DateTimeParts, Seq<char>>(p),
            Err(m) => datetime_parse(format@, text@) == Err::<DateTimeParts, Seq<char>>(m@),
        },
{
    let items = match time::format_description::parse(format) {
        Ok(items) => items,
        Err(e) => return Err(e.to_string()),
    };
    match time::PrimitiveDateTime::parse(text, &items) {
        Err(e) => Err(e.to_string()),
        Ok(dt) => Ok(DateTimeParts {
            year: dt.year(), month: u8::from(dt.month()), day: dt.day(), hour: dt.hour(),
            minute: dt.minute(), second: dt.second(), nanosecond: dt.nanosecond(),
        }),
    }
}

/// `a` is not later than `b`: the fields compared in order, year first,
/// which is the order of `time::PrimitiveDateTime` (chronological).
pub open spec fn not_later(a: DateTimeParts, b: DateTimeParts) -> bool {
    if a.year != b.year {
        a.year < b.year
    } else if a.month != b.month {
        a.month < b.month
    } else if a.day != b.day {
        a.day < b.day
    } else if a.hour != b.hour {
        a.hour < b.hour
    } else if a.minute != b.minute {
        a.minute < b.minute
    } else if a.second != b.second {
        a.second < b.second
    } else {
        a.nanosecond <= b.nanosecond
    }
}

/// The order of timestamps is chronological, field by field: where two
/// timestamps agree on every field before one and differ in it, the one with
/// the smaller value there is not later than the other, and the other is
/// later; where they differ only in the nanosecond, the smaller nanosecond
/// comes first.
pub proof fn lemma_not_later_is_chronological(a: DateTimeParts, b: DateTimeParts)
    ensures
        a.year < b.year ==> not_later(a, b) && !not_later(b, a),
        a.year == b.year && a.month < b.month ==> not_later(a, b) && !not_later(b, a),
        a.year == b.year && a.month == b.month && a.day < b.day ==> not_later(a, b) && !not_later(
            b,
            a,
        ),
        a.year == b.year && a.month == b.month && a.day == b.day && a.hour < b.hour ==> not_later(
            a,
            b,
        ) && !not_later(b, a),
        a.year == b.year && a.month == b.month && a.day == b.day && a.hour == b.hour && a.minute
            < b.minute ==> not_later(a, b) && !not_later(b, a),
        a.year == b.year && a.month == b.month && a.day == b.day && a.hour == b.hour && a.minute
            == b.minute && a.second < b.second ==> not_later(a, b) && !not_later(b, a),
        a.year == b.year && a.month == b.month && a.day == b.day && a.hour == b.hour && a.minute
            == b.minute && a.second == b.second ==> (not_later(a, b) <==> a.nanosecond
            <= b.nanosecond),
{
}

/// The order of timestamps is a total order: every timestamp is not later
/// than itself; of two, one is not later than the other; it is transitive;
/// and two timestamps each not later than the other are the same.
pub proof fn lemma_not_later_total_order(a: DateTimeParts, b: DateTimeParts, c: DateTimeParts)
    ensures
        not_later(a, a),
        not_later(a, b) || not_later(b, a),
        not_later(a, b) && not_later(b, c) ==> not_later(a, c),
        not_later(a, b) && not_later(b, a) ==> a == b,
{
}

/// Whether `a` is not later than `b`.
pub fn datetime_not_later(a: &DateTimeParts, b: &DateTimeParts) -> (r: bool)
    ensures
        r == not_later(*a, *b),
{
    if a.year != b.year {
        a.year < b.year
    } else if a.month != b.month {
        a.month < b.month
    } else if a.day != b.day {
        a.day < b.day
    } else if a.hour != b.hour {
        a.hour < b.hour
    } else if a.minute != b.minute {
        a.minute < b.minute
    } else if a.second != b.second {
        a.second < b.second
    } else {
        a.nanosecond <= b.nanosecond
    }
}

/// Why a line's timestamp could not be taken, or why it is out of order.
pub enum TimelineFault {
    /// The timestamp pattern did not compile.
    InvalidPattern,
    /// The line does not start with a timestamp and a space.
    NoMatch,
    /// The timestamp group took no part in the match.
    NoTimeGroup,
    /// The `time` crate could not parse the timestamp; its message.
    Unparsable(String),
    /// The timestamp comes before that of the line before it, given here.
    OutOfOrder(DateTimeParts),
}

/// The value a `TimelineFault` stands for, texts taken as characters.
pub enum TimelineFaultView {
    InvalidPattern,
    NoMatch,
    NoTimeGroup,
    Unparsable(Seq<char>),
    OutOfOrder(DateTimeParts),
}

impl View for TimelineFault {
    type V = TimelineFaultView;

    open spec fn view(&self) -> TimelineFaultView {
        match self {
            TimelineFault::InvalidPattern => TimelineFaultView::InvalidPattern,
            TimelineFault::NoMatch => TimelineFaultView::NoMatch,
            TimelineFault::NoTimeGroup => TimelineFaultView::NoTimeGroup,
            TimelineFault::Unparsable(m) => TimelineFaultView::Unparsable(m@),
            TimelineFault::OutOfOrder(p) => TimelineFaultView::OutOfOrder(*p),
        }
    }
}

/// The timestamp of a line, from what the timestamp pattern captured and
/// what the `time` crate made of it.
pub open spec fn timestamp_of(capture: CaptureView) -> Result<DateTimeParts, TimelineFaultView> {
    match capture {
        CaptureView::InvalidPattern => Err(TimelineFaultView::InvalidPattern),
        CaptureView::NoMatch => Err(TimelineFaultView::NoMatch),
        CaptureView::Unset => Err(TimelineFaultView::NoTimeGroup),
        CaptureView::Text(t) => match datetime_parse(TIMESTAMP_FORMAT@, t) {
            Ok(p) => Ok(p),
            Err(m) => Err(TimelineFaultView::Unparsable(m)),
        },
    }
}

/// The timestamp of the dpkg log line `line`.
pub open spec fn line_timestamp(line: Seq<char>) -> Result<DateTimeParts, TimelineFaultView> {
    timestamp_of(regex_capture(TIMESTAMP_PATTERN@, line, "time"@))
}

/// The timestamp at the start of `line`.
pub fn parse_to_datetime(line: &str) -> (r: Result<DateTimeParts, TimelineFault>)
    ensures
        match r {
            Ok(p) => line_timestamp(line@) == Ok::<DateTimeParts, TimelineFaultView>(p),
            Err(f) => line_timestamp(line@) == Err::<DateTimeParts, TimelineFaultView>(f@),
        },
{
    match capture_group(TIMESTAMP_PATTERN, line, "time") {
        Capture::InvalidPattern => Err(TimelineFault::InvalidPattern),
        Capture::NoMatch => Err(TimelineFault::NoMatch),
        Capture::Unset => Err(TimelineFault::NoTimeGroup),
        Capture::Text(t) => match parse_datetime(TIMESTAMP_FORMAT, t.as_str()) {
            Ok(p) => Ok(p),
            Err(m) => Err(TimelineFault::Unparsable(m)),
        },
    }
}

/// Reads the timestamps of `lines` in turn: the timestamp of the last line,
/// if any, or the number of the first line whose timestamp cannot be read or
/// comes before that of the line before it, with the fault. The first line is
/// compared with `PrimitiveDateTime::MIN`, which no timestamp comes before.
pub open spec fn timeline(lines: Seq<Seq<char>>) -> Result<
    Option<DateTimeParts>,
    (int, TimelineFaultView),
>
    decreases lines.len(),
{
    if lines.len() == 0 {
        Ok(None)
    } else {
        match timeline(lines.drop_last()) {
            Err(e) => Err(e),
            Ok(before) => match line_timestamp(lines.last()) {
                Err(f) => Err((lines.len() - 1, f)),
                Ok(t) => match before {
                    Some(b) => if not_later(b, t) {
                        Ok(Some(t))
                    } else {
                        Err((lines.len() - 1, TimelineFaultView::OutOfOrder(b)))
                    },
                    None => Ok(Some(t)),
                },
            },
        }
    }
}

/// The timestamp a line holds, where it holds one.
pub open spec fn stamp(line: Seq<char>) -> DateTimeParts {
    line_timestamp(line)->Ok_0
}

/// A log passes exactly when every line holds a readable timestamp and each
/// timestamp is not later than the next; it then ends at the timestamp of its
/// last line.
pub proof fn lemma_timeline_in_order(lines: Seq<Seq<char>>)
    ensures
        timeline(lines) is Ok <==> (forall|i: int|
            0 <= i < lines.len() ==> #[trigger] line_timestamp(lines[i]) is Ok) && (forall|i: int|
            0 <= i < lines.len() - 1 ==> not_later(
                #[trigger] stamp(lines[i]),
                stamp(lines[i + 1]),
            )),
        timeline(lines) is Ok ==> timeline(lines) == Ok::<
            Option<DateTimeParts>,
            (int, TimelineFaultView),
        >(if lines.len() == 0 { None } else { Some(stamp(lines.last())) }),
    decreases lines.len(),
{
    if lines.len() > 0 {
        let p = lines.drop_last();
        lemma_timeline_in_order(p);
        let n = lines.len() - 1;
        assert forall|i: int| 0 <= i < p.len() implies p[i] == lines[i] by {}
        if timeline(lines) is Ok {
            assert(timeline(p) is Ok);
            assert forall|i: int| 0 <= i < lines.len() implies #[trigger] line_timestamp(
                lines[i],
            ) is Ok by {
                if i < n {
                    assert(line_timestamp(p[i]) is Ok);
                }
            }
            assert forall|i: int| 0 <= i < lines.len() - 1 implies not_later(
                #[trigger] stamp(lines[i]),
                stamp(lines[i + 1]),
            ) by {
                if i < n - 1 {
                    assert(not_later(stamp(p[i]), stamp(p[i + 1])));
                } else {
                    assert(i == n - 1);
                    assert(lines[i] == p.last());
                }
            }
        } else {
            if (forall|i: int| 0 <= i < lines.len() ==> #[trigger] line_timestamp(lines[i]) is Ok)
                && (forall|i: int|
                0 <= i < lines.len() - 1 ==> not_later(
                    #[trigger] stamp(lines[i]),
                    stamp(lines[i + 1]),
                )) {
                assert forall|i: int| 0 <= i < p.len() implies #[trigger] line_timestamp(
                    p[i],
                ) is Ok by {
                    assert(line_timestamp(lines[i]) is Ok);
                }
                assert forall|i: int| 0 <= i < p.len() - 1 implies not_later(
                    #[trigger] stamp(p[i]),
                    stamp(p[i + 1]),
                ) by {
                    assert(not_later(stamp(lines[i]), stamp(lines[i + 1])));
                }
                assert(timeline(p) is Ok);
                assert(line_timestamp(lines[n]) is Ok);
                if n > 0 {
                    assert(not_later(stamp(lines[n - 1]), stamp(lines[n])));
                    assert(p.last() == lines[n - 1]);
                }
                assert(false);
            }
        }
    }
}

/// Once a line breaks the order, later lines change nothing.
pub proof fn lemma_timeline_fault_persists(lines: Seq<Seq<char>>, k: int)
    requires
        0 <= k <= lines.len(),
        timeline(lines.take(k)) is Err,
    ensures
        timeline(lines) == timeline(lines.take(k)),
    decreases lines.len() - k,
{
    if k < lines.len() {
        assert(lines.take(k + 1).drop_last() == lines.take(k));
        lemma_timeline_fault_persists(lines, k + 1);
    } else {
        assert(lines.take(k) == lines);
    }
}

/// A line of the log whose timestamp is missing, unreadable or out of
/// order: the fault, the line's number (from zero), and the line.
pub struct TimelineError {
    pub fault: TimelineFault,
    pub line_number: usize,
    pub line: String,
}

/// Checks that every line of the dpkg log `contents` starts with a timestamp
/// and that no timestamp comes before that of the line before it; the first
/// line that breaks this, if any.
fn first_timeline_fault(contents: &str) -> (r: Result<(), TimelineError>)
    ensures
        match r {
            Ok(()) => timeline(lines_spec(contents@)) is Ok,
            Err(e) => {
                &&& timeline(lines_spec(contents@)) == Err::<
                    Option<DateTimeParts>,
                    (int, TimelineFaultView),
                >((e.line_number as int, e.fault@))
                &&& e.line@ == lines_spec(contents@)[e.line_number as int]
            },
        },
{
    let chars = str_chars(contents);
    let lines = text_lines(chars.as_slice());
    let ghost all = lines_spec(contents@);
    let mut time_before: Option<DateTimeParts> = None;
    proof {
        assert(all.take(0) =~= Seq::<Seq<char>>::empty());
    }
    let mut i: usize = 0;
    while i < lines.len()
        invariant
            i <= lines@.len(),
            rows(lines@) == all,
            all == lines_spec(contents@),
            timeline(all.take(i as int)) == Ok::<Option<DateTimeParts>, (int, TimelineFaultView)>(
                time_before,
            ),
        decreases lines@.len() - i,
    {
        proof {
            assert(all.take(i + 1).drop_last() == all.take(i as int));
            assert(all.take(i + 1).last() == lines@[i as int]@);
        }
        let line = chars_to_string(lines[i].as_slice());
        match parse_to_datetime(line.as_str()) {
            Err(fault) => {
                proof {
                    lemma_timeline_fault_persists(all, i + 1);
                }
                return Err(TimelineError { fault, line_number: i, line });
            },
            Ok(time_current) => {
                match time_before {
                    Some(b) => {
                        if !datetime_not_later(&b, &time_current) {
                            proof {
                                lemma_timeline_fault_persists(all, i + 1);
                            }
                            return Err(
                                TimelineError {
                                    fault: TimelineFault::OutOfOrder(b),
                                    line_number: i,
                                    line,
                                },
                            );
                        }
                    },
                    None => {},
                }
                time_before = Some(time_current);
            },
        }
        i = i + 1;
    }
    proof {
        assert(all.take(lines@.len() as int) == all);
    }
    Ok(())
}

/// Asserts that every line of the dpkg log `contents` starts with a
/// timestamp and that no timestamp comes before that of the line before it:
/// the log must be such; on any other the tool stops.
pub fn assert_log_lines_order(contents: &str)
    requires
        timeline(lines_spec(contents@)) is Ok,
{
    match first_timeline_fault(contents) {
        Ok(()) => {},
        Err(_) => unreached(),
    }
}

/// Whether every line of the dpkg log `contents` starts with a timestamp and
/// no timestamp comes before that of the line before it; otherwise the first
/// line that breaks this, numbered from zero, with the fault.
pub fn check_log_lines_order(contents: &str) -> (r: Result<(), TimelineError>)
    ensures
        match r {
            Ok(()) => timeline(lines_spec(contents@)) is Ok,
            Err(e) => {
                &&& timeline(lines_spec(contents@)) == Err::<
                    Option<DateTimeParts>,
                    (int, TimelineFaultView),
                >((e.line_number as int, e.fault@))
                &&& e.line@ == lines_spec(contents@)[e.line_number as int]
            },
        },
{
    match first_timeline_fault(contents) {
        Err(e) => Err(e),
        Ok(()) => {
            assert_log_lines_order(contents);
            Ok(())
        },
    }
}

} // verus!
