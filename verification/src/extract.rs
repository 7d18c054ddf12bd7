//! Event extraction from the raw usage-history report.
//!
//! The report is a multi-section text dump.  Extraction keeps only the
//! lines between the first line containing `Last 24 hour events` (that line
//! excluded) and the next line containing `timeRange=` (excluded), and
//! turns each such line into an event when the line carries a `time="..."`
//! field with a well-formed timestamp, a `type=` field and a `package=`
//! field.  A line missing any of the three, or with an unparseable
//! timestamp, is silently skipped; a missing section marker yields an
//! empty event list.

use vstd::prelude::*;

use crate::datetime::DateTime;
use crate::textscan::{
    contains_sub, find_sub, lemma_spec_find, match_at, spec_find, split_lines, split_lines_exec,
    str_contains, line_views,
};

verus! {

/// One lifecycle event of the report: a timestamp, an event kind such as
/// `ACTIVITY_RESUMED`, and the package it concerns.
#[derive(Clone, Debug)]
pub struct UsageStatsEvent {
    pub time: DateTime,
    pub event_type: String,
    pub package: String,
}

/// The mathematical shape of an event: the same fields with text as
/// character sequences.
pub struct UsageEventModel {
    pub time: DateTime,
    pub event_type: Seq<char>,
    pub package: Seq<char>,
}

impl View for UsageStatsEvent {
    type V = UsageEventModel;

    open spec fn view(&self) -> UsageEventModel {
        UsageEventModel { time: self.time, event_type: self.event_type@, package: self.package@ }
    }
}

/// The text between the first occurrence of `key` and the first occurrence
/// of `delim` after it, if both occur in `line`.
pub open spec fn spec_get_by_key(line: Seq<char>, key: Seq<char>, delim: Seq<char>) -> Option<
    Seq<char>,
> {
    match spec_find(line, key) {
        None => None,
        Some(a) => match spec_find(line.skip(a + key.len()), delim) {
            None => None,
            Some(b) => Some(line.subrange(a + key.len(), a + key.len() + b)),
        },
    }
}

/// Extract the text between the first `key` and the next `delim` after it.
fn get_by_key(line: &str, key: &str, delim: &str) -> (r: Option<String>)
    ensures
        match r {
            Some(v) => spec_get_by_key(line@, key@, delim@) == Some(v@),
            None => spec_get_by_key(line@, key@, delim@) is None,
        },
{
    let n = line.unicode_len();
    match find_sub(line, key) {
        None => None,
        Some(a) => {
            proof {
                lemma_spec_find(line@, key@);
                assert(match_at(line@, key@, a as int));
            }
            let suffix_start = a + key.unicode_len();
            let suffix = line.substring_char(suffix_start, n);
            proof {
                assert(suffix@ =~= line@.skip(suffix_start as int));
            }
            match find_sub(suffix, delim) {
                None => None,
                Some(b) => {
                    proof {
                        lemma_spec_find(suffix@, delim@);
                        assert(match_at(suffix@, delim@, b as int));
                    }
                    let v = line.substring_char(suffix_start, suffix_start + b);
                    Some(String::from_str(v))
                },
            }
        },
    }
}

/// Decimal digit value of a character, for characters `'0'` through `'9'`.
pub open spec fn digit_val(c: char) -> int {
    c as int - 48
}

/// Whether `c` is a decimal digit.
pub open spec fn is_digit(c: char) -> bool {
    48 <= c as int && c as int <= 57
}

/// The timestamp format of the report: `YYYY-MM-DD HH:MM:SS`, read as a
/// civil local time.  The result is given only for a string of exactly
/// that shape denoting a well-formed date and time.
pub open spec fn spec_parse_datetime(s: Seq<char>) -> Option<DateTime> {
    if s.len() == 19 && is_digit(s[0]) && is_digit(s[1]) && is_digit(s[2]) && is_digit(s[3])
        && s[4] == '-' && is_digit(s[5]) && is_digit(s[6]) && s[7] == '-' && is_digit(s[8])
        && is_digit(s[9]) && s[10] == ' ' && is_digit(s[11]) && is_digit(s[12]) && s[13] == ':'
        && is_digit(s[14]) && is_digit(s[15]) && s[16] == ':' && is_digit(s[17]) && is_digit(
        s[18],
    ) {
        let dt = DateTime {
            year: (digit_val(s[0]) * 1000 + digit_val(s[1]) * 100 + digit_val(s[2]) * 10
                + digit_val(s[3])) as u32,
            month: (digit_val(s[5]) * 10 + digit_val(s[6])) as u32,
            day: (digit_val(s[8]) * 10 + digit_val(s[9])) as u32,
            hour: (digit_val(s[11]) * 10 + digit_val(s[12])) as u32,
            minute: (digit_val(s[14]) * 10 + digit_val(s[15])) as u32,
            second: (digit_val(s[17]) * 10 + digit_val(s[18])) as u32,
        };
        if dt.wf() {
            Some(dt)
        } else {
            None
        }
    } else {
        None
    }
}

/// Read one digit character.
fn read_digit(s: &str, i: usize) -> (r: Option<u32>)
    requires
        i < s@.len(),
    ensures
        match r {
            Some(d) => is_digit(s@[i as int]) && d == digit_val(s@[i as int]) && d <= 9,
            None => !is_digit(s@[i as int]),
        },
{
    let c = s.get_char(i);
    let v = c as u32;
    if 48 <= v && v <= 57 {
        Some(v - 48)
    } else {
        None
    }
}

/// Read two digit characters at `i` and `i + 1` as one number.
fn read_two_digits(s: &str, i: usize) -> (r: Option<u32>)
    requires
        s@.len() == 19,
        i + 1 < 19,
    ensures
        match r {
            Some(d) => is_digit(s@[i as int]) && is_digit(s@[i + 1]) && d == digit_val(
                s@[i as int],
            ) * 10 + digit_val(s@[i + 1]) && d <= 99,
            None => !(is_digit(s@[i as int]) && is_digit(s@[i + 1])),
        },
{
    match (read_digit(s, i), read_digit(s, i + 1)) {
        (Some(a), Some(b)) => Some(a * 10 + b),
        _ => None,
    }
}

/// Parse a timestamp of the form `YYYY-MM-DD HH:MM:SS`.
pub fn parse_datetime(s: &str) -> (r: Option<DateTime>)
    ensures
        match r {
            Some(dt) => spec_parse_datetime(s@) == Some(dt) && dt.wf(),
            None => spec_parse_datetime(s@) is None,
        },
{
    if s.unicode_len() != 19 {
        return None;
    }
    if s.get_char(4) != '-' || s.get_char(7) != '-' || s.get_char(10) != ' ' || s.get_char(13)
        != ':' || s.get_char(16) != ':' {
        return None;
    }
    let hi = match read_two_digits(s, 0) {
        None => {
            return None;
        },
        Some(d) => d,
    };
    let lo = match read_two_digits(s, 2) {
        None => {
            return None;
        },
        Some(d) => d,
    };
    let year = hi * 100 + lo;
    let month = match read_two_digits(s, 5) {
        None => {
            return None;
        },
        Some(d) => d,
    };
    let day = match read_two_digits(s, 8) {
        None => {
            return None;
        },
        Some(d) => d,
    };
    let hour = match read_two_digits(s, 11) {
        None => {
            return None;
        },
        Some(d) => d,
    };
    let minute = match read_two_digits(s, 14) {
        None => {
            return None;
        },
        Some(d) => d,
    };
    let second = match read_two_digits(s, 17) {
        None => {
            return None;
        },
        Some(d) => d,
    };
    let dt = DateTime { year, month, day, hour, minute, second };
    let wf_ok = dt.month >= 1 && dt.month <= 12 && dt.day >= 1 && dt.day <= days_in_month_exec(
        dt.year,
        dt.month,
    ) && dt.hour < 24 && dt.minute < 60 && dt.second < 60;
    if wf_ok {
        Some(dt)
    } else {
        None
    }
}

/// Days in a month, executable form.
fn days_in_month_exec(y: u32, m: u32) -> (r: u32)
    ensures
        r == crate::datetime::days_in_month(y as int, m as int),
{
    if m == 2 {
        if y % 4 == 0 && (y % 100 != 0 || y % 400 == 0) {
            29
        } else {
            28
        }
    } else if m == 4 || m == 6 || m == 9 || m == 11 {
        30
    } else {
        31
    }
}

/// The event a single report line yields, if any: all three fields must be
/// present and the timestamp must parse.
pub open spec fn spec_parse_line(line: Seq<char>) -> Option<UsageEventModel> {
    match spec_get_by_key(line, ("time=\"")@, ("\"")@) {
        None => None,
        Some(t) => match spec_get_by_key(line, ("type=")@, (" ")@) {
            None => None,
            Some(k) => match spec_get_by_key(line, ("package=")@, (" ")@) {
                None => None,
                Some(p) => match spec_parse_datetime(t) {
                    None => None,
                    Some(dt) => Some(
                        UsageEventModel { time: dt, event_type: k, package: p },
                    ),
                },
            },
        },
    }
}

/// Parse one report line into an event, if it carries the three fields
/// and a well-formed timestamp.
pub fn parse_usagestats_event(line: &str) -> (r: Option<UsageStatsEvent>)
    ensures
        match r {
            Some(e) => spec_parse_line(line@) == Some(e@) && e.time.wf(),
            None => spec_parse_line(line@) is None,
        },
{
    let time_s = match get_by_key(line, "time=\"", "\"") {
        None => {
            return None;
        },
        Some(t) => t,
    };
    let event_type = match get_by_key(line, "type=", " ") {
        None => {
            return None;
        },
        Some(k) => k,
    };
    let package = match get_by_key(line, "package=", " ") {
        None => {
            return None;
        },
        Some(p) => p,
    };
    match parse_datetime(time_s.as_str()) {
        None => None,
        Some(time) => Some(UsageStatsEvent { time, event_type, package }),
    }
}

/// The views of a vector of extracted events.
pub open spec fn event_views(events: Seq<UsageStatsEvent>) -> Seq<UsageEventModel> {
    events.map_values(|e: UsageStatsEvent| e@)
}

/// The events of a sequence of lines, in line order, skipping lines that
/// yield none.
pub open spec fn events_of_lines(lines: Seq<Seq<char>>) -> Seq<UsageEventModel>
    decreases lines.len(),
{
    if lines.len() == 0 {
        Seq::empty()
    } else {
        events_of_lines(lines.drop_last()) + match spec_parse_line(lines.last()) {
            None => Seq::empty(),
            Some(e) => seq![e],
        }
    }
}

/// The lines after the first line containing the section marker
/// `Last 24 hour events`; empty when no line contains it.
pub open spec fn lines_after_marker(lines: Seq<Seq<char>>) -> Seq<Seq<char>>
    decreases lines.len(),
{
    if lines.len() == 0 {
        Seq::empty()
    } else if contains_sub(lines[0], ("Last 24 hour events")@) {
        lines.skip(1)
    } else {
        lines_after_marker(lines.skip(1))
    }
}

/// The prefix of `lines` before the first line containing `timeRange=`.
pub open spec fn lines_before_range(lines: Seq<Seq<char>>) -> Seq<Seq<char>>
    decreases lines.len(),
{
    if lines.len() == 0 {
        Seq::empty()
    } else if contains_sub(lines[0], ("timeRange=")@) {
        Seq::empty()
    } else {
        seq![lines[0]] + lines_before_range(lines.skip(1))
    }
}

/// The window of report lines that extraction reads.
pub open spec fn window_lines(lines: Seq<Seq<char>>) -> Seq<Seq<char>> {
    lines_before_range(lines_after_marker(lines))
}

/// The full extraction: the events of the declared window of the raw text,
/// in line order.
pub open spec fn spec_parse(text: Seq<char>) -> Seq<UsageEventModel> {
    events_of_lines(window_lines(split_lines(text)))
}

/// All events of well-formed lines carry well-formed timestamps.
pub proof fn lemma_events_times_wf(lines: Seq<Seq<char>>)
    ensures
        forall|i: int|
            0 <= i < events_of_lines(lines).len() ==> (#[trigger] events_of_lines(
                lines,
            )[i]).time.wf(),
    decreases lines.len(),
{
    if lines.len() != 0 {
        lemma_events_times_wf(lines.drop_last());
        let evs = events_of_lines(lines);
        let pre = events_of_lines(lines.drop_last());
        assert forall|i: int| 0 <= i < evs.len() implies evs[i].time.wf() by {
            if i < pre.len() {
                assert(evs[i] == pre[i]);
            } else {
                match spec_parse_line(lines.last()) {
                    None => {},
                    Some(e) => {
                        assert(evs[i] == e);
                        match spec_get_by_key(lines.last(), ("time=\"")@, ("\"")@) {
                            None => {},
                            Some(t) => {
                                match spec_parse_datetime(t) {
                                    None => {},
                                    Some(dt) => {
                                        assert(dt.wf());
                                    },
                                }
                            },
                        }
                    },
                }
            }
        }
    }
}

/// A line that yields no event leaves extraction unchanged: inserting it
/// anywhere among the window's lines neither adds an event nor disturbs
/// the events of the neighbouring lines.
pub proof fn lemma_malformed_line_dropped(lines: Seq<Seq<char>>, i: int, bad: Seq<char>)
    requires
        0 <= i <= lines.len(),
        spec_parse_line(bad) is None,
    ensures
        events_of_lines(lines.insert(i, bad)) == events_of_lines(lines),
    decreases lines.len(),
{
    let t = lines.insert(i, bad);
    if i == lines.len() {
        assert(t.drop_last() =~= lines);
        assert(t.last() == bad);
        assert(events_of_lines(t) =~= events_of_lines(lines));
    } else {
        assert(t.drop_last() =~= lines.drop_last().insert(i, bad));
        assert(t.last() == lines.last());
        lemma_malformed_line_dropped(lines.drop_last(), i, bad);
    }
}

/// Extract the usage events from the raw report text.
///
/// Only lines strictly between the first line containing
/// `Last 24 hour events` and the next line containing `timeRange=` are
/// read; each yields at most one event, and the order of events is the
/// order of the lines.  A missing marker yields an empty result.
pub fn parse(output: &str) -> (r: Vec<UsageStatsEvent>)
    ensures
        event_views(r@) == spec_parse(output@),
        forall|i: int| 0 <= i < r@.len() ==> (#[trigger] r@[i]).time.wf(),
{
    let lines = split_lines_exec(output);
    let ghost views = split_lines(output@);
    let n = lines.len();
    let mut events: Vec<UsageStatsEvent> = Vec::new();

    let mut j: usize = 0;
    let mut found = false;
    proof {
        assert(views.skip(0) =~= views);
    }
    while j < n && !found
        invariant
            n == lines.len(),
            line_views(lines@) == views,
            j <= n,
            !found ==> lines_after_marker(views) == lines_after_marker(views.skip(j as int)),
            found ==> j >= 1 && lines_after_marker(views) == views.skip(j as int),
        decreases n - j,
    {
        proof {
            assert(views.skip(j as int)[0] == views[j as int]);
        }
        if str_contains(lines[j].as_str(), "Last 24 hour events") {
            found = true;
            proof {
                assert(lines_after_marker(views.skip(j as int)) == views.skip(j as int).skip(1));
                assert(views.skip(j as int).skip(1) =~= views.skip(j + 1));
            }
        } else {
            proof {
                assert(lines_after_marker(views.skip(j as int)) == lines_after_marker(
                    views.skip(j as int).skip(1),
                ));
                assert(views.skip(j as int).skip(1) =~= views.skip(j + 1));
            }
        }
        j = j + 1;
    }
    if !found {
        proof {
            assert(views.skip(j as int) =~= Seq::<Seq<char>>::empty());
            assert(lines_after_marker(views) =~= Seq::<Seq<char>>::empty());
            assert(window_lines(views) =~= Seq::<Seq<char>>::empty());
            assert(event_views(events@) =~= spec_parse(output@));
        }
        return events;
    }
    let ghost after = views.skip(j as int);
    let mut k: usize = j;
    let mut stopped = false;
    proof {
        assert(views.subrange(j as int, j as int) =~= Seq::<Seq<char>>::empty());
        assert(event_views(events@) =~= events_of_lines(views.subrange(j as int, j as int)));
    }
    while k < n && !stopped
        invariant
            n == lines.len(),
            line_views(lines@) == views,
            j <= k <= n,
            after == views.skip(j as int),
            !stopped ==> lines_before_range(after) == views.subrange(j as int, k as int)
                + lines_before_range(views.skip(k as int)),
            stopped ==> lines_before_range(after) == views.subrange(j as int, k as int),
            event_views(events@) == events_of_lines(views.subrange(j as int, k as int)),
            forall|i: int| 0 <= i < events@.len() ==> (#[trigger] events@[i]).time.wf(),
        decreases n - k + (if stopped { 0int } else { 1int }),
    {
        proof {
            assert(views.skip(k as int)[0] == views[k as int]);
        }
        if str_contains(lines[k].as_str(), "timeRange=") {
            proof {
                assert(lines_before_range(views.skip(k as int)) =~= Seq::<Seq<char>>::empty());
                assert(lines_before_range(after) =~= views.subrange(j as int, k as int));
            }
            stopped = true;
            continue;
        }
        match parse_usagestats_event(lines[k].as_str()) {
            Some(e) => {
                events.push(e);
            },
            None => {},
        }
        proof {
            let pre = views.subrange(j as int, k as int);
            let cur = views.subrange(j as int, k + 1);
            assert(cur.drop_last() =~= pre);
            assert(cur.last() == views[k as int]);
            assert(events_of_lines(cur) == events_of_lines(pre) + match spec_parse_line(
                views[k as int],
            ) {
                None => Seq::<UsageEventModel>::empty(),
                Some(e) => seq![e],
            });
            assert(event_views(events@) =~= events_of_lines(cur));
            assert(lines_before_range(views.skip(k as int)) == seq![views[k as int]]
                + lines_before_range(views.skip(k as int).skip(1)));
            assert(views.skip(k as int).skip(1) =~= views.skip(k + 1));
            assert(lines_before_range(after) =~= views.subrange(j as int, k + 1)
                + lines_before_range(views.skip(k + 1)));
        }
        k = k + 1;
    }
    proof {
        if !stopped {
            assert(views.skip(k as int) =~= Seq::<Seq<char>>::empty());
            assert(lines_before_range(views.skip(k as int)) =~= Seq::<Seq<char>>::empty());
            assert(lines_before_range(after) =~= views.subrange(j as int, k as int));
        }
        assert(window_lines(views) == views.subrange(j as int, k as int));
        assert(event_views(events@) == spec_parse(output@));
    }
    events
}

} // verus!
