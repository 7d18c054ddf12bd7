//! Session reconstruction: from the ordered event sequence to per-package
//! usage minutes for the current accounting day.
//!
//! Events are consumed in order.  `ACTIVITY_RESUMED` records (or
//! overwrites) an open resume time for its package; `ACTIVITY_PAUSED`
//! closes the open session, if any, and adds its whole-minute duration to
//! the package's total; every other event kind is ignored.  The accounting
//! day begins at 03:00 local time: once the current instant has passed
//! 03:00, a session that began earlier than 03:00 of the current date is
//! clipped so that only its part from 03:00 on counts, and never counts
//! negatively.

use vstd::prelude::*;

use crate::datetime::{day_index, total_seconds, DateTime};
use crate::extract::{event_views, spec_parse, UsageEventModel, UsageStatsEvent};
use crate::textscan::str_eq;

verus! {

/// Total accumulated minutes of one package for the accounting day.
#[derive(Clone, Debug)]
pub struct AppUsageInfo {
    pub package: String,
    pub duration: i64,
}

/// An open session: a package whose latest resume has seen no pause yet.
#[derive(Clone, Debug)]
pub struct OpenEntry {
    pub package: String,
    pub time: DateTime,
}

/// 03:00:00 on the calendar date of `now`: the start of the current
/// accounting day once `now` has reached it.
pub open spec fn today_3am(now: DateTime) -> DateTime {
    DateTime {
        year: now.year,
        month: now.month,
        day: now.day,
        hour: 3,
        minute: 0,
        second: 0,
    }
}

/// Whole minutes of a span of `secs` seconds, truncated towards zero.
pub open spec fn trunc_minutes(secs: int) -> int {
    if secs >= 0 {
        secs / 60
    } else {
        -((-secs) / 60)
    }
}

/// The session bounds in seconds after day-boundary clipping: once `now`
/// has reached 03:00 of its date, a start before 03:00 is moved up to
/// 03:00 and the end is raised to at least 03:00.
pub open spec fn clipped_bounds(start: DateTime, end: DateTime, now: DateTime) -> (int, int) {
    let s0 = total_seconds(start);
    let e0 = total_seconds(end);
    let t3 = total_seconds(today_3am(now));
    let n0 = total_seconds(now);
    if t3 <= n0 && s0 < t3 {
        (t3, if e0 > t3 {
            e0
        } else {
            t3
        })
    } else {
        (s0, e0)
    }
}

/// Minutes one closed session contributes to the accounting day.
pub open spec fn session_minutes(start: DateTime, end: DateTime, now: DateTime) -> int {
    trunc_minutes(clipped_bounds(start, end, now).1 - clipped_bounds(start, end, now).0)
}

/// The usage totals after consuming `events` in order, starting from the
/// given open sessions and accumulated totals.
pub open spec fn reconstruct(
    open_sessions: Map<Seq<char>, DateTime>,
    totals: Map<Seq<char>, int>,
    events: Seq<UsageEventModel>,
    now: DateTime,
) -> Map<Seq<char>, int>
    decreases events.len(),
{
    if events.len() == 0 {
        totals
    } else {
        let e = events[0];
        let rest = events.skip(1);
        if e.event_type == ("ACTIVITY_RESUMED")@ {
            reconstruct(open_sessions.insert(e.package, e.time), totals, rest, now)
        } else if e.event_type == ("ACTIVITY_PAUSED")@ && open_sessions.contains_key(e.package) {
            let mins = session_minutes(open_sessions[e.package], e.time, now);
            let prev = if totals.contains_key(e.package) {
                totals[e.package]
            } else {
                0
            };
            reconstruct(
                open_sessions.remove(e.package),
                totals.insert(e.package, prev + mins),
                rest,
                now,
            )
        } else {
            reconstruct(open_sessions, totals, rest, now)
        }
    }
}

/// Per-package usage minutes of the accounting day reconstructed from the
/// full event sequence.
pub open spec fn usage_totals(events: Seq<UsageEventModel>, now: DateTime) -> Map<Seq<char>, int> {
    reconstruct(Map::empty(), Map::empty(), events, now)
}

/// The mapping an open-session list denotes.
pub open spec fn open_map_of(s: Seq<OpenEntry>) -> Map<Seq<char>, DateTime>
    decreases s.len(),
{
    if s.len() == 0 {
        Map::empty()
    } else {
        open_map_of(s.drop_last()).insert(s.last().package@, s.last().time)
    }
}

/// The mapping a usage list denotes.
pub open spec fn usage_map_of(s: Seq<AppUsageInfo>) -> Map<Seq<char>, int>
    decreases s.len(),
{
    if s.len() == 0 {
        Map::empty()
    } else {
        usage_map_of(s.drop_last()).insert(s.last().package@, s.last().duration as int)
    }
}

/// No two open entries name the same package.
pub open spec fn open_distinct(s: Seq<OpenEntry>) -> bool {
    forall|i: int, j: int| 0 <= i < j < s.len() ==> s[i].package@ != s[j].package@
}

/// No two usage entries name the same package.
pub open spec fn usage_distinct(s: Seq<AppUsageInfo>) -> bool {
    forall|i: int, j: int| 0 <= i < j < s.len() ==> s[i].package@ != s[j].package@
}

proof fn lemma_open_absent(s: Seq<OpenEntry>, k: Seq<char>)
    requires
        forall|i: int| 0 <= i < s.len() ==> s[i].package@ != k,
    ensures
        !open_map_of(s).contains_key(k),
    decreases s.len(),
{
    if s.len() > 0 {
        assert forall|i: int| 0 <= i < s.drop_last().len() implies s.drop_last()[i].package@
            != k by {
            assert(s.drop_last()[i] == s[i]);
        }
        lemma_open_absent(s.drop_last(), k);
    }
}

proof fn lemma_open_lookup(s: Seq<OpenEntry>, i: int)
    requires
        open_distinct(s),
        0 <= i < s.len(),
    ensures
        open_map_of(s).contains_key(s[i].package@),
        open_map_of(s)[s[i].package@] == s[i].time,
    decreases s.len(),
{
    if i < s.len() - 1 {
        assert(open_distinct(s.drop_last()));
        lemma_open_lookup(s.drop_last(), i);
        assert(s.drop_last()[i] == s[i]);
    }
}

proof fn lemma_open_push(s: Seq<OpenEntry>, x: OpenEntry)
    ensures
        open_map_of(s.push(x)) == open_map_of(s).insert(x.package@, x.time),
    decreases s.len(),
{
    assert(s.push(x).drop_last() =~= s);
    assert(s.push(x).last() == x);
}

proof fn lemma_open_update(s: Seq<OpenEntry>, i: int, x: OpenEntry)
    requires
        open_distinct(s),
        0 <= i < s.len(),
        x.package@ == s[i].package@,
    ensures
        open_map_of(s.update(i, x)) == open_map_of(s).insert(x.package@, x.time),
        open_distinct(s.update(i, x)),
    decreases s.len(),
{
    let t = s.update(i, x);
    assert forall|m: int| 0 <= m < t.len() implies t[m].package@ == s[m].package@ by {}
    if i == s.len() - 1 {
        assert(t.drop_last() =~= s.drop_last());
        assert(t.last() == x);
        assert(open_map_of(s.drop_last()).insert(s.last().package@, s.last().time).insert(
            x.package@,
            x.time,
        ) =~= open_map_of(s.drop_last()).insert(x.package@, x.time));
    } else {
        assert(open_distinct(s.drop_last()));
        lemma_open_update(s.drop_last(), i, x);
        assert(t.drop_last() =~= s.drop_last().update(i, x));
        assert(t.last() == s.last());
        assert(s.last().package@ != x.package@);
        assert(open_map_of(s.drop_last()).insert(x.package@, x.time).insert(
            s.last().package@,
            s.last().time,
        ) =~= open_map_of(s.drop_last()).insert(s.last().package@, s.last().time).insert(
            x.package@,
            x.time,
        ));
    }
}

proof fn lemma_open_remove(s: Seq<OpenEntry>, i: int)
    requires
        open_distinct(s),
        0 <= i < s.len(),
    ensures
        open_map_of(s.remove(i)) == open_map_of(s).remove(s[i].package@),
        open_distinct(s.remove(i)),
    decreases s.len(),
{
    let t = s.remove(i);
    assert forall|a: int, b: int| 0 <= a < b < t.len() implies t[a].package@ != t[b].package@ by {
        let a0: int = if a < i {
            a
        } else {
            a + 1
        };
        let b0: int = if b < i {
            b
        } else {
            b + 1
        };
        assert(t[a] == s[a0]);
        assert(t[b] == s[b0]);
    }
    if i == s.len() - 1 {
        assert(t =~= s.drop_last());
        assert forall|m: int| 0 <= m < s.drop_last().len() implies s.drop_last()[m].package@
            != s[i].package@ by {
            assert(s.drop_last()[m] == s[m]);
        }
        lemma_open_absent(s.drop_last(), s[i].package@);
        assert(open_map_of(s.drop_last()).insert(s.last().package@, s.last().time).remove(
            s[i].package@,
        ) =~= open_map_of(s.drop_last()));
    } else {
        assert(open_distinct(s.drop_last()));
        lemma_open_remove(s.drop_last(), i);
        assert(t.drop_last() =~= s.drop_last().remove(i));
        assert(t.last() == s.last());
        assert(s.last().package@ != s[i].package@);
        assert(s.drop_last()[i] == s[i]);
        assert(open_map_of(s.drop_last()).remove(s[i].package@).insert(
            s.last().package@,
            s.last().time,
        ) =~= open_map_of(s.drop_last()).insert(s.last().package@, s.last().time).remove(
            s[i].package@,
        ));
    }
}

proof fn lemma_usage_absent(s: Seq<AppUsageInfo>, k: Seq<char>)
    requires
        forall|i: int| 0 <= i < s.len() ==> s[i].package@ != k,
    ensures
        !usage_map_of(s).contains_key(k),
    decreases s.len(),
{
    if s.len() > 0 {
        assert forall|i: int| 0 <= i < s.drop_last().len() implies s.drop_last()[i].package@
            != k by {
            assert(s.drop_last()[i] == s[i]);
        }
        lemma_usage_absent(s.drop_last(), k);
    }
}

proof fn lemma_usage_lookup(s: Seq<AppUsageInfo>, i: int)
    requires
        usage_distinct(s),
        0 <= i < s.len(),
    ensures
        usage_map_of(s).contains_key(s[i].package@),
        usage_map_of(s)[s[i].package@] == s[i].duration as int,
    decreases s.len(),
{
    if i < s.len() - 1 {
        assert(usage_distinct(s.drop_last()));
        lemma_usage_lookup(s.drop_last(), i);
        assert(s.drop_last()[i] == s[i]);
    }
}

proof fn lemma_usage_push(s: Seq<AppUsageInfo>, x: AppUsageInfo)
    ensures
        usage_map_of(s.push(x)) == usage_map_of(s).insert(x.package@, x.duration as int),
{
    assert(s.push(x).drop_last() =~= s);
    assert(s.push(x).last() == x);
}

proof fn lemma_usage_update(s: Seq<AppUsageInfo>, i: int, x: AppUsageInfo)
    requires
        usage_distinct(s),
        0 <= i < s.len(),
        x.package@ == s[i].package@,
    ensures
        usage_map_of(s.update(i, x)) == usage_map_of(s).insert(x.package@, x.duration as int),
        usage_distinct(s.update(i, x)),
    decreases s.len(),
{
    let t = s.update(i, x);
    assert forall|m: int| 0 <= m < t.len() implies t[m].package@ == s[m].package@ by {}
    if i == s.len() - 1 {
        assert(t.drop_last() =~= s.drop_last());
        assert(t.last() == x);
        assert(usage_map_of(s.drop_last()).insert(s.last().package@, s.last().duration as int)
            .insert(x.package@, x.duration as int) =~= usage_map_of(s.drop_last()).insert(
            x.package@,
            x.duration as int,
        ));
    } else {
        assert(usage_distinct(s.drop_last()));
        lemma_usage_update(s.drop_last(), i, x);
        assert(t.drop_last() =~= s.drop_last().update(i, x));
        assert(t.last() == s.last());
        assert(s.last().package@ != x.package@);
        assert(usage_map_of(s.drop_last()).insert(x.package@, x.duration as int).insert(
            s.last().package@,
            s.last().duration as int,
        ) =~= usage_map_of(s.drop_last()).insert(s.last().package@, s.last().duration as int)
            .insert(x.package@, x.duration as int));
    }
}

/// Upper bound on the second index of any well-formed instant.
pub proof fn lemma_total_seconds_upper(dt: DateTime)
    requires
        dt.wf(),
    ensures
        0 <= total_seconds(dt) < 316_000_000_000,
{
    let y = dt.year as int;
    assert(0 <= (y + 3) / 4 <= 2500);
    assert(0 <= (y + 99) / 100 <= 100);
    assert(0 <= (y + 399) / 400 <= 25);
    assert((y + 99) / 100 <= y + 99);
}

/// Largest magnitude, in minutes, any single clipped session can have.
pub open spec fn max_session_minutes() -> int {
    5_300_000_000
}

/// One session of well-formed instants is bounded in magnitude.
pub proof fn lemma_session_minutes_bound(start: DateTime, end: DateTime, now: DateTime)
    requires
        start.wf(),
        end.wf(),
        now.wf(),
    ensures
        -max_session_minutes() <= session_minutes(start, end, now) <= max_session_minutes(),
{
    lemma_total_seconds_upper(start);
    lemma_total_seconds_upper(end);
    lemma_total_seconds_upper(now);
    assert(today_3am(now).wf());
    lemma_total_seconds_upper(today_3am(now));
    let a = clipped_bounds(start, end, now).0;
    let b = clipped_bounds(start, end, now).1;
    assert(0 <= a < 316_000_000_000);
    assert(0 <= b < 316_000_000_000);
    if b - a >= 0 {
        assert((b - a) / 60 <= (b - a));
        assert((b - a) / 60 >= 0);
    } else {
        assert((a - b) / 60 <= (a - b));
        assert((a - b) / 60 >= 0);
    }
}

/// Compute the clipped whole-minute duration of one session.
fn session_minutes_exec(start: &DateTime, end: &DateTime, now: &DateTime) -> (r: i64)
    requires
        start.wf(),
        end.wf(),
        now.wf(),
    ensures
        r == session_minutes(*start, *end, *now),
        -max_session_minutes() <= r <= max_session_minutes(),
{
    proof {
        lemma_total_seconds_upper(*start);
        lemma_total_seconds_upper(*end);
        lemma_total_seconds_upper(*now);
        assert(today_3am(*now).wf());
        lemma_total_seconds_upper(today_3am(*now));
    }
    let t3am = DateTime {
        year: now.year,
        month: now.month,
        day: now.day,
        hour: 3,
        minute: 0,
        second: 0,
    };
    let s0 = start.total_seconds_exec();
    let e0 = end.total_seconds_exec();
    let n0 = now.total_seconds_exec();
    let t3 = t3am.total_seconds_exec();
    let (a, b) = if t3 <= n0 && s0 < t3 {
        (t3, if e0 > t3 {
            e0
        } else {
            t3
        })
    } else {
        (s0, e0)
    };
    if b >= a {
        ((b - a) / 60) as i64
    } else {
        -(((a - b) / 60) as i64)
    }
}

/// Index of the open entry for `pkg`, if one exists.
fn find_open(open_list: &Vec<OpenEntry>, pkg: &str) -> (r: Option<usize>)
    ensures
        match r {
            Some(i) => i < open_list@.len() && open_list@[i as int].package@ == pkg@,
            None => forall|i: int|
                0 <= i < open_list@.len() ==> open_list@[i].package@ != pkg@,
        },
{
    let mut i: usize = 0;
    while i < open_list.len()
        invariant
            i <= open_list@.len(),
            forall|j: int| 0 <= j < i ==> open_list@[j].package@ != pkg@,
        decreases open_list@.len() - i,
    {
        if str_eq(open_list[i].package.as_str(), pkg) {
            return Some(i);
        }
        i = i + 1;
    }
    None
}

/// Index of the usage entry for `pkg`, if one exists.
fn find_usage(totals: &Vec<AppUsageInfo>, pkg: &str) -> (r: Option<usize>)
    ensures
        match r {
            Some(i) => i < totals@.len() && totals@[i as int].package@ == pkg@,
            None => forall|i: int| 0 <= i < totals@.len() ==> totals@[i].package@ != pkg@,
        },
{
    let mut i: usize = 0;
    while i < totals.len()
        invariant
            i <= totals@.len(),
            forall|j: int| 0 <= j < i ==> totals@[j].package@ != pkg@,
        decreases totals@.len() - i,
    {
        if str_eq(totals[i].package.as_str(), pkg) {
            return Some(i);
        }
        i = i + 1;
    }
    None
}

/// Reconstruct per-package usage minutes for the accounting day from the
/// ordered event sequence and the current instant.
///
/// Resume events open (or overwrite) a session for their package; pause
/// events close it and add the clipped whole-minute duration; pauses
/// without an open session and all other event kinds contribute nothing.
/// The result lists each package with at least one closed session, once.
/// The bound on the event count keeps every accumulated total within
/// `i64`; each session of well-formed instants spans fewer than
/// `max_session_minutes` minutes.
pub fn get_app_usage_info(events: &Vec<UsageStatsEvent>, now: &DateTime) -> (r: Vec<AppUsageInfo>)
    requires
        now.wf(),
        forall|i: int| 0 <= i < events@.len() ==> (#[trigger] events@[i]).time.wf(),
        events@.len() <= 1_000_000_000,
    ensures
        usage_map_of(r@) == usage_totals(event_views(events@), *now),
        usage_distinct(r@),
{
    let ghost evs = event_views(events@);
    let mut open_list: Vec<OpenEntry> = Vec::new();
    let mut totals: Vec<AppUsageInfo> = Vec::new();
    let mut idx: usize = 0;
    proof {
        assert(evs.skip(0) =~= evs);
    }
    while idx < events.len()
        invariant
            now.wf(),
            forall|i: int| 0 <= i < events@.len() ==> (#[trigger] events@[i]).time.wf(),
            events@.len() <= 1_000_000_000,
            evs == event_views(events@),
            idx <= events@.len(),
            open_distinct(open_list@),
            usage_distinct(totals@),
            forall|m: int| 0 <= m < open_list@.len() ==> (#[trigger] open_list@[m]).time.wf(),
            forall|m: int|
                0 <= m < totals@.len() ==> -((idx as int) * max_session_minutes()) <= (
                #[trigger] totals@[m]).duration <= (idx as int) * max_session_minutes(),
            reconstruct(open_map_of(open_list@), usage_map_of(totals@), evs.skip(idx as int), *now)
                == usage_totals(evs, *now),
        decreases events@.len() - idx,
    {
        let e = &events[idx];
        proof {
            assert(evs.skip(idx as int)[0] == evs[idx as int]);
            assert(evs[idx as int] == events@[idx as int]@);
            assert(evs.skip(idx as int).skip(1) =~= evs.skip(idx + 1));
        }
        let ghost old_open = open_list@;
        let ghost old_totals = totals@;
        if str_eq(e.event_type.as_str(), "ACTIVITY_RESUMED") {
            let entry = OpenEntry { package: e.package.clone(), time: e.time };
            match find_open(&open_list, e.package.as_str()) {
                Some(i) => {
                    open_list.remove(i);
                    open_list.insert(i, entry);
                    proof {
                        assert(open_list@ =~= old_open.update(i as int, entry));
                        lemma_open_update(old_open, i as int, entry);
                        assert forall|m: int| 0 <= m < open_list@.len() implies (
                        #[trigger] open_list@[m]).time.wf() by {
                            if m != i {
                                assert(open_list@[m] == old_open[m]);
                            }
                        }
                    }
                },
                None => {
                    open_list.push(entry);
                    proof {
                        lemma_open_push(old_open, entry);
                        assert forall|a: int, b: int|
                            0 <= a < b < open_list@.len() implies open_list@[a].package@
                            != open_list@[b].package@ by {
                            if b < open_list@.len() - 1 {
                                assert(open_list@[a] == old_open[a]);
                                assert(open_list@[b] == old_open[b]);
                            } else {
                                assert(open_list@[a] == old_open[a]);
                                assert(open_list@[b] == entry);
                            }
                        }
                        assert forall|m: int| 0 <= m < open_list@.len() implies (
                        #[trigger] open_list@[m]).time.wf() by {
                            if m < open_list@.len() - 1 {
                                assert(open_list@[m] == old_open[m]);
                            }
                        }
                    }
                },
            }
            proof {
                assert(open_map_of(open_list@) == open_map_of(old_open).insert(
                    evs[idx as int].package,
                    evs[idx as int].time,
                ));
            }
        } else if str_eq(e.event_type.as_str(), "ACTIVITY_PAUSED") {
            match find_open(&open_list, e.package.as_str()) {
                Some(i) => {
                    proof {
                        lemma_open_lookup(old_open, i as int);
                    }
                    let start_time = open_list[i].time;
                    let mins = session_minutes_exec(&start_time, &e.time, now);
                    open_list.remove(i);
                    proof {
                        lemma_open_remove(old_open, i as int);
                        assert forall|m: int| 0 <= m < open_list@.len() implies (
                        #[trigger] open_list@[m]).time.wf() by {
                            if m < i {
                                assert(open_list@[m] == old_open[m]);
                            } else {
                                assert(open_list@[m] == old_open[m + 1]);
                            }
                        }
                    }
                    match find_usage(&totals, e.package.as_str()) {
                        Some(ti) => {
                            proof {
                                lemma_usage_lookup(old_totals, ti as int);
                            }
                            let prev = totals[ti].duration;
                            let entry = AppUsageInfo {
                                package: e.package.clone(),
                                duration: prev + mins,
                            };
                            totals.remove(ti);
                            totals.insert(ti, entry);
                            proof {
                                assert(totals@ =~= old_totals.update(ti as int, entry));
                                lemma_usage_update(old_totals, ti as int, entry);
                                assert forall|m: int|
                                    0 <= m < totals@.len() implies -((idx + 1) as int
                                    * max_session_minutes()) <= (#[trigger] totals@[m]).duration
                                    <= (idx + 1) as int * max_session_minutes() by {
                                    if m != ti {
                                        assert(totals@[m] == old_totals[m]);
                                    }
                                }
                            }
                        },
                        None => {
                            proof {
                                lemma_usage_absent(old_totals, evs[idx as int].package);
                            }
                            let entry = AppUsageInfo { package: e.package.clone(), duration: mins };
                            totals.push(entry);
                            proof {
                                lemma_usage_push(old_totals, entry);
                                assert forall|a: int, b: int|
                                    0 <= a < b < totals@.len() implies totals@[a].package@
                                    != totals@[b].package@ by {
                                    if b < totals@.len() - 1 {
                                        assert(totals@[a] == old_totals[a]);
                                        assert(totals@[b] == old_totals[b]);
                                    } else {
                                        assert(totals@[a] == old_totals[a]);
                                        assert(totals@[b] == entry);
                                    }
                                }
                                assert forall|m: int|
                                    0 <= m < totals@.len() implies -((idx + 1) as int
                                    * max_session_minutes()) <= (#[trigger] totals@[m]).duration
                                    <= (idx + 1) as int * max_session_minutes() by {
                                    if m < totals@.len() - 1 {
                                        assert(totals@[m] == old_totals[m]);
                                    }
                                }
                            }
                        },
                    }
                    proof {
                        let key = evs[idx as int].package;
                        assert(open_map_of(old_open).contains_key(key));
                        assert(open_map_of(old_open)[key] == start_time);
                        assert(open_map_of(open_list@) == open_map_of(old_open).remove(key));
                        let specprev: int = if usage_map_of(old_totals).contains_key(key) {
                            usage_map_of(old_totals)[key]
                        } else {
                            0
                        };
                        assert(usage_map_of(totals@) == usage_map_of(old_totals).insert(
                            key,
                            specprev + session_minutes(start_time, evs[idx as int].time, *now),
                        ));
                    }
                },
                None => {
                    proof {
                        lemma_open_absent(old_open, evs[idx as int].package);
                    }
                },
            }
        }
        proof {
            assert forall|m: int|
                0 <= m < totals@.len() implies -((idx + 1) as int * max_session_minutes()) <= (
            #[trigger] totals@[m]).duration <= (idx + 1) as int * max_session_minutes() by {
                if totals@ == old_totals {
                    assert(totals@[m] == old_totals[m]);
                }
            }
            assert(reconstruct(
                open_map_of(open_list@),
                usage_map_of(totals@),
                evs.skip(idx + 1),
                *now,
            ) == usage_totals(evs, *now));
        }
        idx = idx + 1;
    }
    proof {
        assert(evs.skip(idx as int) =~= Seq::<UsageEventModel>::empty());
    }
    totals
}

/// An `ACTIVITY_RESUMED` event for `pkg` at `t`.
pub open spec fn resumed_event(pkg: Seq<char>, t: DateTime) -> UsageEventModel {
    UsageEventModel { time: t, event_type: ("ACTIVITY_RESUMED")@, package: pkg }
}

/// An `ACTIVITY_PAUSED` event for `pkg` at `t`.
pub open spec fn paused_event(pkg: Seq<char>, t: DateTime) -> UsageEventModel {
    UsageEventModel { time: t, event_type: ("ACTIVITY_PAUSED")@, package: pkg }
}

/// A resume followed by a pause of the same package, with no day-boundary
/// clipping in play, contributes exactly the floor of the elapsed whole
/// minutes between the two timestamps.
pub proof fn lemma_single_session_minutes(pkg: Seq<char>, t1: DateTime, t2: DateTime, now: DateTime)
    requires
        !(total_seconds(today_3am(now)) <= total_seconds(now) && total_seconds(t1) < total_seconds(
            today_3am(now),
        )),
        total_seconds(t1) < total_seconds(t2),
    ensures
        usage_totals(seq![resumed_event(pkg, t1), paused_event(pkg, t2)], now) == Map::<
            Seq<char>,
            int,
        >::empty().insert(pkg, (total_seconds(t2) - total_seconds(t1)) / 60),
{
    reveal_strlit("ACTIVITY_RESUMED");
    reveal_strlit("ACTIVITY_PAUSED");
    assert(("ACTIVITY_PAUSED")@.len() == 15);
    assert(("ACTIVITY_RESUMED")@.len() == 16);
    let events = seq![resumed_event(pkg, t1), paused_event(pkg, t2)];
    assert(events.skip(1) =~= seq![paused_event(pkg, t2)]);
    assert(seq![paused_event(pkg, t2)].skip(1) =~= Seq::<UsageEventModel>::empty());
    let o0 = Map::<Seq<char>, DateTime>::empty();
    let m0 = Map::<Seq<char>, int>::empty();
    let open1 = o0.insert(pkg, t1);
    assert(open1.contains_key(pkg));
    assert(open1[pkg] == t1);
    assert(!m0.contains_key(pkg));
    assert(session_minutes(t1, t2, now) == (total_seconds(t2) - total_seconds(t1)) / 60);
    assert(events[0] == resumed_event(pkg, t1));
    assert(reconstruct(o0, m0, events, now) == reconstruct(open1, m0, seq![paused_event(pkg, t2)], now));
    assert(seq![paused_event(pkg, t2)][0] == paused_event(pkg, t2));
    assert(reconstruct(open1, m0, seq![paused_event(pkg, t2)], now) == reconstruct(
        open1.remove(pkg),
        m0.insert(pkg, 0 + session_minutes(t1, t2, now)),
        Seq::<UsageEventModel>::empty(),
        now,
    ));
    assert(reconstruct(
        open1.remove(pkg),
        m0.insert(pkg, 0 + session_minutes(t1, t2, now)),
        Seq::<UsageEventModel>::empty(),
        now,
    ) == m0.insert(pkg, 0 + session_minutes(t1, t2, now)));
}

/// 03:00 is the day boundary: with `now` past 03:00 of its date, a
/// session wholly before 03:00 contributes nothing, and one crossing
/// 03:00 contributes only its part after 03:00.
pub proof fn lemma_day_boundary_clipping(now: DateTime)
    requires
        now.wf(),
        now.hour >= 3,
    ensures
        session_minutes(at_time(now, 2, 0), at_time(now, 2, 30), now) == 0,
        session_minutes(at_time(now, 2, 30), at_time(now, 3, 30), now) == 30,
{
    assert(day_index(at_time(now, 2, 0)) == day_index(today_3am(now)));
    assert(day_index(at_time(now, 2, 30)) == day_index(today_3am(now)));
    assert(day_index(at_time(now, 3, 30)) == day_index(today_3am(now)));
    assert(day_index(now) == day_index(today_3am(now)));
}

/// The instant at `h:mi:00` on the calendar date of `d`.
pub open spec fn at_time(d: DateTime, h: u32, mi: u32) -> DateTime {
    DateTime { year: d.year, month: d.month, day: d.day, hour: h, minute: mi, second: 0 }
}

/// A second resume of a package before any pause supersedes the first:
/// the totals are those of the event sequence without the earlier resume.
pub proof fn lemma_double_resume_supersedes(
    open_sessions: Map<Seq<char>, DateTime>,
    totals: Map<Seq<char>, int>,
    pkg: Seq<char>,
    t1: DateTime,
    t2: DateTime,
    rest: Seq<UsageEventModel>,
    now: DateTime,
)
    ensures
        reconstruct(
            open_sessions,
            totals,
            seq![resumed_event(pkg, t1), resumed_event(pkg, t2)] + rest,
            now,
        ) == reconstruct(open_sessions, totals, seq![resumed_event(pkg, t2)] + rest, now),
{
    let a = seq![resumed_event(pkg, t1), resumed_event(pkg, t2)] + rest;
    let b = seq![resumed_event(pkg, t2)] + rest;
    assert(a[0] == resumed_event(pkg, t1));
    assert(a.skip(1) =~= b);
    assert(b[0] == resumed_event(pkg, t2));
    assert(b.skip(1) =~= rest);
    assert(open_sessions.insert(pkg, t1).insert(pkg, t2) =~= open_sessions.insert(pkg, t2));
    assert(reconstruct(open_sessions, totals, a, now) == reconstruct(
        open_sessions.insert(pkg, t1),
        totals,
        b,
        now,
    ));
    assert(reconstruct(open_sessions.insert(pkg, t1), totals, b, now) == reconstruct(
        open_sessions.insert(pkg, t1).insert(pkg, t2),
        totals,
        rest,
        now,
    ));
    assert(reconstruct(open_sessions, totals, b, now) == reconstruct(
        open_sessions.insert(pkg, t2),
        totals,
        rest,
        now,
    ));
}

/// Extraction and reconstruction are functions of the raw text and the
/// current instant alone: re-running them on the same inputs yields the
/// same totals.
pub proof fn lemma_pipeline_deterministic(
    text: Seq<char>,
    now: DateTime,
    t1: Map<Seq<char>, int>,
    t2: Map<Seq<char>, int>,
)
    requires
        t1 == usage_totals(spec_parse(text), now),
        t2 == usage_totals(spec_parse(text), now),
    ensures
        t1 == t2,
{
}

} // verus!
