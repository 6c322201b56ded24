//! The event scheduler: an ascending, deduplicated set of future local
//! timestamps, replaced wholesale by `set_schedule` and `generate_schedule`,
//! and drained one due event per tick, firing only inside the grace window.

use std::sync::Arc;
use vstd::prelude::*;

use crate::clock::{
    in_clock_range, now_millis, now_naive_local_ms, resolve_local_ms, CLOCK_BOUND_MILLIS,
};
use crate::resource_catalogue::{
    cat_has_path, lemma_find_contains_has_path, pool_of, resolvable, CatalogueModel,
    ResourceCatalogue,
};
use crate::strutil::lower_of;

verus! {

/// Milliseconds in a day.
pub const DAY_MILLIS: i64 = 86400000;

/// The grace window: how long after its instant a due event still fires.
pub const GRACE_MILLIS: i64 = 60000;

/// A strictly ascending sequence: the shape of the schedule, which never
/// holds two equal instants.
pub open spec fn ascending(s: Seq<i64>) -> bool {
    forall|i: int, j: int| 0 <= i < j < s.len() ==> s[i] < s[j]
}

/// Every element is a clock value.
pub open spec fn all_in_clock_range(s: Seq<i64>) -> bool {
    forall|i: int| 0 <= i < s.len() ==> in_clock_range(#[trigger] s[i])
}

/// The instants of `ts` strictly after `now`: what a schedule replacement
/// keeps.
pub open spec fn future_times(ts: Seq<i64>, now: i64) -> Seq<i64> {
    ts.filter(|t: i64| t > now)
}

/// What serde_yaml parses schedule text to: the millisecond timestamps of
/// a set of local datetimes, or `None` when the text does not parse.
pub uninterp spec fn parsed_schedule(text: Seq<char>) -> Option<Seq<i64>>;

/// Relies on `serde_yaml::from_str` for `BTreeSet<DateTime<Local>>`: the
/// parse is a function of the text alone, and the parsed datetimes are
/// chrono values, whose documented range keeps their timestamps within
/// `in_clock_range`.
#[verifier::external_body]
fn parse_schedule_text(text: &str) -> (r: Option<Vec<i64>>)
    ensures
        match r {
            Some(v) => parsed_schedule(text@) == Some(v@) && all_in_clock_range(v@),
            None => parsed_schedule(text@) is None,
        },
{
    match serde_yaml::from_str::<std::collections::BTreeSet<chrono::DateTime<chrono::Local>>>(
        text,
    ) {
        Ok(set) => Some(set.into_iter().map(|t| t.timestamp_millis()).collect()),
        Err(_) => None,
    }
}

/// Relies on `serde_yaml::to_string` for `BTreeSet<DateTime<Local>>` (the
/// timestamps are turned back into local datetimes first): the rendering
/// shows the machine's local offsets, so nothing is stated of it.
#[verifier::external_body]
fn render_schedule_text(ts: &Vec<i64>) -> (r: Option<String>) {
    let mut set: std::collections::BTreeSet<chrono::DateTime<chrono::Local>> =
        std::collections::BTreeSet::new();
    for ms in ts.iter() {
        match chrono::DateTime::<chrono::Utc>::from_timestamp_millis(*ms) {
            Some(t) => {
                set.insert(t.with_timezone(&chrono::Local));
            },
            None => {},
        }
    }
    serde_yaml::to_string(&set).ok()
}

/// Why a schedule request was rejected; the prior schedule stays.
#[derive(Clone, Copy, Debug, PartialEq, Eq, Structural)]
pub enum ScheduleError {
    /// The schedule text did not parse as a list of local timestamps.
    ParseError,
    /// A generated wall-clock time has no unique local instant.
    AmbiguousLocalTime,
    /// The schedule could not be rendered as text.
    SerializeError,
}

/// A sequence's elements, as a set, gain exactly the pushed element.
proof fn lemma_push_to_set(s: Seq<i64>, t: i64)
    ensures
        s.push(t).to_set() == s.to_set().insert(t),
{
    assert(s.push(t).to_set() =~= s.to_set().insert(t)) by {
        assert forall|x: i64| s.push(t).contains(x) implies s.to_set().insert(t).contains(x) by {
            let i = choose|i: int| 0 <= i < s.push(t).len() && s.push(t)[i] == x;
            if i < s.len() {
                assert(s[i] == x);
            }
        }
        assert forall|x: i64| s.to_set().insert(t).contains(x) implies s.push(t).contains(x) by {
            if x == t {
                assert(s.push(t)[s.len() as int] == x);
            } else {
                let i = choose|i: int| 0 <= i < s.len() && s[i] == x;
                assert(s.push(t)[i] == x);
            }
        }
    }
}

/// Index of the first element at or above `t` in an ascending sequence.
fn lower_bound(v: &Vec<i64>, t: i64) -> (p: usize)
    ensures
        p <= v@.len(),
        forall|i: int| 0 <= i < p ==> v@[i] < t,
        p < v@.len() ==> v@[p as int] >= t,
{
    let mut p: usize = 0;
    while p < v.len()
        invariant
            p <= v@.len(),
            forall|i: int| 0 <= i < p ==> v@[i] < t,
        decreases v@.len() - p,
    {
        if v[p] >= t {
            return p;
        }
        p += 1;
    }
    p
}

/// Inserts `t` into the ascending sequence, keeping it ascending and
/// deduplicated: the set of elements gains exactly `t`.
fn insert_sorted(v: &mut Vec<i64>, t: i64)
    requires
        ascending(old(v)@),
    ensures
        ascending(final(v)@),
        final(v)@.to_set() == old(v)@.to_set().insert(t),
        old(v)@.len() <= final(v)@.len() <= old(v)@.len() + 1,
{
    let ghost pre = v@;
    let p = lower_bound(v, t);
    if p < v.len() && v[p] == t {
        proof {
            assert(final(v)@.to_set() =~= pre.to_set().insert(t)) by {
                assert(pre.contains(t));
            }
        }
        return ;
    }
    v.insert(p, t);
    proof {
        assert(v@ == pre.insert(p as int, t));
        assert forall|i: int, j: int| 0 <= i < j < v@.len() implies v@[i] < v@[j] by {
            if j < p {
            } else if i < p && j == p {
            } else if i == p {
                assert(v@[j] == pre[j - 1]);
            } else if i < p {
                assert(v@[i] == pre[i] && v@[j] == pre[j - 1]);
            } else {
                assert(v@[i] == pre[i - 1] && v@[j] == pre[j - 1]);
            }
        }
        assert(v@.to_set() =~= pre.to_set().insert(t)) by {
            assert forall|x: i64| v@.contains(x) implies pre.to_set().insert(t).contains(x) by {
                let i = choose|i: int| 0 <= i < v@.len() && v@[i] == x;
                if i < p {
                    assert(pre[i] == x);
                } else if i > p {
                    assert(pre[i - 1] == x);
                }
            }
            assert forall|x: i64| pre.to_set().insert(t).contains(x) implies v@.contains(x) by {
                if x == t {
                    assert(v@[p as int] == t);
                } else {
                    let i = choose|i: int| 0 <= i < pre.len() && pre[i] == x;
                    if i < p {
                        assert(v@[i] == x);
                    } else {
                        assert(v@[i + 1] == x);
                    }
                }
            }
        }
    }
}

/// The shape of a fired announcement playlist against catalogue `m`: one
/// path from the pool of `"noise"`, then one from the pool of the
/// announcement tag, each dropped when its tag does not resolve.
pub open spec fn announcement_playlist_ok(m: CatalogueModel, p: Seq<String>) -> bool {
    let nn: int = if resolvable(m, "noise"@) {
        1
    } else {
        0
    };
    let na: int = if resolvable(m, "idziemy_na_jednego"@) {
        1
    } else {
        0
    };
    &&& p.len() == nn + na
    &&& (resolvable(m, "noise"@) ==> pool_of(m, "noise"@).contains(p[0]@))
    &&& (resolvable(m, "idziemy_na_jednego"@) ==> pool_of(m, "idziemy_na_jednego"@).contains(
        p[p.len() - 1]@,
    ))
}

/// Builds the ascending, deduplicated schedule holding exactly the given
/// instants.
fn build_sorted_set(instants: &Vec<i64>) -> (r: Vec<i64>)
    ensures
        ascending(r@),
        r@.to_set() == instants@.to_set(),
        r@.len() <= instants@.len(),
        all_in_clock_range(instants@) ==> all_in_clock_range(r@),
{
    let mut r: Vec<i64> = Vec::new();
    proof {
        assert(r@.to_set() =~= instants@.subrange(0, 0).to_set());
    }
    let mut i: usize = 0;
    while i < instants.len()
        invariant
            i <= instants@.len(),
            ascending(r@),
            r@.len() <= i,
            r@.to_set() == instants@.subrange(0, i as int).to_set(),
            forall|x: int|
                0 <= x < r@.len() ==> exists|y: int|
                    0 <= y < instants@.len() && instants@[y] == #[trigger] r@[x],
        decreases instants@.len() - i,
    {
        let t = instants[i];
        let ghost before = r@;
        insert_sorted(&mut r, t);
        proof {
            assert(instants@.subrange(0, i + 1) =~= instants@.subrange(0, i as int).push(t));
            lemma_push_to_set(instants@.subrange(0, i as int), t);
            assert forall|x: int|
                0 <= x < r@.len() implies exists|y: int|
                0 <= y < instants@.len() && instants@[y] == #[trigger] r@[x] by {
                assert(r@.to_set().contains(r@[x]));
                if r@[x] == t {
                    assert(instants@[i as int] == r@[x]);
                } else {
                    assert(before.to_set().contains(r@[x]));
                    let b = choose|b: int| 0 <= b < before.len() && before[b] == r@[x];
                }
            }
        }
        i += 1;
    }
    proof {
        assert(instants@.subrange(0, instants@.len() as int) =~= instants@);
    }
    r
}

/// The wall-clock midnight deadline: the date of `now` at `until` past its
/// midnight.
pub open spec fn spec_deadline(now: int, until: int) -> int {
    now - now % (DAY_MILLIS as int) + until
}

/// How many events stepping by `period` from `now` stay at or before the
/// deadline.
pub open spec fn spec_event_count(now: int, period: int, deadline: int) -> int {
    if now > deadline {
        0
    } else {
        (deadline - now) / period + 1
    }
}

/// What a successful schedule generation stores: an ascending set equal to
/// the elements of some vector `rv` of locally resolved instants, one per
/// generated event.
pub open spec fn stored_schedule_ok(
    s: Seq<i64>,
    rv: Seq<i64>,
    now_naive: int,
    period: int,
    until: int,
) -> bool {
    &&& rv.len() == spec_event_count(now_naive, period, spec_deadline(now_naive, until))
    &&& all_in_clock_range(rv)
    &&& s.to_set() == rv.to_set()
}

/// The wall-clock event times: from `now`, step by `period_ms`, inclusive
/// while the step stays at or before today's date at `until_ms` past
/// midnight.
pub fn naive_events(now_naive: i64, period_ms: i64, until_ms: i64) -> (r: Vec<i64>)
    requires
        in_clock_range(now_naive),
        0 < period_ms <= CLOCK_BOUND_MILLIS,
        0 <= until_ms < DAY_MILLIS,
    ensures
        r@.len() == spec_event_count(
            now_naive as int,
            period_ms as int,
            spec_deadline(now_naive as int, until_ms as int),
        ),
        forall|k: int| 0 <= k < r@.len() ==> r@[k] == now_naive + k * (period_ms as int),
        forall|k: int|
            0 <= k < r@.len() ==> now_naive <= #[trigger] r@[k] <= spec_deadline(
                now_naive as int,
                until_ms as int,
            ),
{
    let day_off: i64 = if now_naive >= 0 {
        ((now_naive as u64) % (DAY_MILLIS as u64)) as i64
    } else {
        let mr = ((-now_naive) as u64) % (DAY_MILLIS as u64);
        if mr == 0 {
            0
        } else {
            (DAY_MILLIS as u64 - mr) as i64
        }
    };
    proof {
        let d = DAY_MILLIS as int;
        let n = now_naive as int;
        if now_naive >= 0 {
            assert(day_off == n % d);
        } else {
            let m = -n;
            vstd::arithmetic::div_mod::lemma_fundamental_div_mod(m, d);
            let q = m / d;
            let mr = m % d;
            if mr == 0 {
                vstd::arithmetic::div_mod::lemma_fundamental_div_mod_converse_mod(n, d, -q, 0);
                assert(day_off == n % d);
            } else {
                vstd::arithmetic::div_mod::lemma_fundamental_div_mod_converse_mod(
                    n,
                    d,
                    -q - 1,
                    d - mr,
                );
                assert(day_off == n % d);
            }
        }
    }
    let deadline = now_naive - day_off + until_ms;
    assert(deadline == spec_deadline(now_naive as int, until_ms as int));

    let mut r: Vec<i64> = Vec::new();
    let mut event = now_naive;
    proof {
        assert(r@.len() * (period_ms as int) == 0) by (nonlinear_arith)
            requires r@.len() == 0;
    }
    while event <= deadline
        invariant
            0 < period_ms <= CLOCK_BOUND_MILLIS,
            in_clock_range(now_naive),
            deadline == spec_deadline(now_naive as int, until_ms as int),
            deadline <= CLOCK_BOUND_MILLIS + DAY_MILLIS,
            event == now_naive + r@.len() * (period_ms as int),
            event >= now_naive,
            forall|k: int| 0 <= k < r@.len() ==> r@[k] == now_naive + k * (period_ms as int),
            forall|k: int| 0 <= k < r@.len() ==> now_naive <= #[trigger] r@[k] <= deadline,
            r@.len() >= 1 ==> event - period_ms <= deadline,
        decreases deadline + period_ms - event,
    {
        r.push(event);
        proof {
            assert((r@.len() as int) * (period_ms as int) == (r@.len() - 1) * (period_ms as int)
                + period_ms) by (nonlinear_arith);
        }
        event = event + period_ms;
    }
    proof {
        let n = now_naive as int;
        let p = period_ms as int;
        let dl = spec_deadline(n, until_ms as int);
        let len = r@.len() as int;
        if len == 0 {
            assert(n > dl);
        } else {
            assert(event == n + len * p);
            assert(event > dl);
            assert(n + (len - 1) * p <= dl) by {
                assert((len - 1) * p == len * p - p) by (nonlinear_arith);
            }
            let d0 = dl - n;
            let rem = d0 - (len - 1) * p;
            assert(0 <= rem) by {
                assert(n + (len - 1) * p <= dl);
            }
            assert(rem < p) by {
                assert(len * p == (len - 1) * p + p) by (nonlinear_arith);
            }
            vstd::arithmetic::div_mod::lemma_fundamental_div_mod_converse_div(d0, p, len - 1, rem);
            assert(len - 1 == d0 / p);
            assert(n <= dl);
        }
    }
    r
}

/// The scheduler: the ascending set of future instants, and the catalogue
/// that resolves the announcement tags when an event fires.
pub struct Scheduler {
    resources: Arc<ResourceCatalogue>,
    schedule: Vec<i64>,
}

impl Scheduler {
    /// The schedule is ascending and holds clock values.
    pub closed spec fn wf(self) -> bool {
        &&& ascending(self.schedule@)
        &&& all_in_clock_range(self.schedule@)
    }

    /// The scheduled instants, earliest first.
    pub closed spec fn schedule_times(self) -> Seq<i64> {
        self.schedule@
    }

    /// The catalogue events resolve against.
    pub closed spec fn resources_model(self) -> CatalogueModel {
        self.resources@
    }

    /// A scheduler over `resources` with an empty schedule.
    pub fn new(resources: Arc<ResourceCatalogue>) -> (r: Scheduler)
        ensures
            r.wf(),
            r.resources_model() == resources@,
            r.schedule_times() == Seq::<i64>::empty(),
    {
        Scheduler { resources, schedule: Vec::new() }
    }

    /// Replaces the schedule from parsed text at a given clock value:
    /// the instants at or before `now` are dropped, the rest become the
    /// new ascending set. A parse failure leaves the schedule untouched.
    pub fn set_schedule_at(&mut self, text: &str, now: i64) -> (r: Result<(), ScheduleError>)
        requires
            old(self).wf(),
        ensures
            final(self).wf(),
            final(self).resources_model() == old(self).resources_model(),
            r is Ok <==> parsed_schedule(text@) is Some,
            r is Ok ==> final(self).schedule_times().to_set() == future_times(
                parsed_schedule(text@).unwrap(),
                now,
            ).to_set(),
            r is Err ==> final(self).schedule_times() == old(self).schedule_times(),
    {
        match parse_schedule_text(text) {
            None => Err(ScheduleError::ParseError),
            Some(parsed) => {
                let ghost pv = parsed@;
                let mut fresh: Vec<i64> = Vec::new();
                proof {
                    reveal(Seq::filter);
                    assert(pv.subrange(0, 0) =~= Seq::<i64>::empty());
                    assert(fresh@.to_set() =~= future_times(pv.subrange(0, 0), now).to_set());
                }
                let mut i: usize = 0;
                while i < parsed.len()
                    invariant
                        i <= pv.len(),
                        parsed@ == pv,
                        all_in_clock_range(pv),
                        ascending(fresh@),
                        all_in_clock_range(fresh@),
                        fresh@.to_set() == future_times(pv.subrange(0, i as int), now).to_set(),
                    decreases pv.len() - i,
                {
                    let t = parsed[i];
                    proof {
                        reveal(Seq::filter);
                        assert(pv.subrange(0, i + 1).drop_last() =~= pv.subrange(0, i as int));
                        assert(pv.subrange(0, i + 1).last() == pv[i as int]);
                    }
                    if t > now {
                        let ghost before = fresh@;
                        insert_sorted(&mut fresh, t);
                        proof {
                            assert(future_times(pv.subrange(0, i + 1), now) == future_times(
                                pv.subrange(0, i as int),
                                now,
                            ).push(t));
                            lemma_push_to_set(future_times(pv.subrange(0, i as int), now), t);
                            assert forall|x: int|
                                0 <= x < fresh@.len() implies in_clock_range(
                                #[trigger] fresh@[x],
                            ) by {
                                assert(fresh@.to_set().contains(fresh@[x]));
                                if fresh@[x] != t {
                                    assert(before.to_set().contains(fresh@[x]));
                                    let y = choose|y: int|
                                        0 <= y < before.len() && before[y] == fresh@[x];
                                    assert(in_clock_range(before[y]));
                                }
                            }
                        }
                    }
                    i += 1;
                }
                proof {
                    assert(pv.subrange(0, pv.len() as int) =~= pv);
                }
                self.schedule = fresh;
                Ok(())
            },
        }
    }

    /// Replaces the schedule from text against the real clock.
    pub fn set_schedule(&mut self, text: &str) -> (r: Result<(), ScheduleError>)
        requires
            old(self).wf(),
        ensures
            final(self).wf(),
            final(self).resources_model() == old(self).resources_model(),
            r is Ok <==> parsed_schedule(text@) is Some,
            r is Ok ==> exists|now: i64|
                final(self).schedule_times().to_set() == future_times(
                    parsed_schedule(text@).unwrap(),
                    now,
                ).to_set(),
            r is Err ==> final(self).schedule_times() == old(self).schedule_times(),
    {
        let now = now_millis();
        let r = self.set_schedule_at(text, now);
        proof {
            if r is Ok {
                assert(self.schedule_times().to_set() == future_times(
                    parsed_schedule(text@).unwrap(),
                    now,
                ).to_set());
            }
        }
        r
    }

    /// Replaces the schedule with events stepping by `period_ms` from a
    /// given wall-clock value, inclusive while the step's time of day stays
    /// at or before `until_ms` today; every step must resolve to exactly
    /// one local instant, else nothing changes. On success the stored set
    /// is exactly the elements of the vector of resolved instants, one per
    /// generated event; success is certain when no event is generated.
    pub fn generate_schedule_at(
        &mut self,
        period_ms: i64,
        until_ms: i64,
        now_naive: i64,
    ) -> (r: Result<(), ScheduleError>)
        requires
            old(self).wf(),
            in_clock_range(now_naive),
            0 < period_ms <= CLOCK_BOUND_MILLIS,
            0 <= until_ms < DAY_MILLIS,
        ensures
            final(self).wf(),
            final(self).resources_model() == old(self).resources_model(),
            now_naive as int > spec_deadline(now_naive as int, until_ms as int) ==> r is Ok,
            r is Ok ==> exists|rv: Seq<i64>|
                stored_schedule_ok(
                    final(self).schedule_times(),
                    rv,
                    now_naive as int,
                    period_ms as int,
                    until_ms as int,
                ),
            r is Ok ==> final(self).schedule_times().len() <= spec_event_count(
                now_naive as int,
                period_ms as int,
                spec_deadline(now_naive as int, until_ms as int),
            ),
            r is Err ==> final(self).schedule_times() == old(self).schedule_times(),
    {
        let events = naive_events(now_naive, period_ms, until_ms);
        let ghost count = spec_event_count(
            now_naive as int,
            period_ms as int,
            spec_deadline(now_naive as int, until_ms as int),
        );
        let mut resolved: Vec<i64> = Vec::new();
        let mut i: usize = 0;
        while i < events.len()
            invariant
                i <= events@.len(),
                events@.len() == count,
                count == spec_event_count(
                    now_naive as int,
                    period_ms as int,
                    spec_deadline(now_naive as int, until_ms as int),
                ),
                self.schedule@ == old(self).schedule@,
                self.resources@ == old(self).resources@,
                old(self).wf(),
                resolved@.len() == i,
                all_in_clock_range(resolved@),
            decreases events@.len() - i,
        {
            match resolve_local_ms(events[i]) {
                Some(t) => {
                    resolved.push(t);
                },
                None => {
                    return Err(ScheduleError::AmbiguousLocalTime);
                },
            }
            i += 1;
        }
        let fresh = build_sorted_set(&resolved);
        let ghost rv = resolved@;
        self.schedule = fresh;
        proof {
            assert(stored_schedule_ok(
                self.schedule_times(),
                rv,
                now_naive as int,
                period_ms as int,
                until_ms as int,
            ));
        }
        Ok(())
    }

    /// Replaces the schedule with events stepping by `period_ms` from the
    /// real wall clock until `until_ms` past midnight today: on success the
    /// stored set is exactly the elements of the resolved event vector for
    /// the wall-clock value that was read.
    pub fn generate_schedule(&mut self, period_ms: i64, until_ms: i64) -> (r: Result<
        (),
        ScheduleError,
    >)
        requires
            old(self).wf(),
            0 < period_ms <= CLOCK_BOUND_MILLIS,
            0 <= until_ms < DAY_MILLIS,
        ensures
            final(self).wf(),
            final(self).resources_model() == old(self).resources_model(),
            r is Ok ==> exists|rv: Seq<i64>, nn: i64|
                in_clock_range(nn) && stored_schedule_ok(
                    final(self).schedule_times(),
                    rv,
                    nn as int,
                    period_ms as int,
                    until_ms as int,
                ),
            r is Err ==> final(self).schedule_times() == old(self).schedule_times(),
    {
        let now_naive = now_naive_local_ms();
        let r = self.generate_schedule_at(period_ms, until_ms, now_naive);
        proof {
            if r is Ok {
                let rv = choose|rv: Seq<i64>|
                    stored_schedule_ok(
                        self.schedule_times(),
                        rv,
                        now_naive as int,
                        period_ms as int,
                        until_ms as int,
                    );
                assert(in_clock_range(now_naive) && stored_schedule_ok(
                    self.schedule_times(),
                    rv,
                    now_naive as int,
                    period_ms as int,
                    until_ms as int,
                ));
            }
        }
        r
    }

    /// Renders the schedule as text; an empty schedule renders as the fixed
    /// sentinel line instead of an empty list.
    pub fn get_serialized_schedule(&self) -> (r: Result<String, ScheduleError>)
        ensures
            self.schedule_times().len() == 0 ==> r is Ok && r.unwrap()@ == "nie idziemy :("@,
    {
        if self.schedule.len() == 0 {
            Ok("nie idziemy :(".to_owned())
        } else {
            match render_schedule_text(&self.schedule) {
                Some(text) => Ok(text),
                None => Err(ScheduleError::SerializeError),
            }
        }
    }

    /// One tick of the background loop at clock value `now`: when the
    /// earliest instant is due it is removed exactly once, and the
    /// announcement playlist is handed back only when the event is at most
    /// the grace window late. A fired playlist holds one path from the
    /// noise pool, then one from the announcement pool, each dropped only
    /// when its tag does not resolve.
    pub fn on_tick(&mut self, now: i64) -> (fired: Option<Vec<String>>)
        requires
            old(self).wf(),
            in_clock_range(now),
        ensures
            final(self).wf(),
            final(self).resources_model() == old(self).resources_model(),
            old(self).schedule_times().len() == 0 || old(self).schedule_times()[0] > now ==> {
                &&& final(self).schedule_times() == old(self).schedule_times()
                &&& fired is None
            },
            old(self).schedule_times().len() > 0 && old(self).schedule_times()[0] <= now ==> {
                &&& final(self).schedule_times() == old(self).schedule_times().drop_first()
                &&& (fired is Some <==> now - old(self).schedule_times()[0] <= GRACE_MILLIS)
            },
            fired matches Some(playlist) ==> announcement_playlist_ok(
                final(self).resources_model(),
                playlist@,
            ),
            fired matches Some(playlist) ==> forall|x: int|
                0 <= x < playlist@.len() ==> cat_has_path(
                    final(self).resources_model(),
                    #[trigger] playlist@[x]@,
                ),
    {
        if self.schedule.len() == 0 {
            return None;
        }
        let earliest = self.schedule[0];
        if earliest > now {
            return None;
        }
        let ghost pre = self.schedule@;
        self.schedule.remove(0);
        proof {
            assert(self.schedule@ =~= pre.drop_first());
        }
        if now - earliest <= GRACE_MILLIS {
            let ghost m = self.resources@;
            let mut playlist: Vec<String> = Vec::new();
            match self.resources.random_sample("noise") {
                Some(p) => {
                    proof {
                        lemma_find_contains_has_path(m, lower_of("noise"@), p@);
                    }
                    playlist.push(p);
                },
                None => {},
            }
            match self.resources.random_sample("idziemy_na_jednego") {
                Some(p) => {
                    proof {
                        lemma_find_contains_has_path(m, lower_of("idziemy_na_jednego"@), p@);
                    }
                    playlist.push(p);
                },
                None => {},
            }
            Some(playlist)
        } else {
            None
        }
    }
}

} // verus!
