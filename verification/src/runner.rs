//! The daemon's scheduling rules: one scheduler tick, the status it
//! reports, and the decisions its loop makes. The loop itself (sleeping,
//! file watching, spawning renderers) belongs to the program.
//!
//! - recover after sleep/wake: missed reminders coalesce to one firing
//! - avoid duplicate reminders: a firing is recorded before it is shown

use vstd::prelude::*;

use crate::ipc::{Request, Response};
use crate::model::{message_text, Reminder, ReminderList, RunState};
use crate::queue::{PendingShow, ShowQueue};
use crate::recurrence::{
    anchor_of, as_signed, due_at, is_due, law_next_due_after_anchor, never_advances,
    next_due_computable, next_due_ok, next_due_value, next_upcoming, parts_le, parts_of, soonest,
    upcoming_at,
};
use crate::time::add_seconds_parts;
use crate::runner_status::StatusInfo;
use crate::store::StoreError;
use crate::sys::io_error_text;
use crate::text::{push_decimal, push_str, string_of};
use crate::time::Timestamp;

verus! {

broadcast use vstd::std_specs::btree::group_btree_axioms, vstd::laws_cmp::group_laws_cmp;

/// A reminder the scheduler looks at: enabled and not completed.
pub open spec fn eligible(r: Reminder) -> bool {
    r.enabled && !r.completed
}

/// One scheduler tick over `rs` in order, starting from the recorded
/// firings `fired`: each eligible reminder that is due (judged on the
/// firings recorded so far) is recorded as fired at `now`. Gives the
/// recorded firings afterwards and the indices of the reminders fired.
pub open spec fn tick(rs: Seq<Reminder>, fired: Map<u64, Timestamp>, now: Timestamp) -> (Map<u64, Timestamp>, Seq<int>)
    decreases rs.len(),
{
    if rs.len() == 0 {
        (fired, Seq::empty())
    } else {
        let prev = tick(rs.drop_last(), fired, now);
        let r = rs.last();
        if eligible(r) && due_at(r, prev.0, now) {
            (prev.0.insert(r.id, now), prev.1.push(rs.len() - 1))
        } else {
            prev
        }
    }
}

/// Every due time the tick computes can be computed.
pub open spec fn tick_ok(rs: Seq<Reminder>, fired: Map<u64, Timestamp>, now: Timestamp) -> bool
    decreases rs.len(),
{
    rs.len() == 0 || (tick_ok(rs.drop_last(), fired, now) && (eligible(rs.last()) ==> next_due_ok(
        rs.last(),
        tick(rs.drop_last(), fired, now).0,
        now,
    )))
}

/// What a tick hands on for a fired reminder: its id, its message and its
/// character override.
pub open spec fn fired_entry(e: (u64, String, Option<String>), r: Reminder) -> bool {
    &&& e.0 == r.id
    &&& e.1@ == message_text(r)
    &&& e.2 == r.character
}

proof fn lemma_tick_ok_prefix(rs: Seq<Reminder>, fired: Map<u64, Timestamp>, now: Timestamp, k: int)
    requires
        0 <= k <= rs.len(),
        tick_ok(rs, fired, now),
    ensures
        tick_ok(rs.subrange(0, k), fired, now),
    decreases rs.len(),
{
    if k < rs.len() {
        assert(rs.drop_last() =~= rs.subrange(0, rs.len() - 1));
        lemma_tick_ok_prefix(rs.drop_last(), fired, now, k);
        assert(rs.drop_last().subrange(0, k) =~= rs.subrange(0, k));
    } else {
        assert(rs.subrange(0, k) =~= rs);
    }
}

/// Test-friendly core of the daemon loop: one scheduler tick. Returns the
/// shows to enqueue this tick, already recorded in `state`. The firing is
/// recorded before anything is shown, so a crash or restart cannot show it
/// twice; after a sleep an overdue reminder is due exactly once, because its
/// anchor moves to `now` when it fires. `wake_skip` does not change the
/// outcome.
pub fn schedule_tick(reminders: &ReminderList, state: &mut RunState, now: Timestamp, wake_skip: bool) -> (r: Vec<(u64, String, Option<String>)>)
    requires
        tick_ok(reminders.reminders@, old(state).last_fired@, now),
    ensures
        final(state).last_fired@ == tick(reminders.reminders@, old(state).last_fired@, now).0,
        r@.len() == tick(reminders.reminders@, old(state).last_fired@, now).1.len(),
        forall|k: int|
            0 <= k < r@.len() ==> fired_entry(
                #[trigger] r@[k],
                reminders.reminders@[tick(reminders.reminders@, old(state).last_fired@, now).1[k]],
            ),
{
    let ghost rs = reminders.reminders@;
    let ghost start = state.last_fired@;
    let mut fired: Vec<(u64, String, Option<String>)> = Vec::new();
    let mut i: usize = 0;
    while i < reminders.reminders.len()
        invariant
            0 <= i <= rs.len(),
            rs == reminders.reminders@,
            tick_ok(rs, start, now),
            state.last_fired@ == tick(rs.subrange(0, i as int), start, now).0,
            fired@.len() == tick(rs.subrange(0, i as int), start, now).1.len(),
            forall|j: int|
                0 <= j < tick(rs.subrange(0, i as int), start, now).1.len() ==> 0 <= #[trigger] tick(
                    rs.subrange(0, i as int),
                    start,
                    now,
                ).1[j] < i,
            forall|k: int|
                0 <= k < fired@.len() ==> fired_entry(
                    #[trigger] fired@[k],
                    rs[tick(rs.subrange(0, i as int), start, now).1[k]],
                ),
        decreases rs.len() - i,
    {
        let r = &reminders.reminders[i];
        proof {
            lemma_tick_ok_prefix(rs, start, now, i + 1);
            assert(rs.subrange(0, i + 1).drop_last() =~= rs.subrange(0, i as int));
            assert(rs.subrange(0, i + 1).last() == rs[i as int]);
        }
        if r.enabled && !r.completed {
            if is_due(r, state, now) {
                state.last_fired.insert(r.id, now);
                let character = match &r.character {
                    Some(c) => Some(c.clone()),
                    None => None,
                };
                fired.push((r.id, r.message(), character));
            }
        }
        i = i + 1;
    }
    assert(rs.subrange(0, rs.len() as int) =~= rs);
    fired
}

/// Whether `schedule_tick` may be called: every due time it computes can be
/// computed.
pub fn tick_computable(reminders: &ReminderList, state: &RunState, now: Timestamp) -> (r: bool)
    ensures
        r == tick_ok(reminders.reminders@, state.last_fired@, now),
{
    let ghost rs = reminders.reminders@;
    let ghost start = state.last_fired@;
    let mut sim = RunState { last_fired: state.last_fired.clone() };
    let mut i: usize = 0;
    while i < reminders.reminders.len()
        invariant
            0 <= i <= rs.len(),
            rs == reminders.reminders@,
            start == state.last_fired@,
            tick_ok(rs.subrange(0, i as int), start, now),
            sim.last_fired@ == tick(rs.subrange(0, i as int), start, now).0,
        decreases rs.len() - i,
    {
        let r = &reminders.reminders[i];
        proof {
            assert(rs.subrange(0, i + 1).drop_last() =~= rs.subrange(0, i as int));
            assert(rs.subrange(0, i + 1).last() == rs[i as int]);
        }
        if r.enabled && !r.completed {
            if !next_due_computable(r, &sim, now) {
                proof {
                    if tick_ok(rs, start, now) {
                        lemma_tick_ok_prefix(rs, start, now, i + 1);
                    }
                }
                return false;
            }
            if is_due(r, &sim, now) {
                sim.last_fired.insert(r.id, now);
            }
        }
        i = i + 1;
    }
    assert(rs.subrange(0, rs.len() as int) =~= rs);
    true
}

// -------------------------------------------------------------------- laws

/// `m` records a firing of `x` at `now`.
pub open spec fn fired_now(m: Map<u64, Timestamp>, x: u64, now: Timestamp) -> bool {
    m.contains_key(x) && m[x] == now
}

/// `a` and `b` record the same about reminder id `x`.
pub open spec fn same_entry(a: Map<u64, Timestamp>, b: Map<u64, Timestamp>, x: u64) -> bool {
    a.contains_key(x) == b.contains_key(x) && (a.contains_key(x) ==> a[x] == b[x])
}

/// A reminder's due time depends on the recorded firings only through its
/// own id.
pub proof fn lemma_due_depends_on_own_entry(r: Reminder, a: Map<u64, Timestamp>, b: Map<u64, Timestamp>, now: Timestamp)
    requires
        same_entry(a, b, r.id),
    ensures
        anchor_of(r, a, now) == anchor_of(r, b, now),
        next_due_value(r, a, now) == next_due_value(r, b, now),
        due_at(r, a, now) == due_at(r, b, now),
        next_due_ok(r, a, now) == next_due_ok(r, b, now),
{
}

/// After a tick, each id either carries a firing at `now` or is recorded as
/// before; every reminder the tick fired carries a firing at `now`.
proof fn lemma_tick_entries(rs: Seq<Reminder>, fired: Map<u64, Timestamp>, now: Timestamp, x: u64)
    ensures
        fired_now(tick(rs, fired, now).0, x, now) || same_entry(tick(rs, fired, now).0, fired, x),
        forall|k: int|
            0 <= k < tick(rs, fired, now).1.len() ==> 0 <= #[trigger] tick(rs, fired, now).1[k] < rs.len()
                && fired_now(tick(rs, fired, now).0, rs[tick(rs, fired, now).1[k]].id, now),
    decreases rs.len(),
{
    if rs.len() > 0 {
        let pre = rs.drop_last();
        lemma_tick_entries(pre, fired, now, x);
        let p = tick(pre, fired, now);
        assert forall|k: int| 0 <= k < p.1.len() implies pre[p.1[k]] == rs[p.1[k]] by {
            lemma_tick_entries(pre, fired, now, x);
        }
        assert forall|k: int| 0 <= k < p.1.len() implies #[trigger] fired_now(p.0, pre[p.1[k]].id, now) by {
            lemma_tick_entries(pre, fired, now, x);
        }
        assert forall|k: int| 0 <= k < p.1.len() implies fired_now(
            tick(rs, fired, now).0,
            rs[p.1[k]].id,
            now,
        ) by {
            lemma_tick_entries(pre, fired, now, x);
            assert(fired_now(p.0, pre[p.1[k]].id, now));
        }
    }
}

/// Once a tick has recorded a firing of `x` at `now`, the rest of the tick
/// keeps it.
proof fn lemma_tick_keeps_now(rs: Seq<Reminder>, fired: Map<u64, Timestamp>, now: Timestamp, x: u64, k: int)
    requires
        0 <= k <= rs.len(),
        fired_now(tick(rs.subrange(0, k), fired, now).0, x, now),
    ensures
        fired_now(tick(rs, fired, now).0, x, now),
    decreases rs.len() - k,
{
    if k < rs.len() {
        let s1 = rs.subrange(0, k + 1);
        assert(s1.drop_last() =~= rs.subrange(0, k));
        lemma_tick_keeps_now(rs, fired, now, x, k + 1);
    } else {
        assert(rs.subrange(0, k) =~= rs);
    }
}

/// A tick in which no eligible reminder is due changes nothing.
proof fn lemma_quiet_tick(rs: Seq<Reminder>, m: Map<u64, Timestamp>, now: Timestamp)
    requires
        forall|j: int| 0 <= j < rs.len() ==> !(eligible(rs[j]) && #[trigger] due_at(rs[j], m, now)),
    ensures
        tick(rs, m, now).0 == m,
        tick(rs, m, now).1.len() == 0,
    decreases rs.len(),
{
    if rs.len() > 0 {
        let pre = rs.drop_last();
        assert forall|j: int| 0 <= j < pre.len() implies !(eligible(pre[j]) && #[trigger] due_at(pre[j], m, now)) by {
            assert(pre[j] == rs[j]);
        }
        lemma_quiet_tick(pre, m, now);
        assert(rs.last() == rs[rs.len() - 1]);
    }
}

/// Duplicate prevention: a second tick at the same instant fires nothing
/// and records nothing new, provided every eligible schedule advances.
pub proof fn law_tick_idempotent(rs: Seq<Reminder>, fired: Map<u64, Timestamp>, now: Timestamp)
    requires
        forall|j: int| 0 <= j < rs.len() && eligible(rs[j]) ==> !never_advances(#[trigger] rs[j].schedule),
    ensures
        tick(rs, tick(rs, fired, now).0, now).0 == tick(rs, fired, now).0,
        tick(rs, tick(rs, fired, now).0, now).1.len() == 0,
{
    let m1 = tick(rs, fired, now).0;
    assert forall|j: int| 0 <= j < rs.len() implies !(eligible(rs[j]) && #[trigger] due_at(rs[j], m1, now)) by {
        let r = rs[j];
        if eligible(r) {
            if fired_now(m1, r.id, now) {
                law_next_due_after_anchor(r, m1, now);
            } else {
                let pre = rs.subrange(0, j);
                let mj = tick(pre, fired, now).0;
                lemma_tick_entries(rs, fired, now, r.id);
                lemma_tick_entries(pre, fired, now, r.id);
                if fired_now(mj, r.id, now) {
                    lemma_tick_keeps_now(rs, fired, now, r.id, j);
                }
                assert(same_entry(mj, m1, r.id));
                let s1 = rs.subrange(0, j + 1);
                assert(s1.drop_last() =~= pre);
                assert(s1.last() == r);
                if due_at(r, mj, now) {
                    assert(fired_now(tick(s1, fired, now).0, r.id, now));
                    lemma_tick_keeps_now(rs, fired, now, r.id, j + 1);
                }
                lemma_due_depends_on_own_entry(r, mj, m1, now);
            }
        }
    }
    lemma_quiet_tick(rs, m1, now);
}

/// After a sleep: an eligible interval reminder whose period has elapsed
/// (however many periods) fires exactly once on the wake tick, and a
/// second tick at the same instant fires nothing.
pub proof fn law_sleep_fires_once(r: Reminder, fired: Map<u64, Timestamp>, now: Timestamp)
    requires
        eligible(r),
        r.schedule is Interval,
        as_signed(r.schedule->Interval_0.seconds) > 0,
        parts_le(
            add_seconds_parts(anchor_of(r, fired, now), as_signed(r.schedule->Interval_0.seconds)),
            parts_of(now),
        ),
    ensures
        tick(seq![r], fired, now).1 == seq![0int],
        tick(seq![r], tick(seq![r], fired, now).0, now).1.len() == 0,
{
    crate::recurrence::law_overdue_interval_is_due(r, fired, now);
    let rs = seq![r];
    assert(rs.drop_last() =~= Seq::<Reminder>::empty());
    assert(rs.last() == r);
    let e = Seq::<Reminder>::empty();
    assert(tick(e, fired, now) == (fired, Seq::<int>::empty()));
    assert(due_at(r, tick(rs.drop_last(), fired, now).0, now));
    assert(Seq::<int>::empty().push(0int) =~= seq![0int]);
    assert(tick(rs, fired, now).1 =~= seq![0int]);
    law_tick_idempotent(rs, fired, now);
}

/// Persist before firing: every reminder a tick fires is recorded as fired
/// at `now` in the state the tick leaves.
pub proof fn law_tick_records_firings(rs: Seq<Reminder>, fired: Map<u64, Timestamp>, now: Timestamp)
    ensures
        forall|k: int|
            0 <= k < tick(rs, fired, now).1.len() ==> #[trigger] tick(rs, fired, now).0.contains_key(
                rs[tick(rs, fired, now).1[k]].id,
            ) && tick(rs, fired, now).0[rs[tick(rs, fired, now).1[k]].id] == now,
{
    lemma_tick_entries(rs, fired, now, 0);
}


// ------------------------------------------------------------------ status

/// `(later - earlier).num_seconds()` as `chrono` computes it for the
/// instants with the given parts.
pub uninterp spec fn whole_seconds_between(later_secs: int, later_nanos: int, earlier_secs: int, earlier_nanos: int) -> int;

/// `d` nanoseconds as whole seconds, rounded toward zero.
pub open spec fn whole_seconds_of_nanos(d: int) -> int {
    if d >= 0 {
        d / 1_000_000_000
    } else {
        -((-d) / 1_000_000_000)
    }
}

/// Calls `(later - earlier).num_seconds()` on the two instants as
/// `chrono::DateTime<Utc>`. Claims the named result and, for instants
/// outside leap seconds (where the difference is exact), that it is the
/// difference in whole seconds rounded toward zero, as
/// `TimeDelta::num_seconds` documents.
#[verifier::external_body]
pub(crate) fn seconds_between(later: &Timestamp, earlier: &Timestamp) -> (r: i64)
    ensures
        r == whole_seconds_between(later.spec_secs(), later.spec_nanos(), earlier.spec_secs(), earlier.spec_nanos()),
        later.spec_nanos() < 1_000_000_000 && earlier.spec_nanos() < 1_000_000_000 ==> r
            == whole_seconds_of_nanos(
            (later.spec_secs() - earlier.spec_secs()) * 1_000_000_000 + later.spec_nanos()
                - earlier.spec_nanos(),
        ),
{
    let a = chrono::DateTime::from_timestamp(later.secs(), later.nanos()).unwrap();
    let b = chrono::DateTime::from_timestamp(earlier.secs(), earlier.nanos()).unwrap();
    (a - b).num_seconds()
}

/// The whole seconds from `now` until the instant with parts `p`.
pub open spec fn seconds_until(p: (int, int), now: Timestamp) -> int {
    whole_seconds_between(p.0, p.1, now.spec_secs(), now.spec_nanos())
}

/// How many reminders of `rs` are enabled.
pub open spec fn count_enabled(rs: Seq<Reminder>) -> nat
    decreases rs.len(),
{
    if rs.len() == 0 {
        0
    } else {
        count_enabled(rs.drop_last()) + if rs.last().enabled {
            1nat
        } else {
            0nat
        }
    }
}

/// `info` is the status of a daemon with process id `pid` holding the
/// reminders `rs` with recorded firings `fired` and active character
/// `character`, at `now`: the counts, and the soonest upcoming reminder's
/// title with the whole seconds until it is due (none when nothing is
/// upcoming).
pub open spec fn status_fits(
    info: StatusInfo,
    pid: u32,
    rs: Seq<Reminder>,
    fired: Map<u64, Timestamp>,
    character: String,
    now: Timestamp,
) -> bool {
    &&& info.pid == pid
    &&& info.reminders == rs.len()
    &&& info.enabled_reminders == count_enabled(rs)
    &&& info.character == character
    &&& match soonest(rs, fired, now) {
        Some(i) => info.next_title matches Some(t) && t@ == rs[i].title@ && info.next_in_secs
            == Some(seconds_until(upcoming_at(rs[i], fired, now)->0, now) as i64),
        None => info.next_title is None && info.next_in_secs is None,
    }
}

/// Every eligible reminder's next due time can be computed.
pub open spec fn all_due_ok(rs: Seq<Reminder>, fired: Map<u64, Timestamp>, now: Timestamp) -> bool {
    forall|j: int| 0 <= j < rs.len() ==> eligible(#[trigger] rs[j]) ==> next_due_ok(rs[j], fired, now)
}

/// Whether the status can be computed: every eligible reminder's next due
/// time can be.
pub fn status_computable(reminders: &ReminderList, state: &RunState, now: Timestamp) -> (r: bool)
    ensures
        r == all_due_ok(reminders.reminders@, state.last_fired@, now),
{
    let mut i: usize = 0;
    while i < reminders.reminders.len()
        invariant
            0 <= i <= reminders.reminders@.len(),
            forall|j: int| 0 <= j < i ==> eligible(#[trigger] reminders.reminders@[j]) ==> next_due_ok(
                reminders.reminders@[j],
                state.last_fired@,
                now,
            ),
        decreases reminders.reminders@.len() - i,
    {
        let r = &reminders.reminders[i];
        if r.enabled && !r.completed && !next_due_computable(r, state, now) {
            return false;
        }
        i = i + 1;
    }
    true
}

/// The status a daemon reports: its pid, how many reminders it holds and
/// how many are enabled, the active character, and the soonest upcoming
/// reminder with the whole seconds until it is due.
pub fn status_info(pid: u32, reminders: &ReminderList, state: &RunState, character: String, now: Timestamp) -> (r: StatusInfo)
    requires
        all_due_ok(reminders.reminders@, state.last_fired@, now),
    ensures
        status_fits(r, pid, reminders.reminders@, state.last_fired@, character, now),
{
    let next = next_upcoming(reminders.reminders.as_slice(), state, now);
    let mut enabled: usize = 0;
    let mut i: usize = 0;
    while i < reminders.reminders.len()
        invariant
            0 <= i <= reminders.reminders@.len(),
            enabled == count_enabled(reminders.reminders@.subrange(0, i as int)),
            enabled <= i,
        decreases reminders.reminders@.len() - i,
    {
        proof {
            let s1 = reminders.reminders@.subrange(0, i + 1);
            assert(s1.drop_last() =~= reminders.reminders@.subrange(0, i as int));
        }
        if reminders.reminders[i].enabled {
            enabled = enabled + 1;
        }
        i = i + 1;
    }
    assert(reminders.reminders@.subrange(0, reminders.reminders@.len() as int) =~= reminders.reminders@);
    let (next_title, next_in_secs) = match next {
        Some((r, t)) => (Some(r.title.clone()), Some(seconds_between(&t, &now))),
        None => (None, None),
    };
    StatusInfo {
        pid,
        reminders: reminders.reminders.len(),
        enabled_reminders: enabled,
        character,
        next_title,
        next_in_secs,
    }
}

// ------------------------------------------------------------ loop choices

/// A wall-clock gap between ticks above this many milliseconds (one tick
/// plus five seconds) means the machine slept.
pub const WAKE_GAP_MILLIS: u64 = 6000;

/// The machine slept when the time since the last tick exceeds one tick
/// (1 s) plus the sleep gap (5 s); the time is given as whole seconds and
/// nanoseconds.
pub fn woke_from_sleep(elapsed_secs: u64, elapsed_nanos: u32) -> (r: bool)
    ensures
        r == (elapsed_secs > 6 || (elapsed_secs == 6 && elapsed_nanos > 0)),
{
    elapsed_secs > 6 || (elapsed_secs == 6 && elapsed_nanos > 0)
}

/// How many queued shows may start: the queue's capacity less the
/// renderers still alive, never below zero.
pub fn free_slots(capacity: usize, alive: usize) -> (r: usize)
    ensures
        r == (if capacity >= alive { capacity - alive } else { 0 }),
{
    if capacity >= alive {
        capacity - alive
    } else {
        0
    }
}

/// The log line for a firing: `reminder {id} triggered: {message}`.
pub open spec fn trigger_line(id: u64, message: Seq<char>) -> Seq<char> {
    "reminder "@ + crate::text::decimal(id as nat) + " triggered: "@ + message
}

/// The log line for a firing.
pub fn trigger_log_line(id: u64, message: &str) -> (r: String)
    ensures
        r@ == trigger_line(id, message@),
{
    let mut v: Vec<char> = Vec::new();
    push_str(&mut v, "reminder ");
    push_decimal(&mut v, id);
    push_str(&mut v, " triggered: ");
    push_str(&mut v, message);
    string_of(v.as_slice())
}

/// The pending show for a fired reminder, labelled with its id.
pub fn pending_for(id: u64, message: String, character: Option<String>) -> (r: PendingShow)
    ensures
        r.message == message,
        r.character == character,
        r.label@ == crate::text::decimal(id as nat),
{
    let mut v: Vec<char> = Vec::new();
    push_decimal(&mut v, id);
    PendingShow { message, character, label: string_of(v.as_slice()) }
}

/// The label of shows requested by hand.
pub open spec fn manual_label() -> Seq<char> {
    "manual"@
}

/// Answers one IPC request: `Ping` reports the status, `Show` queues a walk
/// labelled "manual", `Stop` raises the stop flag.
pub fn handle_request(
    req: Request,
    queue: &mut ShowQueue,
    stop: &mut bool,
    pid: u32,
    reminders: &ReminderList,
    state: &RunState,
    character: String,
    now: Timestamp,
) -> (r: Response)
    requires
        req is Ping ==> all_due_ok(reminders.reminders@, state.last_fired@, now),
    ensures
        r.ok,
        r.error is None,
        match req {
            Request::Ping => r.info matches Some(info) && status_fits(
                info,
                pid,
                reminders.reminders@,
                state.last_fired@,
                character,
                now,
            ) && *final(stop) == *old(stop) && final(queue)@ == old(queue)@,
            Request::Show { message, character: c } => r.info is None && *final(stop)
                == *old(stop) && final(queue)@.len() >= 1 && final(queue)@.last().message
                == message && final(queue)@.last().character == c
                && final(queue)@.last().label@ == manual_label() && final(queue)@.drop_last()
                == (if old(queue)@.len() >= crate::queue::QUEUE_BOUND {
                old(queue)@.drop_first()
            } else {
                old(queue)@
            }),
            Request::Stop => r.info is None && *final(stop) && final(queue)@ == old(queue)@,
        },
        final(queue).slots() == old(queue).slots(),
{
    match req {
        Request::Ping => Response::ok(Some(status_info(pid, reminders, state, character, now))),
        Request::Show { message, character: c } => {
            queue.push(PendingShow { message, character: c, label: String::from_str("manual") });
            Response::ok(None)
        },
        Request::Stop => {
            *stop = true;
            Response::ok(None)
        },
    }
}


// ------------------------------------------------------------------ errors

/// Why the daemon could not run.
#[derive(Debug)]
pub enum DaemonError {
    /// Another daemon holds the lock (its pid, 0 when unknown).
    AlreadyRunning(u32),
    Io(std::io::Error),
    Store(StoreError),
}

impl DaemonError {
    /// The error's message.
    pub fn message(&self) -> (r: String)
        ensures
            match self {
                DaemonError::AlreadyRunning(pid) => r@ == "another daemon is already running (pid "@
                    + crate::text::decimal(*pid as nat) + ")"@,
                DaemonError::Store(StoreError::Invalid { path, message }) => r@ == "invalid data in "@
                    + path@ + ": "@ + message@,
                DaemonError::Store(StoreError::Io(_)) => exists|t: Seq<char>| r@ == "io error: "@ + t,
                DaemonError::Io(_) => true,
            },
    {
        match self {
            DaemonError::AlreadyRunning(pid) => {
                let mut v: Vec<char> = Vec::new();
                push_str(&mut v, "another daemon is already running (pid ");
                push_decimal(&mut v, *pid as u64);
                push_str(&mut v, ")");
                string_of(v.as_slice())
            },
            DaemonError::Io(e) => io_error_text(e),
            DaemonError::Store(e) => e.message(),
        }
    }
}


/// The arguments a renderer process is started with for `show`:
/// `__render --message <message>`, then `--character <name>` when the show
/// names one, then `--no-render` in headless mode.
pub open spec fn render_args_text(show: PendingShow, headless: bool) -> Seq<Seq<char>> {
    seq!["__render"@, "--message"@, show.message@] + (match show.character {
        Some(c) => seq!["--character"@, c@],
        None => Seq::empty(),
    }) + (if headless {
        seq!["--no-render"@]
    } else {
        Seq::empty()
    })
}

/// The arguments a renderer process is started with.
pub fn render_args(show: &PendingShow, headless: bool) -> (r: Vec<String>)
    ensures
        r@.map_values(|s: String| s@) == render_args_text(*show, headless),
{
    let mut v: Vec<String> = Vec::new();
    v.push(String::from_str("__render"));
    v.push(String::from_str("--message"));
    v.push(show.message.clone());
    match &show.character {
        Some(c) => {
            v.push(String::from_str("--character"));
            v.push(c.clone());
        },
        None => {},
    }
    if headless {
        v.push(String::from_str("--no-render"));
    }
    assert(v@.map_values(|s: String| s@) =~= render_args_text(*show, headless));
    v
}

} // verus!
