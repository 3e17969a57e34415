//! The menu bar item of the daemon (on desktops that show one): the texts
//! of its entries and what its actions do to the reminders. Drawing the
//! menu belongs to the platform.

use vstd::prelude::*;

use crate::model::{message_text, Reminder, ReminderList, RunState};
use crate::recurrence::{
    as_signed, humanize, humanized_schedule, next_due, next_due_ok, next_due_value,
    next_upcoming, parts_le, parts_of, signed_of, soonest, upcoming_at,
};
use crate::runner::{all_due_ok, eligible, seconds_between, seconds_until, whole_seconds_between};
use crate::text::{push_str, string_of};
use crate::time::Timestamp;
use crate::util::{humanize_duration_short, short_duration};

verus! {

/// The menu's header: the soonest upcoming reminder and how long until it
/// is due, or just the program's name.
pub open spec fn header_text(rs: Seq<Reminder>, fired: Map<u64, Timestamp>, now: Timestamp) -> Seq<char> {
    match soonest(rs, fired, now) {
        Some(i) => "Dribble — next: "@ + rs[i].title@ + " in "@ + short_duration(
            seconds_until(upcoming_at(rs[i], fired, now)->0, now),
        ),
        None => "Dribble"@,
    }
}

/// The header of the menu.
pub fn menu_header(reminders: &ReminderList, state: &RunState, now: Timestamp) -> (r: String)
    requires
        all_due_ok(reminders.reminders@, state.last_fired@, now),
    ensures
        r@ == header_text(reminders.reminders@, state.last_fired@, now),
{
    match next_upcoming(reminders.reminders.as_slice(), state, now) {
        Some((r, t)) => {
            let mut v: Vec<char> = Vec::new();
            push_str(&mut v, "Dribble — next: ");
            push_str(&mut v, r.title.as_str());
            push_str(&mut v, " in ");
            push_str(&mut v, humanize_duration_short(seconds_between(&t, &now)).as_str());
            string_of(v.as_slice())
        },
        None => String::from_str("Dribble"),
    }
}

/// When a reminder in the menu is next due: done, paused, due now, in how
/// long, or a dash when it has no next time.
pub open spec fn menu_next_text(r: Reminder, fired: Map<u64, Timestamp>, now: Timestamp) -> Seq<char> {
    if r.completed {
        "done"@
    } else if !r.enabled {
        "paused"@
    } else {
        match next_due_value(r, fired, now) {
            Some(p) => if parts_le(p, parts_of(now)) {
                "due now"@
            } else {
                "in "@ + short_duration(whole_seconds_between(p.0, p.1, now.spec_secs(), now.spec_nanos()))
            },
            None => "—"@,
        }
    }
}

/// A reminder's entry: its mark, emoji, title, schedule and next time.
pub open spec fn menu_line_text(r: Reminder, fired: Map<u64, Timestamp>, now: Timestamp) -> Seq<char> {
    (if r.completed {
        "✓"@
    } else if r.enabled {
        "●"@
    } else {
        "○"@
    }) + " "@ + (match r.emoji {
        Some(e) => e@,
        None => Seq::empty(),
    }) + " "@ + r.title@ + " — "@ + humanized_schedule(r.schedule) + " · "@ + menu_next_text(
        r,
        fired,
        now,
    )
}

/// The menu entry of a reminder.
pub fn menu_line(r: &Reminder, state: &RunState, now: Timestamp) -> (line: String)
    requires
        eligible(*r) ==> next_due_ok(*r, state.last_fired@, now),
    ensures
        line@ == menu_line_text(*r, state.last_fired@, now),
{
    let next = if r.completed {
        String::from_str("done")
    } else if !r.enabled {
        String::from_str("paused")
    } else {
        match next_due(r, state, now) {
            Some(t) => if !now.is_before(&t) {
                String::from_str("due now")
            } else {
                let mut v: Vec<char> = Vec::new();
                push_str(&mut v, "in ");
                push_str(&mut v, humanize_duration_short(seconds_between(&t, &now)).as_str());
                string_of(v.as_slice())
            },
            None => String::from_str("—"),
        }
    };
    let mut v: Vec<char> = Vec::new();
    if r.completed {
        push_str(&mut v, "✓");
    } else if r.enabled {
        push_str(&mut v, "●");
    } else {
        push_str(&mut v, "○");
    }
    push_str(&mut v, " ");
    match &r.emoji {
        Some(e) => push_str(&mut v, e.as_str()),
        None => {},
    }
    push_str(&mut v, " ");
    push_str(&mut v, r.title.as_str());
    push_str(&mut v, " — ");
    push_str(&mut v, humanize(&r.schedule).as_str());
    push_str(&mut v, " · ");
    push_str(&mut v, next.as_str());
    string_of(v.as_slice())
}

/// Most reminders the menu lists.
pub const MENU_REMINDERS: usize = 20;

/// The entries for the first twenty reminders: the text, the tag that names
/// the reminder (its id read as an `i64`), and whether the entry can be
/// chosen (not for completed reminders).
pub fn menu_entries(reminders: &ReminderList, state: &RunState, now: Timestamp) -> (r: Vec<(String, i64, bool)>)
    requires
        all_due_ok(reminders.reminders@, state.last_fired@, now),
    ensures
        r@.len() == (if reminders.reminders@.len() < 20 {
            reminders.reminders@.len() as int
        } else {
            20
        }),
        forall|k: int|
            0 <= k < r@.len() ==> (#[trigger] r@[k]).0@ == menu_line_text(
                reminders.reminders@[k],
                state.last_fired@,
                now,
            ) && r@[k].1 == as_signed(reminders.reminders@[k].id) && r@[k].2
                == !reminders.reminders@[k].completed,
{
    let n = if reminders.reminders.len() < MENU_REMINDERS {
        reminders.reminders.len()
    } else {
        MENU_REMINDERS
    };
    let mut out: Vec<(String, i64, bool)> = Vec::new();
    let mut i: usize = 0;
    while i < n
        invariant
            0 <= i <= n <= reminders.reminders@.len(),
            n == (if reminders.reminders@.len() < 20 {
                reminders.reminders@.len() as int
            } else {
                20
            }),
            all_due_ok(reminders.reminders@, state.last_fired@, now),
            out@.len() == i,
            forall|k: int|
                0 <= k < i ==> (#[trigger] out@[k]).0@ == menu_line_text(
                    reminders.reminders@[k],
                    state.last_fired@,
                    now,
                ) && out@[k].1 == as_signed(reminders.reminders@[k].id) && out@[k].2
                    == !reminders.reminders@[k].completed,
        decreases n - i,
    {
        let r = &reminders.reminders[i];
        assert(eligible(reminders.reminders@[i as int]) ==> next_due_ok(
            reminders.reminders@[i as int],
            state.last_fired@,
            now,
        ));
        out.push((menu_line(r, state, now), signed_of(r.id), !r.completed));
        i = i + 1;
    }
    out
}

/// The pause entry's title: pause while any reminder is enabled.
pub fn pause_all_title(reminders: &ReminderList) -> (r: String)
    ensures
        r@ == (if exists|j: int| 0 <= j < reminders.reminders@.len() && #[trigger] reminders.reminders@[j].enabled {
            "Pause all reminders"@
        } else {
            "Resume all reminders"@
        }),
{
    if any_enabled(reminders) {
        String::from_str("Pause all reminders")
    } else {
        String::from_str("Resume all reminders")
    }
}

fn any_enabled(reminders: &ReminderList) -> (r: bool)
    ensures
        r == exists|j: int| 0 <= j < reminders.reminders@.len() && #[trigger] reminders.reminders@[j].enabled,
{
    let mut i: usize = 0;
    while i < reminders.reminders.len()
        invariant
            0 <= i <= reminders.reminders@.len(),
            forall|j: int| 0 <= j < i ==> !(#[trigger] reminders.reminders@[j]).enabled,
        decreases reminders.reminders@.len() - i,
    {
        if reminders.reminders[i].enabled {
            return true;
        }
        i = i + 1;
    }
    false
}

/// The message "Walk now" shows: the first enabled, not completed
/// reminder's, else a greeting.
pub open spec fn walk_now_text(rs: Seq<Reminder>) -> Seq<char>
    decreases rs.len(),
{
    if rs.len() == 0 {
        "⚽ Hello! 💙"@
    } else if eligible(rs[0]) {
        message_text(rs[0])
    } else {
        walk_now_text(rs.drop_first())
    }
}

/// The message "Walk now" shows.
pub fn walk_now_message(reminders: &ReminderList) -> (r: String)
    ensures
        r@ == walk_now_text(reminders.reminders@),
{
    let ghost rs = reminders.reminders@;
    let mut i: usize = 0;
    assert(rs.skip(0) =~= rs);
    while i < reminders.reminders.len()
        invariant
            0 <= i <= rs.len(),
            rs == reminders.reminders@,
            walk_now_text(rs) == walk_now_text(rs.skip(i as int)),
        decreases rs.len() - i,
    {
        let r = &reminders.reminders[i];
        assert(rs.skip(i as int)[0] == rs[i as int]);
        if r.enabled && !r.completed {
            return r.message();
        }
        assert(rs.skip(i as int).drop_first() =~= rs.skip(i + 1));
        i = i + 1;
    }
    assert(rs.skip(i as int) =~= Seq::<Reminder>::empty());
    String::from_str("⚽ Hello! 💙")
}

/// "Pause/Resume all": every reminder is disabled when any was enabled,
/// else every reminder is enabled.
pub fn toggle_pause_all(reminders: &mut ReminderList)
    ensures
        final(reminders).version == old(reminders).version,
        final(reminders).next_id == old(reminders).next_id,
        final(reminders).reminders@ == old(reminders).reminders@.map_values(
            |x: Reminder| Reminder {
                enabled: !(exists|j: int| 0 <= j < old(reminders).reminders@.len() && #[trigger] old(reminders).reminders@[j].enabled),
                ..x
            },
        ),
{
    let to = !any_enabled(reminders);
    let ghost target = to;
    let mut rest: Vec<Reminder> = Vec::new();
    std::mem::swap(&mut rest, &mut reminders.reminders);
    let ghost orig = rest@;
    let total = rest.len();
    assert(orig.len() == total);
    let mut out: Vec<Reminder> = Vec::new();
    let mut i: usize = 0;
    while rest.len() > 0
        invariant
            0 <= i <= orig.len(),
            orig.len() <= usize::MAX,
            rest@ == orig.skip(i as int),
            out@ == orig.take(i as int).map_values(|x: Reminder| Reminder { enabled: to, ..x }),
        decreases rest@.len(),
    {
        let mut x = rest.remove(0);
        proof {
            assert(x == orig[i as int]);
            assert(rest@ =~= orig.skip(i + 1));
        }
        x.enabled = to;
        let ghost before = out@;
        out.push(x);
        proof {
            assert(orig.take(i + 1).map_values(|x: Reminder| Reminder { enabled: to, ..x }) =~= orig.take(
                i as int,
            ).map_values(|x: Reminder| Reminder { enabled: to, ..x }).push(
                Reminder { enabled: to, ..orig[i as int] },
            ));
        }
        i = i + 1;
    }
    assert(orig.take(orig.len() as int) =~= orig);
    reminders.reminders = out;
}

/// Choosing a reminder's entry flips whether the first reminder whose id
/// reads as `tag` is enabled; with no such reminder nothing changes.
pub fn toggle_reminder(reminders: &mut ReminderList, tag: i64)
    ensures
        final(reminders).version == old(reminders).version,
        final(reminders).next_id == old(reminders).next_id,
        final(reminders).reminders@.len() == old(reminders).reminders@.len(),
        match first_tagged(old(reminders).reminders@, tag) {
            Some(i) => final(reminders).reminders@ == old(reminders).reminders@.update(
                i,
                Reminder { enabled: !old(reminders).reminders@[i].enabled, ..old(reminders).reminders@[i] },
            ),
            None => final(reminders).reminders@ == old(reminders).reminders@,
        },
{
    let ghost orig = reminders.reminders@;
    let mut i: usize = 0;
    while i < reminders.reminders.len()
        invariant
            0 <= i <= orig.len(),
            reminders.reminders@ == orig,
            reminders.version == old(reminders).version,
            reminders.next_id == old(reminders).next_id,
            orig == old(reminders).reminders@,
            forall|j: int| 0 <= j < i ==> as_signed(#[trigger] orig[j].id) != tag,
        decreases orig.len() - i,
    {
        if signed_of(reminders.reminders[i].id) == tag {
            proof {
                lemma_first_tagged(orig, tag);
            }
            let mut rest: Vec<Reminder> = Vec::new();
            std::mem::swap(&mut rest, &mut reminders.reminders);
            let mut x = rest.remove(i);
            x.enabled = !x.enabled;
            rest.insert(i, x);
            proof {
                assert(rest@ =~= orig.update(
                    i as int,
                    Reminder { enabled: !orig[i as int].enabled, ..orig[i as int] },
                ));
            }
            reminders.reminders = rest;
            return;
        }
        i = i + 1;
    }
    proof {
        lemma_first_tagged(orig, tag);
    }
}

/// The index of the first reminder whose id reads as `tag`.
pub open spec fn first_tagged(rs: Seq<Reminder>, tag: i64) -> Option<int>
    decreases rs.len(),
{
    if rs.len() == 0 {
        None
    } else {
        match first_tagged(rs.drop_last(), tag) {
            Some(i) => Some(i),
            None => if as_signed(rs.last().id) == tag {
                Some(rs.len() - 1)
            } else {
                None
            },
        }
    }
}

proof fn lemma_first_tagged(rs: Seq<Reminder>, tag: i64)
    ensures
        match first_tagged(rs, tag) {
            Some(i) => 0 <= i < rs.len() && as_signed(rs[i].id) == tag && forall|j: int|
                0 <= j < i ==> as_signed(#[trigger] rs[j].id) != tag,
            None => forall|j: int| 0 <= j < rs.len() ==> as_signed(#[trigger] rs[j].id) != tag,
        },
    decreases rs.len(),
{
    if rs.len() > 0 {
        lemma_first_tagged(rs.drop_last(), tag);
        assert forall|j: int| 0 <= j < rs.len() - 1 implies rs.drop_last()[j] == rs[j] by {}
        assert(rs.last() == rs[rs.len() - 1]);
    }
}

} // verus!
