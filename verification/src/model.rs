//! Reminder data model.
//!
//! The engine is intentionally decoupled from presentation: a `Reminder`
//! describes *what* and *when*, never *how it is displayed*.

use std::collections::BTreeMap;

use vstd::prelude::*;

use crate::recurrence::Schedule;
use crate::text::{push_str, string_of};
use crate::time::{effective_tz, timezone_known, utc_string, Timestamp};

verus! {

broadcast use vstd::std_specs::btree::group_btree_axioms, vstd::laws_cmp::group_laws_cmp;

/// Top-level `reminders.json` document.
#[derive(Debug, Clone)]
pub struct ReminderList {
    pub version: u32,
    pub next_id: u64,
    pub reminders: Vec<Reminder>,
}

impl Default for ReminderList {
    fn default() -> (r: ReminderList)
        ensures
            r.version == 1,
            r.next_id == 1,
            r.reminders@.len() == 0,
    {
        ReminderList { version: 1, next_id: 1, reminders: Vec::new() }
    }
}

/// Index of the first reminder of `rs` with the given id.
pub open spec fn first_with_id(rs: Seq<Reminder>, id: u64) -> Option<int>
    decreases rs.len(),
{
    if rs.len() == 0 {
        None
    } else {
        match first_with_id(rs.drop_last(), id) {
            Some(i) => Some(i),
            None => if rs.last().id == id {
                Some(rs.len() - 1)
            } else {
                None
            },
        }
    }
}

pub proof fn lemma_first_with_id(rs: Seq<Reminder>, id: u64)
    ensures
        match first_with_id(rs, id) {
            Some(i) => 0 <= i < rs.len() && rs[i].id == id && forall|j: int|
                0 <= j < i ==> rs[j].id != id,
            None => forall|j: int| 0 <= j < rs.len() ==> rs[j].id != id,
        },
    decreases rs.len(),
{
    if rs.len() > 0 {
        lemma_first_with_id(rs.drop_last(), id);
        match first_with_id(rs.drop_last(), id) {
            Some(i) => {
                assert forall|j: int| 0 <= j < i implies rs[j].id != id by {
                    assert(rs[j] == rs.drop_last()[j]);
                }
            },
            None => {
                assert forall|j: int| 0 <= j < rs.len() - 1 implies rs[j].id != id by {
                    assert(rs[j] == rs.drop_last()[j]);
                }
            },
        }
    }
}

fn index_of_id(rs: &Vec<Reminder>, id: u64) -> (r: Option<usize>)
    ensures
        match first_with_id(rs@, id) {
            Some(i) => r == Some(i as usize) && 0 <= i < rs.len(),
            None => r is None,
        },
{
    proof {
        lemma_first_with_id(rs@, id);
    }
    let mut i: usize = 0;
    while i < rs.len()
        invariant
            0 <= i <= rs.len(),
            forall|j: int| 0 <= j < i ==> rs@[j].id != id,
            match first_with_id(rs@, id) {
                Some(k) => 0 <= k < rs@.len() && rs@[k].id == id && forall|j: int|
                    0 <= j < k ==> rs@[j].id != id,
                None => forall|j: int| 0 <= j < rs@.len() ==> rs@[j].id != id,
            },
        decreases rs.len() - i,
    {
        if rs[i].id == id {
            return Some(i);
        }
        i = i + 1;
    }
    None
}

impl ReminderList {
    /// The first reminder with the given id.
    pub fn get(&self, id: u64) -> (r: Option<&Reminder>)
        ensures
            match first_with_id(self.reminders@, id) {
                Some(i) => r == Some(&self.reminders@[i]),
                None => r is None,
            },
    {
        let k = index_of_id(&self.reminders, id);
        match k {
            Some(i) => {
                let r = &self.reminders[i];
                assert(first_with_id(self.reminders@, id) == Some(i as int));
                assert(*r == self.reminders@[i as int]);
                Some(r)
            },
            None => None,
        }
    }

    /// The first reminder with the given id, for changing it in place.
    pub fn get_mut(&mut self, id: u64) -> (r: Option<&mut Reminder>)
        ensures
            match first_with_id(old(self).reminders@, id) {
                Some(i) => r matches Some(x) && *x == old(self).reminders@[i]
                    && final(self).reminders@ == old(self).reminders@.update(i, *final(x))
                    && final(self).version == old(self).version
                    && final(self).next_id == old(self).next_id,
                None => r is None && *final(self) == *old(self),
            },
    {
        match index_of_id(&self.reminders, id) {
            Some(i) => Some(&mut self.reminders[i]),
            None => None,
        }
    }
}

/// A single reminder.
#[derive(Debug, Clone)]
pub struct Reminder {
    pub id: u64,
    pub title: String,
    /// Emoji shown in the speech bubble. Optional.
    pub emoji: Option<String>,
    /// Recurrence definition. See [`crate::recurrence::Schedule`].
    pub schedule: Schedule,
    /// Character override for this reminder; `None` uses the global config.
    pub character: Option<String>,
    /// IANA timezone the schedule is interpreted in.
    pub timezone: String,
    pub enabled: bool,
    /// Set when a one-time reminder has fired (kept for history).
    pub completed: bool,
    /// Creation time.
    pub created: Timestamp,
}

/// The message shown for a reminder: emoji, a space, the title and an
/// exclamation mark (`💧 Drink water!`), or the title alone when there is
/// no (or an empty) emoji.
pub open spec fn message_text(r: Reminder) -> Seq<char> {
    match r.emoji {
        Some(e) => if e@.len() > 0 {
            e@ + " "@ + r.title@ + "!"@
        } else {
            r.title@
        },
        None => r.title@,
    }
}

impl Reminder {
    /// The zone the schedule is read in: the reminder's own zone when
    /// `chrono_tz` knows it, else UTC.
    pub fn tz(&self) -> (r: String)
        ensures
            r@ == effective_tz(self.timezone@),
    {
        if timezone_known(self.timezone.as_str()) {
            self.timezone.clone()
        } else {
            utc_string()
        }
    }

    /// Message displayed by the renderer, e.g. `💧 Drink water!`.
    pub fn message(&self) -> (r: String)
        ensures
            r@ == message_text(*self),
    {
        match &self.emoji {
            Some(e) => {
                if e.as_str().is_empty() {
                    self.title.clone()
                } else {
                    let mut v: Vec<char> = Vec::new();
                    push_str(&mut v, e.as_str());
                    push_str(&mut v, " ");
                    push_str(&mut v, self.title.as_str());
                    push_str(&mut v, "!");
                    string_of(v.as_slice())
                }
            },
            None => self.title.clone(),
        }
    }
}

/// Persisted per-reminder runtime state (`state.json`).
#[derive(Debug, Clone)]
pub struct RunState {
    /// reminder id -> last fired time.
    pub last_fired: BTreeMap<u64, Timestamp>,
}

impl Default for RunState {
    fn default() -> (r: RunState)
        ensures
            r.last_fired@ == Map::<u64, Timestamp>::empty(),
    {
        RunState { last_fired: BTreeMap::new() }
    }
}

impl RunState {
    /// A copy of this state in which reminder `id` last fired at `at`.
    pub fn fired(&self, id: u64, at: Timestamp) -> (r: RunState)
        ensures
            r.last_fired@ == self.last_fired@.insert(id, at),
    {
        let mut m = self.last_fired.clone();
        m.insert(id, at);
        RunState { last_fired: m }
    }

    /// When reminder `id` last fired, if it has.
    pub fn last(&self, id: u64) -> (r: Option<Timestamp>)
        ensures
            match r {
                Some(t) => self.last_fired@.contains_key(id) && self.last_fired@[id] == t,
                None => !self.last_fired@.contains_key(id),
            },
    {
        match self.last_fired.get(&id) {
            Some(t) => Some(*t),
            None => None,
        }
    }
}

} // verus!
