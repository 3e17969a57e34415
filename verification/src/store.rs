//! Persistence decisions for reminders and runtime state.
//!
//! - Atomic writes (tmp + rename) so a crash never corrupts data.
//! - A `.bak` of the last good version is kept.
//! - On corruption, the backup is restored and the bad file quarantined
//!   (`reminders.json.corrupt-<timestamp>`) instead of crashing.
//!
//! The program reads and writes the files; the rules for what is read back,
//! what is kept and what is reported live here.

use vstd::prelude::*;

use crate::model::{Reminder, ReminderList, RunState};
use crate::sys::io_error_text;
use crate::text::{decimal, push_decimal, push_str, string_of};

verus! {

/// Why reminders or state could not be stored or read.
#[derive(Debug)]
pub enum StoreError {
    Io(std::io::Error),
    Invalid { path: String, message: String },
}

impl StoreError {
    /// The error's message: `io error: {io error}` or
    /// `invalid data in {path}: {message}`.
    pub fn message(&self) -> (r: String)
        ensures
            match self {
                StoreError::Io(_) => exists|t: Seq<char>| r@ == "io error: "@ + t,
                StoreError::Invalid { path, message } => r@ == "invalid data in "@ + path@ + ": "@
                    + message@,
            },
    {
        let mut v: Vec<char> = Vec::new();
        match self {
            StoreError::Io(e) => {
                push_str(&mut v, "io error: ");
                let ghost head = v@;
                push_str(&mut v, io_error_text(e).as_str());
                proof {
                    let t = v@.subrange(head.len() as int, v@.len() as int);
                    assert(v@ =~= "io error: "@ + t);
                }
            },
            StoreError::Invalid { path, message } => {
                push_str(&mut v, "invalid data in ");
                push_str(&mut v, path.as_str());
                push_str(&mut v, ": ");
                push_str(&mut v, message.as_str());
            },
        }
        string_of(v.as_slice())
    }
}

/// Where the backup of a file is kept: its path with `.bak` appended.
pub fn backup_path(path: &str) -> (r: String)
    ensures
        r@ == path@ + ".bak"@,
{
    let mut v: Vec<char> = Vec::new();
    push_str(&mut v, path);
    push_str(&mut v, ".bak");
    string_of(v.as_slice())
}

/// Where a corrupted file is moved: its path with `.corrupt-<stamp>`
/// appended (`stamp` in seconds since the Unix epoch).
pub fn quarantine_path(path: &str, stamp: u64) -> (r: String)
    ensures
        r@ == path@ + ".corrupt-"@ + decimal(stamp as nat),
{
    let mut v: Vec<char> = Vec::new();
    push_str(&mut v, path);
    push_str(&mut v, ".corrupt-");
    push_decimal(&mut v, stamp);
    string_of(v.as_slice())
}

/// The largest id of `rs` plus one, or `floor` if that is larger.
pub open spec fn next_id_after(rs: Seq<Reminder>, floor: int) -> int
    decreases rs.len(),
{
    if rs.len() == 0 {
        floor
    } else {
        let n = next_id_after(rs.drop_last(), floor);
        if rs.last().id + 1 > n {
            rs.last().id + 1
        } else {
            n
        }
    }
}

/// Ids are never reused: the next id of a loaded document lies above every
/// stored id (and is at least the document's own), and fits in a `u64`
/// when every id is below the largest one.
pub proof fn law_next_id_exceeds_ids(rs: Seq<Reminder>, floor: int)
    ensures
        next_id_after(rs, floor) >= floor,
        forall|j: int| 0 <= j < rs.len() ==> next_id_after(rs, floor) > #[trigger] rs[j].id,
        (forall|j: int| 0 <= j < rs.len() ==> #[trigger] rs[j].id < u64::MAX) && floor <= u64::MAX
            ==> next_id_after(rs, floor) <= u64::MAX,
    decreases rs.len(),
{
    if rs.len() > 0 {
        law_next_id_exceeds_ids(rs.drop_last(), floor);
        assert forall|j: int| 0 <= j < rs.len() - 1 implies rs.drop_last()[j] == rs[j] by {}
        assert(rs.last() == rs[rs.len() - 1]);
    }
}

/// The message for a reminders file of another version.
pub open spec fn unsupported_version_text(v: u32) -> Seq<char> {
    "unsupported version "@ + decimal(v as nat)
}

/// A reminders document as read from `reminders.json`: only version 1 is
/// accepted; the next id is raised past every stored id (and to at least
/// one), so ids are never reused.
pub fn finish_reminders(version: u32, next_id: u64, reminders: Vec<Reminder>) -> (r: Result<ReminderList, String>)
    requires
        forall|j: int| 0 <= j < reminders@.len() ==> #[trigger] reminders@[j].id < u64::MAX,
    ensures
        version != 1 ==> (r matches Err(e) && e@ == unsupported_version_text(version)),
        version == 1 ==> (r matches Ok(l) && l.version == 1 && l.reminders@ == reminders@
            && l.next_id == next_id_after(reminders@, if next_id < 1 { 1 } else { next_id as int })),
{
    if version != 1 {
        let mut v: Vec<char> = Vec::new();
        push_str(&mut v, "unsupported version ");
        push_decimal(&mut v, version as u64);
        return Err(string_of(v.as_slice()));
    }
    let mut n: u64 = if next_id < 1 {
        1
    } else {
        next_id
    };
    let ghost floor = n as int;
    let mut i: usize = 0;
    while i < reminders.len()
        invariant
            0 <= i <= reminders@.len(),
            forall|j: int| 0 <= j < reminders@.len() ==> #[trigger] reminders@[j].id < u64::MAX,
            n == next_id_after(reminders@.subrange(0, i as int), floor),
            1 <= floor <= u64::MAX,
        decreases reminders@.len() - i,
    {
        proof {
            let s1 = reminders@.subrange(0, i + 1);
            assert(s1.drop_last() =~= reminders@.subrange(0, i as int));
        }
        let id = reminders[i].id;
        if id + 1 > n {
            n = id + 1;
        }
        i = i + 1;
    }
    assert(reminders@.subrange(0, reminders@.len() as int) =~= reminders@);
    Ok(ReminderList { version: 1, next_id: n, reminders })
}

/// What reading `reminders.json` gave.
#[derive(Debug)]
pub enum Primary {
    /// There is no such file.
    Missing,
    /// It was read.
    Read(ReminderList),
    /// It could not be read; the reason.
    Failed(String),
}

/// What loading decided: the reminders to use, a note when recovery
/// happened, and what to do with the files.
#[derive(Debug)]
pub struct Recovery {
    pub list: ReminderList,
    pub note: Option<String>,
    /// Copy the file over its backup (it was read fine).
    pub refresh_backup: bool,
    /// Move the unreadable file aside.
    pub quarantine: bool,
    /// Copy the backup over the file.
    pub restore_backup: bool,
}

/// The note when the backup stood in for a corrupted file.
pub open spec fn restored_note(err: Seq<char>) -> Seq<char> {
    "reminders.json was corrupted ("@ + err + "); restored from backup"@
}

/// The note when neither the file nor its backup could be read.
pub open spec fn started_empty_note(err: Seq<char>) -> Seq<char> {
    "reminders.json was corrupted ("@ + err + ") and no backup was usable; started empty"@
}

/// Load reminders with backup recovery. A missing file gives an empty list;
/// a readable one is used and its backup refreshed; an unreadable one is
/// quarantined and replaced by its backup when that reads, else the list
/// starts empty. `backup` is what reading the backup gave (`None`: there
/// is none); it is looked at only when the file could not be read.
pub fn recover_reminders(primary: Primary, backup: Option<Result<ReminderList, String>>) -> (r: Recovery)
    ensures
        match primary {
            Primary::Missing => r.list.reminders@.len() == 0 && r.list.next_id == 1 && r.note is None
                && !r.refresh_backup && !r.quarantine && !r.restore_backup,
            Primary::Read(l) => r.list == l && r.note is None && r.refresh_backup && !r.quarantine
                && !r.restore_backup,
            Primary::Failed(err) => match backup {
                Some(Ok(b)) => {
                    &&& r.list == b
                    &&& r.note matches Some(n) && n@ == restored_note(err@)
                    &&& !r.refresh_backup && r.quarantine && r.restore_backup
                },
                _ => {
                    &&& r.list.reminders@.len() == 0 && r.list.next_id == 1
                    &&& r.note matches Some(n) && n@ == started_empty_note(err@)
                    &&& !r.refresh_backup && r.quarantine && !r.restore_backup
                },
            },
        },
{
    match primary {
        Primary::Missing => Recovery {
            list: ReminderList::default(),
            note: None,
            refresh_backup: false,
            quarantine: false,
            restore_backup: false,
        },
        Primary::Read(l) => Recovery {
            list: l,
            note: None,
            refresh_backup: true,
            quarantine: false,
            restore_backup: false,
        },
        Primary::Failed(err) => match backup {
            Some(Ok(b)) => {
                let mut v: Vec<char> = Vec::new();
                push_str(&mut v, "reminders.json was corrupted (");
                push_str(&mut v, err.as_str());
                push_str(&mut v, "); restored from backup");
                Recovery {
                    list: b,
                    note: Some(string_of(v.as_slice())),
                    refresh_backup: false,
                    quarantine: true,
                    restore_backup: true,
                }
            },
            _ => {
                let mut v: Vec<char> = Vec::new();
                push_str(&mut v, "reminders.json was corrupted (");
                push_str(&mut v, err.as_str());
                push_str(&mut v, ") and no backup was usable; started empty");
                Recovery {
                    list: ReminderList::default(),
                    note: Some(string_of(v.as_slice())),
                    refresh_backup: false,
                    quarantine: true,
                    restore_backup: false,
                }
            },
        },
    }
}

/// The error for a `state.json` that does not parse.
pub fn state_parse_error(path: &str, details: &str) -> (r: StoreError)
    ensures
        r matches StoreError::Invalid { path: p, message: m } && p@ == path@ && m@
            == "state.json corrupted, resetting: "@ + details@,
{
    let mut v: Vec<char> = Vec::new();
    push_str(&mut v, "state.json corrupted, resetting: ");
    push_str(&mut v, details);
    StoreError::Invalid { path: String::from_str(path), message: string_of(v.as_slice()) }
}

/// Corrupted state is never fatal: an unreadable state starts empty.
pub fn load_state_lossy(loaded: Result<RunState, StoreError>) -> (r: RunState)
    ensures
        match loaded {
            Ok(s) => r == s,
            Err(_) => r.last_fired@ == Map::<u64, crate::time::Timestamp>::empty(),
        },
{
    match loaded {
        Ok(s) => s,
        Err(_) => RunState::default(),
    }
}

} // verus!
