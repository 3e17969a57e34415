//! Filesystem layout: everything lives under `~/.walking-reminder/`
//! (overridable with `WALKING_REMINDER_HOME` for tests and sandboxes).
//!
//! ```text
//! ~/.walking-reminder/
//! ├── config.json
//! ├── reminders.json
//! ├── state.json
//! ├── characters/
//! ├── logs/
//! ├── daemon.sock
//! └── daemon.lock
//! ```
//!
//! Paths are held as text; they are joined the way `Path::join` joins them.

use vstd::prelude::*;

verus! {

/// The text of `Path::new(base).join(name)`.
pub uninterp spec fn joined_path(base: Seq<char>, name: Seq<char>) -> Seq<char>;

/// Calls `Path::join` and reads the result back as text (lossless, as both
/// parts are UTF-8); claims only that the text is the named one.
#[verifier::external_body]
pub(crate) fn path_join(base: &str, name: &str) -> (r: String)
    ensures
        r@ == joined_path(base@, name@),
{
    std::path::Path::new(base).join(name).to_string_lossy().into_owned()
}

/// The text of `Path::new(p).parent()`, if `p` has a parent.
pub uninterp spec fn parent_path(p: Seq<char>) -> Option<Seq<char>>;

/// Calls `Path::parent` and reads the result back as text; claims only that
/// the result is the named one.
#[verifier::external_body]
pub(crate) fn path_parent(p: &str) -> (r: Option<String>)
    ensures
        match parent_path(p@) {
            Some(q) => r matches Some(s) && s@ == q,
            None => r is None,
        },
{
    std::path::Path::new(p).parent().map(|q| q.to_string_lossy().into_owned())
}

/// The text of `Path::new(p).file_name()`, if `p` ends in a name.
pub uninterp spec fn file_name_of(p: Seq<char>) -> Option<Seq<char>>;

/// Calls `Path::file_name` and reads the result back as text; claims only
/// that the result is the named one.
#[verifier::external_body]
pub(crate) fn path_file_name(p: &str) -> (r: Option<String>)
    ensures
        match file_name_of(p@) {
            Some(q) => r matches Some(s) && s@ == q,
            None => r is None,
        },
{
    std::path::Path::new(p).file_name().map(|q| q.to_string_lossy().into_owned())
}

/// The directory everything lives under.
#[derive(Debug, Clone)]
pub struct Home {
    root: String,
}

impl View for Home {
    type V = Seq<char>;

    closed spec fn view(&self) -> Seq<char> {
        self.root@
    }
}

impl Home {
    pub fn from_root(root: String) -> (r: Home)
        ensures
            r@ == root@,
    {
        Home { root }
    }

    pub fn root(&self) -> (r: &str)
        ensures
            r@ == self@,
    {
        self.root.as_str()
    }

    pub fn config_file(&self) -> (r: String)
        ensures
            r@ == joined_path(self@, "config.json"@),
    {
        path_join(self.root.as_str(), "config.json")
    }

    pub fn reminders_file(&self) -> (r: String)
        ensures
            r@ == joined_path(self@, "reminders.json"@),
    {
        path_join(self.root.as_str(), "reminders.json")
    }

    pub fn state_file(&self) -> (r: String)
        ensures
            r@ == joined_path(self@, "state.json"@),
    {
        path_join(self.root.as_str(), "state.json")
    }

    pub fn characters_dir(&self) -> (r: String)
        ensures
            r@ == joined_path(self@, "characters"@),
    {
        path_join(self.root.as_str(), "characters")
    }

    pub fn logs_dir(&self) -> (r: String)
        ensures
            r@ == joined_path(self@, "logs"@),
    {
        path_join(self.root.as_str(), "logs")
    }

    pub fn log_file(&self) -> (r: String)
        ensures
            r@ == joined_path(joined_path(self@, "logs"@), "walking-reminder.log"@),
    {
        let logs = self.logs_dir();
        path_join(logs.as_str(), "walking-reminder.log")
    }

    pub fn socket_file(&self) -> (r: String)
        ensures
            r@ == joined_path(self@, "daemon.sock"@),
    {
        path_join(self.root.as_str(), "daemon.sock")
    }

    pub fn lock_file(&self) -> (r: String)
        ensures
            r@ == joined_path(self@, "daemon.lock"@),
    {
        path_join(self.root.as_str(), "daemon.lock")
    }

    pub fn pid_file(&self) -> (r: String)
        ensures
            r@ == joined_path(self@, "daemon.pid"@),
    {
        path_join(self.root.as_str(), "daemon.pid")
    }

    pub fn character_dir(&self, name: &str) -> (r: String)
        ensures
            r@ == joined_path(joined_path(self@, "characters"@), name@),
    {
        let dir = self.characters_dir();
        path_join(dir.as_str(), name)
    }
}


/// The name of the temporary file an atomic write of the file named `name`
/// goes through: `.{name}.tmp-{pid}` (`file` when the path has no name).
pub fn temp_file_name(name: Option<&str>, pid: u32) -> (r: String)
    ensures
        r@ == "."@ + (match name {
            Some(n) => n@,
            None => "file"@,
        }) + ".tmp-"@ + crate::text::decimal(pid as nat),
{
    let mut v: Vec<char> = Vec::new();
    crate::text::push_str(&mut v, ".");
    match name {
        Some(n) => crate::text::push_str(&mut v, n),
        None => crate::text::push_str(&mut v, "file"),
    }
    crate::text::push_str(&mut v, ".tmp-");
    crate::text::push_decimal(&mut v, pid as u64);
    crate::text::string_of(v.as_slice())
}

} // verus!
