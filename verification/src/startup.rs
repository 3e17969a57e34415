//! Autostart integration: the files that make the daemon start at login
//! (a LaunchAgent property list on macOS, an XDG autostart desktop entry on
//! Linux), and the answers on platforms without support. Writing the files
//! and asking `launchctl` is the program's part.

use vstd::prelude::*;

use crate::paths::{joined_path, path_join, Home};
use crate::text::{push_str, string_of};

verus! {

/// The LaunchAgent label.
pub const LABEL: &'static str = "com.dribble.daemon";

/// Whether autostart is set up, and where (or why not).
#[derive(Debug)]
pub struct StartupStatus {
    pub enabled: bool,
    pub detail: String,
}

/// The program arguments of the LaunchAgent: the executable and
/// `__daemon`, as two `<string>` entries.
pub open spec fn plist_args_text(bin: Seq<char>) -> Seq<char> {
    "        <string>"@ + bin + "</string>\n        <string>__daemon</string>"@
}

pub fn plist_args(bin: &str) -> (r: String)
    ensures
        r@ == plist_args_text(bin@),
{
    let mut v: Vec<char> = Vec::new();
    push_str(&mut v, "        <string>");
    push_str(&mut v, bin);
    push_str(&mut v, "</string>\n        <string>__daemon</string>");
    string_of(v.as_slice())
}

/// The LaunchAgent property list for executable `bin`, logging to `log`.
pub open spec fn plist_text(bin: Seq<char>, log: Seq<char>) -> Seq<char> {
    "<?xml version=\"1.0\" encoding=\"UTF-8\"?>\n<!DOCTYPE plist PUBLIC \"-//Apple//DTD PLIST 1.0//EN\" \"http://www.apple.com/DTDs/PropertyList-1.0.dtd\">\n<plist version=\"1.0\">\n<dict>\n    <key>Label</key>\n    <string>"@
        + "com.dribble.daemon"@
        + "</string>\n    <key>ProgramArguments</key>\n    <array>\n"@ + plist_args_text(bin)
        + "\n    </array>\n    <key>RunAtLoad</key>\n    <true/>\n    <key>ProcessType</key>\n    <string>Background</string>\n    <key>StandardOutPath</key>\n    <string>"@
        + log + "</string>\n    <key>StandardErrorPath</key>\n    <string>"@ + log
        + "</string>\n</dict>\n</plist>\n"@
}

pub fn plist_content(bin: &str, log: &str) -> (r: String)
    ensures
        r@ == plist_text(bin@, log@),
{
    let mut v: Vec<char> = Vec::new();
    push_str(
        &mut v,
        "<?xml version=\"1.0\" encoding=\"UTF-8\"?>\n<!DOCTYPE plist PUBLIC \"-//Apple//DTD PLIST 1.0//EN\" \"http://www.apple.com/DTDs/PropertyList-1.0.dtd\">\n<plist version=\"1.0\">\n<dict>\n    <key>Label</key>\n    <string>",
    );
    push_str(&mut v, "com.dribble.daemon");
    push_str(&mut v, "</string>\n    <key>ProgramArguments</key>\n    <array>\n");
    push_str(&mut v, plist_args(bin).as_str());
    push_str(
        &mut v,
        "\n    </array>\n    <key>RunAtLoad</key>\n    <true/>\n    <key>ProcessType</key>\n    <string>Background</string>\n    <key>StandardOutPath</key>\n    <string>",
    );
    push_str(&mut v, log);
    push_str(&mut v, "</string>\n    <key>StandardErrorPath</key>\n    <string>");
    push_str(&mut v, log);
    push_str(&mut v, "</string>\n</dict>\n</plist>\n");
    string_of(v.as_slice())
}

/// The XDG autostart entry for executable `bin`.
pub open spec fn desktop_entry_text(bin: Seq<char>) -> Seq<char> {
    "[Desktop Entry]\nType=Application\nName=Dribble\nExec="@ + bin
        + " __daemon\nX-GNOME-Autostart-enabled=true\n"@
}

pub fn desktop_entry(bin: &str) -> (r: String)
    ensures
        r@ == desktop_entry_text(bin@),
{
    let mut v: Vec<char> = Vec::new();
    push_str(&mut v, "[Desktop Entry]\nType=Application\nName=Dribble\nExec=");
    push_str(&mut v, bin);
    push_str(&mut v, " __daemon\nX-GNOME-Autostart-enabled=true\n");
    string_of(v.as_slice())
}

/// Where the LaunchAgent lives under the user's home directory `home`:
/// `Library/LaunchAgents/com.dribble.daemon.plist`.
pub fn launchagent_path(home: &str) -> (r: String)
    ensures
        r@ == joined_path(
            joined_path(joined_path(home@, "Library"@), "LaunchAgents"@),
            "com.dribble.daemon"@ + ".plist"@,
        ),
{
    let lib = path_join(home, "Library");
    let agents = path_join(lib.as_str(), "LaunchAgents");
    let mut v: Vec<char> = Vec::new();
    push_str(&mut v, "com.dribble.daemon");
    push_str(&mut v, ".plist");
    path_join(agents.as_str(), string_of(v.as_slice()).as_str())
}

/// The daemon's own log file: `daemon.log` in the logs directory.
pub fn log_path(home: &Home) -> (r: String)
    ensures
        r@ == joined_path(joined_path(home@, "logs"@), "daemon.log"@),
{
    path_join(home.logs_dir().as_str(), "daemon.log")
}

/// Why autostart cannot be changed on this platform.
pub open spec fn unsupported_text() -> Seq<char> {
    "automatic startup is not implemented for this platform yet"@
}

/// Turning autostart on, on a platform without support: refused.
pub fn enable(bin: &str) -> (r: Result<(), String>)
    ensures
        r matches Err(e) && e@ == unsupported_text(),
{
    Err(String::from_str("automatic startup is not implemented for this platform yet"))
}

/// Turning autostart off, on a platform without support: refused.
pub fn disable() -> (r: Result<(), String>)
    ensures
        r matches Err(e) && e@ == unsupported_text(),
{
    Err(String::from_str("automatic startup is not implemented for this platform yet"))
}

/// Autostart status on a platform without support.
pub fn status() -> (r: StartupStatus)
    ensures
        !r.enabled,
        r.detail@ == "unsupported platform"@,
{
    StartupStatus { enabled: false, detail: String::from_str("unsupported platform") }
}

} // verus!
