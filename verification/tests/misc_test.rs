use wremind::ipc::Request;
use wremind::paths::temp_file_name;
use wremind::queue::PendingShow;
use wremind::runner::render_args;
use wremind::ipc_stub;
use wremind::paths::Home;
use wremind::startup;
use wremind::ui;

#[test]
fn home_layout() {
    let h = Home::from_root("/home/u/.walking-reminder".into());
    assert_eq!(h.root(), "/home/u/.walking-reminder");
    assert_eq!(h.config_file(), "/home/u/.walking-reminder/config.json");
    assert_eq!(h.reminders_file(), "/home/u/.walking-reminder/reminders.json");
    assert_eq!(h.state_file(), "/home/u/.walking-reminder/state.json");
    assert_eq!(h.log_file(), "/home/u/.walking-reminder/logs/walking-reminder.log");
    assert_eq!(h.socket_file(), "/home/u/.walking-reminder/daemon.sock");
    assert_eq!(h.lock_file(), "/home/u/.walking-reminder/daemon.lock");
    assert_eq!(h.pid_file(), "/home/u/.walking-reminder/daemon.pid");
    assert_eq!(h.character_dir("ghost"), "/home/u/.walking-reminder/characters/ghost");
}

#[test]
fn colors() {
    assert_eq!(ui::green("ok"), "\x1b[32mok\x1b[0m");
    assert_eq!(ui::dim("x"), "\x1b[2mx\x1b[0m");
    assert_eq!(ui::bold("x"), "\x1b[1mx\x1b[0m");
    assert_eq!(ui::yellow("x"), "\x1b[33mx\x1b[0m");
}

#[test]
fn autostart_files() {
    assert_eq!(
        startup::plist_args("/bin/wr"),
        "        <string>/bin/wr</string>\n        <string>__daemon</string>"
    );
    let p = startup::plist_content("/bin/wr", "/l/daemon.log");
    assert!(p.contains("<string>com.dribble.daemon</string>"));
    assert!(p.contains("<key>StandardErrorPath</key>\n    <string>/l/daemon.log</string>"));
    assert_eq!(
        startup::desktop_entry("/bin/wr"),
        "[Desktop Entry]\nType=Application\nName=Dribble\nExec=/bin/wr __daemon\nX-GNOME-Autostart-enabled=true\n"
    );
    assert_eq!(
        startup::launchagent_path("/Users/u"),
        "/Users/u/Library/LaunchAgents/com.dribble.daemon.plist"
    );
    let h = Home::from_root("/r".into());
    assert_eq!(startup::log_path(&h), "/r/logs/daemon.log");
    assert!(startup::enable("/bin/wr").is_err());
    assert!(startup::disable().is_err());
    let s = startup::status();
    assert!(!s.enabled);
    assert_eq!(s.detail, "unsupported platform");
}

#[test]
fn stub_transport_refuses() {
    let e = ipc_stub::serve("/tmp/x.sock").unwrap_err();
    assert_eq!(e, ipc_stub::ServeError::Unsupported);
    assert_eq!(e.message(), "daemon IPC is not yet supported on this platform");
    assert!(ipc_stub::send("/tmp/x.sock", &Request::Ping).is_err());
}

#[test]
fn temp_names_and_render_arguments() {
    assert_eq!(temp_file_name(Some("state.json"), 42), ".state.json.tmp-42");
    assert_eq!(temp_file_name(None, 7), ".file.tmp-7");
    let show = PendingShow { message: "hi".into(), character: Some("ghost".into()), label: "1".into() };
    assert_eq!(render_args(&show, true), vec!["__render", "--message", "hi", "--character", "ghost", "--no-render"]);
    let plain = PendingShow { message: "hi".into(), character: None, label: "1".into() };
    assert_eq!(render_args(&plain, false), vec!["__render", "--message", "hi"]);
}
