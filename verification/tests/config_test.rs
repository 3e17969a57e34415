use wremind::config::{parse_bool, Config, ConfigError};

#[test]
fn defaults_roundtrip() {
    let c = Config::default();
    assert_eq!(c.character, "footballer");
    assert_eq!(c.max_simultaneous, 1);
    assert_eq!(c.direction, "random");
    assert_eq!(c.log_level, "info");
}

#[test]
fn set_keys() {
    let mut c = Config::default();
    c.set("speed", "180").unwrap();
    c.set("sound", "false").unwrap();
    assert_eq!(c.speed, Some(180));
    assert!(!c.sound);
    assert!(c.set("bogus", "1").is_err());
    assert!(c.set("speed", "fast").is_err());
}

#[test]
fn set_messages_and_clamping() {
    let mut c = Config::default();
    assert_eq!(c.set("speed", "fast").unwrap_err(), "invalid speed 'fast' (expected px/sec number)");
    assert_eq!(c.set("size", "-1").unwrap_err(), "invalid size '-1' (expected px number)");
    assert_eq!(c.set("sound", "maybe").unwrap_err(), "invalid sound 'maybe' (true/false)");
    c.set("max-simultaneous", "9").unwrap();
    assert_eq!(c.max_simultaneous, 4);
    c.set("max_simultaneous", "0").unwrap();
    assert_eq!(c.max_simultaneous, 1);
    assert_eq!(c.set("max_simultaneous", "x").unwrap_err(), "expected 1-4");
    c.set("direction", "LEFT").unwrap();
    assert_eq!(c.direction, "left");
    assert_eq!(c.set("direction", "up").unwrap_err(), "direction must be random, left or right");
    c.set("log-level", "Debug").unwrap();
    assert_eq!(c.log_level, "debug");
    assert!(c.set("log_level", "loud").is_err());
    c.set("character", "ghost").unwrap();
    assert_eq!(c.character, "ghost");
    assert_eq!(
        c.set("bogus", "1").unwrap_err(),
        "unknown config key 'bogus'. Keys: character, speed, size, sound, duration, max_simultaneous, direction, log_level"
    );
    c.set("size", "+64").unwrap();
    assert_eq!(c.size, Some(64));
}

#[test]
fn normalize_repairs() {
    let mut c = Config::default();
    c.character = "   ".into();
    c.max_simultaneous = 0;
    c.direction = "sideways".into();
    c.normalize();
    assert_eq!(c.character, "footballer");
    assert_eq!(c.max_simultaneous, 1);
    assert_eq!(c.direction, "random");
    c.max_simultaneous = 7;
    c.direction = "Right".into();
    c.normalize();
    assert_eq!(c.max_simultaneous, 4);
    assert_eq!(c.direction, "Right");
}

#[test]
fn reset_keys() {
    let mut c = Config::default();
    c.set("speed", "10").unwrap();
    c.set("sound", "yes").unwrap();
    c.reset_key(Some("speed")).unwrap();
    assert_eq!(c.speed, None);
    assert!(c.sound);
    assert_eq!(c.reset_key(Some("log_level")).unwrap_err(), "unknown key 'log_level'");
    c.reset_key(None).unwrap();
    assert!(!c.sound);
}

#[test]
fn booleans() {
    assert_eq!(parse_bool(" YES "), Some(true));
    assert_eq!(parse_bool("off"), Some(false));
    assert_eq!(parse_bool("0"), Some(false));
    assert_eq!(parse_bool("2"), None);
}

#[test]
fn config_error_messages() {
    assert_eq!(ConfigError::Parse("eof".into()).message(), "invalid config JSON: eof");
}
