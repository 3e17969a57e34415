//! User configuration (`config.json`).
//!
//! The walk duration override is a floating-point number of seconds; it is
//! read, checked and stored by the program beside this configuration.

use vstd::prelude::*;

use crate::sys::io_error_text;
use crate::text::{
    ascii_lower, ascii_lower_chars, chars_of, is_text, parse_unsigned,
    parse_unsigned_range, push_str, string_of, trim, trim_chars,
};

verus! {

/// The character used when none is chosen.
pub open spec fn default_character_name() -> Seq<char> {
    "footballer"@
}

/// Renderer/behavior configuration. All values optional so character
/// defaults win unless the user overrides them.
#[derive(Debug, Clone)]
pub struct Config {
    pub version: u32,
    /// Active character name (default "footballer").
    pub character: String,
    /// Walking speed override in px/s.
    pub speed: Option<u32>,
    /// Character size override in px.
    pub size: Option<u32>,
    /// Play a soft sound with each reminder (default false).
    pub sound: bool,
    /// Max simultaneous walking animations (default 1; extras queue).
    pub max_simultaneous: u32,
    /// Reminder direction: "random" (default), "left", or "right".
    pub direction: String,
    /// Log level for the daemon: "error" | "info" | "debug".
    pub log_level: String,
}

pub fn default_character() -> (r: String)
    ensures
        r@ == default_character_name(),
{
    String::from_str("footballer")
}

pub fn default_max_simul() -> (r: u32)
    ensures
        r == 1,
{
    1
}

pub fn default_direction() -> (r: String)
    ensures
        r@ == "random"@,
{
    String::from_str("random")
}

pub fn default_log_level() -> (r: String)
    ensures
        r@ == "info"@,
{
    String::from_str("info")
}

/// The configuration with every value at its default.
pub open spec fn is_default_config(c: Config) -> bool {
    &&& c.version == 1
    &&& c.character@ == default_character_name()
    &&& c.speed is None
    &&& c.size is None
    &&& !c.sound
    &&& c.max_simultaneous == 1
    &&& c.direction@ == "random"@
    &&& c.log_level@ == "info"@
}

impl Default for Config {
    fn default() -> (r: Config)
        ensures
            is_default_config(r),
    {
        Config {
            version: 1,
            character: default_character(),
            speed: None,
            size: None,
            sound: false,
            max_simultaneous: default_max_simul(),
            direction: default_direction(),
            log_level: default_log_level(),
        }
    }
}

/// A direction setting the renderer understands, in any letter case.
pub open spec fn direction_word(s: Seq<char>) -> bool {
    let l = ascii_lower(s);
    l == "random"@ || l == "left"@ || l == "right"@
}

/// A log level the daemon understands, in any letter case.
pub open spec fn log_level_word(s: Seq<char>) -> bool {
    let l = ascii_lower(s);
    l == "error"@ || l == "info"@ || l == "debug"@
}

fn is_direction_word(s: &str) -> (r: bool)
    ensures
        r == direction_word(s@),
{
    let l = ascii_lower_chars(&chars_of(s));
    is_text(&l, "random") || is_text(&l, "left") || is_text(&l, "right")
}

fn is_log_level_word(s: &str) -> (r: bool)
    ensures
        r == log_level_word(s@),
{
    let l = ascii_lower_chars(&chars_of(s));
    is_text(&l, "error") || is_text(&l, "info") || is_text(&l, "debug")
}

fn lowered(s: &str) -> (r: String)
    ensures
        r@ == ascii_lower(s@),
{
    string_of(ascii_lower_chars(&chars_of(s)).as_slice())
}

/// `true`/`yes`/`on`/`1` and `false`/`no`/`off`/`0`, in any letter case and
/// with surrounding white space.
pub open spec fn bool_value(s: Seq<char>) -> Option<bool> {
    let l = ascii_lower(trim(s));
    if l == "true"@ || l == "yes"@ || l == "on"@ || l == "1"@ {
        Some(true)
    } else if l == "false"@ || l == "no"@ || l == "off"@ || l == "0"@ {
        Some(false)
    } else {
        None
    }
}

pub fn parse_bool(s: &str) -> (r: Option<bool>)
    ensures
        r == bool_value(s@),
{
    let l = ascii_lower_chars(&trim_chars(&chars_of(s)));
    if is_text(&l, "true") || is_text(&l, "yes") || is_text(&l, "on") || is_text(&l, "1") {
        Some(true)
    } else if is_text(&l, "false") || is_text(&l, "no") || is_text(&l, "off") || is_text(&l, "0") {
        Some(false)
    } else {
        None
    }
}

/// `value.parse::<u32>()`.
fn parse_u32(s: &str) -> (r: Option<u32>)
    ensures
        match parse_unsigned(s@, u32::MAX as int) {
            Some(v) => r == Some(v as u32),
            None => r is None,
        },
        r matches Some(x) ==> parse_unsigned(s@, u32::MAX as int) == Some(x as int),
{
    let cs = chars_of(s);
    assert(cs@.subrange(0, cs.len() as int) =~= cs@);
    match parse_unsigned_range(&cs, 0, cs.len(), u32::MAX as u64) {
        Some(v) => Some(v as u32),
        None => None,
    }
}

/// The duration key, which the program handles itself.
pub open spec fn is_duration_key(key: Seq<char>) -> bool {
    key == "duration"@
}

/// The message for a key `set` does not know.
pub open spec fn unknown_key_text(key: Seq<char>) -> Seq<char> {
    "unknown config key '"@ + key
        + "'. Keys: character, speed, size, sound, duration, max_simultaneous, direction, log_level"@
}

/// `n` clamped to 1..=4.
pub open spec fn clamp_simul(n: int) -> int {
    if n < 1 {
        1
    } else if n > 4 {
        4
    } else {
        n
    }
}

/// The keys `config set` knows.
#[derive(Clone, Copy, Debug, PartialEq, Eq, Structural)]
pub enum ConfigKey {
    Character,
    Speed,
    Size,
    Sound,
    Duration,
    MaxSimultaneous,
    Direction,
    LogLevel,
    Unknown,
}

/// Which setting a key names.
pub open spec fn config_key(k: Seq<char>) -> ConfigKey {
    if k == "character"@ {
        ConfigKey::Character
    } else if k == "speed"@ {
        ConfigKey::Speed
    } else if k == "size"@ {
        ConfigKey::Size
    } else if k == "sound"@ {
        ConfigKey::Sound
    } else if k == "duration"@ {
        ConfigKey::Duration
    } else if k == "max_simultaneous"@ || k == "max-simultaneous"@ {
        ConfigKey::MaxSimultaneous
    } else if k == "direction"@ {
        ConfigKey::Direction
    } else if k == "log_level"@ || k == "log-level"@ {
        ConfigKey::LogLevel
    } else {
        ConfigKey::Unknown
    }
}

/// The settings a `set` of `key` does not touch are unchanged.
pub open spec fn same_except(a: Config, b: Config, key: ConfigKey) -> bool {
    &&& a.version == b.version
    &&& (key != ConfigKey::Character ==> a.character == b.character)
    &&& (key != ConfigKey::Speed ==> a.speed == b.speed)
    &&& (key != ConfigKey::Size ==> a.size == b.size)
    &&& (key != ConfigKey::Sound ==> a.sound == b.sound)
    &&& (key != ConfigKey::MaxSimultaneous ==> a.max_simultaneous == b.max_simultaneous)
    &&& (key != ConfigKey::Direction ==> a.direction == b.direction)
    &&& (key != ConfigKey::LogLevel ==> a.log_level == b.log_level)
}

impl Config {
    /// Repairs values a hand-edited file may hold: an empty (or blank)
    /// character becomes the default, the simultaneity is clamped to
    /// 1..=4, and an unknown direction becomes "random".
    pub fn normalize(&mut self)
        ensures
            final(self).version == old(self).version,
            final(self).character@ == (if trim(old(self).character@).len() == 0 {
                default_character_name()
            } else {
                old(self).character@
            }),
            final(self).speed == old(self).speed,
            final(self).size == old(self).size,
            final(self).sound == old(self).sound,
            final(self).max_simultaneous == clamp_simul(old(self).max_simultaneous as int),
            final(self).direction@ == (if direction_word(old(self).direction@) {
                old(self).direction@
            } else {
                "random"@
            }),
            final(self).log_level == old(self).log_level,
    {
        if trim_chars(&chars_of(self.character.as_str())).len() == 0 {
            self.character = default_character();
        }
        if self.max_simultaneous == 0 {
            self.max_simultaneous = 1;
        }
        if self.max_simultaneous > 4 {
            self.max_simultaneous = 4;
        }
        if !is_direction_word(self.direction.as_str()) {
            self.direction = String::from_str("random");
        }
    }

    /// Apply a `config set <key> <value>` operation. Returns Err with a
    /// friendly message on unknown keys or bad values; then nothing
    /// changes. The duration key is handled by the program.
    pub fn set(&mut self, key: &str, value: &str) -> (r: Result<(), String>)
        requires
            !is_duration_key(key@),
        ensures
            same_except(*final(self), *old(self), config_key(key@)),
            r is Err ==> *final(self) == *old(self),
            config_key(key@) == ConfigKey::Character ==> r is Ok && final(self).character@ == value@,
            config_key(key@) == ConfigKey::Speed ==> match parse_unsigned(value@, u32::MAX as int) {
                Some(v) => r is Ok && final(self).speed == Some(v as u32),
                None => r matches Err(e) && e@ == "invalid speed '"@ + value@
                    + "' (expected px/sec number)"@,
            },
            config_key(key@) == ConfigKey::Size ==> match parse_unsigned(value@, u32::MAX as int) {
                Some(v) => r is Ok && final(self).size == Some(v as u32),
                None => r matches Err(e) && e@ == "invalid size '"@ + value@
                    + "' (expected px number)"@,
            },
            config_key(key@) == ConfigKey::Sound ==> match bool_value(value@) {
                Some(b) => r is Ok && final(self).sound == b,
                None => r matches Err(e) && e@ == "invalid sound '"@ + value@ + "' (true/false)"@,
            },
            config_key(key@) == ConfigKey::MaxSimultaneous ==> match parse_unsigned(
                value@,
                u32::MAX as int,
            ) {
                Some(v) => r is Ok && final(self).max_simultaneous == clamp_simul(v),
                None => r matches Err(e) && e@ == "expected 1-4"@,
            },
            config_key(key@) == ConfigKey::Direction ==> if direction_word(value@) {
                r is Ok && final(self).direction@ == ascii_lower(value@)
            } else {
                r matches Err(e) && e@ == "direction must be random, left or right"@
            },
            config_key(key@) == ConfigKey::LogLevel ==> if log_level_word(value@) {
                r is Ok && final(self).log_level@ == ascii_lower(value@)
            } else {
                r matches Err(e) && e@ == "log_level must be error, info or debug"@
            },
            config_key(key@) == ConfigKey::Unknown ==> (r matches Err(e) && e@ == unknown_key_text(
                key@,
            )),
    {
        let k = chars_of(key);
        if is_text(&k, "character") {
            self.character = String::from_str(value);
        } else if is_text(&k, "speed") {
            match parse_u32(value) {
                Some(v) => {
                    self.speed = Some(v);
                },
                None => {
                    let mut m: Vec<char> = Vec::new();
                    push_str(&mut m, "invalid speed '");
                    push_str(&mut m, value);
                    push_str(&mut m, "' (expected px/sec number)");
                    return Err(string_of(m.as_slice()));
                },
            }
        } else if is_text(&k, "size") {
            match parse_u32(value) {
                Some(v) => {
                    self.size = Some(v);
                },
                None => {
                    let mut m: Vec<char> = Vec::new();
                    push_str(&mut m, "invalid size '");
                    push_str(&mut m, value);
                    push_str(&mut m, "' (expected px number)");
                    return Err(string_of(m.as_slice()));
                },
            }
        } else if is_text(&k, "sound") {
            match parse_bool(value) {
                Some(b) => {
                    self.sound = b;
                },
                None => {
                    let mut m: Vec<char> = Vec::new();
                    push_str(&mut m, "invalid sound '");
                    push_str(&mut m, value);
                    push_str(&mut m, "' (true/false)");
                    return Err(string_of(m.as_slice()));
                },
            }
        } else if is_text(&k, "max_simultaneous") || is_text(&k, "max-simultaneous") {
            match parse_u32(value) {
                Some(v) => {
                    self.max_simultaneous = if v < 1 {
                        1
                    } else if v > 4 {
                        4
                    } else {
                        v
                    };
                },
                None => {
                    return Err(String::from_str("expected 1-4"));
                },
            }
        } else if is_text(&k, "direction") {
            if !is_direction_word(value) {
                return Err(String::from_str("direction must be random, left or right"));
            }
            self.direction = lowered(value);
        } else if is_text(&k, "log_level") || is_text(&k, "log-level") {
            if !is_log_level_word(value) {
                return Err(String::from_str("log_level must be error, info or debug"));
            }
            self.log_level = lowered(value);
        } else {
            let mut m: Vec<char> = Vec::new();
            push_str(&mut m, "unknown config key '");
            push_str(&mut m, key);
            push_str(
                &mut m,
                "'. Keys: character, speed, size, sound, duration, max_simultaneous, direction, log_level",
            );
            return Err(string_of(m.as_slice()));
        }
        Ok(())
    }

    /// `config reset [key]`: with no key every value returns to its
    /// default; with a key, that value does (the duration key is cleared by
    /// the program, here it changes nothing). Unknown keys are refused.
    pub fn reset_key(&mut self, key: Option<&str>) -> (r: Result<(), String>)
        ensures
            match key {
                None => r is Ok && is_default_config(*final(self)),
                Some(k) => if k@ == "speed"@ {
                    r is Ok && *final(self) == (Config { speed: None, ..*old(self) })
                } else if k@ == "size"@ {
                    r is Ok && *final(self) == (Config { size: None, ..*old(self) })
                } else if k@ == "sound"@ {
                    r is Ok && *final(self) == (Config { sound: false, ..*old(self) })
                } else if k@ == "duration"@ {
                    r is Ok && *final(self) == *old(self)
                } else if k@ == "character"@ {
                    r is Ok && final(self).character@ == default_character_name() && *final(self)
                        == (Config { character: final(self).character, ..*old(self) })
                } else if k@ == "max_simultaneous"@ {
                    r is Ok && *final(self) == (Config { max_simultaneous: 1, ..*old(self) })
                } else if k@ == "direction"@ {
                    r is Ok && final(self).direction@ == "random"@ && *final(self) == (Config {
                        direction: final(self).direction,
                        ..*old(self)
                    })
                } else {
                    r matches Err(e) && e@ == "unknown key '"@ + k@ + "'"@ && *final(self)
                        == *old(self)
                },
            },
    {
        proof {
            reveal_strlit("character");
            reveal_strlit("speed");
            reveal_strlit("size");
            reveal_strlit("sound");
            reveal_strlit("duration");
            reveal_strlit("max_simultaneous");
            reveal_strlit("max-simultaneous");
            reveal_strlit("direction");
            reveal_strlit("log_level");
            reveal_strlit("log-level");
        }
        match key {
            None => {
                *self = Config::default();
            },
            Some(k) => {
                let kc = chars_of(k);
                if is_text(&kc, "speed") {
                    self.speed = None;
                } else if is_text(&kc, "size") {
                    self.size = None;
                } else if is_text(&kc, "sound") {
                    self.sound = false;
                } else if is_text(&kc, "duration") {
                } else if is_text(&kc, "character") {
                    self.character = default_character();
                } else if is_text(&kc, "max_simultaneous") {
                    self.max_simultaneous = 1;
                } else if is_text(&kc, "direction") {
                    self.direction = default_direction();
                } else {
                    let mut m: Vec<char> = Vec::new();
                    push_str(&mut m, "unknown key '");
                    push_str(&mut m, k);
                    push_str(&mut m, "'");
                    return Err(string_of(m.as_slice()));
                }
            },
        }
        Ok(())
    }
}

/// Why the configuration could not be loaded.
#[derive(Debug)]
pub enum ConfigError {
    Io(std::io::Error),
    Parse(String),
}

impl ConfigError {
    /// The error's message: `failed to read config: {io error}` or
    /// `invalid config JSON: {details}`.
    pub fn message(&self) -> (r: String)
        ensures
            match self {
                ConfigError::Io(_) => exists|t: Seq<char>| r@ == "failed to read config: "@ + t,
                ConfigError::Parse(m) => r@ == "invalid config JSON: "@ + m@,
            },
    {
        let mut v: Vec<char> = Vec::new();
        match self {
            ConfigError::Io(e) => {
                push_str(&mut v, "failed to read config: ");
                let ghost head = v@;
                push_str(&mut v, io_error_text(e).as_str());
                proof {
                    let t = v@.subrange(head.len() as int, v@.len() as int);
                    assert(v@ =~= "failed to read config: "@ + t);
                }
            },
            ConfigError::Parse(m) => {
                push_str(&mut v, "invalid config JSON: ");
                push_str(&mut v, m.as_str());
            },
        }
        string_of(v.as_slice())
    }
}


/// `b` is what `normalize` makes of `a` (the fields it may change).
pub open spec fn normalized_from(a: Config, b: Config) -> bool {
    &&& b.character@ == (if trim(a.character@).len() == 0 {
        default_character_name()
    } else {
        a.character@
    })
    &&& b.max_simultaneous == clamp_simul(a.max_simultaneous as int)
    &&& b.direction@ == (if direction_word(a.direction@) {
        a.direction@
    } else {
        "random"@
    })
}

/// The words a yes/no setting understands, read without regard to case or
/// surrounding white space: "true", "yes", "on" and "1" switch it on;
/// "false", "no", "off" and "0" switch it off; nothing else is read.
pub proof fn law_bool_words(s: Seq<char>)
    ensures
        ({
            let w = ascii_lower(trim(s));
            &&& (w == "true"@ || w == "yes"@ || w == "on"@ || w == "1"@) ==> bool_value(s) == Some(
                true,
            )
            &&& (w == "false"@ || w == "no"@ || w == "off"@ || w == "0"@) ==> bool_value(s) == Some(
                false,
            )
            &&& !(w == "true"@ || w == "yes"@ || w == "on"@ || w == "1"@ || w == "false"@ || w
                == "no"@ || w == "off"@ || w == "0"@) ==> bool_value(s) is None
        }),
{
    reveal_strlit("true");
    reveal_strlit("yes");
    reveal_strlit("on");
    reveal_strlit("1");
    reveal_strlit("false");
    reveal_strlit("no");
    reveal_strlit("off");
    reveal_strlit("0");
    let w = ascii_lower(trim(s));
    let on = seq!["true"@, "yes"@, "on"@, "1"@];
    let off = seq!["false"@, "no"@, "off"@, "0"@];
    assert forall|i: int, j: int| 0 <= i < 4 && 0 <= j < 4 implies on[i] != off[j] by {
        if on[i].len() == off[j].len() {
            assert(on[i][0] != off[j][0]);
        }
    }
    if w == "false"@ || w == "no"@ || w == "off"@ || w == "0"@ {
        assert(w != "true"@ && w != "yes"@ && w != "on"@ && w != "1"@) by {
            assert(on[0] == "true"@ && on[1] == "yes"@ && on[2] == "on"@ && on[3] == "1"@);
            assert(off[0] == "false"@ && off[1] == "no"@ && off[2] == "off"@ && off[3] == "0"@);
        }
    }
}

/// Normalizing twice changes nothing more than normalizing once.
pub proof fn law_normalize_idempotent(a: Config, b: Config, c: Config)
    requires
        normalized_from(a, b),
        normalized_from(b, c),
    ensures
        c.character@ == b.character@,
        c.max_simultaneous == b.max_simultaneous,
        c.direction@ == b.direction@,
{
    reveal_strlit("footballer");
    reveal_strlit("random");
    if trim(a.character@).len() == 0 {
        let f = default_character_name();
        assert(crate::text::lead_ws(f) == 0);
        assert(f.subrange(0, f.len() as int) =~= f);
        assert(crate::text::trail_ws(f) == 0);
    }
    if !direction_word(a.direction@) {
        assert(ascii_lower("random"@) =~= "random"@);
    }
}

} // verus!
