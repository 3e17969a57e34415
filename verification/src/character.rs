//! Characters: what a character directory must hold and how its frames are
//! found.
//!
//! A character is a directory:
//!
//! ```text
//! characters/footballer/
//! ├── character.json
//! ├── walk_01.png .. walk_NN.png      (right-facing)
//! └── walk_left_01.png .. (optional left-facing; right frames are
//!                          mirrored in code if absent)
//! ```
//!
//! Nothing about a character is hard-coded in the engine — drop a new
//! folder in and it works. The program lists directories and reads
//! `character.json`; the rules for what that makes live here.

use vstd::prelude::*;

use crate::paths::{file_name_of, joined_path, parent_path, path_file_name, path_join, path_parent, Home};
use crate::text::{
    all_ascii_digits, all_digits, ascii_lower, ascii_lower_chars, chars_of, is_text,
    parse_unsigned, parse_unsigned_range, push_str, seq_eq, slice_chars, string_of,
};

verus! {

/// The character used when none is chosen.
pub const DEFAULT_CHARACTER: &'static str = "footballer";

/// A character's `character.json`.
#[derive(Debug, Clone)]
pub struct CharacterDef {
    pub name: String,
    pub description: String,
    pub frame_rate: u32,
    pub width: u32,
    pub height: u32,
    pub walking_speed: u32,
    pub frames: Option<u32>,
}

/// Frame rate when `character.json` gives none.
pub fn default_frame_rate() -> (r: u32)
    ensures
        r == 10,
{
    10
}

/// Width and height when `character.json` gives none.
pub fn default_size() -> (r: u32)
    ensures
        r == 120,
{
    120
}

/// Walking speed (px/s) when `character.json` gives none.
pub fn default_speed() -> (r: u32)
    ensures
        r == 110,
{
    110
}

/// A loaded character.
#[derive(Debug, Clone)]
pub struct Character {
    pub def: CharacterDef,
    /// Paths of right-facing frames in order.
    pub frame_paths: Vec<String>,
    /// Left-facing frames (may be empty; renderer mirrors).
    pub left_frame_paths: Vec<String>,
    pub dir: String,
}

/// Why a character could not be loaded.
#[derive(Debug)]
pub enum CharacterError {
    /// The character (name) has no `character.json` in the directory (second).
    NotFound(String, String),
    /// `character.json` in the directory (first) does not parse (second).
    InvalidManifest(String, String),
    /// The character (name) has no `walk_XX.png` frames.
    NoFrames(String),
}

impl CharacterError {
    /// The error's message.
    pub fn message(&self) -> (r: String)
        ensures
            match self {
                CharacterError::NotFound(n, d) => r@ == "character '"@ + n@ + "' not found in "@
                    + d@ + " (run `dribble character list`)"@,
                CharacterError::InvalidManifest(d, e) => r@ == "invalid character.json in "@ + d@
                    + ": "@ + e@,
                CharacterError::NoFrames(n) => r@ == "character '"@ + n@
                    + "' has no walk_XX.png frames"@,
            },
    {
        let mut v: Vec<char> = Vec::new();
        match self {
            CharacterError::NotFound(n, d) => {
                push_str(&mut v, "character '");
                push_str(&mut v, n.as_str());
                push_str(&mut v, "' not found in ");
                push_str(&mut v, d.as_str());
                push_str(&mut v, " (run `dribble character list`)");
            },
            CharacterError::InvalidManifest(d, e) => {
                push_str(&mut v, "invalid character.json in ");
                push_str(&mut v, d.as_str());
                push_str(&mut v, ": ");
                push_str(&mut v, e.as_str());
            },
            CharacterError::NoFrames(n) => {
                push_str(&mut v, "character '");
                push_str(&mut v, n.as_str());
                push_str(&mut v, "' has no walk_XX.png frames");
            },
        }
        string_of(v.as_slice())
    }
}

// ------------------------------------------------------------------ frames

/// `s` with every trailing copy of `suf` removed (`str::trim_end_matches`).
pub open spec fn strip_all_suffix(s: Seq<char>, suf: Seq<char>) -> Seq<char>
    decreases s.len(),
{
    if suf.len() > 0 && s.len() >= suf.len() && s.subrange(s.len() - suf.len(), s.len() as int)
        == suf {
        strip_all_suffix(s.subrange(0, s.len() - suf.len()), suf)
    } else {
        s
    }
}

/// `s` with every leading copy of `pre` removed (`str::trim_start_matches`).
pub open spec fn strip_all_prefix(s: Seq<char>, pre: Seq<char>) -> Seq<char>
    decreases s.len(),
{
    if pre.len() > 0 && s.len() >= pre.len() && s.subrange(0, pre.len() as int) == pre {
        strip_all_prefix(s.subrange(pre.len() as int, s.len() as int), pre)
    } else {
        s
    }
}

/// `s` starts with `pre`.
pub open spec fn has_prefix(s: Seq<char>, pre: Seq<char>) -> bool {
    s.len() >= pre.len() && s.subrange(0, pre.len() as int) == pre
}

/// `s` ends with `suf`.
pub open spec fn has_suffix(s: Seq<char>, suf: Seq<char>) -> bool {
    s.len() >= suf.len() && s.subrange(s.len() - suf.len(), s.len() as int) == suf
}

/// The frame number of a file named `name` among the frames starting with
/// `prefix`: the name must start with the prefix and end in `.png`, and what
/// lies between must be digits; digits that do not make a `u32` (or none at
/// all) number the frame `u32::MAX`.
pub open spec fn frame_number(name: Seq<char>, prefix: Seq<char>) -> Option<int> {
    if has_prefix(name, prefix) && has_suffix(name, ".png"@) {
        let num = strip_all_prefix(strip_all_suffix(name, ".png"@), prefix);
        if all_digits(num) {
            match parse_unsigned(num, u32::MAX as int) {
                Some(v) => Some(v),
                None => Some(u32::MAX as int),
            }
        } else {
            None
        }
    } else {
        None
    }
}

fn starts_with_chars(s: &Vec<char>, pre: &Vec<char>) -> (r: bool)
    ensures
        r == has_prefix(s@, pre@),
{
    if s.len() < pre.len() {
        return false;
    }
    let head = slice_chars(s, 0, pre.len());
    seq_eq(&head, pre)
}

fn ends_with_chars(s: &Vec<char>, suf: &Vec<char>) -> (r: bool)
    ensures
        r == has_suffix(s@, suf@),
{
    if s.len() < suf.len() {
        return false;
    }
    let tail = slice_chars(s, s.len() - suf.len(), s.len());
    seq_eq(&tail, suf)
}

fn strip_suffix_all(s: &Vec<char>, suf: &Vec<char>) -> (r: Vec<char>)
    ensures
        r@ == strip_all_suffix(s@, suf@),
    decreases s.len(),
{
    if suf.len() > 0 && ends_with_chars(s, suf) {
        let rest = slice_chars(s, 0, s.len() - suf.len());
        strip_suffix_all(&rest, suf)
    } else {
        slice_chars(s, 0, s.len())
    }
}

fn strip_prefix_all(s: &Vec<char>, pre: &Vec<char>) -> (r: Vec<char>)
    ensures
        r@ == strip_all_prefix(s@, pre@),
    decreases s.len(),
{
    if pre.len() > 0 && starts_with_chars(s, pre) {
        let rest = slice_chars(s, pre.len(), s.len());
        strip_prefix_all(&rest, pre)
    } else {
        slice_chars(s, 0, s.len())
    }
}

/// The frame number of a file name, if it is a frame of `prefix`.
pub fn frame_number_of(name: &str, prefix: &str) -> (r: Option<u32>)
    ensures
        match frame_number(name@, prefix@) {
            Some(v) => r == Some(v as u32) && 0 <= v <= u32::MAX,
            None => r is None,
        },
{
    let n = chars_of(name);
    let p = chars_of(prefix);
    let png = chars_of(".png");
    if !starts_with_chars(&n, &p) || !ends_with_chars(&n, &png) {
        return None;
    }
    let stem = strip_suffix_all(&n, &png);
    let num = strip_prefix_all(&stem, &p);
    if !all_ascii_digits(&num) {
        return None;
    }
    proof {
        crate::text::lemma_parse_unsigned_bounds(num@, u32::MAX as int);
    }
    assert(num@.subrange(0, num@.len() as int) =~= num@);
    match parse_unsigned_range(&num, 0, num.len(), u32::MAX as u64) {
        Some(v) => Some(v as u32),
        None => Some(u32::MAX),
    }
}

/// The position at which an item with key `k` goes into the key-sorted
/// `s` so that it follows every item with a key not above `k`.
pub open spec fn insert_position(s: Seq<(int, Seq<char>)>, k: int) -> int
    decreases s.len(),
{
    if s.len() == 0 {
        0
    } else if s.last().0 <= k {
        s.len() as int
    } else {
        insert_position(s.drop_last(), k)
    }
}

/// The items of `s` ordered by key, items with equal keys keeping their
/// order (a stable sort, as `slice::sort_by_key` gives).
pub open spec fn stable_sorted(s: Seq<(int, Seq<char>)>) -> Seq<(int, Seq<char>)>
    decreases s.len(),
{
    if s.len() == 0 {
        s
    } else {
        let t = stable_sorted(s.drop_last());
        let p = insert_position(t, s.last().0);
        t.take(p).push(s.last()) + t.skip(p)
    }
}

/// The frames among `names` (file names in directory `dir`) that start
/// with `prefix`: their numbers and paths, in listing order.
pub open spec fn frame_items(dir: Seq<char>, names: Seq<String>, prefix: Seq<char>) -> Seq<(int, Seq<char>)>
    decreases names.len(),
{
    if names.len() == 0 {
        Seq::empty()
    } else {
        let pre = frame_items(dir, names.drop_last(), prefix);
        match frame_number(names.last()@, prefix) {
            Some(n) => pre.push((n, joined_path(dir, names.last()@))),
            None => pre,
        }
    }
}

/// The frame paths of directory `dir` for `prefix`, ordered by frame number.
pub open spec fn frame_paths_of(dir: Seq<char>, names: Seq<String>, prefix: Seq<char>) -> Seq<Seq<char>> {
    stable_sorted(frame_items(dir, names, prefix)).map_values(|x: (int, Seq<char>)| x.1)
}

/// The items sorted by key so far: the keys never decrease.
pub open spec fn keys_sorted(s: Seq<(int, Seq<char>)>) -> bool {
    forall|i: int, j: int| 0 <= i < j < s.len() ==> s[i].0 <= s[j].0
}

proof fn lemma_insert_position(s: Seq<(int, Seq<char>)>, k: int)
    requires
        keys_sorted(s),
    ensures
        0 <= insert_position(s, k) <= s.len(),
        forall|i: int| 0 <= i < insert_position(s, k) ==> s[i].0 <= k,
        forall|i: int| insert_position(s, k) <= i < s.len() ==> s[i].0 > k,
    decreases s.len(),
{
    if s.len() > 0 {
        let d = s.drop_last();
        assert forall|i: int| 0 <= i < d.len() implies d[i] == s[i] by {}
        assert(keys_sorted(d)) by {
            assert forall|i: int, j: int| 0 <= i < j < d.len() implies d[i].0 <= d[j].0 by {
                assert(d[i] == s[i] && d[j] == s[j]);
            }
        }
        if s.last().0 > k {
            lemma_insert_position(d, k);
        } else {
            assert forall|i: int| 0 <= i < s.len() implies s[i].0 <= k by {
                if i < s.len() - 1 {
                    assert(s[i].0 <= s[s.len() - 1].0);
                }
            }
        }
    }
}

/// The stable sort orders the items by key and keeps them all.
pub proof fn lemma_stable_sorted(s: Seq<(int, Seq<char>)>)
    ensures
        keys_sorted(stable_sorted(s)),
        stable_sorted(s).len() == s.len(),
        stable_sorted(s).to_multiset() == s.to_multiset(),
    decreases s.len(),
{
    if s.len() > 0 {
        lemma_stable_sorted(s.drop_last());
        let t = stable_sorted(s.drop_last());
        let x = s.last();
        lemma_insert_position(t, x.0);
        let p = insert_position(t, x.0);
        let r = t.take(p).push(x) + t.skip(p);
        assert forall|i: int, j: int| 0 <= i < j < r.len() implies r[i].0 <= r[j].0 by {
            if j < p {
                assert(r[i] == t[i] && r[j] == t[j]);
            } else if j == p {
                assert(r[j] == x);
                assert(r[i] == t[i]);
            } else if i < p {
                assert(r[i] == t[i] && r[j] == t[j - 1]);
            } else if i == p {
                assert(r[j] == t[j - 1]);
            } else {
                assert(r[i] == t[i - 1] && r[j] == t[j - 1]);
            }
        }
        vstd::seq_lib::lemma_multiset_commutative(t.take(p).push(x), t.skip(p));
        vstd::seq_lib::lemma_multiset_commutative(t.take(p), t.skip(p));
        assert(t.take(p) + t.skip(p) =~= t);
        assert(s.drop_last().push(x) =~= s);
        assert(t.take(p).push(x).to_multiset() == t.take(p).to_multiset().insert(x)) by {
            t.take(p).to_multiset_ensures();
        }
        assert(s.to_multiset() == s.drop_last().to_multiset().insert(x)) by {
            s.drop_last().to_multiset_ensures();
        }
    }
}

fn frame_items_exec(dir: &str, names: &Vec<String>, prefix: &str) -> (r: Vec<(u32, String)>)
    ensures
        r@.map_values(|x: (u32, String)| (x.0 as int, x.1@)) == frame_items(dir@, names@, prefix@),
{
    let mut out: Vec<(u32, String)> = Vec::new();
    let mut i: usize = 0;
    while i < names.len()
        invariant
            0 <= i <= names@.len(),
            out@.map_values(|x: (u32, String)| (x.0 as int, x.1@)) == frame_items(
                dir@,
                names@.subrange(0, i as int),
                prefix@,
            ),
        decreases names@.len() - i,
    {
        proof {
            let s1 = names@.subrange(0, i + 1);
            assert(s1.drop_last() =~= names@.subrange(0, i as int));
            assert(s1.last() == names@[i as int]);
        }
        let ghost before = out@;
        match frame_number_of(names[i].as_str(), prefix) {
            Some(n) => {
                let path = path_join(dir, names[i].as_str());
                out.push((n, path));
                proof {
                    assert(out@.map_values(|x: (u32, String)| (x.0 as int, x.1@)) =~= before.map_values(
                        |x: (u32, String)| (x.0 as int, x.1@),
                    ).push((n as int, joined_path(dir@, names@[i as int]@))));
                }
            },
            None => {},
        }
        i = i + 1;
    }
    assert(names@.subrange(0, names@.len() as int) =~= names@);
    out
}

/// The frame paths among the files `names` of directory `dir` whose names
/// start with `prefix` and end in `.png` with only digits between, ordered
/// by frame number; files with equal numbers keep their listing order.
pub fn collect_frames(dir: &str, names: &Vec<String>, prefix: &str) -> (r: Vec<String>)
    ensures
        r@.map_values(|p: String| p@) == frame_paths_of(dir@, names@, prefix@),
{
    let items = frame_items_exec(dir, names, prefix);
    let ghost its = frame_items(dir@, names@, prefix@);
    let mut sorted: Vec<(u32, String)> = Vec::new();
    let mut i: usize = 0;
    while i < items.len()
        invariant
            0 <= i <= items@.len(),
            items@.map_values(|x: (u32, String)| (x.0 as int, x.1@)) == its,
            sorted@.map_values(|x: (u32, String)| (x.0 as int, x.1@)) == stable_sorted(
                its.subrange(0, i as int),
            ),
        decreases items@.len() - i,
    {
        let ghost t = stable_sorted(its.subrange(0, i as int));
        proof {
            let s1 = its.subrange(0, i + 1);
            assert(s1.drop_last() =~= its.subrange(0, i as int));
            assert(s1.last() == its[i as int]);
        }
        let k = items[i].0;
        let mut p = sorted.len();
        assert(t.take(p as int) =~= t);
        while p > 0 && sorted[p - 1].0 > k
            invariant
                0 <= p <= sorted@.len(),
                sorted@.map_values(|x: (u32, String)| (x.0 as int, x.1@)) == t,
                insert_position(t, k as int) == insert_position(t.take(p as int), k as int),
            decreases p,
        {
            proof {
                assert(t.take(p as int).drop_last() =~= t.take(p - 1));
                assert(t.take(p as int).last() == t[p - 1]);
            }
            p = p - 1;
        }
        proof {
            if p > 0 {
                assert(t.take(p as int).last() == t[p - 1]);
            }
            assert(insert_position(t.take(p as int), k as int) == p);
        }
        let ghost before = sorted@;
        sorted.insert(p, (k, items[i].1.clone()));
        proof {
            let x = its[i as int];
            assert(x == (k as int, items@[i as int].1@));
            assert(sorted@.map_values(|x: (u32, String)| (x.0 as int, x.1@)) =~= t.take(p as int).push(
                x,
            ) + t.skip(p as int));
        }
        i = i + 1;
    }
    assert(its.subrange(0, items@.len() as int) =~= its);
    let mut out: Vec<String> = Vec::new();
    let mut j: usize = 0;
    while j < sorted.len()
        invariant
            0 <= j <= sorted@.len(),
            sorted@.map_values(|x: (u32, String)| (x.0 as int, x.1@)) == stable_sorted(its),
            out@.map_values(|p: String| p@) == stable_sorted(its).take(j as int).map_values(
                |x: (int, Seq<char>)| x.1,
            ),
        decreases sorted@.len() - j,
    {
        let ghost before = out@;
        let item = sorted[j].1.clone();
        assert(item@ == sorted@[j as int].1@);
        out.push(item);
        proof {
            assert(stable_sorted(its)[j as int] == (sorted@[j as int].0 as int, sorted@[j as int].1@));
            assert(out@.map_values(|p: String| p@) =~= before.map_values(|p: String| p@).push(item@));
            assert(out@.map_values(|p: String| p@) =~= stable_sorted(its).take(j + 1).map_values(
                |x: (int, Seq<char>)| x.1,
            ));
        }
        j = j + 1;
    }
    assert(stable_sorted(its).take(sorted@.len() as int) =~= stable_sorted(its));
    out
}

// -------------------------------------------------------------- directions

/// Which way the character walks.
#[derive(Clone, Copy, Debug, PartialEq, Eq, Structural)]
pub enum Direction {
    Left,
    Right,
}

/// `left`/`l` and `right`/`r`, in any letter case.
pub open spec fn direction_value(s: Seq<char>) -> Option<Direction> {
    let l = ascii_lower(s);
    if l == "left"@ || l == "l"@ {
        Some(Direction::Left)
    } else if l == "right"@ || l == "r"@ {
        Some(Direction::Right)
    } else {
        None
    }
}

/// The walking directions understood, without regard to case: "left" and
/// "l" walk left, "right" and "r" walk right, nothing else is a direction.
pub proof fn law_direction_words(s: Seq<char>)
    ensures
        ({
            let w = ascii_lower(s);
            &&& (w == "left"@ || w == "l"@) ==> direction_value(s) == Some(Direction::Left)
            &&& (w == "right"@ || w == "r"@) ==> direction_value(s) == Some(Direction::Right)
            &&& !(w == "left"@ || w == "l"@ || w == "right"@ || w == "r"@) ==> direction_value(s) is None
        }),
{
    reveal_strlit("left");
    reveal_strlit("l");
    reveal_strlit("right");
    reveal_strlit("r");
    assert("left"@.len() == 4 && "l"@.len() == 1 && "right"@.len() == 5 && "r"@.len() == 1);
    assert("l"@[0] == 'l' && "r"@[0] == 'r');
}

/// A fair coin from `rand::thread_rng().gen::<bool>()`; nothing is claimed
/// of its value.
#[verifier::external_body]
fn coin() -> bool {
    rand::Rng::gen(&mut rand::thread_rng())
}

impl Direction {
    pub fn parse(s: &str) -> (r: Option<Direction>)
        ensures
            r == direction_value(s@),
    {
        let l = ascii_lower_chars(&chars_of(s));
        if is_text(&l, "left") || is_text(&l, "l") {
            Some(Direction::Left)
        } else if is_text(&l, "right") || is_text(&l, "r") {
            Some(Direction::Right)
        } else {
            None
        }
    }

    /// The direction a coin toss picks: heads walk right.
    pub fn from_coin(heads: bool) -> (r: Direction)
        ensures
            r == (if heads {
                Direction::Right
            } else {
                Direction::Left
            }),
    {
        if heads {
            Direction::Right
        } else {
            Direction::Left
        }
    }

    /// A direction picked at random.
    pub fn random() -> (r: Direction) {
        Direction::from_coin(coin())
    }
}

// ------------------------------------------------------------ characters

/// What reading `character.json` gave.
#[derive(Debug)]
pub enum Manifest {
    /// It could not be read.
    Missing,
    /// It did not parse; the parser's message.
    Invalid(String),
    /// It parsed.
    Parsed(CharacterDef),
}

/// `r` is what loading the character in directory `dir` under the name
/// `name` gives: a missing manifest means the character is not found (in
/// the directory's parent), an unparsable one is invalid, and a character
/// needs at least one right-facing frame; its frames are the directory's
/// `walk_NN.png` and `walk_left_NN.png` files in frame order.
pub open spec fn loaded_from(r: Result<Character, CharacterError>, dir: Seq<char>, name: Seq<char>, manifest: Manifest, names: Seq<String>) -> bool {
    match manifest {
        Manifest::Missing => r matches Err(CharacterError::NotFound(n, p)) && n@ == name && p@ == (
        match parent_path(dir) {
            Some(q) => q,
            None => Seq::empty(),
        }),
        Manifest::Invalid(e) => r matches Err(CharacterError::InvalidManifest(d, m)) && d@ == dir
            && m@ == e@,
        Manifest::Parsed(def) => if frame_paths_of(dir, names, "walk_"@).len() == 0 {
            r matches Err(CharacterError::NoFrames(n)) && n@ == name
        } else {
            r matches Ok(c) && c.def == def && c.dir@ == dir && c.frame_paths@.map_values(
                |p: String| p@,
            ) == frame_paths_of(dir, names, "walk_"@) && c.left_frame_paths@.map_values(
                |p: String| p@,
            ) == frame_paths_of(dir, names, "walk_left_"@)
        },
    }
}

impl Character {
    /// Loads the character in directory `dir` under the name `name`, given
    /// what reading its manifest gave and the names of its files.
    pub fn load_dir(dir: &str, name: &str, manifest: Manifest, names: &Vec<String>) -> (r: Result<Character, CharacterError>)
            ensures
            loaded_from(r, dir@, name@, manifest, names@),
    {
        match manifest {
            Manifest::Missing => {
                let parent = match path_parent(dir) {
                    Some(p) => p,
                    None => String::new(),
                };
                Err(CharacterError::NotFound(String::from_str(name), parent))
            },
            Manifest::Invalid(e) => Err(CharacterError::InvalidManifest(String::from_str(dir), e)),
            Manifest::Parsed(def) => {
                let frame_paths = collect_frames(dir, names, "walk_");
                let left_frame_paths = collect_frames(dir, names, "walk_left_");
                if frame_paths.len() == 0 {
                    return Err(CharacterError::NoFrames(String::from_str(name)));
                }
                Ok(Character { def, frame_paths, left_frame_paths, dir: String::from_str(dir) })
            },
        }
    }

    /// Loads a character by name from the home characters dir, given what
    /// reading its manifest gave and the names of its files.
    pub fn load(home: &Home, name: &str, manifest: Manifest, names: &Vec<String>) -> (r: Result<Character, CharacterError>)
        ensures
            loaded_from(r, joined_path(joined_path(home@, "characters"@), name@), name@, manifest, names@),
    {
        let dir = home.character_dir(name);
        Character::load_dir(dir.as_str(), name, manifest, names)
    }

    /// Validates a candidate character directory (used by `character
    /// import`): it is loaded under its own directory name, or "custom".
    pub fn validate_dir(dir: &str, manifest: Manifest, names: &Vec<String>) -> (r: Result<Character, CharacterError>)
        ensures
            loaded_from(
                r,
                dir@,
                match file_name_of(dir@) {
                    Some(f) => f,
                    None => "custom"@,
                },
                manifest,
                names@,
            ),
    {
        let name = match path_file_name(dir) {
            Some(n) => n,
            None => String::from_str("custom"),
        };
        Character::load_dir(dir, name.as_str(), manifest, names)
    }

    /// The frames to walk with: the left-facing ones when walking left and
    /// there are any, else the right-facing ones.
    pub fn frames_for(&self, direction: Direction) -> (r: &Vec<String>)
        ensures
            r == (if direction == Direction::Left && self.left_frame_paths@.len() > 0 {
                &self.left_frame_paths
            } else {
                &self.frame_paths
            }),
    {
        if direction == Direction::Left && self.left_frame_paths.len() > 0 {
            &self.left_frame_paths
        } else {
            &self.frame_paths
        }
    }
}

/// Whether the bundled default character should be extracted: it is not
/// there yet, and either nothing is installed or the active character is
/// the default. Keeps the default from reappearing after a user deletes it
/// in favor of a custom one.
pub fn default_wanted(default_present: bool, active: &str, any_installed: bool) -> (r: bool)
    ensures
        r == (!default_present && (!any_installed || active@ == "footballer"@)),
{
    if default_present {
        return false;
    }
    let a = chars_of(active);
    if any_installed && !is_text(&a, "footballer") {
        return false;
    }
    true
}


// ------------------------------------------------------ installed listing

/// `a` sorts strictly before `b` in the order of `String` (byte order of
/// UTF-8, which is the order of code points, character by character).
pub open spec fn text_lt(a: Seq<char>, b: Seq<char>) -> bool
    decreases a.len(),
{
    if a.len() == 0 {
        b.len() > 0
    } else if b.len() == 0 {
        false
    } else if a[0] != b[0] {
        a[0] < b[0]
    } else {
        text_lt(a.drop_first(), b.drop_first())
    }
}

/// The order of `(String, String)` pairs: by the first text, then the second.
pub open spec fn pair_lt(a: (Seq<char>, Seq<char>), b: (Seq<char>, Seq<char>)) -> bool {
    text_lt(a.0, b.0) || (a.0 == b.0 && text_lt(a.1, b.1))
}

proof fn lemma_text_lt_order(a: Seq<char>, b: Seq<char>, c: Seq<char>)
    ensures
        !text_lt(a, a),
        text_lt(a, b) ==> !text_lt(b, a),
        text_lt(a, b) && text_lt(b, c) ==> text_lt(a, c),
        a != b ==> text_lt(a, b) || text_lt(b, a),
    decreases a.len(),
{
    if a.len() > 0 {
        lemma_text_lt_order(a.drop_first(), a.drop_first(), a.drop_first());
        if b.len() > 0 {
            lemma_text_lt_order(a.drop_first(), b.drop_first(), b.drop_first());
            if c.len() > 0 {
                lemma_text_lt_order(a.drop_first(), b.drop_first(), c.drop_first());
            }
            if a != b && a[0] == b[0] {
                assert(a.drop_first() != b.drop_first()) by {
                    if a.drop_first() == b.drop_first() {
                        assert(a =~= seq![a[0]] + a.drop_first());
                        assert(b =~= seq![b[0]] + b.drop_first());
                    }
                }
            }
        }
    } else {
        if b.len() == 0 {
            assert(a =~= b);
        }
    }
}

/// The stable position for `x` in the pair-sorted `s`: after every pair
/// not above it.
pub open spec fn pair_position(s: Seq<(Seq<char>, Seq<char>)>, x: (Seq<char>, Seq<char>)) -> int
    decreases s.len(),
{
    if s.len() == 0 {
        0
    } else if !pair_lt(x, s.last()) {
        s.len() as int
    } else {
        pair_position(s.drop_last(), x)
    }
}

/// `s` sorted by `pair_lt`, by insertion.
pub open spec fn pairs_sorted(s: Seq<(Seq<char>, Seq<char>)>) -> Seq<(Seq<char>, Seq<char>)>
    decreases s.len(),
{
    if s.len() == 0 {
        s
    } else {
        let t = pairs_sorted(s.drop_last());
        let p = pair_position(t, s.last());
        t.take(p).push(s.last()) + t.skip(p)
    }
}

/// No pair of `s` sorts before an earlier one.
pub open spec fn pairs_in_order(s: Seq<(Seq<char>, Seq<char>)>) -> bool {
    forall|i: int, j: int| 0 <= i < j < s.len() ==> !pair_lt(#[trigger] s[j], #[trigger] s[i])
}

proof fn lemma_pair_order(a: (Seq<char>, Seq<char>), b: (Seq<char>, Seq<char>), c: (Seq<char>, Seq<char>))
    ensures
        !pair_lt(a, a),
        pair_lt(a, b) ==> !pair_lt(b, a),
        pair_lt(a, b) && pair_lt(b, c) ==> pair_lt(a, c),
        !pair_lt(a, b) && !pair_lt(b, c) ==> !pair_lt(a, c),
{
    lemma_text_lt_order(a.0, b.0, c.0);
    lemma_text_lt_order(a.1, b.1, c.1);
    lemma_text_lt_order(b.0, a.0, c.0);
    lemma_text_lt_order(b.1, a.1, c.1);
    lemma_text_lt_order(c.0, b.0, a.0);
    lemma_text_lt_order(c.1, b.1, a.1);
    lemma_text_lt_order(a.0, c.0, b.0);
    lemma_text_lt_order(a.1, c.1, b.1);
    lemma_text_lt_order(b.0, c.0, a.0);
    lemma_text_lt_order(b.1, c.1, a.1);
    lemma_text_lt_order(c.0, a.0, b.0);
    lemma_text_lt_order(c.1, a.1, b.1);
    if a.0 != b.0 {
        assert(text_lt(a.0, b.0) || text_lt(b.0, a.0));
    }
    if a.1 != b.1 {
        assert(text_lt(a.1, b.1) || text_lt(b.1, a.1));
    }
    if b.0 != c.0 {
        assert(text_lt(b.0, c.0) || text_lt(c.0, b.0));
    }
    if b.1 != c.1 {
        assert(text_lt(b.1, c.1) || text_lt(c.1, b.1));
    }
    if a.0 != c.0 {
        assert(text_lt(a.0, c.0) || text_lt(c.0, a.0));
    }
}

proof fn lemma_pair_position(s: Seq<(Seq<char>, Seq<char>)>, x: (Seq<char>, Seq<char>))
    requires
        pairs_in_order(s),
    ensures
        0 <= pair_position(s, x) <= s.len(),
        forall|i: int| 0 <= i < pair_position(s, x) ==> !pair_lt(x, #[trigger] s[i]),
        forall|i: int| pair_position(s, x) <= i < s.len() ==> pair_lt(x, #[trigger] s[i]),
    decreases s.len(),
{
    if s.len() > 0 {
        let d = s.drop_last();
        assert(pairs_in_order(d)) by {
            assert forall|i: int, j: int| 0 <= i < j < d.len() implies !pair_lt(#[trigger] d[j], #[trigger] d[i]) by {
                assert(d[i] == s[i] && d[j] == s[j]);
            }
        }
        if pair_lt(x, s.last()) {
            lemma_pair_position(d, x);
            assert forall|i: int| 0 <= i < pair_position(s, x) implies !pair_lt(x, #[trigger] s[i]) by {
                assert(s[i] == d[i]);
            }
            assert forall|i: int| pair_position(s, x) <= i < s.len() implies pair_lt(x, #[trigger] s[i]) by {
                if i < s.len() - 1 {
                    assert(s[i] == d[i]);
                }
            }
        } else {
            assert forall|i: int| 0 <= i < s.len() implies !pair_lt(x, #[trigger] s[i]) by {
                if i < s.len() - 1 {
                    assert(!pair_lt(s[s.len() - 1], s[i]));
                    lemma_pair_order(x, s[s.len() - 1], s[i]);
                }
            }
        }
    }
}

/// Sorting by insertion orders the pairs and keeps them all.
pub proof fn lemma_pairs_sorted(s: Seq<(Seq<char>, Seq<char>)>)
    ensures
        pairs_in_order(pairs_sorted(s)),
        pairs_sorted(s).to_multiset() == s.to_multiset(),
    decreases s.len(),
{
    if s.len() > 0 {
        lemma_pairs_sorted(s.drop_last());
        let t = pairs_sorted(s.drop_last());
        let x = s.last();
        lemma_pair_position(t, x);
        let p = pair_position(t, x);
        let r = t.take(p).push(x) + t.skip(p);
        assert forall|i: int, j: int| 0 <= i < j < r.len() implies !pair_lt(#[trigger] r[j], #[trigger] r[i]) by {
            if j < p {
                assert(r[i] == t[i] && r[j] == t[j]);
            } else if j == p {
                assert(r[j] == x && r[i] == t[i]);
            } else if i < p {
                assert(r[i] == t[i] && r[j] == t[j - 1]);
                lemma_pair_order(t[j - 1], x, t[i]);
            } else if i == p {
                assert(r[i] == x && r[j] == t[j - 1]);
                lemma_pair_order(t[j - 1], x, x);
            } else {
                assert(r[i] == t[i - 1] && r[j] == t[j - 1]);
            }
        }
        vstd::seq_lib::lemma_multiset_commutative(t.take(p).push(x), t.skip(p));
        vstd::seq_lib::lemma_multiset_commutative(t.take(p), t.skip(p));
        assert(t.take(p) + t.skip(p) =~= t);
        assert(s.drop_last().push(x) =~= s);
        assert(t.take(p).push(x).to_multiset() == t.take(p).to_multiset().insert(x)) by {
            t.take(p).to_multiset_ensures();
        }
        assert(s.to_multiset() == s.drop_last().to_multiset().insert(x)) by {
            s.drop_last().to_multiset_ensures();
        }
    }
}

fn text_less(a: &Vec<char>, b: &Vec<char>) -> (r: bool)
    ensures
        r == text_lt(a@, b@),
{
    let mut i: usize = 0;
    assert(a@.skip(0) =~= a@ && b@.skip(0) =~= b@);
    while i < a.len() && i < b.len() && a[i] == b[i]
        invariant
            0 <= i <= a.len(),
            i <= b.len(),
            forall|j: int| 0 <= j < i ==> a@[j] == b@[j],
            text_lt(a@, b@) == text_lt(a@.skip(i as int), b@.skip(i as int)),
        decreases a.len() - i,
    {
        proof {
            assert(a@.skip(i as int).drop_first() =~= a@.skip(i + 1));
            assert(b@.skip(i as int).drop_first() =~= b@.skip(i + 1));
        }
        i = i + 1;
    }
    if i == a.len() {
        i < b.len()
    } else if i == b.len() {
        false
    } else {
        a[i] < b[i]
    }
}

fn pair_less(a: &(Vec<char>, Vec<char>), b: &(Vec<char>, Vec<char>)) -> (r: bool)
    ensures
        r == pair_lt((a.0@, a.1@), (b.0@, b.1@)),
{
    text_less(&a.0, &b.0) || (crate::text::seq_eq(&a.0, &b.0) && text_less(&a.1, &b.1))
}

/// The installed characters (name, description) in the order of
/// `[(String, String)]::sort`: by name, then description.
pub fn sort_installed(items: Vec<(String, String)>) -> (r: Vec<(String, String)>)
    ensures
        r@.map_values(|x: (String, String)| (x.0@, x.1@)) == pairs_sorted(
            items@.map_values(|x: (String, String)| (x.0@, x.1@)),
        ),
{
    let ghost its = items@.map_values(|x: (String, String)| (x.0@, x.1@));
    let mut sorted: Vec<(String, String)> = Vec::new();
    let mut keys: Vec<(Vec<char>, Vec<char>)> = Vec::new();
    let mut i: usize = 0;
    while i < items.len()
        invariant
            0 <= i <= items@.len(),
            its == items@.map_values(|x: (String, String)| (x.0@, x.1@)),
            sorted@.map_values(|x: (String, String)| (x.0@, x.1@)) == pairs_sorted(its.take(i as int)),
            keys@.len() == sorted@.len(),
            forall|k: int| 0 <= k < keys@.len() ==> (#[trigger] keys@[k]).0@ == sorted@[k].0@ && keys@[k].1@ == sorted@[k].1@,
        decreases items@.len() - i,
    {
        let ghost t = pairs_sorted(its.take(i as int));
        let ghost x = its[i as int];
        proof {
            assert(its.take(i + 1).drop_last() =~= its.take(i as int));
            assert(its.take(i + 1).last() == x);
        }
        let key = (chars_of(items[i].0.as_str()), chars_of(items[i].1.as_str()));
        assert((key.0@, key.1@) == x);
        let mut p = sorted.len();
        assert(t.take(p as int) =~= t);
        while p > 0 && pair_less(&key, &keys[p - 1])
            invariant
                0 <= p <= sorted@.len(),
                keys@.len() == sorted@.len(),
                (key.0@, key.1@) == x,
                sorted@.map_values(|x: (String, String)| (x.0@, x.1@)) == t,
                forall|k: int| 0 <= k < keys@.len() ==> (#[trigger] keys@[k]).0@ == sorted@[k].0@ && keys@[k].1@ == sorted@[k].1@,
                pair_position(t, x) == pair_position(t.take(p as int), x),
            decreases p,
        {
            proof {
                assert(t.take(p as int).drop_last() =~= t.take(p - 1));
                assert(t.take(p as int).last() == t[p - 1]);
                assert(t[p - 1] == (keys@[p - 1].0@, keys@[p - 1].1@));
            }
            p = p - 1;
        }
        proof {
            if p > 0 {
                assert(t.take(p as int).last() == t[p - 1]);
                assert(t[p - 1] == (keys@[p - 1].0@, keys@[p - 1].1@));
            }
            assert(pair_position(t.take(p as int), x) == p);
        }
        let ghost before = sorted@;
        let ghost before_keys = keys@;
        sorted.insert(p, (items[i].0.clone(), items[i].1.clone()));
        keys.insert(p, key);
        proof {
            assert(sorted@.map_values(|x: (String, String)| (x.0@, x.1@)) =~= t.take(p as int).push(x)
                + t.skip(p as int));
            assert forall|k: int| 0 <= k < keys@.len() implies (#[trigger] keys@[k]).0@ == sorted@[k].0@
                && keys@[k].1@ == sorted@[k].1@ by {
                if k < p {
                    assert(keys@[k] == before_keys[k] && sorted@[k] == before[k]);
                } else if k > p {
                    assert(keys@[k] == before_keys[k - 1] && sorted@[k] == before[k - 1]);
                }
            }
        }
        i = i + 1;
    }
    assert(its.take(items@.len() as int) =~= its);
    sorted
}

} // verus!
