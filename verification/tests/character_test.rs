use wremind::character::{
    collect_frames, default_wanted, frame_number_of, sort_installed, Character, CharacterDef,
    CharacterError, Direction, Manifest,
};
use wremind::paths::Home;

fn def(name: &str) -> CharacterDef {
    CharacterDef {
        name: name.into(),
        description: String::new(),
        frame_rate: 7,
        width: 80,
        height: 80,
        walking_speed: 55,
        frames: None,
    }
}

fn names(v: &[&str]) -> Vec<String> {
    v.iter().map(|s| s.to_string()).collect()
}

#[test]
fn directions() {
    assert_eq!(Direction::parse("left"), Some(Direction::Left));
    assert_eq!(Direction::parse("RIGHT"), Some(Direction::Right));
    assert_eq!(Direction::parse("up"), None);
}

#[test]
fn missing_character_is_error() {
    let home = Home::from_root("/tmp/wr-home".into());
    assert!(matches!(
        Character::load(&home, "nope", Manifest::Missing, &Vec::new()),
        Err(CharacterError::NotFound(_, _))
    ));
}

#[test]
fn import_validation_rejects_empty_dir() {
    assert!(matches!(
        Character::validate_dir("/tmp/empty-char", Manifest::Missing, &Vec::new()),
        Err(CharacterError::NotFound(_, _))
    ));
}

#[test]
fn imported_character_is_named_after_its_directory() {
    match Character::validate_dir("/tmp/empty-char", Manifest::Missing, &Vec::new()) {
        Err(CharacterError::NotFound(name, parent)) => {
            assert_eq!(name, "empty-char");
            assert_eq!(parent, "/tmp");
        }
        _ => panic!("expected NotFound"),
    }
    match Character::validate_dir("/", Manifest::Missing, &Vec::new()) {
        Err(CharacterError::NotFound(name, parent)) => {
            assert_eq!(name, "custom");
            assert_eq!(parent, "");
        }
        _ => panic!("expected NotFound"),
    }
}

#[test]
fn manifest_fields_and_frames_are_kept() {
    let c = Character::validate_dir(
        "/tmp/custom",
        Manifest::Parsed(def("t")),
        &names(&["character.json", "walk_01.png"]),
    )
    .unwrap();
    assert_eq!(c.def.frame_rate, 7);
    assert_eq!(c.def.walking_speed, 55);
    assert_eq!(c.def.width, 80);
    assert_eq!(c.frame_paths, vec!["/tmp/custom/walk_01.png".to_string()]);
    assert!(c.left_frame_paths.is_empty());
}

#[test]
fn not_found_names_parent_directory() {
    let err = Character::load_dir("/a/chars/x", "x", Manifest::Missing, &Vec::new()).unwrap_err();
    match err {
        CharacterError::NotFound(n, p) => {
            assert_eq!(n, "x");
            assert_eq!(p, "/a/chars");
        }
        _ => panic!("expected NotFound"),
    }
    let e = CharacterError::NotFound("x".into(), "/a/chars".into());
    assert_eq!(e.message(), "character 'x' not found in /a/chars (run `dribble character list`)");
}

#[test]
fn invalid_manifest_and_no_frames() {
    let e = Character::load_dir("/d", "x", Manifest::Invalid("bad".into()), &Vec::new()).unwrap_err();
    assert_eq!(e.message(), "invalid character.json in /d: bad");
    let e2 = Character::load_dir("/d", "x", Manifest::Parsed(def("x")), &names(&["walk_left_01.png"]))
        .unwrap_err();
    assert_eq!(e2.message(), "character 'x' has no walk_XX.png frames");
}

#[test]
fn frames_sorted_by_number() {
    let listing = names(&[
        "walk_10.png",
        "walk_left_02.png",
        "walk_2.png",
        "walk_01.png",
        "walk_left_01.png",
        "notes.txt",
        "walk_x.png",
    ]);
    let right = collect_frames("/c", &listing, "walk_");
    assert_eq!(right, vec!["/c/walk_01.png", "/c/walk_2.png", "/c/walk_10.png"]);
    let left = collect_frames("/c", &listing, "walk_left_");
    assert_eq!(left, vec!["/c/walk_left_01.png", "/c/walk_left_02.png"]);
}

#[test]
fn frame_numbers() {
    assert_eq!(frame_number_of("walk_07.png", "walk_"), Some(7));
    assert_eq!(frame_number_of("walk_.png", "walk_"), Some(u32::MAX));
    assert_eq!(frame_number_of("walk_99999999999.png", "walk_"), Some(u32::MAX));
    assert_eq!(frame_number_of("walk_left_01.png", "walk_"), None);
    assert_eq!(frame_number_of("walk_01.gif", "walk_"), None);
}

#[test]
fn frames_for_direction() {
    let c = Character::load_dir(
        "/c",
        "x",
        Manifest::Parsed(def("x")),
        &names(&["walk_01.png", "walk_left_01.png"]),
    )
    .unwrap();
    assert_eq!(c.frames_for(Direction::Left)[0], "/c/walk_left_01.png");
    assert_eq!(c.frames_for(Direction::Right)[0], "/c/walk_01.png");
    let d = Character::load_dir("/c", "x", Manifest::Parsed(def("x")), &names(&["walk_01.png"])).unwrap();
    assert_eq!(d.frames_for(Direction::Left)[0], "/c/walk_01.png");
}

#[test]
fn default_extraction_rule() {
    assert!(!default_wanted(true, "footballer", false));
    assert!(default_wanted(false, "custom", false));
    assert!(!default_wanted(false, "custom", true));
    assert!(default_wanted(false, "footballer", true));
}

#[test]
fn coin_picks_direction() {
    assert_eq!(Direction::from_coin(true), Direction::Right);
    assert_eq!(Direction::from_coin(false), Direction::Left);
    let d = Direction::random();
    assert!(d == Direction::Left || d == Direction::Right);
}

#[test]
fn installed_characters_sorted_like_std() {
    let items: Vec<(String, String)> = vec![
        ("zeta".into(), "".into()),
        ("ghost".into(), "b".into()),
        ("Ghost".into(), "".into()),
        ("ghost".into(), "a".into()),
        ("émile".into(), "".into()),
        ("footballer".into(), "Default".into()),
    ];
    let mut expected = items.clone();
    expected.sort();
    assert_eq!(sort_installed(items), expected);
}
