use kinematic::font::{Font, PathFacts};
use kinematic::noise::lattice_hash;

#[test]
fn lattice_hash_of_the_origin_without_salt_is_zero() {
    assert_eq!(lattice_hash(0, 0, 0), 0);
}

#[test]
fn lattice_hash_mixes_each_coordinate_and_the_salt() {
    assert_eq!(lattice_hash(1, 0, 0), 33350994);
    assert_eq!(lattice_hash(0, 1, 0), 520022130);
    assert_eq!(lattice_hash(0, 0, 1), 1641512162);
    assert_eq!(lattice_hash(-1, 2, 3), 2021552902);
    assert_eq!(lattice_hash(5, 7, 2), 1124054994);
}

fn facts(is_absolute: bool, exists: bool, canonical: Option<&str>, bundled_canonical: Option<&str>) -> PathFacts {
    PathFacts {
        is_absolute,
        exists,
        canonical: canonical.map(String::from),
        bundled: String::from("/engine/fonts/a.ttf"),
        bundled_canonical: bundled_canonical.map(String::from),
    }
}

#[test]
fn absolute_font_paths_are_kept() {
    let font = Font::new(String::from("/usr/share/a.ttf"), facts(true, true, Some("/x"), Some("/y")));
    assert_eq!(font.path(), "/usr/share/a.ttf");
}

#[test]
fn existing_relative_font_paths_are_made_canonical() {
    let font = Font::new(String::from("fonts/a.ttf"), facts(false, true, Some("/work/fonts/a.ttf"), None));
    assert_eq!(font.path(), "/work/fonts/a.ttf");
    let kept = Font::new(String::from("fonts/a.ttf"), facts(false, true, None, None));
    assert_eq!(kept.path(), "fonts/a.ttf");
}

#[test]
fn missing_relative_font_paths_fall_back_to_the_bundled_directory() {
    let font = Font::new(String::from("fonts/a.ttf"), facts(false, false, None, Some("/real/fonts/a.ttf")));
    assert_eq!(font.path(), "/real/fonts/a.ttf");
    let joined = Font::new(String::from("fonts/a.ttf"), facts(false, false, None, None));
    assert_eq!(joined.path(), "/engine/fonts/a.ttf");
}
