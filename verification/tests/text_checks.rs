use rua::text::ends_with;
use rua::text::matches_at;
use rua::text::same_text;
use rua::text::starts_with;

#[test]
fn part_is_found_at_its_place_only() {
    assert!(matches_at("foo-1.0-1", 0, "foo"));
    assert!(matches_at("foo-1.0-1", 4, "1.0"));
    assert!(matches_at("foo-1.0-1", 9, ""));
    assert!(matches_at("", 0, ""));
    assert!(!matches_at("foo-1.0-1", 1, "foo"));
    assert!(!matches_at("foo-1.0-1", 7, "-1x"));
    assert!(!matches_at("foo-1.0-1", 10, ""));
    assert!(!matches_at("foo", usize::MAX, "o"));
    assert!(!matches_at("fo", 0, "foo"));
}

#[test]
fn characters_count_not_bytes() {
    assert!(matches_at("z\u{e9}ro-1", 2, "ro"));
    assert!(starts_with("z\u{e9}ro-1", "z\u{e9}"));
    assert!(ends_with("archive-\u{e9}.tar", ".tar"));
    assert!(!starts_with("z\u{e9}ro", "ze"));
    assert!(same_text("z\u{e9}ro", "z\u{e9}ro"));
    assert!(!same_text("z\u{e9}ro", "zero"));
}

#[test]
fn prefix_and_suffix() {
    assert!(starts_with("foo-1.0-1-any.pkg.tar.xz", "foo-1.0-1"));
    assert!(starts_with("foo", "foo"));
    assert!(starts_with("foo", ""));
    assert!(!starts_with("foo", "foo-"));
    assert!(!starts_with("xfoo", "foo"));
    assert!(ends_with("a.tar.xz", ".tar.xz"));
    assert!(ends_with("a.tar.xz", ""));
    assert!(ends_with(".tar", ".tar"));
    assert!(!ends_with("tar", ".tar"));
    assert!(!ends_with("a.tar.xz", ".tar"));
}

#[test]
fn equal_texts() {
    assert!(same_text("", ""));
    assert!(same_text("o", "o"));
    assert!(!same_text("o", "O"));
    assert!(!same_text("o", "oo"));
    assert!(!same_text("ab", "ba"));
}
