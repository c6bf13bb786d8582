use indexmap::IndexMap;
use rua::gate::archive_whitelist;
use rua::gate::base_of;
use rua::gate::builds_base;
use rua::gate::check_tars_and_move;
use rua::gate::expected_prefix;
use rua::gate::filter_artifacts;
use rua::gate::is_whitelisted;
use rua::gate::tier_whitelist;
use rua::gate::whitelist_of;
use rua::gate::GateStep;
use rua::plan::PlanEntry;

fn names(list: &[&str]) -> Vec<String> {
    list.iter().map(|s| s.to_string()).collect()
}

fn render(steps: &[GateStep]) -> Vec<String> {
    steps
        .iter()
        .map(|s| match s {
            GateStep::Audit(f) => format!("audit {}", f),
            GateStep::ResetChecked => "reset".to_string(),
            GateStep::Move(f) => format!("move {}", f),
        })
        .collect()
}

#[test]
fn prefix_is_target_hyphen_version() {
    assert_eq!(expected_prefix("foo", "1.0-1"), "foo-1.0-1");
    assert_eq!(expected_prefix("", ""), "-");
    assert_eq!(expected_prefix("lib-bar", "2:3.4-5"), "lib-bar-2:3.4-5");
}

#[test]
fn whitelist_has_one_prefix_for_each_target() {
    let mut versions = IndexMap::new();
    versions.insert("foo".to_string(), "1.0-1".to_string());
    versions.insert("libbar".to_string(), "2.3-4".to_string());
    versions.insert("foo-docs".to_string(), "1.0-1".to_string());
    assert_eq!(archive_whitelist(&versions), names(&["foo-1.0-1", "libbar-2.3-4", "foo-docs-1.0-1"]));
    let none: IndexMap<String, String> = IndexMap::new();
    assert!(archive_whitelist(&none).is_empty());
}

#[test]
fn whitelist_matches_by_prefix() {
    let whitelist = names(&["foo-1.0-1", "libbar-2.3-4"]);
    assert!(is_whitelisted("foo-1.0-1-x86_64.pkg.tar.xz", &whitelist));
    assert!(is_whitelisted("foo-1.0-1", &whitelist));
    assert!(is_whitelisted("libbar-2.3-4-any.pkg.tar", &whitelist));
    assert!(!is_whitelisted("foo-1.0-2-x86_64.pkg.tar.xz", &whitelist));
    assert!(!is_whitelisted("foo-1.0", &whitelist));
    assert!(!is_whitelisted("xfoo-1.0-1-x86_64.pkg.tar.xz", &whitelist));
    assert!(!is_whitelisted("PKGBUILD", &whitelist));
    assert!(!is_whitelisted("", &whitelist));
    assert!(!is_whitelisted("foo-1.0-1-x86_64.pkg.tar.xz", &Vec::new()));
    assert!(is_whitelisted("anything", &names(&[""])));
}

#[test]
fn unexpected_files_are_not_kept() {
    let files = names(&[
        "PKGBUILD",
        "foo-1.0-1-x86_64.pkg.tar.xz",
        "foo-0.9-1-x86_64.pkg.tar.xz",
        "src",
        "libbar-2.3-4-any.pkg.tar",
        "foo.install",
    ]);
    let whitelist = names(&["foo-1.0-1", "libbar-2.3-4"]);
    assert_eq!(
        filter_artifacts(&files, &whitelist),
        names(&["foo-1.0-1-x86_64.pkg.tar.xz", "libbar-2.3-4-any.pkg.tar"])
    );
}

#[test]
fn filtering_twice_changes_nothing() {
    let files = names(&["a-1", "b-1", "a-1.sig", "c", "a-2"]);
    let whitelist = names(&["a-1", "c"]);
    let once = filter_artifacts(&files, &whitelist);
    let twice = filter_artifacts(&once, &whitelist);
    assert_eq!(once, names(&["a-1", "a-1.sig", "c"]));
    assert_eq!(once, twice);
}

#[test]
fn gate_audits_all_before_it_moves_any() {
    let files = names(&["junk", "foo-1.0-1-x86_64.pkg.tar.xz", "foo-docs-1.0-1-any.pkg.tar.xz"]);
    let whitelist = names(&["foo-1.0-1", "foo-docs-1.0-1"]);
    let steps = check_tars_and_move(&files, &whitelist);
    assert_eq!(
        render(&steps),
        names(&[
            "audit foo-1.0-1-x86_64.pkg.tar.xz",
            "audit foo-docs-1.0-1-any.pkg.tar.xz",
            "reset",
            "move foo-1.0-1-x86_64.pkg.tar.xz",
            "move foo-docs-1.0-1-any.pkg.tar.xz",
        ])
    );
}

#[test]
fn gate_resets_even_when_nothing_is_expected() {
    let steps = check_tars_and_move(&names(&["junk", "PKGBUILD"]), &names(&["foo-1.0-1"]));
    assert_eq!(render(&steps), names(&["reset"]));
    let steps = check_tars_and_move(&Vec::new(), &Vec::new());
    assert_eq!(render(&steps), names(&["reset"]));
}

#[test]
fn gate_gives_the_same_steps_again() {
    let files = names(&["foo-1.0-1-x86_64.pkg.tar.xz", "old-0.1-1-any.pkg.tar"]);
    let whitelist = names(&["foo-1.0-1"]);
    let first = render(&check_tars_and_move(&files, &whitelist));
    let second = render(&check_tars_and_move(&files, &whitelist));
    assert_eq!(first, second);
    assert!(!first.iter().any(|s| s.contains("old-0.1-1")));
}

fn entry(pkgbase: &str, depth: i32, split: &str) -> PlanEntry {
    PlanEntry { pkgbase: pkgbase.to_string(), depth, split: split.to_string() }
}

fn pairs(list: &[(&str, &str)]) -> Vec<(String, String)> {
    list.iter().map(|(a, b)| (a.to_string(), b.to_string())).collect()
}

#[test]
fn whitelist_of_pairs() {
    assert_eq!(
        whitelist_of(&pairs(&[("foo", "1-1"), ("bar", "2-1")])),
        names(&["foo-1-1", "bar-2-1"])
    );
    assert!(whitelist_of(&Vec::new()).is_empty());
}

#[test]
fn tier_expects_its_own_targets_only() {
    let bases = pairs(&[("app", "app"), ("lib", "lib"), ("lib-docs", "lib"), ("orphan", "gone")]);
    let versions =
        pairs(&[("app", "3-1"), ("lib", "1-1"), ("stray", "9-9"), ("lib-docs", "1-1"), ("orphan", "1")]);
    let deep = vec![entry("lib", 1, "lib")];
    let top = vec![entry("app", 0, "app")];
    assert_eq!(tier_whitelist(&bases, &versions, &deep), names(&["lib-1-1", "lib-docs-1-1"]));
    assert_eq!(tier_whitelist(&bases, &versions, &top), names(&["app-3-1"]));
    assert!(tier_whitelist(&bases, &versions, &Vec::new()).is_empty());
    assert!(tier_whitelist(&Vec::new(), &versions, &deep).is_empty());
    let both = vec![entry("lib", 1, "lib"), entry("app", 1, "app")];
    assert_eq!(
        tier_whitelist(&bases, &versions, &both),
        names(&["app-3-1", "lib-1-1", "lib-docs-1-1"])
    );
}

#[test]
fn artifact_of_another_tier_is_not_taken() {
    let bases = pairs(&[("app", "app"), ("lib", "lib")]);
    let versions = pairs(&[("app", "3-1"), ("lib", "1-1")]);
    let whitelist = tier_whitelist(&bases, &versions, &vec![entry("lib", 1, "lib")]);
    let files = names(&["lib-1-1-any.pkg.tar.xz", "app-3-1-any.pkg.tar.xz"]);
    assert_eq!(filter_artifacts(&files, &whitelist), names(&["lib-1-1-any.pkg.tar.xz"]));
}

#[test]
fn base_lookup_and_tier_membership() {
    let bases = pairs(&[("lib-docs", "lib"), ("app", "app")]);
    assert_eq!(base_of(&bases, "lib-docs"), Some("lib".to_string()));
    assert_eq!(base_of(&bases, "app"), Some("app".to_string()));
    assert_eq!(base_of(&bases, "lib"), None);
    let tier = vec![entry("lib", 1, "lib-docs")];
    assert!(builds_base(&tier, "lib"));
    assert!(!builds_base(&tier, "lib-docs"));
    assert!(!builds_base(&Vec::new(), "lib"));
}
