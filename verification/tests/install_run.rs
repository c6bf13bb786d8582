use indexmap::IndexMap;
use indexmap::IndexSet;
use rua::install::confirmation;
use rua::install::confirmed;
use rua::names::contains_name;
use rua::install::files_to_install;
use rua::install::install;
use rua::install::install_all;
use rua::install::missing_targets;
use rua::install::review_targets;
use rua::install::show_install_summary;
use rua::install::values;
use rua::install::summary_key;
use rua::install::InstallError;
use rua::outcome::exit_status;
use rua::outcome::RunEnd;
use rua::plan::plan_tiers;
use rua::plan::PlanEntry;
use rua::plan::PlanError;
use rua::record::PackageRecord;
use rua::schedule::as_dependency;
use rua::schedule::schedule;
use rua::schedule::stages;
use rua::schedule::Stage;
use rua::schedule::Step;

fn record(name: &str, base: &str, version: &str) -> PackageRecord {
    PackageRecord {
        name: name.to_string(),
        package_base: base.to_string(),
        version: version.to_string(),
        depends: Vec::new(),
        make_depends: Vec::new(),
        check_depends: Vec::new(),
    }
}

fn records(list: &[(&str, &str, &str)]) -> IndexMap<String, PackageRecord> {
    let mut m = IndexMap::new();
    for (name, base, version) in list {
        m.insert(name.to_string(), record(name, base, version));
    }
    m
}

fn depths(list: &[(&str, i32)]) -> IndexMap<String, i32> {
    let mut m = IndexMap::new();
    for (k, v) in list {
        m.insert(k.to_string(), *v);
    }
    m
}

fn texts(list: &[(&str, &str)]) -> IndexMap<String, String> {
    let mut m = IndexMap::new();
    for (k, v) in list {
        m.insert(k.to_string(), v.to_string());
    }
    m
}

fn set(list: &[&str]) -> IndexSet<String> {
    list.iter().map(|s| s.to_string()).collect()
}

fn names(list: &[&str]) -> Vec<String> {
    list.iter().map(|s| s.to_string()).collect()
}

fn render_step(step: &Step) -> String {
    match step {
        Step::Build { depth, pkgbase } => format!("build {} at {}", pkgbase, depth),
        Step::Audit { depth, pkgbase, whitelist } => {
            format!("audit {} at {} expecting {:?}", pkgbase, depth, whitelist)
        }
        Step::Install { depth, as_dependency, packages } => {
            format!("install {:?} at {} asdeps={}", packages, depth, as_dependency)
        }
    }
}

fn render(steps: &[Step]) -> Vec<String> {
    steps.iter().map(render_step).collect()
}

fn render_stages(stages: &[Stage]) -> Vec<String> {
    stages
        .iter()
        .map(|s| match s {
            Stage::Confirm => "confirm".to_string(),
            Stage::Review { pkgbase } => format!("review {}", pkgbase),
            Stage::InstallSystemPackages => "system packages".to_string(),
            Stage::Work(step) => render_step(step),
        })
        .collect()
}

fn pairs(list: &[(&str, &str)]) -> Vec<(String, String)> {
    list.iter().map(|(a, b)| (a.to_string(), b.to_string())).collect()
}

#[test]
fn foo_with_one_source_dependency() {
    let raur = records(&[("foo", "foo", "1.0-1"), ("libbar", "libbar", "2.0-1")]);
    let pacman = set(&["glibc"]);
    let depth = depths(&[("foo", 0), ("libbar", 1)]);
    let plan = install(&raur, &pacman, &depth, false).unwrap();
    assert_eq!(
        render_stages(&plan.stages),
        names(&[
            "confirm",
            "review foo",
            "review libbar",
            "system packages",
            "build libbar at 1",
            "audit libbar at 1 expecting [\"libbar-2.0-1\"]",
            "install [(\"libbar\", \"libbar\")] at 1 asdeps=true",
            "build foo at 0",
            "audit foo at 0 expecting [\"foo-1.0-1\"]",
            "install [(\"foo\", \"foo\")] at 0 asdeps=false",
        ])
    );
    assert_eq!(plan.pacman_deps, names(&["glibc"]));
    assert_eq!(plan.summary.pacman_deps, names(&["glibc"]));
    assert_eq!(
        plan.summary.aur_packages,
        vec![("libbar".to_string(), 1), ("foo".to_string(), 0)]
    );
}

#[test]
fn missing_name_stops_the_run_with_status_one() {
    let raur = records(&[("foo", "foo", "1.0-1")]);
    let depth = depths(&[("foo", 0), ("libgone", 1), ("libalso", 2)]);
    match install(&raur, &set(&[]), &depth, false) {
        Err(InstallError::PackagesNotFound(missing)) => {
            assert_eq!(missing, names(&["libgone", "libalso"]));
        }
        other => panic!("unexpected {:?}", other),
    }
    assert_eq!(exit_status(RunEnd::PackagesNotFound), 1);
}

#[test]
fn record_without_depth_is_an_error() {
    let raur = records(&[("foo", "foo", "1.0-1"), ("stray", "stray", "1-1")]);
    let depth = depths(&[("foo", 0)]);
    match install(&raur, &set(&[]), &depth, false) {
        Err(InstallError::MissingDepth(name)) => assert_eq!(name, "stray"),
        other => panic!("unexpected {:?}", other),
    }
}

#[test]
fn missing_targets_keep_the_order_of_the_depths() {
    let raur = records(&[("b", "b", "1"), ("d", "d", "1")]);
    let depth = depths(&[("a", 0), ("b", 1), ("c", 1), ("d", 2), ("e", 0)]);
    assert_eq!(missing_targets(&depth, &raur), names(&["a", "c", "e"]));
    assert!(missing_targets(&depths(&[]), &raur).is_empty());
    assert!(missing_targets(&depths(&[("b", 0)]), &raur).is_empty());
}

#[test]
fn single_package_is_confirmed_too() {
    let one = show_install_summary(&set(&[]), &depths(&[("foo", 0)]));
    assert!(one.pacman_deps.is_empty());
    assert_eq!(one.aur_packages, vec![("foo".to_string(), 0)]);
    let system = show_install_summary(&set(&["glibc"]), &depths(&[]));
    assert_eq!(system.pacman_deps, names(&["glibc"]));
    assert!(system.aur_packages.is_empty());
    let none = show_install_summary(&set(&[]), &depths(&[]));
    assert!(none.pacman_deps.is_empty() && none.aur_packages.is_empty());
    let raur = records(&[("foo", "foo", "1.0-1")]);
    let plan = install(&raur, &set(&[]), &depths(&[("foo", 0)]), false).unwrap();
    assert!(matches!(plan.stages[0], Stage::Confirm));
    assert_eq!(plan.summary.aur_packages, vec![("foo".to_string(), 0)]);
}

#[test]
fn run_waits_for_the_confirmation() {
    assert_eq!(confirmation(&names(&[])), None);
    assert_eq!(confirmation(&names(&["y", "yes", "n", "", "ok", "O", "q"])), None);
    assert_eq!(confirmation(&names(&["o"])), Some(0));
    assert_eq!(confirmation(&names(&["y", "", "o", "n", "o"])), Some(2));
}

#[test]
fn summary_lists_the_deepest_first() {
    let summary = show_install_summary(
        &set(&["zlib", "glibc"]),
        &depths(&[("foo", 0), ("a", 2), ("b", 1), ("c", 2), ("d", 0)]),
    );
    assert_eq!(summary.pacman_deps, names(&["zlib", "glibc"]));
    assert_eq!(
        summary.aur_packages,
        vec![
            ("a".to_string(), 2),
            ("c".to_string(), 2),
            ("b".to_string(), 1),
            ("foo".to_string(), 0),
            ("d".to_string(), 0),
        ]
    );
}

#[test]
fn summary_key_negates() {
    assert_eq!(summary_key(&("a".to_string(), 5)), -5);
    assert_eq!(summary_key(&("a".to_string(), i32::MIN)), 2147483648);
}

#[test]
fn only_o_confirms() {
    assert!(confirmed("o"));
    assert!(!confirmed(""));
    assert!(!confirmed("O"));
    assert!(!confirmed("ok"));
    assert!(!confirmed("y"));
    assert!(!confirmed("q"));
}

#[test]
fn each_package_base_is_reviewed_once() {
    let bases = texts(&[("gcc", "gcc"), ("zlib", "zlib"), ("gcc-libs", "gcc"), ("a", "zlib"), ("b", "b")]);
    assert_eq!(review_targets(&bases), names(&["gcc", "zlib", "b"]));
    assert!(review_targets(&texts(&[])).is_empty());
}

#[test]
fn contains_name_compares_whole_names() {
    let list = names(&["foo", "bar"]);
    assert!(contains_name(&list, "foo"));
    assert!(contains_name(&list, "bar"));
    assert!(!contains_name(&list, "fo"));
    assert!(!contains_name(&list, "foobar"));
    assert!(!contains_name(&Vec::new(), "foo"));
}

#[test]
fn depth_decides_the_dependency_mark() {
    assert!(!as_dependency(false, 0));
    assert!(as_dependency(false, 1));
    assert!(as_dependency(false, i32::MAX));
    assert!(as_dependency(true, 0));
    assert!(as_dependency(true, 3));
    assert!(!as_dependency(false, -1));
}

#[test]
fn requested_targets_are_dependencies_only_on_request() {
    let raur = records(&[("foo", "foo", "1.0-1")]);
    let depth = depths(&[("foo", 0)]);
    let plan = install(&raur, &set(&[]), &depth, true).unwrap();
    assert_eq!(
        render_stages(&plan.stages),
        names(&[
            "confirm",
            "review foo",
            "system packages",
            "build foo at 0",
            "audit foo at 0 expecting [\"foo-1.0-1\"]",
            "install [(\"foo\", \"foo\")] at 0 asdeps=true",
        ])
    );
}

#[test]
fn tier_is_built_then_audited_then_installed() {
    let tiers = plan_tiers(vec![
        PlanEntry { pkgbase: "a".to_string(), depth: 1, split: "a".to_string() },
        PlanEntry { pkgbase: "top".to_string(), depth: 0, split: "top".to_string() },
        PlanEntry { pkgbase: "b".to_string(), depth: 1, split: "b-bin".to_string() },
    ]);
    let bases = pairs(&[("a", "a"), ("top", "top"), ("b-bin", "b"), ("b-doc", "b")]);
    let versions = pairs(&[("a", "1-1"), ("top", "2-1"), ("b-bin", "3-1"), ("b-doc", "3-1")]);
    assert_eq!(
        render(&schedule(&tiers, &bases, &versions, false)),
        names(&[
            "build a at 1",
            "build b at 1",
            "audit a at 1 expecting [\"a-1-1\", \"b-bin-3-1\", \"b-doc-3-1\"]",
            "audit b at 1 expecting [\"a-1-1\", \"b-bin-3-1\", \"b-doc-3-1\"]",
            "install [(\"a\", \"a\"), (\"b\", \"b-bin\")] at 1 asdeps=true",
            "build top at 0",
            "audit top at 0 expecting [\"top-2-1\"]",
            "install [(\"top\", \"top\")] at 0 asdeps=false",
        ])
    );
    assert!(schedule(&Vec::new(), &bases, &versions, false).is_empty());
}

#[test]
fn split_packages_are_built_once() {
    let raur = records(&[
        ("app", "app", "3-1"),
        ("lib-docs", "lib", "1-1"),
        ("lib", "lib", "1-1"),
        ("lib-tools", "lib", "1-1"),
    ]);
    let depth = depths(&[("app", 0), ("lib", 1), ("lib-tools", 2), ("lib-docs", 0)]);
    let plan = install(&raur, &set(&[]), &depth, false).unwrap();
    assert_eq!(
        render_stages(&plan.stages),
        names(&[
            "confirm",
            "review app",
            "review lib",
            "system packages",
            "build lib at 2",
            "audit lib at 2 expecting [\"lib-docs-1-1\", \"lib-1-1\", \"lib-tools-1-1\"]",
            "install [(\"lib\", \"lib-tools\")] at 2 asdeps=true",
            "build app at 0",
            "audit app at 0 expecting [\"app-3-1\"]",
            "install [(\"app\", \"app\")] at 0 asdeps=false",
        ])
    );
}

#[test]
fn steps_from_the_three_maps() {
    let steps = install_all(
        &depths(&[("foo", 0), ("bar", 1)]),
        &texts(&[("foo", "foo"), ("bar", "bar")]),
        &texts(&[("foo", "1-1"), ("bar", "2-1")]),
        false,
    )
    .unwrap();
    assert_eq!(
        render(&steps),
        names(&[
            "build bar at 1",
            "audit bar at 1 expecting [\"bar-2-1\"]",
            "install [(\"bar\", \"bar\")] at 1 asdeps=true",
            "build foo at 0",
            "audit foo at 0 expecting [\"foo-1-1\"]",
            "install [(\"foo\", \"foo\")] at 0 asdeps=false",
        ])
    );
    match install_all(&depths(&[]), &texts(&[("foo", "foo")]), &texts(&[]), false) {
        Err(PlanError::MissingDepth(name)) => assert_eq!(name, "foo"),
        other => panic!("unexpected {:?}", other),
    }
}

#[test]
fn stages_begin_with_the_confirmation() {
    let steps = vec![Step::Build { depth: 0, pkgbase: "foo".to_string() }];
    assert_eq!(
        render_stages(&stages(names(&["foo", "bar"]), steps)),
        names(&["confirm", "review foo", "review bar", "system packages", "build foo at 0"])
    );
    assert_eq!(
        render_stages(&stages(Vec::new(), Vec::new())),
        names(&["confirm", "system packages"])
    );
}

#[test]
fn values_are_the_second_parts() {
    assert_eq!(values(&pairs(&[("a", "x"), ("b", "y"), ("c", "x")])), names(&["x", "y", "x"]));
    assert!(values(&Vec::new()).is_empty());
}

#[test]
fn batch_tags_each_file_with_its_target() {
    let packages = vec![
        ("lib".to_string(), "lib-tools".to_string()),
        ("empty".to_string(), "empty".to_string()),
        ("app".to_string(), "app".to_string()),
    ];
    let checked = vec![
        names(&["lib-1-1-any.pkg.tar.xz", "lib-tools-1-1-any.pkg.tar.xz"]),
        Vec::new(),
        names(&["app-3-1-x86_64.pkg.tar.xz"]),
    ];
    assert_eq!(
        files_to_install(&packages, &checked),
        Some(vec![
            ("lib-tools".to_string(), "lib-1-1-any.pkg.tar.xz".to_string()),
            ("lib-tools".to_string(), "lib-tools-1-1-any.pkg.tar.xz".to_string()),
            ("app".to_string(), "app-3-1-x86_64.pkg.tar.xz".to_string()),
        ])
    );
    assert_eq!(files_to_install(&packages, &Vec::new()), None);
    assert_eq!(files_to_install(&Vec::new(), &Vec::new()), Some(Vec::new()));
}

#[test]
fn exit_statuses() {
    assert_eq!(exit_status(RunEnd::Completed), 0);
    assert_eq!(exit_status(RunEnd::PackagesNotFound), 1);
    assert_eq!(exit_status(RunEnd::AuditRefused), 1);
    assert_eq!(exit_status(RunEnd::AuditAborted), -1);
    assert_eq!(exit_status(RunEnd::Failed), 101);
    assert_eq!(exit_status(RunEnd::BuildFailure), 101);
    assert_eq!(exit_status(RunEnd::ResolutionFailure), 101);
}
