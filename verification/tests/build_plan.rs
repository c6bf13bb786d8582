use indexmap::IndexMap;
use rua::plan::build_plan;
use rua::plan::descending_key;
use rua::plan::plan_tiers;
use rua::plan::PlanEntry;
use rua::plan::PlanError;
use rua::plan::Tier;

fn entry(pkgbase: &str, depth: i32, split: &str) -> PlanEntry {
    PlanEntry { pkgbase: pkgbase.to_string(), depth, split: split.to_string() }
}

fn shape(tiers: &[Tier]) -> Vec<(i32, Vec<(String, i32, String)>)> {
    tiers
        .iter()
        .map(|t| {
            (
                t.depth,
                t.packages.iter().map(|e| (e.pkgbase.clone(), e.depth, e.split.clone())).collect(),
            )
        })
        .collect()
}

fn triple(pkgbase: &str, depth: i32, split: &str) -> (String, i32, String) {
    (pkgbase.to_string(), depth, split.to_string())
}

fn depth_map(pairs: &[(&str, i32)]) -> IndexMap<String, i32> {
    let mut m = IndexMap::new();
    for (k, v) in pairs {
        m.insert(k.to_string(), *v);
    }
    m
}

fn text_map(pairs: &[(&str, &str)]) -> IndexMap<String, String> {
    let mut m = IndexMap::new();
    for (k, v) in pairs {
        m.insert(k.to_string(), v.to_string());
    }
    m
}

#[test]
fn descending_key_negates_the_depth() {
    assert_eq!(descending_key(&entry("a", 3, "a")), -3);
    assert_eq!(descending_key(&entry("a", 0, "a")), 0);
    assert_eq!(descending_key(&entry("a", i32::MIN, "a")), 2147483648);
    assert_eq!(descending_key(&entry("a", i32::MAX, "a")), -2147483647);
}

#[test]
fn no_candidates_no_tiers() {
    assert!(plan_tiers(Vec::new()).is_empty());
}

#[test]
fn deepest_tier_comes_first() {
    let tiers = plan_tiers(vec![entry("foo", 0, "foo"), entry("libbar", 1, "libbar")]);
    assert_eq!(
        shape(&tiers),
        vec![(1, vec![triple("libbar", 1, "libbar")]), (0, vec![triple("foo", 0, "foo")])]
    );
}

#[test]
fn package_base_is_built_once_at_its_greatest_depth() {
    let tiers = plan_tiers(vec![
        entry("gcc", 0, "gcc"),
        entry("gcc", 2, "gcc-libs"),
        entry("zlib", 1, "zlib"),
        entry("gcc", 1, "gcc-fortran"),
    ]);
    assert_eq!(
        shape(&tiers),
        vec![(2, vec![triple("gcc", 2, "gcc-libs")]), (1, vec![triple("zlib", 1, "zlib")])]
    );
}

#[test]
fn equal_depths_keep_the_given_order() {
    let tiers = plan_tiers(vec![
        entry("c", 1, "c"),
        entry("a", 1, "a1"),
        entry("b", 0, "b"),
        entry("a", 1, "a2"),
        entry("d", 1, "d"),
        entry("e", 0, "e"),
    ]);
    assert_eq!(
        shape(&tiers),
        vec![
            (1, vec![triple("c", 1, "c"), triple("a", 1, "a1"), triple("d", 1, "d")]),
            (0, vec![triple("b", 0, "b"), triple("e", 0, "e")]),
        ]
    );
}

#[test]
fn tiers_need_not_be_adjacent_depths() {
    let tiers = plan_tiers(vec![entry("a", 0, "a"), entry("b", 7, "b"), entry("c", 3, "c")]);
    let depths: Vec<i32> = tiers.iter().map(|t| t.depth).collect();
    assert_eq!(depths, vec![7, 3, 0]);
}

#[test]
fn plan_from_maps() {
    let depths = depth_map(&[("foo", 0), ("libbar", 1), ("libbar-docs", 2)]);
    let bases = text_map(&[("foo", "foo"), ("libbar", "libbar"), ("libbar-docs", "libbar")]);
    let tiers = build_plan(&depths, &bases).unwrap();
    assert_eq!(
        shape(&tiers),
        vec![
            (2, vec![triple("libbar", 2, "libbar-docs")]),
            (0, vec![triple("foo", 0, "foo")]),
        ]
    );
}

#[test]
fn target_without_depth_is_named() {
    let depths = depth_map(&[("foo", 0)]);
    let bases = text_map(&[("foo", "foo"), ("bar", "bar"), ("baz", "baz")]);
    match build_plan(&depths, &bases) {
        Err(PlanError::MissingDepth(name)) => assert_eq!(name, "bar"),
        other => panic!("unexpected {:?}", other),
    }
}

#[test]
fn depth_without_target_is_no_candidate() {
    let depths = depth_map(&[("foo", 0), ("ghost", 4)]);
    let bases = text_map(&[("foo", "foo")]);
    let tiers = build_plan(&depths, &bases).unwrap();
    assert_eq!(shape(&tiers), vec![(0, vec![triple("foo", 0, "foo")])]);
}
