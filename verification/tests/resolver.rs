use rua::record::PackageRecord;
use rua::resolve::bare_name;
use rua::resolve::dependencies;
use rua::resolve::depth_in;
use rua::names::distinct_names;
use rua::resolve::next_depth;
use rua::resolve::opens_constraint;
use rua::resolve::raise;
use rua::resolve::raur_info;
use rua::resolve::DepKind;
use rua::resolve::ResolveError;
use rua::resolve::Resolver;

fn names(list: &[&str]) -> Vec<String> {
    list.iter().map(|s| s.to_string()).collect()
}

fn pairs(list: &[(&str, i32)]) -> Vec<(String, i32)> {
    list.iter().map(|(k, v)| (k.to_string(), *v)).collect()
}

fn record(name: &str, make: &[&str], depends: &[&str], check: &[&str]) -> PackageRecord {
    PackageRecord {
        name: name.to_string(),
        package_base: name.to_string(),
        version: "1-1".to_string(),
        depends: names(depends),
        make_depends: names(make),
        check_depends: names(check),
    }
}

#[test]
fn constraint_is_cut_off() {
    assert_eq!(bare_name("glibc"), "glibc");
    assert_eq!(bare_name("glibc>=2.30"), "glibc");
    assert_eq!(bare_name("python<3.9"), "python");
    assert_eq!(bare_name("foo=1.0"), "foo");
    assert_eq!(bare_name("foo>1<2"), "foo");
    assert_eq!(bare_name("=1"), "");
    assert_eq!(bare_name(""), "");
    assert_eq!(bare_name("lib32-z\u{e9}>=1"), "lib32-z\u{e9}");
    assert!(opens_constraint('<'));
    assert!(opens_constraint('>'));
    assert!(opens_constraint('='));
    assert!(!opens_constraint('-'));
}

#[test]
fn dependencies_come_build_first() {
    let r = record("foo", &["cmake>=3", "git"], &["glibc", "libbar=2"], &["check<1"]);
    assert_eq!(dependencies(&r), names(&["cmake", "git", "glibc", "libbar", "check"]));
    assert!(dependencies(&record("foo", &[], &[], &[])).is_empty());
}

#[test]
fn next_depth_counts_up_to_the_limit() {
    assert_eq!(next_depth(0), 1);
    assert_eq!(next_depth(41), 42);
    assert_eq!(next_depth(i32::MAX - 1), i32::MAX);
    assert_eq!(next_depth(i32::MAX), i32::MAX);
    assert_eq!(next_depth(-1), 0);
}

#[test]
fn depth_lookup() {
    let depths = pairs(&[("a", 0), ("b", 3)]);
    assert_eq!(depth_in(&depths, "a"), Some(0));
    assert_eq!(depth_in(&depths, "b"), Some(3));
    assert_eq!(depth_in(&depths, "c"), None);
    assert_eq!(depth_in(&Vec::new(), "a"), None);
}

#[test]
fn raise_never_lowers() {
    let mut depths = pairs(&[("a", 0), ("b", 3), ("c", 1)]);
    raise(&mut depths, "b", 2);
    assert_eq!(depths, pairs(&[("a", 0), ("b", 3), ("c", 1)]));
    raise(&mut depths, "b", 5);
    assert_eq!(depths, pairs(&[("a", 0), ("b", 5), ("c", 1)]));
    raise(&mut depths, "z", 9);
    assert_eq!(depths, pairs(&[("a", 0), ("b", 5), ("c", 1)]));
}

#[test]
fn distinct_keeps_first_occurrences() {
    assert_eq!(distinct_names(&names(&["a", "b", "a", "c", "b"])), names(&["a", "b", "c"]));
    assert!(distinct_names(&Vec::new()).is_empty());
}

#[test]
fn roots_start_at_depth_zero() {
    let r = Resolver::new(&names(&["foo", "bar", "foo"]));
    assert_eq!(r.queue, names(&["foo", "bar"]));
    assert_eq!(r.depths, pairs(&[("foo", 0), ("bar", 0)]));
    assert!(r.records.is_empty());
    assert!(r.system.is_empty());
    assert!(!r.is_done());
    assert!(Resolver::new(&Vec::new()).is_done());
}

#[test]
fn batch_takes_the_end_of_the_queue() {
    let mut r = Resolver::new(&names(&["a", "b", "c", "d", "e"]));
    assert_eq!(r.next_batch(2), names(&["d", "e"]));
    assert_eq!(r.queue, names(&["a", "b", "c"]));
    assert_eq!(r.next_batch(0), Vec::<String>::new());
    assert_eq!(r.queue, names(&["a", "b", "c"]));
    assert_eq!(r.next_batch(200), names(&["a", "b", "c"]));
    assert!(r.is_done());
    assert_eq!(r.depths.len(), 5);
    assert_eq!(r.next_batch(3), Vec::<String>::new());
}

#[test]
fn foo_needs_libbar_from_source_and_glibc_from_the_system() {
    let mut r = Resolver::new(&names(&["foo"]));
    assert_eq!(r.next_batch(200), names(&["foo"]));
    let foo = record("foo", &[], &["libbar", "glibc>=2", "bash"], &[]);
    let kinds = vec![DepKind::Source, DepKind::Installable, DepKind::Installed];
    assert_eq!(r.absorb(foo, &kinds), Ok(()));
    assert_eq!(r.queue, names(&["libbar"]));
    assert_eq!(r.depths, pairs(&[("foo", 0), ("libbar", 1)]));
    assert_eq!(r.system, names(&["glibc"]));
    assert_eq!(r.next_batch(200), names(&["libbar"]));
    assert_eq!(r.absorb(record("libbar", &[], &["glibc"], &[]), &vec![DepKind::Installable]), Ok(()));
    assert!(r.is_done());
    assert_eq!(r.system, names(&["glibc"]));
    assert_eq!(r.depths, pairs(&[("foo", 0), ("libbar", 1)]));
    assert_eq!(r.records.len(), 2);
    assert_eq!(r.records[0].name, "foo");
    assert_eq!(r.records[1].name, "libbar");
}

#[test]
fn greatest_depth_stands() {
    let mut r = Resolver::new(&names(&["top"]));
    r.next_batch(200);
    r.absorb(record("top", &[], &["mid", "low"], &[]), &vec![DepKind::Source, DepKind::Source]).unwrap();
    assert_eq!(r.depths, pairs(&[("top", 0), ("mid", 1), ("low", 1)]));
    assert_eq!(r.queue, names(&["mid", "low"]));
    r.absorb(record("mid", &[], &["low"], &[]), &vec![DepKind::Source]).unwrap();
    assert_eq!(r.depths, pairs(&[("top", 0), ("mid", 1), ("low", 2)]));
    assert_eq!(r.queue, names(&["mid", "low"]));
    r.absorb(record("low", &[], &["top"], &[]), &vec![DepKind::Source]).unwrap();
    assert_eq!(r.depths, pairs(&[("top", 3), ("mid", 1), ("low", 2)]));
}

#[test]
fn visit_without_parent_depth_changes_nothing() {
    let mut r = Resolver::new(&names(&["foo"]));
    r.visit("ghost", "libbar", DepKind::Source);
    assert_eq!(r.depths, pairs(&[("foo", 0)]));
    assert_eq!(r.queue, names(&["foo"]));
    r.visit("ghost", "glibc", DepKind::Installable);
    assert_eq!(r.system, names(&["glibc"]));
    r.visit("foo", "glibc", DepKind::Installable);
    assert_eq!(r.system, names(&["glibc"]));
    r.visit("foo", "bash", DepKind::Installed);
    assert_eq!(r.system, names(&["glibc"]));
    assert_eq!(r.depths, pairs(&[("foo", 0)]));
}

#[test]
fn answers_that_do_not_fit_are_refused() {
    let mut r = Resolver::new(&names(&["foo"]));
    assert_eq!(
        r.absorb(record("bar", &[], &[], &[]), &Vec::new()),
        Err(ResolveError::UnaskedRecord)
    );
    assert_eq!(
        r.absorb(record("foo", &[], &["a"], &[]), &Vec::new()),
        Err(ResolveError::KindsMismatch)
    );
    assert_eq!(
        r.absorb(record("foo", &[], &[], &[]), &vec![DepKind::Source]),
        Err(ResolveError::KindsMismatch)
    );
    assert!(r.records.is_empty());
    assert_eq!(r.depths, pairs(&[("foo", 0)]));
    assert_eq!(r.queue, names(&["foo"]));
}

#[test]
fn first_record_of_the_answer() {
    assert!(raur_info(Vec::new()).is_none());
    let found = vec![record("foo", &[], &[], &[]), record("bar", &[], &[], &[])];
    assert_eq!(raur_info(found).unwrap().name, "foo");
}
