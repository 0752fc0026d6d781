//! Tests of what a removal takes along, of the removal's stages and of
//! the database of installed packages.
use mcospkg::database::{register_package, unregister_package, without_name};
use mcospkg::removal::{contains_name, removal_dependencies, RemovalError};
use mcospkg::remove_data::RemoveData;
use mcospkg::strmap::StrMap;
use mcospkg::types::{ErrorCode, PkgInfoToml};

fn s(x: &str) -> String {
    x.to_string()
}

fn info(version: &str, deps: &[&str]) -> PkgInfoToml {
    PkgInfoToml { dependencies: deps.iter().map(|d| s(d)).collect(), version: s(version) }
}

/// app depends on lib and tool; lib depends on base; tool depends on lib.
fn db() -> StrMap<PkgInfoToml> {
    StrMap::from_pairs(vec![
        (s("app"), info("1.0", &["lib", "tool"])),
        (s("lib"), info("2.0", &["base"])),
        (s("tool"), info("0.3", &["lib"])),
        (s("base"), info("9", &[])),
        (s("solo"), info("1", &[])),
    ])
}

fn record(m: &StrMap<PkgInfoToml>, k: &str) -> Option<(String, Vec<String>)> {
    m.get(k).map(|i| (i.version.clone(), i.dependencies.clone()))
}

#[test]
fn removal_takes_dependencies_in_walk_order() {
    let got = removal_dependencies(&db(), &vec![s("app")]);
    match got {
        Ok(v) => assert_eq!(v, vec![s("lib"), s("base"), s("tool"), s("lib")]),
        Err(_) => panic!("the removal failed"),
    }
}

#[test]
fn removal_of_a_package_without_dependencies_takes_nothing() {
    match removal_dependencies(&db(), &vec![s("solo")]) {
        Ok(v) => assert!(v.is_empty()),
        Err(_) => panic!("the removal failed"),
    }
}

#[test]
fn removal_of_unknown_packages_names_them() {
    match removal_dependencies(&db(), &vec![s("ghost"), s("app"), s("ghost")]) {
        Err(RemovalError::NotInstalled(m)) => assert_eq!(m, vec![s("ghost"), s("ghost")]),
        _ => panic!("expected NotInstalled"),
    }
}

#[test]
fn removal_with_a_broken_dependency_names_it() {
    let mut d = db();
    d.insert(s("bad"), info("1", &["missing", "base", "gone"]));
    match removal_dependencies(&d, &vec![s("bad")]) {
        Err(RemovalError::InvalidDependencies(b)) => {
            assert_eq!(b, vec![(s("bad"), s("missing")), (s("bad"), s("gone"))])
        }
        _ => panic!("expected InvalidDependencies"),
    }
}

#[test]
fn removal_closure_holds_on_an_example() {
    // Every installed dependency of a removed package is removed too.
    let d = db();
    let taken = removal_dependencies(&d, &vec![s("tool")]).ok().unwrap();
    let mut all = vec![s("tool")];
    all.extend(taken.iter().cloned());
    for p in &all {
        for dep in &d.get(p).unwrap().dependencies {
            assert!(all.contains(dep));
        }
    }
}

#[test]
fn remove_data_stages() {
    let mut r = RemoveData::new();
    r.step1_explain_pkg(db());
    assert!(r.step2_check_deps(vec![s("tool")]).is_ok());
    assert_eq!(r.step3_ask_user(), "tool lib base ");
    assert_eq!(r.step4_remove(), vec![s("tool"), s("lib"), s("base")]);
}

#[test]
fn remove_data_refusal_leaves_the_list_alone() {
    let mut r = RemoveData::new();
    r.step1_explain_pkg(db());
    assert!(matches!(r.step2_check_deps(vec![s("nope")]), Err(RemovalError::NotInstalled(_))));
    assert_eq!(r.step3_ask_user(), "");
    assert!(r.step4_remove().is_empty());
}

#[test]
fn contains_name_finds_exact_names() {
    let v = vec![s("a"), s("bc")];
    assert!(contains_name(&v, "bc"));
    assert!(!contains_name(&v, "b"));
}

#[test]
fn register_then_lookup() {
    let mut d = db();
    register_package(&mut d, s("new"), s("0.1"), vec![s("base")]);
    assert_eq!(record(&d, "new"), Some((s("0.1"), vec![s("base")])));
    assert_eq!(record(&d, "lib"), Some((s("2.0"), vec![s("base")])));
    // Registering again replaces the record in place.
    register_package(&mut d, s("lib"), s("2.1"), vec![]);
    assert_eq!(record(&d, "lib"), Some((s("2.1"), vec![])));
    assert_eq!(d.keys(), vec![s("app"), s("lib"), s("tool"), s("base"), s("solo"), s("new")]);
}

#[test]
fn unregister_forgets_the_package() {
    let mut d = db();
    assert_eq!(unregister_package(&mut d, "lib"), Ok(()));
    assert!(!d.contains_key("lib"));
    assert_eq!(record(&d, "app"), Some((s("1.0"), vec![s("tool")])));
    assert_eq!(record(&d, "tool"), Some((s("0.3"), vec![])));
    assert_eq!(record(&d, "base"), Some((s("9"), vec![])));
    assert_eq!(d.keys(), vec![s("app"), s("tool"), s("base"), s("solo")]);
}

#[test]
fn unregister_of_an_unknown_package_fails_and_changes_nothing() {
    let mut d = db();
    assert_eq!(unregister_package(&mut d, "ghost"), Err(ErrorCode::UnregisterError));
    assert_eq!(d.len(), 5);
    assert_eq!(record(&d, "app"), Some((s("1.0"), vec![s("lib"), s("tool")])));
}

#[test]
fn register_then_unregister() {
    let mut d = db();
    register_package(&mut d, s("x"), s("1"), vec![]);
    assert_eq!(unregister_package(&mut d, "x"), Ok(()));
    assert!(!d.contains_key("x"));
    assert_eq!(d.len(), 5);
}

#[test]
fn register_then_unregister_of_an_installed_package() {
    let mut once = db();
    assert_eq!(unregister_package(&mut once, "lib"), Ok(()));
    let mut twice = db();
    register_package(&mut twice, s("lib"), s("3.0"), vec![s("solo")]);
    assert_eq!(unregister_package(&mut twice, "lib"), Ok(()));
    assert_eq!(twice.keys(), once.keys());
    for k in once.keys() {
        assert_eq!(record(&twice, &k), record(&once, &k));
    }
}

#[test]
fn without_name_drops_every_copy() {
    let v = vec![s("a"), s("b"), s("a"), s("c")];
    assert_eq!(without_name(&v, "a"), vec![s("b"), s("c")]);
    assert_eq!(without_name(&v, "z"), v);
}
