//! Tests of an installation's stages: reading the indexes, resolving
//! dependencies, skipping installed packages, planning downloads, checking
//! sums and handing the packages to the installer.
use mcospkg::checksum::{sha256_hex_matches, sha256_hex_of};
use mcospkg::config::parse_repo_config;
use mcospkg::install_data::{check_sum, copy_index, first_missing, user_confirmed, InstallData};
use mcospkg::resolve::{collect_deps, direct_dependencies, lookup_in_tables, resolve_fetch, DepError};
use mcospkg::strmap::StrMap;
use mcospkg::types::{Package, PkgIndex, PkgInfo};

const ABC_SUM: &str = "ba7816bf8f01cfea414140de5dae2223b00361a396177a9cb410ff61f20015ad";

fn s(x: &str) -> String {
    x.to_string()
}

fn strs(xs: &[&str]) -> Vec<String> {
    xs.iter().map(|x| s(x)).collect()
}

fn pkg(file: &str, version: &str, sum: &str) -> PkgInfo {
    PkgInfo { filename: s(file), version: s(version), sha256sums: s(sum) }
}

/// One repository: app is based on lib, lib on base.
fn main_index() -> PkgIndex {
    PkgIndex {
        url: s("https://m.org/repo"),
        pkgindex: StrMap::from_pairs(vec![
            (s("app"), pkg("app-1.0.tar.xz", "1.0", "sum-app")),
            (s("lib"), pkg("lib-2.0.tar.xz", "2.0", "sum-lib")),
            (s("base"), pkg("base-9.tar.xz", "9", "sum-base")),
        ]),
        baseon: StrMap::from_pairs(vec![(s("app"), strs(&["lib"])), (s("lib"), strs(&["base"]))]),
    }
}

fn started(pkglist: &Vec<String>) -> (InstallData, Result<(), String>) {
    let mut d = InstallData::new();
    let conf = parse_repo_config("main = https://m.org\n").ok().unwrap();
    let r = d.step1_explain_pkg(conf, vec![main_index()], pkglist);
    (d, r)
}

#[test]
fn step1_accepts_offered_packages() {
    let (_, r) = started(&strs(&["app", "base"]));
    assert_eq!(r, Ok(()));
}

#[test]
fn step1_names_the_first_missing_package() {
    let (_, r) = started(&strs(&["app", "nope", "zz"]));
    assert_eq!(r, Err(s("nope")));
}

#[test]
fn step1_later_repository_overrides_earlier_one() {
    let mut d = InstallData::new();
    let other = PkgIndex {
        url: s("https://o.org"),
        pkgindex: StrMap::from_pairs(vec![(s("app"), pkg("app-1.1.tar.xz", "1.1", "sum-new"))]),
        baseon: StrMap::new(),
    };
    let list = strs(&["app"]);
    let conf = parse_repo_config("main = https://m.org\nother = https://o.org\n").ok().unwrap();
    assert_eq!(d.step1_explain_pkg(conf, vec![main_index(), other], &list), Ok(()));
    assert!(d.step2_check_deps(&list).is_ok());
    assert!(d.ready_to_download());
    assert_eq!(d.step4_prepare(), Some(s("base (9), app (1.1), lib (2.0)")));
}

#[test]
fn whole_installation_plan() {
    let list = strs(&["app"]);
    let (mut d, r) = started(&list);
    assert_eq!(r, Ok(()));

    // lib's own dependency is queued first, then the request and lib.
    assert!(d.step2_check_deps(&list).is_ok());

    // lib is installed already and not reinstalled.
    let skipped = d.step3_check_installed("[lib]\nversion = \"2.0\"\ndependencies = []\n", false);
    assert_eq!(skipped, strs(&["lib"]));

    assert!(d.ready_to_download());
    assert!(d.fetch_list_indexed());
    assert_eq!(d.step4_prepare(), Some(s("base (9), app (1.0)")));

    let jobs = d.step4_download_plan();
    assert_eq!(jobs.len(), 2);
    assert_eq!(jobs[0].url, "https://m.org/repo/base/base-9.tar.xz");
    assert_eq!(jobs[0].path, "/var/cache/mcospkg/base-9.tar.xz");
    assert_eq!(jobs[1].url, "https://m.org/repo/app/app-1.0.tar.xz");
    assert_eq!(jobs[1].path, "/var/cache/mcospkg/app-1.0.tar.xz");

    let checks = d.step5_checks();
    assert_eq!(
        checks,
        vec![
            (s("base"), s("/var/cache/mcospkg/base-9.tar.xz"), s("sum-base")),
            (s("app"), s("/var/cache/mcospkg/app-1.0.tar.xz"), s("sum-app")),
        ]
    );

    let archives = d.step6_archives();
    assert_eq!(
        archives,
        vec![
            (s("base"), s("/var/cache/mcospkg/base-9.tar.xz")),
            (s("app"), s("/var/cache/mcospkg/app-1.0.tar.xz")),
        ]
    );
    d.step6_record_workdir(s("/tmp/mcospkg111111"));
    d.step6_record_workdir(s("/tmp/mcospkg222222"));

    let (packages, workdirs) = d.step7_install();
    assert_eq!(
        packages,
        vec![
            Package::new(s("base"), s("/var/cache/mcospkg/base-9.tar.xz"), vec![], s("9")),
            Package::new(s("app"), s("/var/cache/mcospkg/app-1.0.tar.xz"), strs(&["lib"]), s("1.0")),
        ]
    );
    assert_eq!(workdirs, strs(&["/tmp/mcospkg111111", "/tmp/mcospkg222222"]));
}

#[test]
fn each_package_gets_its_own_dependency_list() {
    // One table naming only the second package to install.
    let idx = PkgIndex {
        url: s("https://m.org/repo"),
        pkgindex: StrMap::from_pairs(vec![
            (s("app"), pkg("app-1.0.tar.xz", "1.0", "sum-app")),
            (s("base"), pkg("base-9.tar.xz", "9", "sum-base")),
        ]),
        baseon: StrMap::from_pairs(vec![(s("app"), strs(&["base"]))]),
    };
    let list = strs(&["base", "app"]);
    let mut d = InstallData::new();
    assert_eq!(d.step1_explain_pkg(StrMap::new(), vec![idx], &list), Ok(()));
    assert!(d.step2_check_deps(&list).is_ok());
    assert_eq!(d.step4_prepare(), Some(s("base (9), app (1.0)")));
    d.step4_download_plan();
    d.step6_record_workdir(s("/tmp/mcospkg000001"));
    d.step6_record_workdir(s("/tmp/mcospkg000002"));
    let (packages, _) = d.step7_install();
    assert_eq!(
        packages,
        vec![
            Package::new(s("base"), s("/var/cache/mcospkg/base-9.tar.xz"), vec![], s("9")),
            Package::new(s("app"), s("/var/cache/mcospkg/app-1.0.tar.xz"), strs(&["base"]), s("1.0")),
        ]
    );
}

#[test]
fn reinstall_keeps_installed_packages() {
    let list = strs(&["app"]);
    let (mut d, _) = started(&list);
    assert!(d.step2_check_deps(&list).is_ok());
    let skipped = d.step3_check_installed("[lib]\n[app]\n", true);
    assert!(skipped.is_empty());
    assert_eq!(d.step4_prepare(), Some(s("base (9), app (1.0), lib (2.0)")));
}

#[test]
fn nothing_left_to_install() {
    let list = strs(&["base"]);
    let (mut d, _) = started(&list);
    assert!(d.step2_check_deps(&list).is_ok());
    let skipped = d.step3_check_installed("[base]\n", false);
    assert_eq!(skipped, strs(&["base"]));
    assert_eq!(d.step4_prepare(), None);
}

#[test]
fn installed_line_must_match_whole() {
    let list = strs(&["base"]);
    let (mut d, _) = started(&list);
    assert!(d.step2_check_deps(&list).is_ok());
    let skipped = d.step3_check_installed("[base-extra]\n [base]\n", false);
    assert!(skipped.is_empty());
    assert_eq!(d.step4_prepare(), Some(s("base (9)")));
}

#[test]
fn missing_direct_dependency_is_reported() {
    let mut idx = main_index();
    idx.baseon.insert(s("app"), strs(&["missing"]));
    let list = strs(&["app"]);
    let mut d = InstallData::new();
    assert!(d.step1_explain_pkg(StrMap::new(), vec![idx], &list).is_ok());
    match d.step2_check_deps(&list) {
        Err(DepError::MissingDependency { dep }) => assert_eq!(dep, "missing"),
        _ => panic!("expected MissingDependency"),
    }
}

#[test]
fn missing_sub_dependency_is_reported() {
    let mut idx = main_index();
    idx.baseon.insert(s("lib"), strs(&["ghost"]));
    let list = strs(&["app"]);
    let mut d = InstallData::new();
    assert!(d.step1_explain_pkg(StrMap::new(), vec![idx], &list).is_ok());
    match d.step2_check_deps(&list) {
        Err(DepError::MissingSubDependency { dep, sub_dep, last_queued }) => {
            assert_eq!(dep, "lib");
            assert_eq!(sub_dep, "ghost");
            assert_eq!(last_queued, None);
        }
        _ => panic!("expected MissingSubDependency"),
    }
}

#[test]
fn resolve_fetch_without_dependencies_keeps_the_request_once() {
    let idx = main_index();
    let mut fetch: Vec<String> = Vec::new();
    let r = resolve_fetch(&idx.pkgindex, &vec![], &strs(&["base", "base", "lib"]), &mut fetch);
    assert!(r.is_ok());
    assert_eq!(fetch, strs(&["base", "lib"]));
}

#[test]
fn fetch_list_is_sound_on_an_example() {
    // Every package fetched is in the index.
    let idx = main_index();
    let tables = vec![idx.baseon];
    let mut fetch: Vec<String> = Vec::new();
    assert!(resolve_fetch(&idx.pkgindex, &tables, &strs(&["app", "lib"]), &mut fetch).is_ok());
    assert_eq!(fetch, strs(&["base", "app", "lib", "base"]));
    for p in &fetch {
        assert!(idx.pkgindex.contains_key(p));
    }
}

#[test]
fn dependency_tables() {
    let a = StrMap::from_pairs(vec![(s("x"), strs(&["p", "q"]))]);
    let b = StrMap::from_pairs(vec![(s("x"), strs(&["r"])), (s("y"), strs(&["s"]))]);
    let bt = vec![a, b];
    assert_eq!(lookup_in_tables(&bt, "x"), Some(&strs(&["r"])));
    assert_eq!(lookup_in_tables(&bt, "z"), None);
    assert_eq!(collect_deps(&bt, "x"), strs(&["p", "q", "r"]));
    assert_eq!(direct_dependencies(&bt, &strs(&["y", "w", "x"])), strs(&["s", "r"]));
}

#[test]
fn first_missing_and_copy_index() {
    let idx = main_index().pkgindex;
    assert_eq!(first_missing(&idx, &strs(&["app", "q", "r"])), Some(1));
    assert_eq!(first_missing(&idx, &strs(&["app", "lib"])), None);
    let c = copy_index(&idx);
    assert_eq!(c.keys(), strs(&["app", "lib", "base"]));
    assert_eq!(c.get("lib").map(|p| p.version.clone()), Some(s("2.0")));
}

#[test]
fn confirmation_answers() {
    assert!(user_confirmed("y"));
    assert!(user_confirmed("Y"));
    assert!(!user_confirmed("yes"));
    assert!(!user_confirmed("n"));
    assert!(!user_confirmed(""));
}

#[test]
fn sha256_sums() {
    assert_eq!(sha256_hex_of(b"abc"), ABC_SUM);
    assert_eq!(
        sha256_hex_of(b""),
        "e3b0c44298fc1c149afbf4c8996fb92427ae41e4649b934ca495991b7852b855"
    );
    assert!(sha256_hex_matches(ABC_SUM, b"abc"));
    assert!(!sha256_hex_matches(ABC_SUM, b"abd"));
    assert!(check_sum(ABC_SUM, b"abc"));
    assert!(!check_sum("ABC", b"abc"));
}
