//! Tests of the `Package` record's constructors.
use mcospkg::types::Package;

fn public() -> Package {
    let id = "mcospkg".to_string();
    let path = "/path/to/mcospkg.tar.xz".to_string();
    let version = "0.9.1".to_string();
    let dependencies = Vec::new();

    Package::new(id, path, dependencies, version)
}

#[test]
fn is_new_function_returns_correct_value() {
    let package = public();

    assert_eq!(package.id, "mcospkg");
    assert_eq!(package.path, "/path/to/mcospkg.tar.xz");
    assert_eq!(package.dependencies, Vec::<String>::new());
    assert_eq!(package.version, "0.9.1");
}

#[test]
fn can_three_vecs_returns_one() {
    let ids = vec!["mcospkg".to_string()];
    let paths = vec!["/path/to/mcospkg.tar.xz".to_string()];
    let dependencies = vec![vec![]];
    let versions = vec!["0.9.1".to_string()];

    let packages = Package::from_vec(ids, paths, dependencies, versions);
    let package = public();
    let package_compare = vec![package];
    assert_eq!(packages, package_compare);
}

#[test]
fn from_vec_stops_at_the_shortest_list() {
    let ids = vec!["a".to_string(), "b".to_string(), "c".to_string()];
    let paths = vec!["/a".to_string(), "/b".to_string()];
    let dependencies = vec![vec!["x".to_string()], vec![], vec![]];
    let versions = vec!["1".to_string(), "2".to_string(), "3".to_string()];
    let packages = Package::from_vec(ids, paths, dependencies, versions);
    assert_eq!(packages.len(), 2);
    assert_eq!(packages[0].id, "a");
    assert_eq!(packages[0].dependencies, vec!["x".to_string()]);
    assert_eq!(packages[1].path, "/b");
    assert_eq!(packages[1].version, "2");
}

#[test]
fn to_vec_holds_one_copy() {
    let p = public();
    let v = p.to_vec();
    assert_eq!(v, vec![public()]);
}
