use vessel::{Package, PackageSet, VesselError};

fn mk_package(name: &str, deps: Vec<&str>) -> Package {
    Package {
        name: name.to_string(),
        repo: "".to_string(),
        version: "".to_string(),
        dependencies: deps.into_iter().map(|x| x.to_string()).collect(),
    }
}

fn names(ps: &[&Package]) -> Vec<String> {
    ps.iter().map(|p| p.name.clone()).collect()
}

#[test]
fn it_finds_a_transitive_dependency() {
    let a = mk_package("A", vec!["B"]);
    let b = mk_package("B", vec![]);
    let ps = PackageSet::new(vec![a.clone(), b.clone()]);
    assert_eq!(vec![&b], ps.transitive_deps(vec!["B".to_string()]).unwrap());
    assert_eq!(vec![&a, &b], ps.transitive_deps(vec!["A".to_string()]).unwrap())
}

#[test]
fn it_finds_transitive_dependencies_with_overlaps() {
    let a = mk_package("A", vec!["B"]);
    let b = mk_package("B", vec![]);
    let c = mk_package("C", vec!["B"]);
    let ps = PackageSet::new(vec![a.clone(), b.clone(), c.clone()]);
    assert_eq!(
        vec![&a, &b, &c],
        ps.transitive_deps(vec!["A".to_string(), "C".to_string()]).unwrap()
    );

    assert_eq!(vec![&b, &c], ps.transitive_deps(vec!["C".to_string()]).unwrap())
}

#[test]
fn chain_closure_is_sorted_and_topo_order_puts_dependencies_first() {
    let ps = PackageSet::new(vec![
        mk_package("C", vec!["B"]),
        mk_package("A", vec![]),
        mk_package("B", vec!["A"]),
    ]);
    let deps = ps.transitive_deps(vec!["C".to_string()]).unwrap();
    assert_eq!(names(&deps), vec!["A", "B", "C"]);
    let order = ps.topo_sorted().unwrap();
    assert_eq!(names(&order), vec!["A", "B", "C"]);
}

#[test]
fn listing_order_differs_from_build_order() {
    let ps = PackageSet::new(vec![mk_package("Zeta", vec![]), mk_package("Alpha", vec!["Zeta"])]);
    let deps = ps.transitive_deps(vec!["Alpha".to_string()]).unwrap();
    assert_eq!(names(&deps), vec!["Alpha", "Zeta"]);
    let order = ps.topo_sorted().unwrap();
    assert_eq!(names(&order), vec!["Zeta", "Alpha"]);
}

#[test]
fn transitive_deps_is_repeatable_and_ignores_entry_order() {
    let ps = PackageSet::new(vec![
        mk_package("a", vec!["c"]),
        mk_package("b", vec!["c", "d"]),
        mk_package("c", vec![]),
        mk_package("d", vec!["c"]),
        mk_package("e", vec![]),
    ]);
    let one = names(&ps.transitive_deps(vec!["b".to_string(), "a".to_string()]).unwrap());
    let two = names(&ps.transitive_deps(vec!["a".to_string(), "b".to_string(), "a".to_string()]).unwrap());
    let three = names(&ps.transitive_deps(vec!["b".to_string(), "a".to_string()]).unwrap());
    assert_eq!(one, vec!["a", "b", "c", "d"]);
    assert_eq!(one, two);
    assert_eq!(one, three);
}

#[test]
fn transitive_deps_survives_cycles() {
    let ps = PackageSet::new(vec![mk_package("A", vec!["B"]), mk_package("B", vec!["A"])]);
    let deps = ps.transitive_deps(vec!["A".to_string()]).unwrap();
    assert_eq!(names(&deps), vec!["A", "B"]);
}

#[test]
fn transitive_deps_reports_unknown_names() {
    let ps = PackageSet::new(vec![mk_package("A", vec!["Missing"])]);
    assert_eq!(
        ps.transitive_deps(vec!["A".to_string()]),
        Err(VesselError::UnknownPackage("Missing".to_string()))
    );
    assert_eq!(
        ps.transitive_deps(vec!["Nope".to_string()]),
        Err(VesselError::UnknownPackage("Nope".to_string()))
    );
    assert_eq!(ps.transitive_deps(vec![]), Ok(vec![]));
}

#[test]
fn topo_sorted_rejects_a_cycle() {
    let ps = PackageSet::new(vec![mk_package("A", vec!["B"]), mk_package("B", vec!["A"])]);
    assert_eq!(ps.topo_sorted(), Err(VesselError::Cycle));
    let selfish = PackageSet::new(vec![mk_package("A", vec!["A"]), mk_package("C", vec![])]);
    assert_eq!(selfish.topo_sorted(), Err(VesselError::Cycle));
}

#[test]
fn topo_sorted_reports_unknown_dependencies() {
    let ps = PackageSet::new(vec![mk_package("A", vec!["Ghost"])]);
    assert_eq!(ps.topo_sorted(), Err(VesselError::UnknownPackage("Ghost".to_string())));
}

#[test]
fn topo_sorted_orders_a_diamond() {
    let ps = PackageSet::new(vec![
        mk_package("top", vec!["left", "right"]),
        mk_package("left", vec!["base"]),
        mk_package("right", vec!["base"]),
        mk_package("base", vec![]),
    ]);
    let order = names(&ps.topo_sorted().unwrap());
    assert_eq!(order.len(), 4);
    let pos = |n: &str| order.iter().position(|x| x == n).unwrap();
    assert!(pos("base") < pos("left"));
    assert!(pos("base") < pos("right"));
    assert!(pos("left") < pos("top"));
    assert!(pos("right") < pos("top"));
}

#[test]
fn package_set_keeps_the_last_of_a_name() {
    let mut first = mk_package("A", vec![]);
    first.version = "1".to_string();
    let mut second = mk_package("A", vec![]);
    second.version = "2".to_string();
    let ps = PackageSet::new(vec![first, second.clone(), mk_package("B", vec![])]);
    assert_eq!(ps.find("A"), Some(&second));
    assert!(ps.find("B").is_some());
    assert_eq!(ps.find("C"), None);
}
