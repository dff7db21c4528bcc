use vessel::{
    check_args, find_dominating_manifest, split_args, Manifest, Package, Platform, VerifyAll, Vessel,
    VesselError,
};

fn pkg(name: &str, deps: Vec<&str>) -> Package {
    Package {
        name: name.to_string(),
        repo: format!("https://github.com/acme/{}", name),
        version: "v1".to_string(),
        dependencies: deps.into_iter().map(|x| x.to_string()).collect(),
    }
}

#[test]
fn project_root_is_the_nearest_marked_directory() {
    assert_eq!(find_dominating_manifest(&vec![false, false, true, true]), Some(2));
    assert_eq!(find_dominating_manifest(&vec![true]), Some(0));
    assert_eq!(find_dominating_manifest(&vec![false, false]), None);
    let m = Manifest { compiler: None, dependencies: vec![] };
    assert!(matches!(Vessel::new(&vec![false], vec![], m), Err(VesselError::Config(_))));
}

#[test]
fn nested_paths_climb_to_the_caller() {
    let m = Manifest { compiler: None, dependencies: vec![] };
    let v = Vessel::new(&vec![false, false, true], vec![], m).unwrap();
    assert_eq!(v.nested, 2);
    assert_eq!(v.nested_path(".vessel/base/v1/src"), "../../.vessel/base/v1/src");
    let root = Vessel::new_without_manifest(vec![]);
    assert_eq!(root.nested_path(".vessel/x"), ".vessel/x");
}

#[test]
fn install_plans_the_closure_of_the_manifest() {
    let m = Manifest { compiler: None, dependencies: vec!["C".to_string()] };
    let v = Vessel::new(&vec![true], vec![pkg("A", vec![]), pkg("B", vec!["A"]), pkg("C", vec!["B"])], m).unwrap();
    let plan = v.install_packages(false).unwrap();
    let names: Vec<&str> = plan.iter().map(|a| a.name()).collect();
    assert_eq!(names, vec!["A", "B", "C"]);
    assert_eq!(plan[0].slot(), ".vessel/A/v1");
}

#[test]
fn install_compiler_needs_a_pinned_version() {
    let v = Vessel::new_without_manifest(vec![]);
    assert!(matches!(v.install_compiler(Platform::Linux), Err(VesselError::Config(_))));
    let m = Manifest { compiler: Some("0.6.21".to_string()), dependencies: vec![] };
    let w = Vessel::new(&vec![true], vec![], m).unwrap();
    assert_eq!(w.install_compiler(Platform::Linux).unwrap().slot(), ".vessel/.bin/0.6.21");
}

#[test]
fn verify_package_plans_the_package_and_its_dependencies() {
    let v = Vessel::new_without_manifest(vec![pkg("A", vec![]), pkg("B", vec!["A"]), pkg("C", vec![])]);
    let plan = v.verify_package("B").unwrap();
    assert_eq!(plan.package.name(), "B");
    let deps: Vec<&str> = plan.dependencies.iter().map(|a| a.name()).collect();
    assert_eq!(deps, vec!["A"]);
    assert!(matches!(v.verify_package("Z"), Err(VesselError::UnknownPackage(n)) if n == "Z"));
}

#[test]
fn verify_all_skips_packages_with_failed_dependencies() {
    let v = Vessel::new_without_manifest(vec![pkg("A", vec![]), pkg("B", vec!["A"]), pkg("C", vec![])]);
    let mut run: VerifyAll = v.verify_all().unwrap();
    let mut checked = vec![];
    while let Some(p) = run.next_package() {
        checked.push(p.name.clone());
        if p.name == "A" {
            run.record(Err("A is broken".to_string()));
        } else {
            run.record(Ok(()));
        }
    }
    checked.sort();
    assert_eq!(checked, vec!["A", "C"]);
    assert_eq!(run.failed(), &vec!["A".to_string(), "B".to_string()]);
    assert_eq!(
        run.finish(),
        Err(VesselError::VerificationFailed(vec!["A".to_string(), "B".to_string()]))
    );
    let reports = run.reports();
    assert_eq!(reports.len(), 2);
    assert_eq!(reports[1], "A is broken");
}

#[test]
fn verify_all_succeeds_when_nothing_fails() {
    let v = Vessel::new_without_manifest(vec![pkg("A", vec![]), pkg("B", vec!["A"])]);
    let mut run = v.verify_all().unwrap();
    let mut order = vec![];
    while let Some(p) = run.next_package() {
        order.push(p.name.clone());
        run.record(Ok(()));
    }
    assert_eq!(order, vec!["A", "B"]);
    assert_eq!(run.finish(), Ok(()));
    let cyclic = Vessel::new_without_manifest(vec![pkg("A", vec!["B"]), pkg("B", vec!["A"])]);
    assert!(matches!(cyclic.verify_all(), Err(VesselError::Cycle)));
}

#[test]
fn compiler_arguments_are_laid_out_in_order() {
    assert_eq!(split_args("a  b"), vec!["a", "", "b"]);
    assert_eq!(split_args(""), vec![""]);
    let args = check_args(
        &Some("--error-detail 2".to_string()),
        &vec![("base".to_string(), ".vessel/base/v1/src".to_string())],
        &vec!["src/A.mo".to_string()],
    );
    assert_eq!(
        args,
        vec!["--check", "--error-detail", "2", "--package", "base", ".vessel/base/v1/src", "src/A.mo"]
    );
    assert_eq!(check_args(&None, &vec![], &vec![]), vec!["--check"]);
}

#[test]
fn only_motoko_files_are_sources() {
    assert!(vessel::is_source_file(".vessel/base/v1/src/List.mo"));
    assert!(vessel::is_source_file("A.mo"));
    assert!(!vessel::is_source_file(".vessel/base/v1/src/.mo"));
    assert!(!vessel::is_source_file("src/README.md"));
    assert!(!vessel::is_source_file("src/mo"));
    assert!(!vessel::is_source_file("src.mo/file"));
}

#[test]
fn install_reports_the_first_invalid_package_in_name_order() {
    let mut bad_b = pkg("B", vec![]);
    bad_b.version = "../v".to_string();
    let bad_c = pkg("C/", vec![]);
    let m = Manifest { compiler: None, dependencies: vec!["C/".to_string(), "B".to_string(), "A".to_string()] };
    let v = Vessel::new(&vec![true], vec![pkg("A", vec![]), bad_b, bad_c], m).unwrap();
    assert_eq!(v.install_packages(false).err(), Some(VesselError::Validation("../v".to_string())));
}

#[test]
fn verify_all_reports_unknown_dependencies() {
    let v = Vessel::new_without_manifest(vec![pkg("A", vec!["Nowhere"])]);
    assert!(matches!(v.verify_all(), Err(VesselError::UnknownPackage(n)) if n == "Nowhere"));
}

#[test]
fn install_compiler_refuses_a_bad_pin() {
    let m = Manifest { compiler: Some("../0.6".to_string()), dependencies: vec![] };
    let w = Vessel::new(&vec![true], vec![], m).unwrap();
    assert_eq!(w.install_compiler(Platform::Linux).err(), Some(VesselError::Validation("../0.6".to_string())));
}
