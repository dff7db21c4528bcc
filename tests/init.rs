use vessel::init::{
    fallback_package_set, format_hash, hash_dhall_expression, manifest_template, package_set_pin, package_set_template,
    package_set_url,
};
use vessel::VesselError;

#[test]
fn digests_are_written_in_lower_case_hex() {
    assert_eq!(format_hash(&vec![]), "sha256:");
    assert_eq!(format_hash(&vec![0x00, 0x0f, 0xab, 0xff]), "sha256:000fabff");
}

#[test]
fn dhall_expressions_hash_to_an_import_pin() {
    let a = hash_dhall_expression("{ x = 1 }").unwrap();
    let b = hash_dhall_expression("{ x = 2 }").unwrap();
    assert!(a.starts_with("sha256:"));
    assert_eq!(a.len(), "sha256:".len() + 64);
    assert_ne!(a, b);
    assert_eq!(hash_dhall_expression("{ x = 1 }").unwrap(), a);
    assert!(matches!(hash_dhall_expression("{ x = "), Err(VesselError::Config(_))));
}

#[test]
fn new_projects_get_templates() {
    assert_eq!(
        package_set_url("mo-0.6.21-20220215"),
        "https://github.com/dfinity/vessel-package-set/releases/download/mo-0.6.21-20220215/package-set.dhall"
    );
    let (url, hash) = fallback_package_set();
    assert!(url.ends_with("/mo-0.4.3-20200916/package-set.dhall"));
    assert!(hash.starts_with("sha256:3e1d8d20"));
    assert!(manifest_template().contains("dependencies = [ \"base\", \"matchers\" ]"));
    let set = package_set_template("https://x/p.dhall", "sha256:00");
    assert!(set.starts_with("let upstream = https://x/p.dhall sha256:00\nlet Package ="));
    assert!(set.ends_with("in  upstream # additions # overrides\n"));
}

#[test]
fn package_set_pins_name_the_release_and_its_hash() {
    let text = "[] : List { name : Text }";
    let (url, hash) = package_set_pin("mo-0.6.21", text).unwrap();
    assert_eq!(url, package_set_url("mo-0.6.21"));
    assert_eq!(hash, hash_dhall_expression(text).unwrap());
    assert!(matches!(package_set_pin("mo-0.6.21", "let x ="), Err(VesselError::Config(_))));
}
