use vessel::{is_valid_dirname, validate_name, validate_version, VesselError};

#[test]
fn it_validates_package_strings() {
    // Valid names/versions
    for input in ["a", "A", "a.b", "123", "1.2.3", ".0", ".a", "_"] {
        println!("{}", input);
        assert!(validate_name(input).is_ok());
        assert!(validate_version(input).is_ok());
    }

    // Invalid names/versions
    for input in [
        "", ".", "..", "...", "/", "\\", "a/b", "a\\b", "~", "-", "-a",
    ] {
        println!("{}", input);
        assert!(validate_name(input).is_err());
        assert!(validate_version(input).is_err());
    }
}

#[test]
fn validation_keeps_the_string_and_names_the_culprit() {
    assert_eq!(validate_name("base"), Ok("base"));
    assert_eq!(validate_version("v1.0.0"), Ok("v1.0.0"));
    assert_eq!(validate_name("../etc"), Err(VesselError::Validation("../etc".to_string())));
    assert_eq!(validate_version("--force"), Err(VesselError::Validation("--force".to_string())));
}

#[test]
fn validation_accepts_only_ascii_letters_and_digits() {
    assert!(is_valid_dirname("a-b_c.d"));
    assert!(is_valid_dirname("a-"));
    assert!(!is_valid_dirname("é"));
    assert!(!is_valid_dirname("a b"));
    assert!(!is_valid_dirname("a:b"));
}
