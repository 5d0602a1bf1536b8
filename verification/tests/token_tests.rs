use slafling::token::{account_name, profile_path, token_path, validate_profile_name};

#[test]
fn token_path_default() {
    let path = token_path("/data", None).unwrap();
    assert!(path.ends_with("slafling/tokens/default"));
}

#[test]
fn token_path_named_profile() {
    let work = "work".to_string();
    let path = token_path("/data", Some(&work)).unwrap();
    assert!(path.ends_with("slafling/tokens/work"));
}

#[test]
fn rejects_path_traversal_profiles() {
    let evil = "../evil".to_string();
    assert!(profile_path("/tokens", Some(&evil)).is_err());
    let slash = "foo/bar".to_string();
    assert!(profile_path("/tokens", Some(&slash)).is_err());
    let backslash = "foo\\bar".to_string();
    assert!(profile_path("/tokens", Some(&backslash)).is_err());
    let dots = "..".to_string();
    assert!(profile_path("/tokens", Some(&dots)).is_err());
}

#[test]
fn rejects_empty_profile_name() {
    let empty = "".to_string();
    assert!(profile_path("/tokens", Some(&empty)).is_err());
}

#[test]
fn profile_path_joins_directory_and_account() {
    let work = "work".to_string();
    assert_eq!(profile_path("/tokens", Some(&work)).unwrap(), "/tokens/work");
    assert_eq!(profile_path("/tokens", None).unwrap(), "/tokens/default");
}

#[test]
fn account_name_defaults() {
    assert_eq!(account_name(None), "default");
    let p = "work".to_string();
    assert_eq!(account_name(Some(&p)), "work");
}

#[test]
fn validate_profile_name_message() {
    let err = validate_profile_name("a/b").unwrap_err();
    assert!(err.message().contains("invalid profile name 'a/b'"));
    assert!(validate_profile_name("ok-name").is_ok());
    assert!(validate_profile_name("nul\0name").is_err());
}
