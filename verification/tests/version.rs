use profinet_rt::version;

#[test]
fn version_is_not_empty() {
    assert!(!version().is_empty());
}

#[test]
fn version_is_crate_version() {
    assert_eq!(version(), "0.0.0");
}
