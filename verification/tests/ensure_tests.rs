use registry_publish::ensure::{
    creation_prompt, is_created, missing_entity_url, missing_packages_error, package_api_url,
    scope_api_url, CREATION_POLL_SECONDS,
};

#[test]
fn existence_urls() {
    assert_eq!(scope_api_url("https://api.jsr.io/", "foo"), "https://api.jsr.io/scopes/foo");
    assert_eq!(
        package_api_url("https://api.jsr.io/", "foo", "bar"),
        "https://api.jsr.io/scopes/foo/packages/bar"
    );
    assert_eq!(CREATION_POLL_SECONDS, 3);
}

#[test]
fn missing_scope_or_package_gives_the_create_link() {
    let link = Some("https://jsr.io/new?scope=foo&package=bar&from=cli".to_string());
    assert_eq!(missing_entity_url("https://jsr.io/", "foo", "bar", 404, 200), link);
    assert_eq!(missing_entity_url("https://jsr.io/", "foo", "bar", 200, 404), link);
    assert_eq!(missing_entity_url("https://jsr.io/", "foo", "bar", 404, 404), link);
}

#[test]
fn other_statuses_mean_present() {
    assert_eq!(missing_entity_url("https://jsr.io/", "foo", "bar", 200, 200), None);
    assert_eq!(missing_entity_url("https://jsr.io/", "foo", "bar", 500, 403), None);
    assert_eq!(missing_entity_url("https://jsr.io/", "foo", "bar", 0, 405), None);
}

#[test]
fn missing_packages_are_listed_in_one_error() {
    assert_eq!(missing_packages_error(&vec![]), None);
    assert_eq!(
        missing_packages_error(&vec!["https://a".to_string()]),
        Some(
            "Following packages don't exist, follow the links and create them:\n - https://a"
                .to_string()
        )
    );
    assert_eq!(
        missing_packages_error(&vec!["https://a".to_string(), "https://b".to_string()]),
        Some(
            "Following packages don't exist, follow the links and create them:\n - https://a\n - https://b"
                .to_string()
        )
    );
}

#[test]
fn prompt_and_poll() {
    assert_eq!(
        creation_prompt("foo", "bar", "https://jsr.io/new"),
        "'@foo/bar' doesn't exist yet. Visit https://jsr.io/new to create the package"
    );
    assert!(is_created(200));
    assert!(!is_created(404));
    assert!(!is_created(201));
    assert!(!is_created(204));
}
