use registry_publish::package::{
    permissions_for, split_package_name, Permission, PreparedPublishPackage, PublishableTarball,
};

fn package(scope: &str, name: &str, version: &str, hash: &str) -> PreparedPublishPackage {
    PreparedPublishPackage {
        scope: scope.to_string(),
        package: name.to_string(),
        version: version.to_string(),
        tarball: PublishableTarball { bytes: vec![1, 2, 3], hash: hash.to_string(), files: vec![] },
        config: "deno.json".to_string(),
        exports: vec![],
    }
}

#[test]
fn display_name_joins_the_coordinates() {
    assert_eq!(package("foo", "bar", "1.0.0", "h").display_name(), "@foo/bar@1.0.0");
    assert_eq!(package("", "", "", "h").display_name(), "@/@");
}

#[test]
fn split_package_name_takes_scope_and_package() {
    assert_eq!(split_package_name("@foo/bar"), Some(("foo".to_string(), "bar".to_string())));
    assert_eq!(split_package_name("@foo/bar/baz"), Some(("foo".to_string(), "bar/baz".to_string())));
    assert_eq!(split_package_name("@/"), Some(("".to_string(), "".to_string())));
    assert_eq!(split_package_name("@scöpe/nämé"), Some(("scöpe".to_string(), "nämé".to_string())));
}

#[test]
fn split_package_name_rejects_other_forms() {
    assert_eq!(split_package_name(""), None);
    assert_eq!(split_package_name("foo/bar"), None);
    assert_eq!(split_package_name("@foo"), None);
    assert_eq!(split_package_name("@"), None);
    assert_eq!(split_package_name("foo"), None);
}

#[test]
fn permissions_mirror_the_packages() {
    let packages = vec![package("a", "x", "1.0.0", "h1"), package("b", "y", "2.0.0", "h2")];
    let permissions = permissions_for(&packages);
    assert_eq!(permissions.len(), 2);
    match &permissions[1] {
        Permission::VersionPublish { scope, package, version, tarball_hash } => {
            assert_eq!(*scope, "b");
            assert_eq!(*package, "y");
            assert_eq!(*version, "2.0.0");
            assert_eq!(*tarball_hash, "h2");
        }
    }
    match &permissions[0] {
        Permission::VersionPublish { scope, tarball_hash, .. } => {
            assert_eq!(*scope, "a");
            assert_eq!(*tarball_hash, "h1");
        }
    }
}
