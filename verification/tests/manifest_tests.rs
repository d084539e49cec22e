use registry_publish::manifest::{
    check_version_manifest, decode_version_manifest, verify_version_manifest, ManifestEntry,
    VerifyError, VersionManifest,
};
use registry_publish::package::{PreparedPublishPackage, PublishableTarball, PublishableTarballFile};

fn package_with_one_file() -> PreparedPublishPackage {
    PreparedPublishPackage {
        scope: "test".to_string(),
        package: "test".to_string(),
        version: "1.0.0".to_string(),
        tarball: PublishableTarball {
            bytes: vec![],
            hash: "abc123".to_string(),
            files: vec![PublishableTarballFile {
                specifier: "file://mod.ts".to_string(),
                path_str: "mod.ts".to_string(),
                hash: "abc123".to_string(),
                size: 0,
            }],
        },
        config: "deno.json".to_string(),
        exports: vec![],
    }
}

#[test]
fn test_verify_version_manifest() {
    let meta = r#"{
      "manifest": {
        "mod.ts": {
          "checksum": "abc123"
        }
      },
      "exports": {}
    }"#;

    let meta_bytes = meta.as_bytes();
    let package = package_with_one_file();

    assert!(verify_version_manifest(meta_bytes, &package).is_ok());
}

#[test]
fn test_verify_version_manifest_missing() {
    let meta = r#"{
      "manifest": {
        "mod.ts": {},
      },
      "exports": {}
    }"#;

    let meta_bytes = meta.as_bytes();
    let package = package_with_one_file();

    assert!(verify_version_manifest(meta_bytes, &package).is_err());
}

#[test]
fn test_verify_version_manifest_invalid_hash() {
    let meta = r#"{
      "manifest": {
        "mod.ts": {
          "checksum": "lol123"
        },
        "exports": {}
      }
    }"#;

    let meta_bytes = meta.as_bytes();
    let package = package_with_one_file();

    assert!(verify_version_manifest(meta_bytes, &package).is_err());
}

fn file(path: &str, hash: &str) -> PublishableTarballFile {
    PublishableTarballFile {
        specifier: format!("file:///{}", path),
        path_str: path.to_string(),
        hash: hash.to_string(),
        size: 0,
    }
}

fn package_with(files: Vec<PublishableTarballFile>, exports: Vec<(&str, &str)>) -> PreparedPublishPackage {
    PreparedPublishPackage {
        scope: "test".to_string(),
        package: "test".to_string(),
        version: "1.0.0".to_string(),
        tarball: PublishableTarball { bytes: vec![], hash: "abc123".to_string(), files },
        config: "deno.json".to_string(),
        exports: exports.into_iter().map(|(k, v)| (k.to_string(), v.to_string())).collect(),
    }
}

fn error_message(meta: &str, package: &PreparedPublishPackage) -> String {
    match verify_version_manifest(meta.as_bytes(), package) {
        Ok(()) => panic!("the manifest was accepted"),
        Err(e) => e.message(),
    }
}

#[test]
fn manifest_ok_for_compact_json() {
    let meta = r#"{"manifest":{"mod.ts":{"checksum":"abc123"}},"exports":{}}"#;
    assert!(verify_version_manifest(meta.as_bytes(), &package_with_one_file()).is_ok());
}

#[test]
fn manifest_hash_mismatch_names_both_checksums() {
    let meta = r#"{"manifest":{"mod.ts":{"checksum":"lol123"}},"exports":{}}"#;
    let package = package_with_one_file();
    let result = verify_version_manifest(meta.as_bytes(), &package);
    assert!(matches!(result, Err(VerifyError::ChecksumMismatch { .. })));
    assert_eq!(
        error_message(meta, &package),
        "Checksum mismatch for mod.ts: expected lol123, got abc123"
    );
}

#[test]
fn manifest_without_entries_is_a_count_mismatch() {
    let meta = r#"{"manifest":{},"exports":{}}"#;
    let package = package_with_one_file();
    match verify_version_manifest(meta.as_bytes(), &package) {
        Err(VerifyError::FileCountMismatch { expected, actual }) => {
            assert_eq!(expected, 1);
            assert_eq!(actual, 0);
        }
        _ => panic!("expected a count mismatch"),
    }
    assert_eq!(
        error_message(meta, &package),
        "Mismatch in the number of files in the manifest: expected 1, got 0"
    );
}

#[test]
fn manifest_entry_without_checksum_is_malformed() {
    let meta = r#"{"manifest":{"mod.ts":{}},"exports":{}}"#;
    let result = verify_version_manifest(meta.as_bytes(), &package_with_one_file());
    assert!(matches!(result, Err(VerifyError::InvalidManifest)));
}

#[test]
fn manifest_with_non_string_checksum_is_malformed() {
    let meta = r#"{"manifest":{"mod.ts":{"checksum":7}},"exports":{}}"#;
    let result = verify_version_manifest(meta.as_bytes(), &package_with_one_file());
    assert!(matches!(result, Err(VerifyError::InvalidManifest)));
}

#[test]
fn manifest_without_exports_member_is_malformed() {
    let meta = r#"{"manifest":{"mod.ts":{"checksum":"abc123"}}}"#;
    let result = verify_version_manifest(meta.as_bytes(), &package_with_one_file());
    assert!(matches!(result, Err(VerifyError::InvalidManifest)));
    assert_eq!(
        error_message(meta, &package_with_one_file()),
        "The version manifest is malformed"
    );
}

#[test]
fn manifest_that_is_no_object_is_malformed() {
    let result = verify_version_manifest(b"[1, 2]", &package_with_one_file());
    assert!(matches!(result, Err(VerifyError::InvalidManifest)));
}

#[test]
fn manifest_that_is_no_json_is_rejected() {
    let result = verify_version_manifest(b"not json", &package_with_one_file());
    assert!(matches!(result, Err(VerifyError::InvalidJson)));
    assert_eq!(
        error_message("not json", &package_with_one_file()),
        "The version manifest is not valid JSON"
    );
    assert!(matches!(
        verify_version_manifest(b"", &package_with_one_file()),
        Err(VerifyError::InvalidJson)
    ));
}

#[test]
fn manifest_ignores_unknown_members() {
    let meta = r#"{"extra":1,"manifest":{"mod.ts":{"checksum":"abc123","size":3}},"exports":{}}"#;
    assert!(verify_version_manifest(meta.as_bytes(), &package_with_one_file()).is_ok());
}

#[test]
fn manifest_file_missing_from_tarball() {
    let meta = r#"{"manifest":{"other.ts":{"checksum":"abc123"}},"exports":{}}"#;
    let package = package_with_one_file();
    match verify_version_manifest(meta.as_bytes(), &package) {
        Err(VerifyError::FileNotFound { path }) => assert_eq!(path, "other.ts"),
        _ => panic!("expected a missing file"),
    }
    assert_eq!(error_message(meta, &package), "File other.ts not found in the tarball");
}

#[test]
fn manifest_extra_local_file_is_a_count_mismatch() {
    let meta = r#"{"manifest":{"mod.ts":{"checksum":"abc123"}},"exports":{}}"#;
    let package = package_with(vec![file("mod.ts", "abc123"), file("extra.ts", "ddd")], vec![]);
    assert_eq!(
        error_message(meta, &package),
        "Mismatch in the number of files in the manifest: expected 2, got 1"
    );
}

#[test]
fn manifest_export_missing_from_package() {
    let meta = r#"{"manifest":{"mod.ts":{"checksum":"abc123"}},"exports":{".":"./mod.ts"}}"#;
    let package = package_with_one_file();
    match verify_version_manifest(meta.as_bytes(), &package) {
        Err(VerifyError::ExportNotFound { specifier }) => assert_eq!(specifier, "."),
        _ => panic!("expected a missing export"),
    }
    assert_eq!(error_message(meta, &package), "Export . not found in the package");
}

#[test]
fn manifest_export_with_other_target() {
    let meta = r#"{"manifest":{"mod.ts":{"checksum":"abc123"}},"exports":{".":"./other.ts"}}"#;
    let package = package_with(vec![file("mod.ts", "abc123")], vec![(".", "./mod.ts")]);
    match verify_version_manifest(meta.as_bytes(), &package) {
        Err(VerifyError::ExportMismatch { specifier, expected, actual }) => {
            assert_eq!(specifier, ".");
            assert_eq!(expected, "./other.ts");
            assert_eq!(actual, "./mod.ts");
        }
        _ => panic!("expected an export mismatch"),
    }
    assert_eq!(
        error_message(meta, &package),
        "Export . mismatch: expected ./other.ts, got ./mod.ts"
    );
}

#[test]
fn manifest_local_exports_may_exceed_the_manifest() {
    let meta = r#"{"manifest":{"mod.ts":{"checksum":"abc123"}},"exports":{".":"./mod.ts"}}"#;
    let package =
        package_with(vec![file("mod.ts", "abc123")], vec![(".", "./mod.ts"), ("./sub", "./sub.ts")]);
    assert!(verify_version_manifest(meta.as_bytes(), &package).is_ok());
}

#[test]
fn manifest_file_errors_come_before_export_errors() {
    let meta = r#"{"manifest":{"mod.ts":{"checksum":"zzz"}},"exports":{".":"./other.ts"}}"#;
    let package = package_with_one_file();
    assert!(matches!(
        verify_version_manifest(meta.as_bytes(), &package),
        Err(VerifyError::ChecksumMismatch { .. })
    ));
}

#[test]
fn decoded_manifest_lists_files_and_exports() {
    let meta = r#"{"manifest":{"a.ts":{"checksum":"1"},"b.ts":{"checksum":"2"}},"exports":{".":"./a.ts"}}"#;
    let manifest = match decode_version_manifest(meta.as_bytes()) {
        Ok(manifest) => manifest,
        Err(_) => panic!("the manifest was not decoded"),
    };
    let mut files: Vec<(String, String)> =
        manifest.manifest.iter().map(|(path, entry)| (path.clone(), entry.checksum.clone())).collect();
    files.sort();
    assert_eq!(
        files,
        vec![("a.ts".to_string(), "1".to_string()), ("b.ts".to_string(), "2".to_string())]
    );
    assert_eq!(manifest.exports, vec![(".".to_string(), "./a.ts".to_string())]);
}

#[test]
fn own_manifest_round_trips() {
    let package = package_with(
        vec![file("mod.ts", "h1"), file("sub/a.ts", "h2"), file("deno.json", "h3")],
        vec![(".", "./mod.ts"), ("./a", "./sub/a.ts")],
    );
    let manifest = VersionManifest {
        manifest: package
            .tarball
            .files
            .iter()
            .map(|f| (f.path_str.clone(), ManifestEntry { checksum: f.hash.clone() }))
            .collect(),
        exports: package.exports.clone(),
    };
    assert!(check_version_manifest(&manifest, &package).is_ok());

    let entries: Vec<String> = package
        .tarball
        .files
        .iter()
        .map(|f| format!("\"{}\":{{\"checksum\":\"{}\"}}", f.path_str, f.hash))
        .collect();
    let exports: Vec<String> =
        package.exports.iter().map(|(k, v)| format!("\"{}\":\"{}\"", k, v)).collect();
    let meta = format!("{{\"manifest\":{{{}}},\"exports\":{{{}}}}}", entries.join(","), exports.join(","));
    assert!(verify_version_manifest(meta.as_bytes(), &package).is_ok());
}

#[test]
fn checked_manifest_reports_first_failing_entry() {
    let package = package_with(vec![file("a.ts", "1"), file("b.ts", "2")], vec![]);
    let manifest = VersionManifest {
        manifest: vec![
            ("a.ts".to_string(), ManifestEntry { checksum: "1".to_string() }),
            ("c.ts".to_string(), ManifestEntry { checksum: "2".to_string() }),
        ],
        exports: vec![],
    };
    match check_version_manifest(&manifest, &package) {
        Err(VerifyError::FileNotFound { path }) => assert_eq!(path, "c.ts"),
        _ => panic!("expected a missing file"),
    }
}

#[test]
fn manifest_in_another_order_verifies() {
    let package = package_with(
        vec![file("z.ts", "h1"), file("a.ts", "h2"), file("m/b.ts", "h3")],
        vec![("./z", "./z.ts"), (".", "./a.ts")],
    );
    let manifest = VersionManifest {
        manifest: vec![
            ("m/b.ts".to_string(), ManifestEntry { checksum: "h3".to_string() }),
            ("z.ts".to_string(), ManifestEntry { checksum: "h1".to_string() }),
            ("a.ts".to_string(), ManifestEntry { checksum: "h2".to_string() }),
        ],
        exports: vec![(".".to_string(), "./a.ts".to_string()), ("./z".to_string(), "./z.ts".to_string())],
    };
    assert!(check_version_manifest(&manifest, &package).is_ok());
    let meta = r#"{"exports":{".":"./a.ts","./z":"./z.ts"},"manifest":{"a.ts":{"checksum":"h2"},"m/b.ts":{"checksum":"h3"},"z.ts":{"checksum":"h1"}}}"#;
    assert!(verify_version_manifest(meta.as_bytes(), &package).is_ok());
}
