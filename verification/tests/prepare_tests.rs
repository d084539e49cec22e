use registry_publish::package::PublishableTarball;
use registry_publish::prepare::{
    after_slow_type_scan, after_type_check, assemble_package, begin_graph_check,
    check_package_config, exports_of, publish_plan, suggested_entrypoint, ExportsConfig,
    GraphCheck, PackageConfig, PrepareError, PublishPlan,
};

fn config(version: Option<&str>, exports: ExportsConfig) -> PackageConfig {
    PackageConfig {
        specifier: "file:///ws/pkg/deno.json".to_string(),
        file_name: "deno.json".to_string(),
        version: version.map(|v| v.to_string()),
        exports,
    }
}

fn files(names: &[&str]) -> Vec<String> {
    names.iter().map(|n| n.to_string()).collect()
}

#[test]
fn good_config_yields_coordinates() {
    let config = config(Some("1.2.3"), ExportsConfig::Single("./mod.ts".to_string()));
    match check_package_config("@foo/bar", &config, &files(&[])) {
        Ok(coordinates) => {
            assert_eq!(coordinates.scope, "foo");
            assert_eq!(coordinates.package, "bar");
            assert_eq!(coordinates.version, "1.2.3");
        }
        Err(e) => panic!("{}", e.message()),
    }
}

#[test]
fn version_is_checked_first() {
    let config = config(None, ExportsConfig::Missing);
    match check_package_config("bad name", &config, &files(&[])) {
        Err(e) => {
            assert!(matches!(e, PrepareError::MissingVersion { .. }));
            assert_eq!(e.message(), "file:///ws/pkg/deno.json is missing 'version' field");
        }
        Ok(_) => panic!("expected a missing version"),
    }
}

#[test]
fn missing_exports_propose_an_entry_point() {
    let config = config(Some("0.1.0"), ExportsConfig::Missing);
    match check_package_config("@foo/bar", &config, &files(&["index.js", "mod.js"])) {
        Err(e) => {
            match &e {
                PrepareError::MissingExports { suggestion, .. } => assert_eq!(suggestion, "mod.js"),
                _ => panic!("expected missing exports"),
            }
            assert_eq!(
                e.message(),
                "You did not specify an entrypoint to \"@foo/bar\" package in file:///ws/pkg/deno.json. Add `exports` mapping in the configuration file, eg:\n{\n  \"name\": \"@foo/bar\",\n  \"version\": \"0.1.0\",\n  \"exports\": \"mod.js\"\n}"
            );
        }
        Ok(_) => panic!("expected missing exports"),
    }
}

#[test]
fn exports_are_checked_before_the_name() {
    let config = config(Some("0.1.0"), ExportsConfig::Missing);
    assert!(matches!(
        check_package_config("nameless", &config, &files(&[])),
        Err(PrepareError::MissingExports { .. })
    ));
}

#[test]
fn unscoped_names_are_rejected() {
    let config = config(Some("0.1.0"), ExportsConfig::Other);
    for name in ["foo/bar", "@foo", "", "foo"] {
        match check_package_config(name, &config, &files(&[])) {
            Err(e) => {
                assert!(matches!(e, PrepareError::InvalidName));
                assert_eq!(
                    e.message(),
                    "Invalid package name, use '@<scope_name>/<package_name> format"
                );
            }
            Ok(_) => panic!("expected an invalid name"),
        }
    }
}

#[test]
fn entry_points_are_proposed_in_a_fixed_order() {
    assert_eq!(suggested_entrypoint(&files(&["index.js", "index.ts", "mod.js", "mod.ts"])), "mod.ts");
    assert_eq!(suggested_entrypoint(&files(&["index.js", "index.ts", "mod.js"])), "mod.js");
    assert_eq!(suggested_entrypoint(&files(&["index.js", "index.ts"])), "index.ts");
    assert_eq!(suggested_entrypoint(&files(&["main.ts", "index.js"])), "index.js");
    assert_eq!(suggested_entrypoint(&files(&["main.ts"])), "<path_to_entrypoint>");
    assert_eq!(suggested_entrypoint(&files(&[])), "<path_to_entrypoint>");
}

#[test]
fn exports_come_from_the_configuration() {
    assert_eq!(
        exports_of(&ExportsConfig::Single("./mod.ts".to_string())),
        vec![(".".to_string(), "./mod.ts".to_string())]
    );
    let table = vec![
        (".".to_string(), "./mod.ts".to_string()),
        ("./sub".to_string(), "./sub.ts".to_string()),
    ];
    assert_eq!(exports_of(&ExportsConfig::Table(table.clone())), table);
    assert_eq!(exports_of(&ExportsConfig::Table(vec![])), vec![]);
    assert_eq!(exports_of(&ExportsConfig::Other), vec![]);
    assert_eq!(exports_of(&ExportsConfig::Missing), vec![]);
}

#[test]
fn package_is_assembled_from_its_parts() {
    let config = config(Some("1.0.0"), ExportsConfig::Single("./mod.ts".to_string()));
    let coordinates = check_package_config("@foo/bar", &config, &files(&[])).ok().unwrap();
    let tarball = PublishableTarball { bytes: vec![9, 8], hash: "h".to_string(), files: vec![] };
    let package = assemble_package(coordinates, &config, tarball);
    assert_eq!(package.display_name(), "@foo/bar@1.0.0");
    assert_eq!(package.config, "deno.json");
    assert_eq!(package.tarball.bytes, vec![9, 8]);
    assert_eq!(package.exports, vec![(".".to_string(), "./mod.ts".to_string())]);
}

#[test]
fn graph_check_steps() {
    assert!(begin_graph_check(true) == GraphCheck::Accepted { warn: true });
    assert!(begin_graph_check(false) == GraphCheck::ScanSlowTypes);
    assert!(after_slow_type_scan(true) == GraphCheck::Diagnosed);
    assert!(after_slow_type_scan(false) == GraphCheck::TypeCheck);
    assert!(after_type_check(0) == GraphCheck::Accepted { warn: false });
    assert!(after_type_check(3) == GraphCheck::Rejected);
}

#[test]
fn publish_plans() {
    assert!(publish_plan(0, false) == PublishPlan::NothingToPublish);
    assert!(publish_plan(0, true) == PublishPlan::NothingToPublish);
    assert!(publish_plan(2, true) == PublishPlan::DryRun);
    assert!(publish_plan(2, false) == PublishPlan::Publish);
}

#[test]
fn repeated_specifier_takes_its_last_path() {
    let table = vec![
        (".".to_string(), "./first.ts".to_string()),
        ("./sub".to_string(), "./sub.ts".to_string()),
        (".".to_string(), "./second.ts".to_string()),
        ("./sub".to_string(), "./sub2.ts".to_string()),
        ("./new".to_string(), "./new.ts".to_string()),
        (".".to_string(), "./third.ts".to_string()),
    ];
    assert_eq!(
        exports_of(&ExportsConfig::Table(table)),
        vec![
            (".".to_string(), "./third.ts".to_string()),
            ("./sub".to_string(), "./sub2.ts".to_string()),
            ("./new".to_string(), "./new.ts".to_string()),
        ]
    );
}

#[test]
fn assembled_package_has_one_export_per_specifier() {
    let table = vec![
        ("./a".to_string(), "./a1.ts".to_string()),
        ("./a".to_string(), "./a2.ts".to_string()),
    ];
    let config = config(Some("1.0.0"), ExportsConfig::Table(table));
    let coordinates = check_package_config("@foo/bar", &config, &files(&[])).ok().unwrap();
    let tarball = PublishableTarball { bytes: vec![], hash: "h".to_string(), files: vec![] };
    let package = assemble_package(coordinates, &config, tarball);
    assert_eq!(package.exports, vec![("./a".to_string(), "./a2.ts".to_string())]);
}
