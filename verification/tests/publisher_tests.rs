use registry_publish::auth::{authorize_with_oidc, authorize_with_token, Authorizations};
use registry_publish::package::{PreparedPublishPackage, PublishableTarball};
use registry_publish::publish_order::build_publish_order_graph;
use registry_publish::publisher::{PublishError, Publisher};
use registry_publish::upload::{on_upload_response, ApiError, PublishingTask, UploadDecision};

fn member(name: &str) -> (String, PreparedPublishPackage) {
    (
        format!("@ws/{}", name),
        PreparedPublishPackage {
            scope: "ws".to_string(),
            package: name.to_string(),
            version: "1.0.0".to_string(),
            tarball: PublishableTarball {
                bytes: name.as_bytes().to_vec(),
                hash: format!("hash-{}", name),
                files: vec![],
            },
            config: "deno.json".to_string(),
            exports: vec![],
        },
    )
}

fn run_of(members: &[&str], dependencies: &[(&str, &str)]) -> Publisher {
    let names: Vec<String> = members.iter().map(|m| format!("@ws/{}", m)).collect();
    let edges: Vec<(String, String)> =
        dependencies.iter().map(|(a, b)| (format!("@ws/{}", a), format!("@ws/{}", b))).collect();
    let graph = build_publish_order_graph(&names, &edges).ok().unwrap();
    let packages: Vec<(String, PreparedPublishPackage)> = members.iter().map(|m| member(m)).collect();
    let plain: Vec<PreparedPublishPackage> = members.iter().map(|m| member(m).1).collect();
    let authorizations = authorize_with_token(&plain, "tok");
    match Publisher::new(graph, packages, authorizations) {
        Ok(run) => run,
        Err(e) => panic!("{}", e.message()),
    }
}

#[test]
fn order_respected() {
    let mut run = run_of(&["a", "b"], &[("a", "b")]);
    let mut clock = 0;
    let mut started: Vec<(String, usize)> = vec![];
    let mut ended: Vec<(String, usize)> = vec![];
    loop {
        let jobs = run.start_ready();
        if jobs.is_empty() {
            break;
        }
        for job in &jobs {
            clock += 1;
            started.push((job.name.clone(), clock));
        }
        for job in &jobs {
            clock += 1;
            ended.push((job.name.clone(), clock));
            run.complete(&job.name);
        }
    }
    assert!(run.finish().is_ok());
    let start_a = started.iter().find(|(n, _)| n == "@ws/a").unwrap().1;
    let end_b = ended.iter().find(|(n, _)| n == "@ws/b").unwrap().1;
    assert!(start_a >= end_b);
    assert_eq!(started.len(), 2);
}

#[test]
fn jobs_carry_package_and_authorization() {
    let mut run = run_of(&["a", "b", "c"], &[("c", "a")]);
    let jobs = run.start_ready();
    assert_eq!(jobs.len(), 2);
    assert_eq!(jobs[0].name, "@ws/a");
    assert_eq!(jobs[0].package.package, "a");
    assert_eq!(jobs[0].package.tarball.bytes, b"a".to_vec());
    assert_eq!(jobs[0].authorization, "Bearer tok");
    assert_eq!(jobs[1].name, "@ws/b");
    assert_eq!(jobs[1].package.tarball.hash, "hash-b");
    assert!(run.start_ready().is_empty());
    assert!(run.finish().is_err());
    run.complete("@ws/b");
    assert!(run.start_ready().is_empty());
    run.complete("@ws/a");
    let jobs = run.start_ready();
    assert_eq!(jobs.len(), 1);
    assert_eq!(jobs[0].name, "@ws/c");
    run.complete("@ws/c");
    assert!(run.finish().is_ok());
}

#[test]
fn each_job_uses_the_authorization_filed_for_its_package() {
    let members: Vec<String> = (0..17).map(|i| format!("p{:02}", i)).collect();
    let names: Vec<String> = members.iter().map(|m| format!("@ws/{}", m)).collect();
    let graph = build_publish_order_graph(&names, &vec![]).ok().unwrap();
    let packages: Vec<(String, PreparedPublishPackage)> = members.iter().map(|m| member(m)).collect();
    let plain: Vec<PreparedPublishPackage> = members.iter().map(|m| member(m).1).collect();
    let tokens = vec!["githuboidc first".to_string(), "githuboidc second".to_string()];
    let authorizations = authorize_with_oidc(&plain, &tokens).unwrap();
    let mut run = Publisher::new(graph, packages, authorizations).ok().unwrap();
    let jobs = run.start_ready();
    assert_eq!(jobs.len(), 17);
    for (i, job) in jobs.iter().enumerate() {
        assert_eq!(job.package.package, members[i]);
        let expected = if i < 16 { "githuboidc first" } else { "githuboidc second" };
        assert_eq!(job.authorization, expected);
    }
}

#[test]
fn duplicate_with_success_lets_the_run_advance() {
    let mut run = run_of(&["a", "b"], &[("a", "b")]);
    let jobs = run.start_ready();
    assert_eq!(jobs.len(), 1);
    let answer: Result<PublishingTask, ApiError> = Err(ApiError {
        code: "duplicateVersionPublish".to_string(),
        message: "duplicate".to_string(),
        body: r#"{"code":"duplicateVersionPublish","message":"duplicate","data":{"task":{"id":"t","status":"success"}}}"#
            .to_string(),
    });
    assert!(matches!(on_upload_response(answer), UploadDecision::AlreadyPublished));
    run.complete(&jobs[0].name);
    let jobs = run.start_ready();
    assert_eq!(jobs.len(), 1);
    assert_eq!(jobs[0].name, "@ws/a");
}

#[test]
fn run_needs_every_package_prepared() {
    let names = vec!["@ws/a".to_string(), "@ws/b".to_string()];
    let graph = build_publish_order_graph(&names, &vec![]).ok().unwrap();
    let authorizations = authorize_with_token(&vec![member("a").1, member("b").1], "tok");
    match Publisher::new(graph, vec![member("a")], authorizations) {
        Err(PublishError::UnknownPackage { name }) => assert_eq!(name, "@ws/b"),
        _ => panic!("expected an unknown package"),
    }
    let error = PublishError::UnknownPackage { name: "@ws/b".to_string() };
    assert_eq!(error.message(), "No prepared package for @ws/b");
}

#[test]
fn run_needs_every_authorization() {
    let names = vec!["@ws/a".to_string(), "@ws/b".to_string()];
    let graph = build_publish_order_graph(&names, &vec![]).ok().unwrap();
    let authorizations = authorize_with_token(&vec![member("b").1], "tok");
    match Publisher::new(graph, vec![member("b"), member("a")], authorizations) {
        Err(e) => {
            assert!(matches!(e, PublishError::MissingAuthorization { .. }));
            assert_eq!(e.message(), "No authorization for @ws/a");
        }
        Ok(_) => panic!("expected a missing authorization"),
    }
    let graph = build_publish_order_graph(&names, &vec![]).ok().unwrap();
    assert!(Publisher::new(graph, vec![member("b"), member("a")], Authorizations::new()).is_err());
}

#[test]
fn extra_packages_are_dropped() {
    let names = vec!["@ws/a".to_string()];
    let graph = build_publish_order_graph(&names, &vec![]).ok().unwrap();
    let authorizations = authorize_with_token(&vec![member("a").1], "tok");
    let mut run =
        Publisher::new(graph, vec![member("x"), member("a"), member("y")], authorizations).ok().unwrap();
    let jobs = run.start_ready();
    assert_eq!(jobs.len(), 1);
    assert_eq!(jobs[0].package.package, "a");
}
