use registry_publish::auth::{
    authorization_prompt, authorization_request_body, authorize_all, authorize_with_oidc,
    authorize_with_token, bearer_authorization, challenge_for, exchange_request_body,
    oidc_chunk_count, oidc_request_urls, on_exchange_response, on_oidc_response,
    permission_json, permissions_json, start_device_grant, verification_link, AuthError,
    AuthorizedUser, Authorizations, CreateAuthorizationResponse, ExchangeAuthorizationResponse,
    ExchangeDecision, OIDC_CHUNK_SIZE,
};
use registry_publish::package::{Permission, PreparedPublishPackage, PublishableTarball};
use registry_publish::upload::ApiError;

fn numbered(i: usize) -> PreparedPublishPackage {
    PreparedPublishPackage {
        scope: "scope".to_string(),
        package: format!("pkg{}", i),
        version: "1.0.0".to_string(),
        tarball: PublishableTarball { bytes: vec![], hash: format!("hash{}", i), files: vec![] },
        config: "deno.json".to_string(),
        exports: vec![],
    }
}

fn numbered_packages(n: usize) -> Vec<PreparedPublishPackage> {
    (0..n).map(numbered).collect()
}

fn filed(table: &Authorizations, package: &PreparedPublishPackage) -> Option<String> {
    table.get(&package.scope, &package.package, &package.version).cloned()
}

#[test]
fn authorizations_file_and_replace() {
    let mut table = Authorizations::new();
    assert_eq!(table.get("s", "p", "1"), None);
    table.insert("s", "p", "1", "Bearer a".to_string());
    table.insert("s", "p", "2", "Bearer b".to_string());
    assert_eq!(table.get("s", "p", "1"), Some(&"Bearer a".to_string()));
    assert_eq!(table.get("s", "p", "2"), Some(&"Bearer b".to_string()));
    assert_eq!(table.get("s", "q", "1"), None);
    assert_eq!(table.get("p", "s", "1"), None);
    table.insert("s", "p", "1", "Bearer c".to_string());
    assert_eq!(table.get("s", "p", "1"), Some(&"Bearer c".to_string()));
    assert_eq!(table.get("s", "p", "2"), Some(&"Bearer b".to_string()));
}

#[test]
fn token_flow_gives_every_package_the_bearer() {
    let packages = numbered_packages(3);
    let table = authorize_with_token(&packages, "sadfasdf");
    for package in &packages {
        assert_eq!(filed(&table, package), Some("Bearer sadfasdf".to_string()));
    }
    assert_eq!(table.get("scope", "pkg3", "1.0.0"), None);
    assert_eq!(bearer_authorization("t"), "Bearer t");
}

#[test]
fn authorize_all_files_the_given_authorization() {
    let packages = numbered_packages(2);
    let table = authorize_all(&packages, "Bearer xyz");
    assert_eq!(filed(&table, &packages[0]), Some("Bearer xyz".to_string()));
    assert_eq!(filed(&table, &packages[1]), Some("Bearer xyz".to_string()));
    let none: Vec<PreparedPublishPackage> = vec![];
    assert_eq!(authorize_all(&none, "Bearer xyz").get("scope", "pkg0", "1.0.0"), None);
}

#[test]
fn challenge_is_base64_of_sha256() {
    assert_eq!(challenge_for("abc"), "ungWv48Bz+pBQUDeXa4iI7ADYaOWF3qctBD/YfIAFa0=");
    assert_eq!(
        challenge_for("67e55044-10b1-426f-9247-bb680e5fe0c8"),
        "ACAxuWvTIlZhlAze4FslfPrRBISWD8kx6kWDePxoquw="
    );
}

#[test]
fn device_grant_starts_with_a_fresh_verifier() {
    let grant = start_device_grant();
    assert_eq!(grant.verifier.chars().count(), 36);
    for (i, c) in grant.verifier.chars().enumerate() {
        if i == 8 || i == 13 || i == 18 || i == 23 {
            assert_eq!(c, '-');
        } else {
            assert!("0123456789abcdef".contains(c));
        }
    }
    assert_eq!(grant.challenge, challenge_for(&grant.verifier));
    assert_ne!(grant.challenge, grant.verifier);
    let other = start_device_grant();
    assert_ne!(grant.verifier, other.verifier);
}

#[test]
fn permission_json_has_the_wire_shape() {
    let permission = Permission::VersionPublish {
        scope: "foo",
        package: "bar",
        version: "1.0.0",
        tarball_hash: "sha256-abc",
    };
    assert_eq!(
        permission_json(&permission),
        r#"{"permission":"package/publish","scope":"foo","package":"bar","version":"1.0.0","tarballHash":"sha256-abc"}"#
    );
}

#[test]
fn permission_json_escapes_strings() {
    let permission = Permission::VersionPublish {
        scope: "a\"b\\c\n",
        package: "é",
        version: "\u{1}",
        tarball_hash: "",
    };
    assert_eq!(
        permission_json(&permission),
        "{\"permission\":\"package/publish\",\"scope\":\"a\\\"b\\\\c\\n\",\"package\":\"é\",\"version\":\"\\u0001\",\"tarballHash\":\"\"}"
    );
}

#[test]
fn permissions_json_lists_a_range() {
    let packages = numbered_packages(3);
    assert_eq!(permissions_json(&packages, 1, 1), "[]");
    assert_eq!(
        permissions_json(&packages, 1, 3),
        concat_two(
            r#"[{"permission":"package/publish","scope":"scope","package":"pkg1","version":"1.0.0","tarballHash":"hash1"},"#,
            r#"{"permission":"package/publish","scope":"scope","package":"pkg2","version":"1.0.0","tarballHash":"hash2"}]"#
        )
    );
}

fn concat_two(a: &str, b: &str) -> String {
    format!("{}{}", a, b)
}

#[test]
fn request_bodies_are_json_objects() {
    let packages = numbered_packages(1);
    assert_eq!(
        authorization_request_body("ch+/=", &packages),
        r#"{"challenge":"ch+/=","permissions":[{"permission":"package/publish","scope":"scope","package":"pkg0","version":"1.0.0","tarballHash":"hash0"}]}"#
    );
    assert_eq!(
        exchange_request_body("tok\"en", "ver"),
        r#"{"exchangeToken":"tok\"en","verifier":"ver"}"#
    );
}

#[test]
fn verification_link_appends_the_code() {
    let response = CreateAuthorizationResponse {
        verification_url: "https://jsr.io/auth".to_string(),
        code: "ABCD-1234".to_string(),
        exchange_token: "x".to_string(),
        poll_interval: 2,
    };
    assert_eq!(verification_link(&response), "https://jsr.io/auth?code=ABCD-1234");
}

#[test]
fn prompt_names_one_package_or_counts_several() {
    assert_eq!(
        authorization_prompt("https://l", &numbered_packages(1)),
        "Visit https://l to authorize publishing of @scope/pkg0"
    );
    assert_eq!(
        authorization_prompt("https://l", &numbered_packages(12)),
        "Visit https://l to authorize publishing of 12 packages"
    );
}

#[test]
fn exchange_grants_waits_or_fails() {
    let granted = on_exchange_response(Ok(ExchangeAuthorizationResponse {
        token: "tok".to_string(),
        user: AuthorizedUser { name: "Ada".to_string() },
    }));
    match granted {
        ExchangeDecision::Granted { authorization, user } => {
            assert_eq!(authorization, "Bearer tok");
            assert_eq!(user, "Ada");
        }
        _ => panic!("expected a grant"),
    }
    let pending = on_exchange_response(Err(ApiError {
        code: "authorizationPending".to_string(),
        message: "wait".to_string(),
        body: String::new(),
    }));
    assert!(matches!(pending, ExchangeDecision::Pending));
    let failed = on_exchange_response(Err(ApiError {
        code: "authorizationDenied".to_string(),
        message: "no".to_string(),
        body: String::new(),
    }));
    match failed {
        ExchangeDecision::Failed { code, message } => {
            assert_eq!(code, "authorizationDenied");
            assert_eq!(message, "no");
        }
        _ => panic!("expected a failure"),
    }
}

#[test]
fn chunk_count_rounds_up() {
    assert_eq!(OIDC_CHUNK_SIZE, 16);
    assert_eq!(oidc_chunk_count(0), 0);
    assert_eq!(oidc_chunk_count(1), 1);
    assert_eq!(oidc_chunk_count(16), 1);
    assert_eq!(oidc_chunk_count(17), 2);
    assert_eq!(oidc_chunk_count(32), 2);
    assert_eq!(oidc_chunk_count(33), 3);
}

#[test]
fn oidc_url_carries_the_percent_encoded_audience() {
    let package = PreparedPublishPackage {
        scope: "foo".to_string(),
        package: "bar".to_string(),
        version: "1.0.0".to_string(),
        tarball: PublishableTarball { bytes: vec![], hash: "sha256-abc".to_string(), files: vec![] },
        config: "deno.json".to_string(),
        exports: vec![],
    };
    let urls = oidc_request_urls("https://token.example/?v=1", &vec![package]);
    assert_eq!(
        urls,
        vec![format!(
            "https://token.example/?v=1&audience={}",
            "%7B%22permissions%22%3A%5B%7B%22permission%22%3A%22package%2Fpublish%22%2C%22scope%22%3A%22foo%22%2C%22package%22%3A%22bar%22%2C%22version%22%3A%221%2E0%2E0%22%2C%22tarballHash%22%3A%22sha256%2Dabc%22%7D%5D%7D"
        )]
    );
}

#[test]
fn seventeen_packages_take_two_requests() {
    let packages = numbered_packages(17);
    let urls = oidc_request_urls("https://t/?a", &packages);
    assert_eq!(urls.len(), 2);
    for i in 0..16 {
        let needle = format!("pkg{}%22", i);
        assert!(urls[0].contains(&needle), "chunk 1 lacks package {}", i);
    }
    assert!(!urls[0].contains("pkg16%22"));
    assert!(urls[1].contains("pkg16%22"));
    assert!(!urls[1].contains("pkg0%22"));
    assert!(!urls[1].contains("pkg15%22"));

    let tokens = vec!["githuboidc one".to_string(), "githuboidc two".to_string()];
    let table = match authorize_with_oidc(&packages, &tokens) {
        Some(table) => table,
        None => panic!("two tokens fit seventeen packages"),
    };
    for i in 0..16 {
        assert_eq!(filed(&table, &packages[i]), Some("githuboidc one".to_string()));
    }
    assert_eq!(filed(&table, &packages[16]), Some("githuboidc two".to_string()));
}

#[test]
fn oidc_assignment_needs_one_token_per_chunk() {
    let packages = numbered_packages(17);
    assert!(authorize_with_oidc(&packages, &vec!["a".to_string()]).is_none());
    assert!(authorize_with_oidc(&packages, &vec!["a".to_string(); 3]).is_none());
    assert!(authorize_with_oidc(&numbered_packages(0), &vec![]).is_some());
    assert!(authorize_with_oidc(&numbered_packages(16), &vec!["a".to_string()]).is_some());
}

#[test]
fn no_packages_take_no_request() {
    assert_eq!(oidc_request_urls("https://t/?a", &numbered_packages(0)).len(), 0);
    assert_eq!(oidc_request_urls("https://t/?a", &numbered_packages(16)).len(), 1);
    assert_eq!(oidc_request_urls("https://t/?a", &numbered_packages(48)).len(), 3);
}

#[test]
fn oidc_response_yields_the_authorization() {
    match on_oidc_response(200, r#"{"value":"abc.def"}"#) {
        Ok(authorization) => assert_eq!(authorization, "githuboidc abc.def"),
        Err(_) => panic!("expected a token"),
    }
    match on_oidc_response(299, r#"{"count":1,"value":"t"}"#) {
        Ok(authorization) => assert_eq!(authorization, "githuboidc t"),
        Err(_) => panic!("expected a token"),
    }
}

#[test]
fn oidc_response_with_bad_status_is_rejected() {
    for status in [199u16, 300, 401, 500] {
        match on_oidc_response(status, r#"{"value":"abc"}"#) {
            Err(AuthError::OidcRejected { status: reported, body }) => {
                assert_eq!(reported, status);
                assert_eq!(body, r#"{"value":"abc"}"#);
            }
            _ => panic!("expected a rejection"),
        }
    }
    let error = on_oidc_response(401, "denied").unwrap_err();
    assert_eq!(error.message(), "Failed to get OIDC token: status 401, response: 'denied'");
}

#[test]
fn oidc_response_without_token_is_unreadable() {
    for body in ["", "nope", "[]", "{}", r#"{"value":5}"#, r#"{"Value":"x"}"#] {
        match on_oidc_response(200, body) {
            Err(AuthError::OidcMalformed { status, body: quoted }) => {
                assert_eq!(status, 200);
                assert_eq!(quoted, body);
            }
            _ => panic!("expected an unreadable answer for {}", body),
        }
    }
    let error = on_oidc_response(200, "{}").unwrap_err();
    assert_eq!(error.message(), "Failed to parse OIDC token: '{}' (status 200)");
}

#[test]
fn oidc_url_encodes_every_byte_outside_letters_and_digits() {
    let package = PreparedPublishPackage {
        scope: "é a".to_string(),
        package: "Z9".to_string(),
        version: "~".to_string(),
        tarball: PublishableTarball { bytes: vec![], hash: "_".to_string(), files: vec![] },
        config: "deno.json".to_string(),
        exports: vec![],
    };
    let urls = oidc_request_urls("u", &vec![package]);
    assert_eq!(urls.len(), 1);
    assert!(urls[0].starts_with("u&audience=%7B%22permissions%22%3A%5B%7B"));
    assert!(urls[0].contains("%22scope%22%3A%22%C3%A9%20a%22"));
    assert!(urls[0].contains("%22package%22%3A%22Z9%22"));
    assert!(urls[0].contains("%22version%22%3A%22%7E%22"));
    assert!(urls[0].contains("%22tarballHash%22%3A%22%5F%22"));
}

#[test]
fn json_strings_escape_quotes_backslashes_and_controls() {
    let permission = Permission::VersionPublish {
        scope: "\u{8}\t\n\u{c}\r",
        package: "\u{0}\u{1f}\u{7f} /",
        version: "\"\\",
        tarball_hash: "\u{10}\u{b}é😀",
    };
    assert_eq!(
        permission_json(&permission),
        concat_two(
            "{\"permission\":\"package/publish\",\"scope\":\"\\b\\t\\n\\f\\r\",\"package\":\"\\u0000\\u001f\u{7f} /\",",
            "\"version\":\"\\\"\\\\\",\"tarballHash\":\"\\u0010\\u000bé😀\"}"
        )
    );
}
