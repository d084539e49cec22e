//! Attaching provenance to a published version.
//!
//! Once a version is published, the pipeline fetches the registry's own
//! manifest of it, checks that manifest against what was uploaded, and has
//! an attestation made for the digest of exactly those manifest bytes.

use crate::encoding::{hex_lower, hex_lower_text, sha256, sha256_digest};
use crate::manifest::{carries, verification_verdict, verify_version_manifest, VerifyError};
use crate::package::{PackageView, PreparedPublishPackage};
use crate::text::{decimal, decimal_text};
use crate::upload::version_url_text;
use vstd::prelude::*;
use vstd::string::*;

verus! {

/// The digest that an attestation vouches for.
pub struct SubjectDigest {
    /// Lower-case hex SHA-256.
    pub sha256: String,
}

/// What an attestation is about.
pub struct Subject {
    pub name: String,
    pub digest: SubjectDigest,
}

/// The request that hands an attestation bundle to the registry.
pub struct ProvenanceRequest {
    pub url: String,
    /// Value of the `Authorization` header.
    pub authorization: String,
    /// JSON body.
    pub body: String,
}

/// Whether a published version gets an attestation: always, unless the
/// opt-out is set; and even with the opt-out set on a CI host that offers an
/// OIDC token, unless the user declined provenance.
pub open spec fn provenance_wanted(
    opted_out: bool,
    on_ci: bool,
    has_oidc_token: bool,
    no_provenance: bool,
) -> bool {
    !opted_out || (on_ci && has_oidc_token && !no_provenance)
}

/// Decides whether to attest, from the opt-out, the CI detection and the
/// user's flag.
pub fn provenance_enabled(opted_out: bool, on_ci: bool, has_oidc_token: bool, no_provenance: bool) -> (enabled:
    bool)
    ensures
        enabled == provenance_wanted(opted_out, on_ci, has_oidc_token, no_provenance),
{
    !opted_out || (on_ci && has_oidc_token && !no_provenance)
}

/// `{registry}@{scope}/{package}/{version}_meta.json`, for a registry base
/// that ends in a slash.
pub open spec fn meta_url_text(registry_url: Seq<char>, package: PackageView) -> Seq<char> {
    registry_url + "@"@ + package.scope + "/"@ + package.package + "/"@ + package.version
        + "_meta.json"@
}

/// `pkg:jsr/@{scope}/{package}@{version}`.
pub open spec fn subject_name_text(package: PackageView) -> Seq<char> {
    "pkg:jsr/@"@ + package.scope + "/"@ + package.package + "@"@ + package.version
}

/// The URL that serves the registry's manifest of the published version.
pub fn meta_url(registry_url: &str, package: &PreparedPublishPackage) -> (url: String)
    ensures
        url@ == meta_url_text(registry_url@, package@),
{
    let mut url = String::from_str(registry_url);
    url.append("@");
    url.append(package.scope.as_str());
    url.append("/");
    url.append(package.package.as_str());
    url.append("/");
    url.append(package.version.as_str());
    url.append("_meta.json");
    url
}

/// The subject of the attestation for `package`: its package URL, and the
/// SHA-256 of the manifest bytes that the registry served.
pub fn subject_for(package: &PreparedPublishPackage, meta_bytes: &[u8]) -> (subject: Subject)
    ensures
        subject.name@ == subject_name_text(package@),
        subject.digest.sha256@ == hex_lower_text(sha256_digest(meta_bytes@)),
{
    let mut name = String::from_str("pkg:jsr/@");
    name.append(package.scope.as_str());
    name.append("/");
    name.append(package.package.as_str());
    name.append("@");
    name.append(package.version.as_str());
    let digest = sha256(meta_bytes);
    Subject { name, digest: SubjectDigest { sha256: hex_lower(digest.as_slice()) } }
}

/// Checks the served manifest against the package and names the subject of
/// the attestation. With `skip_verification` the check is left out and the
/// subject is named in any case.
pub fn prepare_attestation(
    meta_bytes: &[u8],
    package: &PreparedPublishPackage,
    skip_verification: bool,
) -> (prepared: Result<Subject, VerifyError>)
    ensures
        match prepared {
            Ok(subject) => {
                &&& skip_verification || verification_verdict(meta_bytes@, package@) is Ok
                &&& subject.name@ == subject_name_text(package@)
                &&& subject.digest.sha256@ == hex_lower_text(sha256_digest(meta_bytes@))
            },
            Err(e) => !skip_verification && verification_verdict(meta_bytes@, package@) == Err::<
                (),
                _,
            >(e@),
        },
{
    if !skip_verification {
        match verify_version_manifest(meta_bytes, package) {
            Err(e) => {
                return Err(e);
            },
            Ok(()) => {},
        }
    }
    Ok(subject_for(package, meta_bytes))
}

/// The request that attaches `bundle`, given as JSON text, to the published
/// version: a POST to the version's `provenance` endpoint with the
/// credential of the upload and the body `{"bundle":…}`.
pub fn provenance_request(
    api_url: &str,
    package: &PreparedPublishPackage,
    authorization: &str,
    bundle: &str,
) -> (request: ProvenanceRequest)
    ensures
        request.url@ == version_url_text(api_url@, package@) + "/provenance"@,
        request.authorization@ == authorization@,
        request.body@ == "{\"bundle\":"@ + bundle@ + "}"@,
{
    let mut url = String::from_str(api_url);
    url.append("scopes/");
    url.append(package.scope.as_str());
    url.append("/packages/");
    url.append(package.package.as_str());
    url.append("/versions/");
    url.append(package.version.as_str());
    url.append("/provenance");
    let mut body = String::from_str("{\"bundle\":");
    body.append(bundle);
    body.append("}");
    ProvenanceRequest { url, authorization: String::from_str(authorization), body }
}

/// Where the transparency log shows the entry with index `log_index`.
pub fn transparency_log_url(log_index: u64) -> (url: String)
    ensures
        url@ == "https://search.sigstore.dev/?logIndex="@ + decimal_text(log_index as nat),
{
    let mut url = String::from_str("https://search.sigstore.dev/?logIndex=");
    url.append(decimal(log_index).as_str());
    url
}

} // verus!
