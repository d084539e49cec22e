//! Credentials for a publish run.
//!
//! Before anything is uploaded, every package of the run gets an
//! authorization: the value of the `Authorization` header that its upload
//! will carry. Three flows mint them: a token the user supplied, an
//! interactive device grant, and an exchange of a CI host's OIDC token.
//! This module holds the table of authorizations and, for each flow, the
//! requests to send and the decisions to take on each answer.

use crate::encoding::{
    base64_standard, base64_standard_text, is_hyphenated_uuid, percent_encode, percent_encoded,
    random_uuid_text, sha256, sha256_digest,
};
use crate::json::{
    find_member, json_document, json_object_members, json_string_text, json_string_value,
    member_value, object_members, parse_document, quote, string_value,
};
use crate::package::{
    package_views, PackageKey, PackageView, Permission, PermissionView, PreparedPublishPackage,
};
use crate::text::{decimal, decimal_text, join, joined, same_text, texts};
use crate::upload::ApiError;
use vstd::prelude::*;
use vstd::string::*;

verus! {

/// Number of packages that one OIDC token request covers. The registry
/// fixes this number; it is not a tuning knob.
pub const OIDC_CHUNK_SIZE: usize = 16;

/// Where and with what to ask for a federated token.
pub struct OidcConfig {
    pub url: String,
    pub token: String,
}

/// The flow that mints the authorizations of a run.
pub enum AuthMethod {
    Interactive,
    Token(String),
    Oidc(OidcConfig),
}

struct Grant {
    scope: String,
    package: String,
    version: String,
    authorization: String,
}

/// The authorizations of a run, filed under scope, package and version.
pub struct Authorizations {
    grants: Vec<Grant>,
}

spec fn grant_key(grant: Grant) -> PackageKey {
    (grant.scope@, grant.package@, grant.version@)
}

spec fn first_grant(grants: Seq<Grant>, key: PackageKey) -> Option<Seq<char>>
    decreases grants.len(),
{
    if grants.len() == 0 {
        None
    } else if grant_key(grants[0]) == key {
        Some(grants[0].authorization@)
    } else {
        first_grant(grants.drop_first(), key)
    }
}

proof fn lemma_first_grant_push(grants: Seq<Grant>, grant: Grant, key: PackageKey)
    ensures
        first_grant(grants.push(grant), key) == if first_grant(grants, key) is Some {
            first_grant(grants, key)
        } else if grant_key(grant) == key {
            Some(grant.authorization@)
        } else {
            None
        },
    decreases grants.len(),
{
    if grants.len() == 0 {
        assert(grants.push(grant).drop_first() =~= grants);
    } else {
        assert(grants.push(grant).drop_first() =~= grants.drop_first().push(grant));
        lemma_first_grant_push(grants.drop_first(), grant, key);
    }
}

proof fn lemma_first_grant_update(grants: Seq<Grant>, at: int, grant: Grant, key: PackageKey)
    requires
        0 <= at < grants.len(),
        grant_key(grants[at]) == grant_key(grant),
        forall|j: int| 0 <= j < at ==> grant_key(grants[j]) != grant_key(grant),
    ensures
        first_grant(grants.update(at, grant), key) == if key == grant_key(grant) {
            Some(grant.authorization@)
        } else {
            first_grant(grants, key)
        },
    decreases grants.len(),
{
    if at == 0 {
        assert(grants.update(at, grant).drop_first() =~= grants.drop_first());
    } else {
        assert(grants.update(at, grant).drop_first() =~= grants.drop_first().update(at - 1, grant));
        assert(grant_key(grants[0]) != grant_key(grant));
        assert forall|j: int| 0 <= j < at - 1 implies grant_key(grants.drop_first()[j]) != grant_key(
            grant,
        ) by {
            assert(grants.drop_first()[j] == grants[j + 1]);
        }
        lemma_first_grant_update(grants.drop_first(), at - 1, grant, key);
    }
}

impl View for Authorizations {
    type V = Map<PackageKey, Seq<char>>;

    closed spec fn view(&self) -> Map<PackageKey, Seq<char>> {
        Map::new(
            |key: PackageKey| first_grant(self.grants@, key) is Some,
            |key: PackageKey| first_grant(self.grants@, key)->0,
        )
    }
}

impl Authorizations {
    /// The empty table.
    pub fn new() -> (table: Authorizations)
        ensures
            table@ == Map::<PackageKey, Seq<char>>::empty(),
    {
        let table = Authorizations { grants: Vec::new() };
        assert(table@ =~= Map::<PackageKey, Seq<char>>::empty());
        table
    }

    fn position(&self, scope: &str, package: &str, version: &str) -> (at: Option<usize>)
        ensures
            match at {
                Some(i) => {
                    &&& i < self.grants@.len()
                    &&& grant_key(self.grants@[i as int]) == (scope@, package@, version@)
                    &&& forall|j: int|
                        0 <= j < i ==> grant_key(self.grants@[j]) != (scope@, package@, version@)
                    &&& first_grant(self.grants@, (scope@, package@, version@)) == Some(
                        self.grants@[i as int].authorization@,
                    )
                },
                None => first_grant(self.grants@, (scope@, package@, version@)) is None,
            },
    {
        let ghost key = (scope@, package@, version@);
        let mut i: usize = 0;
        assert(self.grants@.skip(0) =~= self.grants@);
        while i < self.grants.len()
            invariant
                i <= self.grants@.len(),
                key == (scope@, package@, version@),
                forall|j: int| 0 <= j < i ==> grant_key(self.grants@[j]) != key,
                first_grant(self.grants@, key) == first_grant(self.grants@.skip(i as int), key),
            decreases self.grants@.len() - i,
        {
            let grant = &self.grants[i];
            if same_text(grant.scope.as_str(), scope) && same_text(grant.package.as_str(), package)
                && same_text(grant.version.as_str(), version) {
                return Some(i);
            }
            assert(self.grants@.skip(i as int).drop_first() =~= self.grants@.skip(i + 1));
            i += 1;
        }
        None
    }

    /// Files `authorization` under the given coordinates, in place of what
    /// was filed there before.
    pub fn insert(&mut self, scope: &str, package: &str, version: &str, authorization: String)
        ensures
            final(self)@ == old(self)@.insert((scope@, package@, version@), authorization@),
    {
        let ghost before = self.grants@;
        let grant = Grant {
            scope: String::from_str(scope),
            package: String::from_str(package),
            version: String::from_str(version),
            authorization,
        };
        match self.position(scope, package, version) {
            Some(at) => {
                self.grants.set(at, grant);
                assert forall|key: PackageKey|
                    first_grant(self.grants@, key) == if key == grant_key(grant) {
                        Some(grant.authorization@)
                    } else {
                        first_grant(before, key)
                    } by {
                    lemma_first_grant_update(before, at as int, grant, key);
                }
            },
            None => {
                self.grants.push(grant);
                assert forall|key: PackageKey|
                    first_grant(self.grants@, key) == if key == grant_key(grant) {
                        Some(grant.authorization@)
                    } else {
                        first_grant(before, key)
                    } by {
                    lemma_first_grant_push(before, grant, key);
                }
            },
        }
        assert(self@ =~= old(self)@.insert((scope@, package@, version@), authorization@));
    }

    /// The authorization filed under the given coordinates.
    pub fn get(&self, scope: &str, package: &str, version: &str) -> (found: Option<&String>)
        ensures
            match found {
                Some(authorization) => self@.contains_key((scope@, package@, version@)) && self@[(
                    scope@,
                    package@,
                    version@,
                )] == authorization@,
                None => !self@.contains_key((scope@, package@, version@)),
            },
    {
        match self.position(scope, package, version) {
            Some(at) => Some(&self.grants[at].authorization),
            None => None,
        }
    }
}

/// The keys of the packages, in order.
pub open spec fn package_keys(packages: Seq<PackageView>) -> Seq<PackageKey> {
    Seq::new(packages.len(), |i: int| packages[i].key())
}

/// The table that results from filing `authorizations[i]` under `keys[i]`,
/// for each `i` in order.
pub open spec fn granted(keys: Seq<PackageKey>, authorizations: Seq<Seq<char>>) -> Map<
    PackageKey,
    Seq<char>,
>
    decreases keys.len(),
{
    if keys.len() == 0 {
        Map::empty()
    } else {
        granted(keys.drop_last(), authorizations.drop_last()).insert(
            keys.last(),
            authorizations.last(),
        )
    }
}

/// Every key that was filed is in the table.
pub proof fn lemma_granted_covers(keys: Seq<PackageKey>, authorizations: Seq<Seq<char>>, i: int)
    requires
        keys.len() == authorizations.len(),
        0 <= i < keys.len(),
    ensures
        granted(keys, authorizations).contains_key(keys[i]),
    decreases keys.len(),
{
    if i < keys.len() - 1 {
        lemma_granted_covers(keys.drop_last(), authorizations.drop_last(), i);
    }
}

/// The table holds nothing but what was filed.
pub proof fn lemma_granted_only(keys: Seq<PackageKey>, authorizations: Seq<Seq<char>>, key: PackageKey)
    requires
        keys.len() == authorizations.len(),
        granted(keys, authorizations).contains_key(key),
    ensures
        keys.contains(key),
    decreases keys.len(),
{
    if keys.len() > 0 {
        if key == keys.last() {
            assert(keys[keys.len() - 1] == key);
        } else {
            lemma_granted_only(keys.drop_last(), authorizations.drop_last(), key);
            let j = choose|j: int| 0 <= j < keys.drop_last().len() && keys.drop_last()[j] == key;
            assert(keys[j] == key);
        }
    }
}

/// Where no two packages share a key, each key leads to the authorization
/// that was filed for its package.
pub proof fn lemma_granted_each(keys: Seq<PackageKey>, authorizations: Seq<Seq<char>>, i: int)
    requires
        keys.len() == authorizations.len(),
        0 <= i < keys.len(),
        forall|a: int, b: int| 0 <= a < b < keys.len() ==> keys[a] != keys[b],
    ensures
        granted(keys, authorizations).contains_key(keys[i]),
        granted(keys, authorizations)[keys[i]] == authorizations[i],
    decreases keys.len(),
{
    if i < keys.len() - 1 {
        lemma_granted_each(keys.drop_last(), authorizations.drop_last(), i);
    }
}

/// `Bearer {token}`.
pub open spec fn bearer_text(token: Seq<char>) -> Seq<char> {
    "Bearer "@ + token
}

/// `githuboidc {value}`.
pub open spec fn oidc_text(value: Seq<char>) -> Seq<char> {
    "githuboidc "@ + value
}

/// The authorization that a bearer token gives.
pub fn bearer_authorization(token: &str) -> (authorization: String)
    ensures
        authorization@ == bearer_text(token@),
{
    let mut authorization = String::from_str("Bearer ");
    authorization.append(token);
    authorization
}

/// Files one and the same authorization for every package.
pub fn authorize_all(packages: &Vec<PreparedPublishPackage>, authorization: &str) -> (table:
    Authorizations)
    ensures
        table@ == granted(
            package_keys(package_views(packages@)),
            Seq::new(packages@.len(), |i: int| authorization@),
        ),
{
    let ghost keys = package_keys(package_views(packages@));
    let ghost values = Seq::new(packages@.len(), |i: int| authorization@);
    let mut table = Authorizations::new();
    let mut i: usize = 0;
    while i < packages.len()
        invariant
            i <= packages@.len(),
            keys == package_keys(package_views(packages@)),
            values == Seq::new(packages@.len(), |i: int| authorization@),
            table@ == granted(keys.take(i as int), values.take(i as int)),
        decreases packages@.len() - i,
    {
        let package = &packages[i];
        table.insert(
            package.scope.as_str(),
            package.package.as_str(),
            package.version.as_str(),
            String::from_str(authorization),
        );
        proof {
            assert(keys.take(i + 1).drop_last() =~= keys.take(i as int));
            assert(values.take(i + 1).drop_last() =~= values.take(i as int));
            assert(keys.take(i + 1).last() == packages@[i as int]@.key());
        }
        i += 1;
    }
    assert(keys.take(packages@.len() as int) =~= keys);
    assert(values.take(packages@.len() as int) =~= values);
    table
}

/// The static-token flow: every package gets `Bearer {token}`.
pub fn authorize_with_token(packages: &Vec<PreparedPublishPackage>, token: &str) -> (table:
    Authorizations)
    ensures
        table@ == granted(
            package_keys(package_views(packages@)),
            Seq::new(packages@.len(), |i: int| bearer_text(token@)),
        ),
{
    let authorization = bearer_authorization(token);
    authorize_all(packages, authorization.as_str())
}

/// The JSON object that asks for one publish permission.
pub open spec fn permission_json_text(permission: PermissionView) -> Seq<char> {
    "{\"permission\":\"package/publish\",\"scope\":"@ + json_string_text(permission.scope)
        + ",\"package\":"@ + json_string_text(permission.package) + ",\"version\":"@
        + json_string_text(permission.version) + ",\"tarballHash\":"@ + json_string_text(
        permission.tarball_hash,
    ) + "}"@
}

/// The JSON array of the given permissions.
pub open spec fn permissions_json_text(permissions: Seq<PermissionView>) -> Seq<char> {
    "["@ + joined(
        Seq::new(permissions.len(), |i: int| permission_json_text(permissions[i])),
        ","@,
    ) + "]"@
}

/// The permissions of the packages, in order.
pub open spec fn permissions_of(packages: Seq<PackageView>) -> Seq<PermissionView> {
    Seq::new(packages.len(), |i: int| packages[i].permission())
}

/// Writes one permission as JSON.
pub fn permission_json(permission: &Permission<'_>) -> (text: String)
    ensures
        text@ == permission_json_text(permission@),
{
    match permission {
        Permission::VersionPublish { scope, package, version, tarball_hash } => {
            let mut text = String::from_str("{\"permission\":\"package/publish\",\"scope\":");
            text.append(quote(scope).as_str());
            text.append(",\"package\":");
            text.append(quote(package).as_str());
            text.append(",\"version\":");
            text.append(quote(version).as_str());
            text.append(",\"tarballHash\":");
            text.append(quote(tarball_hash).as_str());
            text.append("}");
            text
        },
    }
}

fn package_permission_json(package: &PreparedPublishPackage) -> (text: String)
    ensures
        text@ == permission_json_text(package@.permission()),
{
    let permission = Permission::VersionPublish {
        scope: package.scope.as_str(),
        package: package.package.as_str(),
        version: package.version.as_str(),
        tarball_hash: package.tarball.hash.as_str(),
    };
    permission_json(&permission)
}

/// Writes the permissions of `packages[from..to]` as a JSON array.
pub fn permissions_json(packages: &Vec<PreparedPublishPackage>, from: usize, to: usize) -> (text:
    String)
    requires
        from <= to <= packages@.len(),
    ensures
        text@ == permissions_json_text(
            permissions_of(package_views(packages@).subrange(from as int, to as int)),
        ),
{
    let ghost wanted = permissions_of(package_views(packages@).subrange(from as int, to as int));
    let mut items: Vec<String> = Vec::new();
    let mut i: usize = from;
    while i < to
        invariant
            from <= i <= to <= packages@.len(),
            wanted == permissions_of(package_views(packages@).subrange(from as int, to as int)),
            items@.len() == i - from,
            forall|k: int|
                0 <= k < i - from ==> (#[trigger] items@[k])@ == permission_json_text(wanted[k]),
        decreases to - i,
    {
        items.push(package_permission_json(&packages[i]));
        i += 1;
    }
    let mut text = String::from_str("[");
    text.append(join(&items, ",").as_str());
    text.append("]");
    proof {
        assert(texts(items@) =~= Seq::new(wanted.len(), |i: int| permission_json_text(wanted[i])));
    }
    text
}

/// What begins an interactive device grant.
pub struct DeviceGrant {
    /// The secret that proves, at exchange time, who asked.
    pub verifier: String,
    /// What the registry gets to see of the verifier up front.
    pub challenge: String,
}

/// The registry's answer to the request that opens a device grant.
pub struct CreateAuthorizationResponse {
    pub verification_url: String,
    pub code: String,
    pub exchange_token: String,
    /// Seconds to wait before each exchange attempt.
    pub poll_interval: u64,
}

/// The user on whose behalf a grant was given.
pub struct AuthorizedUser {
    pub name: String,
}

/// The registry's answer to a successful exchange.
pub struct ExchangeAuthorizationResponse {
    pub token: String,
    pub user: AuthorizedUser,
}

/// What to do after an exchange attempt.
pub enum ExchangeDecision {
    /// The user has approved: `authorization` serves every package.
    Granted { authorization: String, user: String },
    /// The user has not decided yet: wait the poll interval and try again.
    Pending,
    /// The grant was refused or the exchange broke.
    Failed { code: String, message: String },
}

/// The challenge that binds a verifier: base64 of the SHA-256 of its bytes.
pub open spec fn challenge_text(verifier: Seq<char>) -> Seq<char> {
    base64_standard_text(sha256_digest(vstd::utf8::encode_utf8(verifier)))
}

/// Computes the challenge that goes with `verifier`.
pub fn challenge_for(verifier: &str) -> (challenge: String)
    ensures
        challenge@ == challenge_text(verifier@),
{
    let digest = sha256(verifier.as_bytes());
    base64_standard(digest.as_slice())
}

/// Draws a fresh random verifier and computes its challenge.
pub fn start_device_grant() -> (grant: DeviceGrant)
    ensures
        is_hyphenated_uuid(grant.verifier@),
        grant.challenge@ == challenge_text(grant.verifier@),
{
    let verifier = random_uuid_text();
    let challenge = challenge_for(verifier.as_str());
    DeviceGrant { verifier, challenge }
}

/// The body of the request that opens a device grant for `packages`:
/// `{"challenge":…,"permissions":[…]}`.
pub fn authorization_request_body(challenge: &str, packages: &Vec<PreparedPublishPackage>) -> (body:
    String)
    ensures
        body@ == "{\"challenge\":"@ + json_string_text(challenge@) + ",\"permissions\":"@
            + permissions_json_text(permissions_of(package_views(packages@))) + "}"@,
{
    let mut body = String::from_str("{\"challenge\":");
    body.append(quote(challenge).as_str());
    body.append(",\"permissions\":");
    body.append(permissions_json(packages, 0, packages.len()).as_str());
    body.append("}");
    proof {
        assert(package_views(packages@).subrange(0, packages@.len() as int) =~= package_views(
            packages@,
        ));
    }
    body
}

/// The body of an exchange attempt: `{"exchangeToken":…,"verifier":…}`.
pub fn exchange_request_body(exchange_token: &str, verifier: &str) -> (body: String)
    ensures
        body@ == "{\"exchangeToken\":"@ + json_string_text(exchange_token@) + ",\"verifier\":"@
            + json_string_text(verifier@) + "}"@,
{
    let mut body = String::from_str("{\"exchangeToken\":");
    body.append(quote(exchange_token).as_str());
    body.append(",\"verifier\":");
    body.append(quote(verifier).as_str());
    body.append("}");
    body
}

/// The link the user visits to approve the grant: `{url}?code={code}`.
pub fn verification_link(response: &CreateAuthorizationResponse) -> (link: String)
    ensures
        link@ == response.verification_url@ + "?code="@ + response.code@,
{
    let mut link = String::from_str(response.verification_url.as_str());
    link.append("?code=");
    link.append(response.code.as_str());
    link
}

/// What the grant is asked for: the one package by name, or the number of
/// packages where there are several.
pub open spec fn grant_scope_text(packages: Seq<PackageView>) -> Seq<char> {
    if packages.len() > 1 {
        " "@ + decimal_text(packages.len()) + " packages"@
    } else {
        " @"@ + packages[0].scope + "/"@ + packages[0].package
    }
}

/// The line that asks the user to approve the grant at `link`.
pub fn authorization_prompt(link: &str, packages: &Vec<PreparedPublishPackage>) -> (prompt: String)
    requires
        packages@.len() > 0,
    ensures
        prompt@ == "Visit "@ + link@ + " to authorize publishing of"@ + grant_scope_text(
            package_views(packages@),
        ),
{
    let mut prompt = String::from_str("Visit ");
    prompt.append(link);
    prompt.append(" to authorize publishing of");
    if packages.len() > 1 {
        prompt.append(" ");
        prompt.append(decimal(packages.len() as u64).as_str());
        prompt.append(" packages");
        assert(prompt@ =~= "Visit "@ + link@ + " to authorize publishing of"@ + (" "@
            + decimal_text(packages@.len()) + " packages"@));
    } else {
        prompt.append(" @");
        prompt.append(packages[0].scope.as_str());
        prompt.append("/");
        prompt.append(packages[0].package.as_str());
        assert(prompt@ =~= "Visit "@ + link@ + " to authorize publishing of"@ + (" @"@
            + packages@[0]@.scope + "/"@ + packages@[0]@.package));
    }
    prompt
}

/// Decides what follows an exchange attempt: a token is turned into the
/// bearer authorization of the run; the error code `authorizationPending`
/// means to wait and try again; every other error ends the flow.
pub fn on_exchange_response(response: Result<ExchangeAuthorizationResponse, ApiError>) -> (decision:
    ExchangeDecision)
    ensures
        match response {
            Ok(granted) => decision matches ExchangeDecision::Granted { authorization, user }
                && authorization@ == bearer_text(granted.token@) && user == granted.user.name,
            Err(error) => if error.code@ == "authorizationPending"@ {
                decision is Pending
            } else {
                decision == (ExchangeDecision::Failed { code: error.code, message: error.message })
            },
        },
{
    match response {
        Ok(granted) => ExchangeDecision::Granted {
            authorization: bearer_authorization(granted.token.as_str()),
            user: granted.user.name,
        },
        Err(error) => {
            if same_text(error.code.as_str(), "authorizationPending") {
                ExchangeDecision::Pending
            } else {
                ExchangeDecision::Failed { code: error.code, message: error.message }
            }
        },
    }
}

/// Why the OIDC flow did not yield an authorization.
pub enum AuthError {
    /// The token endpoint answered with a status outside 200 to 299.
    OidcRejected { status: u16, body: String },
    /// The token endpoint's answer is not a JSON object with a string
    /// member `value`.
    OidcMalformed { status: u16, body: String },
}

impl AuthError {
    /// The sentence that reports the failure.
    pub open spec fn message_text(self) -> Seq<char> {
        match self {
            AuthError::OidcRejected { status, body } => "Failed to get OIDC token: status "@
                + decimal_text(status as nat) + ", response: '"@ + body@ + "'"@,
            AuthError::OidcMalformed { status, body } => "Failed to parse OIDC token: '"@ + body@
                + "' (status "@ + decimal_text(status as nat) + ")"@,
        }
    }

    /// Renders the error for the user.
    pub fn message(&self) -> (text: String)
        ensures
            text@ == self.message_text(),
    {
        match self {
            AuthError::OidcRejected { status, body } => {
                let mut text = String::from_str("Failed to get OIDC token: status ");
                text.append(decimal(*status as u64).as_str());
                text.append(", response: '");
                text.append(body.as_str());
                text.append("'");
                text
            },
            AuthError::OidcMalformed { status, body } => {
                let mut text = String::from_str("Failed to parse OIDC token: '");
                text.append(body.as_str());
                text.append("' (status ");
                text.append(decimal(*status as u64).as_str());
                text.append(")");
                text
            },
        }
    }
}

/// Number of token requests that `count` packages take: one per started
/// chunk of [`OIDC_CHUNK_SIZE`].
pub open spec fn chunk_count(count: nat) -> nat {
    (count + 15) / 16
}

/// The packages that the token request number `chunk` covers.
pub open spec fn chunk_of(packages: Seq<PackageView>, chunk: int) -> Seq<PackageView> {
    packages.subrange(
        16 * chunk,
        if 16 * chunk + 16 <= packages.len() {
            16 * chunk + 16
        } else {
            packages.len() as int
        },
    )
}

/// The audience of a token request: `{"permissions":[…]}`.
pub open spec fn audience_text(permissions: Seq<PermissionView>) -> Seq<char> {
    "{\"permissions\":"@ + permissions_json_text(permissions) + "}"@
}

/// The URL of a token request: the configured endpoint, extended by the
/// percent-encoded audience.
pub open spec fn oidc_url_text(oidc_url: Seq<char>, permissions: Seq<PermissionView>) -> Seq<char> {
    oidc_url + "&audience="@ + percent_encoded(
        vstd::utf8::encode_utf8(audience_text(permissions)),
    )
}

/// Number of token requests that `count` packages take.
pub fn oidc_chunk_count(count: usize) -> (chunks: usize)
    ensures
        chunks == chunk_count(count as nat),
{
    if count % OIDC_CHUNK_SIZE == 0 {
        count / OIDC_CHUNK_SIZE
    } else {
        count / OIDC_CHUNK_SIZE + 1
    }
}

fn oidc_request_url(oidc_url: &str, packages: &Vec<PreparedPublishPackage>, from: usize, to: usize) -> (url:
    String)
    requires
        from <= to <= packages@.len(),
    ensures
        url@ == oidc_url_text(
            oidc_url@,
            permissions_of(package_views(packages@).subrange(from as int, to as int)),
        ),
{
    let mut audience = String::from_str("{\"permissions\":");
    audience.append(permissions_json(packages, from, to).as_str());
    audience.append("}");
    let mut url = String::from_str(oidc_url);
    url.append("&audience=");
    url.append(percent_encode(audience.as_str().as_bytes()).as_str());
    url
}

/// The URLs of the token requests for `packages`, one per chunk of
/// [`OIDC_CHUNK_SIZE`] packages, in order. Each is to be fetched with the
/// configured OIDC token as bearer.
pub fn oidc_request_urls(oidc_url: &str, packages: &Vec<PreparedPublishPackage>) -> (urls: Vec<
    String,
>)
    ensures
        urls@.len() == chunk_count(packages@.len()),
        forall|c: int|
            0 <= c < urls@.len() ==> (#[trigger] urls@[c])@ == oidc_url_text(
                oidc_url@,
                permissions_of(chunk_of(package_views(packages@), c)),
            ),
{
    let count = packages.len();
    let mut urls: Vec<String> = Vec::new();
    let mut from: usize = 0;
    while from < count
        invariant
            count == packages@.len(),
            from <= count,
            from % 16 == 0 || from == count,
            urls@.len() == chunk_count(from as nat),
            forall|c: int|
                0 <= c < urls@.len() ==> (#[trigger] urls@[c])@ == oidc_url_text(
                    oidc_url@,
                    permissions_of(chunk_of(package_views(packages@), c)),
                ),
        decreases count - from,
    {
        let to = if count - from > OIDC_CHUNK_SIZE {
            from + OIDC_CHUNK_SIZE
        } else {
            count
        };
        let ghost c = urls@.len() as int;
        let url = oidc_request_url(oidc_url, packages, from, to);
        proof {
            assert(chunk_of(package_views(packages@), c) == package_views(packages@).subrange(
                from as int,
                to as int,
            ));
        }
        urls.push(url);
        from = to;
    }
    urls
}

/// The token that an answer of the token endpoint carries: the string
/// member `value` of a JSON object.
pub open spec fn oidc_token_value(body: Seq<char>) -> Option<Seq<char>> {
    match json_document(vstd::utf8::encode_utf8(body)) {
        None => None,
        Some(document) => match json_object_members(document) {
            None => None,
            Some(members) => match member_value(members, "value"@) {
                None => None,
                Some(value) => json_string_value(value),
            },
        },
    }
}

fn oidc_token_from(body: &str) -> (token: Option<String>)
    ensures
        match token {
            Some(value) => oidc_token_value(body@) == Some(value@),
            None => oidc_token_value(body@) is None,
        },
{
    match parse_document(body.as_bytes()) {
        Err(_) => None,
        Ok(document) => match object_members(&document) {
            None => None,
            Some(members) => match find_member(&members, "value") {
                None => None,
                Some(value) => string_value(value),
            },
        },
    }
}

/// A status from 200 to 299.
pub open spec fn is_success_status(status: u16) -> bool {
    200 <= status < 300
}

/// Decides what follows an answer of the token endpoint: a status outside
/// 200 to 299 fails with the body quoted; a body without a token fails as
/// unreadable; otherwise the chunk's authorization is `githuboidc {value}`.
pub fn on_oidc_response(status: u16, body: &str) -> (result: Result<String, AuthError>)
    ensures
        match result {
            Ok(authorization) => {
                &&& is_success_status(status)
                &&& oidc_token_value(body@) is Some
                &&& authorization@ == oidc_text(oidc_token_value(body@)->0)
            },
            Err(AuthError::OidcRejected { status: reported, body: quoted }) => {
                &&& !is_success_status(status)
                &&& reported == status
                &&& quoted@ == body@
            },
            Err(AuthError::OidcMalformed { status: reported, body: quoted }) => {
                &&& is_success_status(status)
                &&& oidc_token_value(body@) is None
                &&& reported == status
                &&& quoted@ == body@
            },
        },
{
    if status < 200 || status >= 300 {
        return Err(AuthError::OidcRejected { status, body: String::from_str(body) });
    }
    match oidc_token_from(body) {
        None => Err(AuthError::OidcMalformed { status, body: String::from_str(body) }),
        Some(value) => {
            let mut authorization = String::from_str("githuboidc ");
            authorization.append(value.as_str());
            Ok(authorization)
        },
    }
}

/// The authorization of each package when chunk `c` was given
/// `chunk_authorizations[c]`: package `i` gets that of chunk `i / 16`.
pub open spec fn chunked(count: nat, chunk_authorizations: Seq<Seq<char>>) -> Seq<Seq<char>> {
    Seq::new(count, |i: int| chunk_authorizations[i / 16])
}

/// Where no two packages share a key, the table that the OIDC flow files
/// gives package `i` the authorization of chunk `i / 16`: the first chunk's
/// serves packages 0 to 15, the second's packages 16 to 31, and so on.
pub proof fn lemma_chunk_authorization(
    keys: Seq<PackageKey>,
    chunk_authorizations: Seq<Seq<char>>,
    i: int,
)
    requires
        0 <= i < keys.len(),
        forall|a: int, b: int| 0 <= a < b < keys.len() ==> keys[a] != keys[b],
    ensures
        granted(keys, chunked(keys.len(), chunk_authorizations)).contains_key(keys[i]),
        granted(keys, chunked(keys.len(), chunk_authorizations))[keys[i]]
            == chunk_authorizations[i / 16],
{
    lemma_granted_each(keys, chunked(keys.len(), chunk_authorizations), i);
}

/// Files, for every package, the authorization that its chunk was given.
///
/// Succeeds exactly when there is one authorization per chunk.
pub fn authorize_with_oidc(
    packages: &Vec<PreparedPublishPackage>,
    chunk_authorizations: &Vec<String>,
) -> (table: Option<Authorizations>)
    ensures
        table is Some <==> chunk_authorizations@.len() == chunk_count(packages@.len()),
        table matches Some(filed) ==> filed@ == granted(
            package_keys(package_views(packages@)),
            chunked(packages@.len(), texts(chunk_authorizations@)),
        ),
{
    if chunk_authorizations.len() != oidc_chunk_count(packages.len()) {
        return None;
    }
    let ghost keys = package_keys(package_views(packages@));
    let ghost values = chunked(packages@.len(), texts(chunk_authorizations@));
    let mut table = Authorizations::new();
    let mut i: usize = 0;
    while i < packages.len()
        invariant
            i <= packages@.len(),
            chunk_authorizations@.len() == chunk_count(packages@.len()),
            keys == package_keys(package_views(packages@)),
            values == chunked(packages@.len(), texts(chunk_authorizations@)),
            table@ == granted(keys.take(i as int), values.take(i as int)),
        decreases packages@.len() - i,
    {
        let package = &packages[i];
        let authorization = chunk_authorizations[i / OIDC_CHUNK_SIZE].clone();
        table.insert(
            package.scope.as_str(),
            package.package.as_str(),
            package.version.as_str(),
            authorization,
        );
        proof {
            assert(keys.take(i + 1).drop_last() =~= keys.take(i as int));
            assert(values.take(i + 1).drop_last() =~= values.take(i as int));
            assert(keys.take(i + 1).last() == packages@[i as int]@.key());
            assert(values.take(i + 1).last() == chunk_authorizations@[i as int / 16]@);
        }
        i += 1;
    }
    assert(keys.take(packages@.len() as int) =~= keys);
    assert(values.take(packages@.len() as int) =~= values);
    Some(table)
}

} // verus!
