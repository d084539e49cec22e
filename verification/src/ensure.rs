//! Making sure that the scope and the package of every upload exist.
//!
//! The client never creates a scope or a package by itself. It asks the
//! registry whether they exist and, where one is missing, sends the user to
//! the management site: in an interactive session one package at a time,
//! waiting until it has appeared; otherwise with one error that lists every
//! link.

use crate::text::{join, joined, texts};
use vstd::prelude::*;
use vstd::string::*;

verus! {

/// Seconds to wait between two looks at a package that is being created.
pub const CREATION_POLL_SECONDS: u64 = 3;

/// `{api}scopes/{scope}`, for an API base that ends in a slash.
pub open spec fn scope_api_url_text(api_url: Seq<char>, scope: Seq<char>) -> Seq<char> {
    api_url + "scopes/"@ + scope
}

/// `{api}scopes/{scope}/packages/{package}`.
pub open spec fn package_api_url_text(api_url: Seq<char>, scope: Seq<char>, package: Seq<char>) -> Seq<
    char,
> {
    api_url + "scopes/"@ + scope + "/packages/"@ + package
}

/// `{manage}new?scope={scope}&package={package}&from=cli`, for a base that
/// ends in a slash.
pub open spec fn create_url_text(manage_url: Seq<char>, scope: Seq<char>, package: Seq<char>) -> Seq<
    char,
> {
    manage_url + "new?scope="@ + scope + "&package="@ + package + "&from=cli"@
}

/// The URL that tells whether `scope` exists.
pub fn scope_api_url(api_url: &str, scope: &str) -> (url: String)
    ensures
        url@ == scope_api_url_text(api_url@, scope@),
{
    let mut url = String::from_str(api_url);
    url.append("scopes/");
    url.append(scope);
    url
}

/// The URL that tells whether `package` exists in `scope`.
pub fn package_api_url(api_url: &str, scope: &str, package: &str) -> (url: String)
    ensures
        url@ == package_api_url_text(api_url@, scope@, package@),
{
    let mut url = String::from_str(api_url);
    url.append("scopes/");
    url.append(scope);
    url.append("/packages/");
    url.append(package);
    url
}

/// Decides from the two status codes whether something has to be created:
/// a 404 for the scope or for the package means that it is missing, and the
/// result is then the link where the user creates it.
pub fn missing_entity_url(
    manage_url: &str,
    scope: &str,
    package: &str,
    scope_status: u16,
    package_status: u16,
) -> (create_url: Option<String>)
    ensures
        create_url is Some <==> scope_status == 404 || package_status == 404,
        create_url matches Some(url) ==> url@ == create_url_text(manage_url@, scope@, package@),
{
    if scope_status == 404 || package_status == 404 {
        let mut url = String::from_str(manage_url);
        url.append("new?scope=");
        url.append(scope);
        url.append("&package=");
        url.append(package);
        url.append("&from=cli");
        Some(url)
    } else {
        None
    }
}

/// The list of links as the error shows it: one line per link, each
/// starting with ` - `.
pub open spec fn link_lines(create_urls: Seq<Seq<char>>) -> Seq<Seq<char>> {
    Seq::new(create_urls.len(), |i: int| " - "@ + create_urls[i])
}

/// What a session without a terminal does about missing packages: nothing
/// if there are none, otherwise it fails with the list of links.
pub fn missing_packages_error(create_urls: &Vec<String>) -> (error: Option<String>)
    ensures
        error is Some <==> create_urls@.len() > 0,
        error matches Some(message) ==> message@
            == "Following packages don't exist, follow the links and create them:\n"@ + joined(
            link_lines(texts(create_urls@)),
            "\n"@,
        ),
{
    if create_urls.len() == 0 {
        return None;
    }
    let mut lines: Vec<String> = Vec::new();
    let mut i: usize = 0;
    while i < create_urls.len()
        invariant
            i <= create_urls@.len(),
            lines@.len() == i,
            forall|k: int| 0 <= k < i ==> (#[trigger] lines@[k])@ == " - "@ + create_urls@[k]@,
        decreases create_urls@.len() - i,
    {
        let mut line = String::from_str(" - ");
        line.append(create_urls[i].as_str());
        lines.push(line);
        i += 1;
    }
    let mut message = String::from_str(
        "Following packages don't exist, follow the links and create them:\n",
    );
    message.append(join(&lines, "\n").as_str());
    proof {
        assert(texts(lines@) =~= link_lines(texts(create_urls@)));
    }
    Some(message)
}

/// The line that sends the user of an interactive session to the link.
pub fn creation_prompt(scope: &str, package: &str, create_url: &str) -> (prompt: String)
    ensures
        prompt@ == "'@"@ + scope@ + "/"@ + package@ + "' doesn't exist yet. Visit "@ + create_url@
            + " to create the package"@,
{
    let mut prompt = String::from_str("'@");
    prompt.append(scope);
    prompt.append("/");
    prompt.append(package);
    prompt.append("' doesn't exist yet. Visit ");
    prompt.append(create_url);
    prompt.append(" to create the package");
    prompt
}

/// Whether a look at the package shows that it exists now: only the status
/// 200 ends the wait.
pub fn is_created(package_status: u16) -> (created: bool)
    ensures
        created == (package_status == 200),
{
    package_status == 200
}

} // verus!
