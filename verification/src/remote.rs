//! Talking to the GitHub API: where to ask, and what an answer means.
//!
//! Nothing is sent from here. The library builds the addresses and reads the
//! answers; the requests are made by whoever holds the connection. The body
//! of an answer is JSON and is read by the `serde_json` crate; what it finds
//! there has a name, `json_text_field`.

use serde_json::Value;
use vstd::prelude::*;
use vstd::string::StringExecFns;

verus! {

/// The start of every address of the API.
pub const GITHUB_API: &'static str = "https://api.github.com";

/// The media type asked for.
pub const ACCEPT_HEADER: &'static str = "application/vnd.github+json";

/// The branch taken where the repository names none.
pub const DEFAULT_BRANCH: &'static str = "main";

/// The field of a repository that names its default branch.
pub const DEFAULT_BRANCH_FIELD: &'static str = "default_branch";

/// `serde_json::Error`, the failure to read a JSON text.
#[verifier::external_type_specification]
#[verifier::external_body]
pub struct ExJsonError(serde_json::Error);

/// What `serde_json` finds at the key `field` of the JSON text `body`:
/// nothing at all where `body` is no JSON text; otherwise the string at that
/// key, or none where the text is no object, has no such key, or holds
/// something else than a string there.
pub uninterp spec fn json_text_field(body: Seq<char>, field: Seq<char>) -> Option<
    Option<Seq<char>>,
>;

/// `serde_json::from_str` for a `Value`, then `Value::get` and
/// `Value::as_str`: reads `body` as JSON and hands out the string at the key
/// `field`.
#[verifier::external_body]
fn text_field(body: &str, field: &str) -> (r: Result<Option<String>, serde_json::Error>)
    ensures
        match r {
            Ok(found) => json_text_field(body@, field@) == Some(found.deep_view()),
            Err(_) => json_text_field(body@, field@) is None,
        },
{
    let value: Value = serde_json::from_str(body)?;
    Ok(value.get(field).and_then(|found| found.as_str()).map(|text| text.to_owned()))
}

/// The address that describes the repository `repo` of `owner`.
pub fn repo_url(owner: &str, repo: &str) -> (url: String)
    ensures
        url@ == GITHUB_API@ + "/repos/"@ + owner@ + "/"@ + repo@,
{
    let mut url = String::from_str(GITHUB_API);
    url.append("/repos/");
    url.append(owner);
    url.append("/");
    url.append(repo);
    url
}

/// The address of the archive of the repository `repo` of `owner` at
/// `reference`.
pub fn zipball_url(owner: &str, repo: &str, reference: &str) -> (url: String)
    ensures
        url@ == GITHUB_API@ + "/repos/"@ + owner@ + "/"@ + repo@ + "/zipball/"@ + reference@,
{
    let mut url = repo_url(owner, repo);
    url.append("/zipball/");
    url.append(reference);
    url
}

/// The value of the `Authorization` header for an access token.
pub fn authorization(token: &str) -> (value: String)
    ensures
        value@ == "token "@ + token@,
{
    let mut value = String::from_str("token ");
    value.append(token);
    value
}

/// Why the default branch of a repository is not known.
#[derive(Debug, Clone, Copy, PartialEq, Eq, Structural)]
pub enum LookupError {
    /// There is no such repository, or it may not be seen.
    NotFound,
    /// The API answered with the unexpected status `status`.
    Failed { status: u16 },
    /// The API answered with a body that is no JSON text.
    BadBody,
}

/// The branch that the description of a repository names: the string in
/// its field for the default branch, and `main` where there is none.
pub open spec fn branch_named(found: Option<Seq<char>>) -> Seq<char> {
    match found {
        Some(branch) => branch,
        None => DEFAULT_BRANCH@,
    }
}

/// What an answer to the question for a repository means. Status 200 with
/// a JSON body gives the branch it names, status 200 with another body is a
/// bad body, status 404 says that the repository was not found, and every
/// other status is a failure.
pub open spec fn spec_default_branch(status: u16, body: Seq<char>) -> Result<Seq<char>, LookupError> {
    if status == 200 {
        match json_text_field(body, DEFAULT_BRANCH_FIELD@) {
            Some(found) => Ok(branch_named(found)),
            None => Err(LookupError::BadBody),
        }
    } else if status == 404 {
        Err(LookupError::NotFound)
    } else {
        Err(LookupError::Failed { status })
    }
}

/// The branch that the description of a repository names, `main` where it
/// names none.
pub fn branch_from_field(found: Option<String>) -> (branch: String)
    ensures
        branch@ == branch_named(found.deep_view()),
{
    match found {
        Some(branch) => branch,
        None => String::from_str(DEFAULT_BRANCH),
    }
}

/// Reads the default branch of a repository from the answer of the API.
pub fn default_branch(status: u16, body: &str) -> (r: Result<String, LookupError>)
    ensures
        match r {
            Ok(branch) => spec_default_branch(status, body@) == Ok::<Seq<char>, LookupError>(
                branch@,
            ),
            Err(e) => spec_default_branch(status, body@) == Err::<Seq<char>, LookupError>(e),
        },
{
    if status == 200 {
        match text_field(body, DEFAULT_BRANCH_FIELD) {
            Ok(found) => Ok(branch_from_field(found)),
            Err(_) => Err(LookupError::BadBody),
        }
    } else if status == 404 {
        Err(LookupError::NotFound)
    } else {
        Err(LookupError::Failed { status })
    }
}

/// The branch or tag to download: the one asked for, else the default
/// branch of the repository, else `main`.
pub fn choose_reference(asked: Option<String>, looked_up: Option<String>) -> (reference: String)
    ensures
        reference@ == match asked {
            Some(branch) => branch@,
            None => branch_named(looked_up.deep_view()),
        },
{
    match asked {
        Some(branch) => branch,
        None => branch_from_field(looked_up),
    }
}

/// What the status of an answer to a download means.
#[derive(Debug, Clone, Copy, PartialEq, Eq, Structural)]
pub enum DownloadStatus {
    /// The body is the archive.
    Success,
    /// There is no such archive.
    NotFound,
    /// The archive lies elsewhere and was not followed to.
    Redirected,
    /// Anything else.
    Failed,
}

/// What a status means for a download: 200 to 299 is a success, 404 says
/// that the archive was not found, 300 to 399 is a redirection, and every
/// other status is a failure.
pub open spec fn spec_download_status(status: u16) -> DownloadStatus {
    if 200 <= status < 300 {
        DownloadStatus::Success
    } else if status == 404 {
        DownloadStatus::NotFound
    } else if 300 <= status < 400 {
        DownloadStatus::Redirected
    } else {
        DownloadStatus::Failed
    }
}

/// Classifies the status of an answer to a download.
#[verifier::when_used_as_spec(spec_download_status)]
pub fn download_status(status: u16) -> (class: DownloadStatus)
    ensures
        class == spec_download_status(status),
{
    if 200 <= status && status < 300 {
        DownloadStatus::Success
    } else if status == 404 {
        DownloadStatus::NotFound
    } else if 300 <= status && status < 400 {
        DownloadStatus::Redirected
    } else {
        DownloadStatus::Failed
    }
}

} // verus!
