//! Uploading one package: the request that submits the archive, and the
//! decisions that follow each answer of the registry.
//!
//! The registry turns an accepted upload into a publishing task and works on
//! it in the background. The caller sends the request, hands every answer
//! to the functions below, and does what they say until the task has
//! reached a terminal status.

use crate::json::{
    find_member, find_string, is_null, json_document, json_is_null, json_object_members,
    member_value, members_view, object_members, parse_document, string_member,
};
use crate::package::{PackageView, PreparedPublishPackage};
use crate::text::same_text;
use vstd::prelude::*;
use vstd::string::*;

verus! {

/// Seconds to wait between two looks at a publishing task.
pub const STATUS_POLL_SECONDS: u64 = 2;

/// The error that a failed publishing task reports.
pub struct PublishingTaskError {
    pub code: String,
    pub message: String,
}

/// A publishing task as the registry reports it.
pub struct PublishingTask {
    pub id: String,
    pub status: String,
    pub error: Option<PublishingTaskError>,
}

/// The registry's error envelope: a JSON object with the members `code`
/// and `message` and, optionally, an object `data`.
pub struct ApiError {
    pub code: String,
    pub message: String,
    /// The envelope as the registry sent it, as JSON text. It is kept for
    /// what its member `data` carries.
    pub body: String,
}

/// What a [`PublishingTask`] denotes. A task error is its code and its
/// message.
pub struct TaskView {
    pub id: Seq<char>,
    pub status: Seq<char>,
    pub error: Option<(Seq<char>, Seq<char>)>,
}

impl View for PublishingTask {
    type V = TaskView;

    open spec fn view(&self) -> TaskView {
        TaskView {
            id: self.id@,
            status: self.status@,
            error: match self.error {
                Some(error) => Some((error.code@, error.message@)),
                None => None,
            },
        }
    }
}

/// The request that submits an archive.
pub struct UploadRequest {
    pub url: String,
    /// Value of the `Authorization` header.
    pub authorization: String,
    /// Value of the `Content-Encoding` header.
    pub content_encoding: String,
    pub body: Vec<u8>,
}

/// Why an upload did not end in a published version.
pub enum UploadError {
    /// The registry refused the upload.
    Rejected { code: String, message: String },
    /// The registry reported a duplicate upload without a readable task.
    MissingTask,
    /// The registry refused to report on the task.
    StatusUnavailable { code: String, message: String },
    /// The publishing task ended with an error.
    TaskFailed { message: String },
}

/// What to do after the registry has answered the upload request.
pub enum UploadDecision {
    /// Follow `task` to its end. `adopted` tells that the task stems from an
    /// earlier upload of the same version.
    Track { task: PublishingTask, adopted: bool },
    /// The version is already published; nothing is left to do.
    AlreadyPublished,
    Failed(UploadError),
}

/// What to do with a publishing task in its present state.
pub enum TaskAction {
    /// Wait [`STATUS_POLL_SECONDS`], then ask for the task again at `url`.
    Poll { url: String },
    /// The version is published.
    Published,
    Failed(UploadError),
}

/// `{api}scopes/{scope}/packages/{package}/versions/{version}`, for an API
/// base that ends in a slash.
pub open spec fn version_url_text(api_url: Seq<char>, package: PackageView) -> Seq<char> {
    api_url + "scopes/"@ + package.scope + "/packages/"@ + package.package + "/versions/"@
        + package.version
}

/// The URL that takes the archive of `package`.
pub open spec fn upload_url_text(api_url: Seq<char>, package: PackageView) -> Seq<char> {
    version_url_text(api_url, package) + "?config=/"@ + package.config
}

/// The URL that reports on the task `task_id`.
pub open spec fn status_url_text(api_url: Seq<char>, task_id: Seq<char>) -> Seq<char> {
    api_url + "publish_status/"@ + task_id
}

/// `@scope/package at version`, as failures name a package.
pub open spec fn package_at_text(package: PackageView) -> Seq<char> {
    "@"@ + package.scope + "/"@ + package.package + " at "@ + package.version
}

/// A status after which a task changes no more.
pub open spec fn is_terminal_status(status: Seq<char>) -> bool {
    status == "success"@ || status == "failure"@
}

impl UploadError {
    /// The sentence that reports the failure of the upload of `package`.
    pub open spec fn message_text(self, package: PackageView) -> Seq<char> {
        match self {
            UploadError::Rejected { code, message } => "Failed to publish "@ + package_at_text(
                package,
            ) + ": "@ + message@ + " ("@ + code@ + ")"@,
            UploadError::MissingTask => "Failed to publish "@ + package_at_text(package)
                + ": the registry named no publishing task"@,
            UploadError::StatusUnavailable { code, message } => {
                "Failed to get publishing status for "@ + package_at_text(package) + ": "@
                    + message@ + " ("@ + code@ + ")"@
            },
            UploadError::TaskFailed { message } => "Failed to publish "@ + package_at_text(package)
                + ": "@ + message@,
        }
    }

    /// Renders the error for the user.
    pub fn message(&self, package: &PreparedPublishPackage) -> (text: String)
        ensures
            text@ == self.message_text(package@),
    {
        let mut text = match self {
            UploadError::StatusUnavailable { .. } => String::from_str(
                "Failed to get publishing status for ",
            ),
            _ => String::from_str("Failed to publish "),
        };
        text.append("@");
        text.append(package.scope.as_str());
        text.append("/");
        text.append(package.package.as_str());
        text.append(" at ");
        text.append(package.version.as_str());
        match self {
            UploadError::Rejected { code, message } => {
                text.append(": ");
                text.append(message.as_str());
                text.append(" (");
                text.append(code.as_str());
                text.append(")");
            },
            UploadError::MissingTask => {
                text.append(": the registry named no publishing task");
            },
            UploadError::StatusUnavailable { code, message } => {
                text.append(": ");
                text.append(message.as_str());
                text.append(" (");
                text.append(code.as_str());
                text.append(")");
            },
            UploadError::TaskFailed { message } => {
                text.append(": ");
                text.append(message.as_str());
            },
        }
        proof {
            let at = package_at_text(package@);
            match self {
                UploadError::Rejected { code, message } => {
                    assert(text@ =~= "Failed to publish "@ + at + ": "@ + message@ + " ("@ + code@
                        + ")"@);
                },
                UploadError::MissingTask => {
                    assert(text@ =~= "Failed to publish "@ + at
                        + ": the registry named no publishing task"@);
                },
                UploadError::StatusUnavailable { code, message } => {
                    assert(text@ =~= "Failed to get publishing status for "@ + at + ": "@
                        + message@ + " ("@ + code@ + ")"@);
                },
                UploadError::TaskFailed { message } => {
                    assert(text@ =~= "Failed to publish "@ + at + ": "@ + message@);
                },
            }
        }
        text
    }
}

fn copy_bytes(bytes: &Vec<u8>) -> (copy: Vec<u8>)
    ensures
        copy@ == bytes@,
{
    let mut copy: Vec<u8> = Vec::new();
    let mut i: usize = 0;
    while i < bytes.len()
        invariant
            i <= bytes@.len(),
            copy@ == bytes@.take(i as int),
        decreases bytes@.len() - i,
    {
        copy.push(bytes[i]);
        assert(bytes@.take(i + 1) =~= bytes@.take(i as int).push(bytes@[i as int]));
        i += 1;
    }
    assert(bytes@.take(bytes@.len() as int) =~= bytes@);
    copy
}

/// The request that submits the archive of `package`: a POST to the upload
/// URL that carries the credential, declares the body gzipped, and sends the
/// archive bytes verbatim.
pub fn upload_request(api_url: &str, package: &PreparedPublishPackage, authorization: &str) -> (request:
    UploadRequest)
    ensures
        request.url@ == upload_url_text(api_url@, package@),
        request.authorization@ == authorization@,
        request.content_encoding@ == "gzip"@,
        request.body@ == package@.tarball.bytes,
{
    let mut url = String::from_str(api_url);
    url.append("scopes/");
    url.append(package.scope.as_str());
    url.append("/packages/");
    url.append(package.package.as_str());
    url.append("/versions/");
    url.append(package.version.as_str());
    url.append("?config=/");
    url.append(package.config.as_str());
    UploadRequest {
        url,
        authorization: String::from_str(authorization),
        content_encoding: String::from_str("gzip"),
        body: copy_bytes(&package.tarball.bytes),
    }
}

/// The error that the members of a JSON task carry: none where the member
/// `error` is absent or `null`, else an object with the strings `code` and
/// `message`. The outer `None` stands for a member of any other shape.
pub open spec fn task_error_of(members: Seq<(Seq<char>, serde_json::Value)>) -> Option<
    Option<(Seq<char>, Seq<char>)>,
> {
    match member_value(members, "error"@) {
        None => Some(None),
        Some(value) => if json_is_null(value) {
            Some(None)
        } else {
            match json_object_members(value) {
                None => None,
                Some(fields) => match (
                    string_member(fields, "code"@),
                    string_member(fields, "message"@),
                ) {
                    (Some(code), Some(message)) => Some(Some((code, message))),
                    _ => None,
                },
            }
        },
    }
}

/// The task that a JSON value denotes: an object with the strings `id` and
/// `status` and, optionally, an error.
pub open spec fn task_of_value(value: serde_json::Value) -> Option<TaskView> {
    match json_object_members(value) {
        None => None,
        Some(members) => match (
            string_member(members, "id"@),
            string_member(members, "status"@),
            task_error_of(members),
        ) {
            (Some(id), Some(status), Some(error)) => Some(TaskView { id, status, error }),
            _ => None,
        },
    }
}

/// The task that the members of an envelope's `data` carry: the member
/// `task`, read as a task.
pub open spec fn task_of_data(data: serde_json::Value) -> Option<TaskView> {
    match json_object_members(data) {
        None => None,
        Some(members) => match member_value(members, "task"@) {
            None => None,
            Some(task) => task_of_value(task),
        },
    }
}

/// The task embedded in an error envelope: the member `task` of the member
/// `data` of the JSON object that `body` spells.
pub open spec fn embedded_task(body: Seq<char>) -> Option<TaskView> {
    match json_document(vstd::utf8::encode_utf8(body)) {
        None => None,
        Some(envelope) => match json_object_members(envelope) {
            None => None,
            Some(members) => match member_value(members, "data"@) {
                None => None,
                Some(data) => task_of_data(data),
            },
        },
    }
}

fn task_error_from(members: &Vec<(String, serde_json::Value)>) -> (error: Option<
    Option<PublishingTaskError>,
>)
    ensures
        match error {
            Some(Some(e)) => task_error_of(members_view(members@)) == Some(
                Some((e.code@, e.message@)),
            ),
            Some(None) => task_error_of(members_view(members@)) == Some(
                None::<(Seq<char>, Seq<char>)>,
            ),
            None => task_error_of(members_view(members@)) is None,
        },
{
    match find_member(members, "error") {
        None => Some(None),
        Some(value) => {
            if is_null(value) {
                return Some(None);
            }
            match object_members(value) {
                None => None,
                Some(fields) => {
                    let code = match find_string(&fields, "code") {
                        None => {
                            return None;
                        },
                        Some(code) => code,
                    };
                    match find_string(&fields, "message") {
                        None => None,
                        Some(message) => Some(Some(PublishingTaskError { code, message })),
                    }
                },
            }
        },
    }
}

fn task_from_value(value: &serde_json::Value) -> (task: Option<PublishingTask>)
    ensures
        match task {
            Some(t) => task_of_value(*value) == Some(t@),
            None => task_of_value(*value) is None,
        },
{
    let members = match object_members(value) {
        None => {
            return None;
        },
        Some(members) => members,
    };
    let id = match find_string(&members, "id") {
        None => {
            return None;
        },
        Some(id) => id,
    };
    let status = match find_string(&members, "status") {
        None => {
            return None;
        },
        Some(status) => status,
    };
    match task_error_from(&members) {
        None => None,
        Some(error) => Some(PublishingTask { id, status, error }),
    }
}

fn task_from_data(data: &serde_json::Value) -> (task: Option<PublishingTask>)
    ensures
        match task {
            Some(t) => task_of_data(*data) == Some(t@),
            None => task_of_data(*data) is None,
        },
{
    match object_members(data) {
        None => None,
        Some(members) => match find_member(&members, "task") {
            None => None,
            Some(task) => task_from_value(task),
        },
    }
}

/// Reads the publishing task that an error envelope carries under
/// `data.task`.
pub fn decode_embedded_task(body: &str) -> (task: Option<PublishingTask>)
    ensures
        match task {
            Some(t) => embedded_task(body@) == Some(t@),
            None => embedded_task(body@) is None,
        },
{
    match parse_document(body.as_bytes()) {
        Err(_) => None,
        Ok(envelope) => match object_members(&envelope) {
            None => None,
            Some(members) => match find_member(&members, "data") {
                None => None,
                Some(data) => task_from_data(data),
            },
        },
    }
}

/// Decides what follows the registry's answer to the upload request.
///
/// An accepted upload yields a task to track. The error code
/// `duplicateVersionPublish` is no failure: the task embedded in the
/// envelope under `data.task` is tracked in place of a new one, unless
/// that task has already succeeded, in which case the version counts as
/// published. Every other error ends the upload.
pub fn on_upload_response(response: Result<PublishingTask, ApiError>) -> (decision: UploadDecision)
    ensures
        match response {
            Ok(task) => decision == (UploadDecision::Track { task, adopted: false }),
            Err(error) => if error.code@ == "duplicateVersionPublish"@ {
                match embedded_task(error.body@) {
                    Some(task) => if task.status == "success"@ {
                        decision is AlreadyPublished
                    } else {
                        decision matches UploadDecision::Track { task: adopted_task, adopted }
                            && adopted_task@ == task && adopted
                    },
                    None => decision == UploadDecision::Failed(UploadError::MissingTask),
                }
            } else {
                decision == UploadDecision::Failed(
                    UploadError::Rejected { code: error.code, message: error.message },
                )
            },
        },
{
    match response {
        Ok(task) => UploadDecision::Track { task, adopted: false },
        Err(error) => {
            if same_text(error.code.as_str(), "duplicateVersionPublish") {
                match decode_embedded_task(error.body.as_str()) {
                    Some(task) => {
                        if same_text(task.status.as_str(), "success") {
                            UploadDecision::AlreadyPublished
                        } else {
                            UploadDecision::Track { task, adopted: true }
                        }
                    },
                    None => UploadDecision::Failed(UploadError::MissingTask),
                }
            } else {
                UploadDecision::Failed(
                    UploadError::Rejected { code: error.code, message: error.message },
                )
            }
        },
    }
}

/// Decides what to do with a task: a task that is neither `success` nor
/// `failure` is asked for again; a terminal task that carries an error has
/// failed with that error's message; any other terminal task is published.
pub fn task_action(api_url: &str, task: &PublishingTask) -> (action: TaskAction)
    ensures
        !is_terminal_status(task.status@) ==> (action matches TaskAction::Poll { url } && url@
            == status_url_text(api_url@, task.id@)),
        is_terminal_status(task.status@) && task.error is Some ==> (action matches TaskAction::Failed(
            UploadError::TaskFailed { message },
        ) && message@ == task.error->0.message@),
        is_terminal_status(task.status@) && task.error is None ==> action is Published,
{
    if !same_text(task.status.as_str(), "success") && !same_text(task.status.as_str(), "failure") {
        let mut url = String::from_str(api_url);
        url.append("publish_status/");
        url.append(task.id.as_str());
        return TaskAction::Poll { url };
    }
    match &task.error {
        Some(error) => TaskAction::Failed(UploadError::TaskFailed { message: error.message.clone() }),
        None => TaskAction::Published,
    }
}

/// Decides what follows the registry's answer to a status request: a
/// reported task is tracked on, an error ends the upload.
pub fn on_status_response(response: Result<PublishingTask, ApiError>) -> (decision: Result<
    PublishingTask,
    UploadError,
>)
    ensures
        match response {
            Ok(task) => decision == Ok::<PublishingTask, UploadError>(task),
            Err(error) => decision == Err::<PublishingTask, UploadError>(
                UploadError::StatusUnavailable { code: error.code, message: error.message },
            ),
        },
{
    match response {
        Ok(task) => Ok(task),
        Err(error) => Err(
            UploadError::StatusUnavailable { code: error.code, message: error.message },
        ),
    }
}

/// `@scope/package@version`, as notices name a package.
pub open spec fn package_version_text(package: PackageView) -> Seq<char> {
    "@"@ + package.scope + "/"@ + package.package + "@"@ + package.version
}

fn append_package_version(text: &mut String, package: &PreparedPublishPackage)
    ensures
        final(text)@ == old(text)@ + package_version_text(package@),
{
    text.append("@");
    text.append(package.scope.as_str());
    text.append("/");
    text.append(package.package.as_str());
    text.append("@");
    text.append(package.version.as_str());
    assert(text@ =~= old(text)@ + package_version_text(package@));
}

/// The line that announces the upload of `package`.
pub fn publishing_notice(package: &PreparedPublishPackage) -> (notice: String)
    ensures
        notice@ == "Publishing "@ + package_version_text(package@) + " ..."@,
{
    let mut notice = String::from_str("Publishing ");
    append_package_version(&mut notice, package);
    notice.append(" ...");
    notice
}

/// The line that tells that `package` was published before and is skipped.
/// It goes with [`UploadDecision::AlreadyPublished`].
pub fn already_published_notice(package: &PreparedPublishPackage) -> (notice: String)
    ensures
        notice@ == "Warning: Skipping, already published "@ + package_version_text(package@),
{
    let mut notice = String::from_str("Warning: Skipping, already published ");
    append_package_version(&mut notice, package);
    notice
}

/// The line that tells that an earlier upload of `package` is followed to
/// its end. It goes with an adopted task.
pub fn adopted_upload_notice(package: &PreparedPublishPackage) -> (notice: String)
    ensures
        notice@ == "Already uploaded, waiting for publishing "@ + package_version_text(package@),
{
    let mut notice = String::from_str("Already uploaded, waiting for publishing ");
    append_package_version(&mut notice, package);
    notice
}

/// The line that tells that `package` is published. It goes with
/// [`TaskAction::Published`].
pub fn published_notice(package: &PreparedPublishPackage) -> (notice: String)
    ensures
        notice@ == "Successfully published "@ + package_version_text(package@),
{
    let mut notice = String::from_str("Successfully published ");
    append_package_version(&mut notice, package);
    notice
}

/// The line that points to the page of the published version, for a
/// registry base that ends in a slash.
pub fn details_notice(registry_url: &str, package: &PreparedPublishPackage) -> (notice: String)
    ensures
        notice@ == "Visit "@ + registry_url@ + package_version_text(package@) + " for details"@,
{
    let mut notice = String::from_str("Visit ");
    notice.append(registry_url);
    append_package_version(&mut notice, package);
    notice.append(" for details");
    notice
}

} // verus!
