//! Requests of local clients: how they are admitted, answered and announced.
use crate::errors::{display_error, error_chars, DispatchError};
use crate::replay::{
    law_accepted_request_is_refused_again, remembered, request_is_fresh, was_seen, ReplayGuard,
};
use crate::text::opt_text;
use crate::views::{DesktopOperation, OpenWorkspaceInput, RepositoryBaseInput, WorkspaceView};
use crate::workspace::{protocol_summary, WorkspaceSummary};
use vstd::prelude::*;
use vstd::string::*;

verus! {

/// A base for the repository with a path.
#[derive(Debug)]
pub struct BaseOverride {
    pub relative_path: String,
    pub base: String,
}

/// What a client asks for.
#[derive(Debug)]
pub enum LocalCommand {
    OpenWorkspace { path: String, base: Option<String>, repository_bases: Vec<BaseOverride> },
    FocusWorkspace { selector: String },
    OpenPullRequest { url: String },
    OpenSshWorkspace { target: String },
    ListWorkspaces,
    Doctor,
}

/// Why a client is refused.
#[derive(Clone, Copy, Debug, PartialEq, Eq, Structural)]
pub enum RpcErrorCode {
    InvalidRequest,
    AuthenticationFailed,
    UnsupportedVersion,
    NotFound,
    Internal,
}

/// What is said of the desktop.
#[derive(Debug)]
pub struct DoctorReport {
    pub desktop_reachable: bool,
    pub protocol_version: u16,
    pub message: String,
}

/// What a client is answered.
#[derive(Debug)]
pub enum LocalResponse {
    Opened { request_id: String, workspace: WorkspaceSummary, created: bool },
    Focused { request_id: String, workspace: WorkspaceSummary },
    Workspaces { request_id: String, workspaces: Vec<WorkspaceSummary> },
    Doctor { request_id: String, report: DoctorReport },
    Error { request_id: Option<String>, code: RpcErrorCode, message: String },
}

/// Whether an answer is this error.
pub open spec fn is_error(
    response: LocalResponse,
    request_id: Option<Seq<char>>,
    code: RpcErrorCode,
    message: Seq<char>,
) -> bool {
    response matches LocalResponse::Error { request_id: id, code: reason, message: text } && {
        &&& opt_text(id) == request_id
        &&& reason == code
        &&& text@ == message
    }
}

/// What a shape error of a request is.
#[derive(Clone, Copy, Debug, PartialEq, Eq, Structural)]
pub enum ProtocolErrorKind {
    UnsupportedVersion,
    AuthenticationFailed,
    Other,
}

/// The code under which a shape error is answered.
pub open spec fn protocol_code(kind: ProtocolErrorKind) -> RpcErrorCode {
    match kind {
        ProtocolErrorKind::UnsupportedVersion => RpcErrorCode::UnsupportedVersion,
        ProtocolErrorKind::AuthenticationFailed => RpcErrorCode::AuthenticationFailed,
        ProtocolErrorKind::Other => RpcErrorCode::InvalidRequest,
    }
}

/// Answers a shape error.
pub fn error_response(request_id: Option<String>, kind: ProtocolErrorKind, message: String) -> (response:
    LocalResponse)
    ensures
        is_error(response, opt_text(request_id), protocol_code(kind), message@),
{
    let code: RpcErrorCode = match kind {
        ProtocolErrorKind::UnsupportedVersion => RpcErrorCode::UnsupportedVersion,
        ProtocolErrorKind::AuthenticationFailed => RpcErrorCode::AuthenticationFailed,
        ProtocolErrorKind::Other => RpcErrorCode::InvalidRequest,
    };
    LocalResponse::Error { request_id, code, message }
}

/// The code under which an error is answered. A request that was superseded
/// may be made again, so it is no failure.
pub open spec fn dispatch_code(error: DispatchError) -> RpcErrorCode {
    match error {
        DispatchError::Invalid(_) | DispatchError::Ambiguous(_) | DispatchError::Cancelled => {
            RpcErrorCode::InvalidRequest
        },
        DispatchError::NotFound(_) => RpcErrorCode::NotFound,
        DispatchError::Service(_)
        | DispatchError::Persistence(_)
        | DispatchError::Remote(_)
        | DispatchError::Internal => RpcErrorCode::Internal,
    }
}

/// Answers an error.
pub fn dispatch_error(request_id: Option<String>, error: &DispatchError) -> (response: LocalResponse)
    ensures
        is_error(response, opt_text(request_id), dispatch_code(*error), error_chars(*error)),
{
    let message = display_error(error);
    let code: RpcErrorCode = match error {
        DispatchError::Invalid(_) | DispatchError::Ambiguous(_) => RpcErrorCode::InvalidRequest,
        DispatchError::Cancelled => RpcErrorCode::InvalidRequest,
        DispatchError::NotFound(_) => RpcErrorCode::NotFound,
        DispatchError::Service(_) => RpcErrorCode::Internal,
        DispatchError::Persistence(_) => RpcErrorCode::Internal,
        DispatchError::Remote(_) => RpcErrorCode::Internal,
        DispatchError::Internal => RpcErrorCode::Internal,
    };
    LocalResponse::Error { request_id, code, message }
}

/// What was found out about a request before anything is done about it: what
/// is wrong with its shape, and whether its client knows the secret.
#[derive(Debug)]
pub struct RequestFacts {
    pub request_id: String,
    pub issued_at_unix_secs: u64,
    pub shape_error: Option<(ProtocolErrorKind, String)>,
    pub authentic: bool,
}

/// Whether a request was issued near enough to a time.
pub open spec fn is_fresh(issued_at: u64, now: u64) -> bool {
    -120 <= now - issued_at <= 120
}

/// Why a request is refused, if it is, and what is remembered once it was
/// judged: its shape counts first, then its client, then its age, and then
/// whether it was processed already.
pub open spec fn judged(requests: Seq<(u64, Seq<char>)>, facts: RequestFacts, now: u64) -> (
    Option<(RpcErrorCode, Seq<char>)>,
    Seq<(u64, Seq<char>)>,
) {
    match facts.shape_error {
        Some((kind, message)) => (Some((protocol_code(kind), message@)), requests),
        None => if !facts.authentic {
            (
                Some((RpcErrorCode::AuthenticationFailed, "desktop authentication failed"@)),
                requests,
            )
        } else if !is_fresh(facts.issued_at_unix_secs, now) {
            (
                Some(
                    (
                        RpcErrorCode::InvalidRequest,
                        "request timestamp is outside the allowed freshness window"@,
                    ),
                ),
                requests,
            )
        } else if was_seen(remembered(requests, now), facts.request_id@) {
            (
                Some(
                    (
                        RpcErrorCode::InvalidRequest,
                        "invalid request: "@ + "request has already been processed"@,
                    ),
                ),
                remembered(requests, now),
            )
        } else {
            (
                None,
                remembered(requests, now).push((facts.issued_at_unix_secs, facts.request_id@)),
            )
        },
    }
}

/// Admits a request, or answers why it is refused.
pub fn admit_request(guard: &mut ReplayGuard, facts: &RequestFacts, now: u64) -> (refusal: Option<
    LocalResponse,
>)
    ensures
        final(guard)@ == judged(old(guard)@, *facts, now).1,
        match judged(old(guard)@, *facts, now).0 {
            Some((code, message)) => refusal matches Some(response) && is_error(
                response,
                Some(facts.request_id@),
                code,
                message,
            ),
            None => refusal is None,
        },
{
    match &facts.shape_error {
        Some((kind, message)) => {
            return Some(
                error_response(Some(facts.request_id.clone()), *kind, message.clone()),
            );
        },
        None => {},
    }
    if !facts.authentic {
        return Some(
            LocalResponse::Error {
                request_id: Some(facts.request_id.clone()),
                code: RpcErrorCode::AuthenticationFailed,
                message: "desktop authentication failed".to_owned(),
            },
        );
    }
    if !request_is_fresh(facts.issued_at_unix_secs, now) {
        return Some(
            LocalResponse::Error {
                request_id: Some(facts.request_id.clone()),
                code: RpcErrorCode::InvalidRequest,
                message: "request timestamp is outside the allowed freshness window".to_owned(),
            },
        );
    }
    match guard.accept_request_id(facts.request_id.as_str(), facts.issued_at_unix_secs, now) {
        Ok(_) => None,
        Err(error) => Some(dispatch_error(Some(facts.request_id.clone()), &error)),
    }
}

/// A request whose client does not know the secret is refused and leaves no
/// trace.
pub proof fn law_unauthentic_requests_leave_no_trace(
    requests: Seq<(u64, Seq<char>)>,
    facts: RequestFacts,
    now: u64,
)
    requires
        !facts.authentic,
    ensures
        judged(requests, facts, now).0 is Some,
        judged(requests, facts, now).1 == requests,
{
}

/// A request that was admitted is refused when it comes again, for as long as
/// it would otherwise be fresh enough.
pub proof fn law_admitted_requests_are_not_admitted_again(
    requests: Seq<(u64, Seq<char>)>,
    facts: RequestFacts,
    now: u64,
    later: u64,
)
    requires
        judged(requests, facts, now).0 is None,
    ensures
        judged(judged(requests, facts, now).1, facts, later).0 is Some,
{
    let after = judged(requests, facts, now).1;
    if is_fresh(facts.issued_at_unix_secs, later) {
        law_accepted_request_is_refused_again(after, after.len() - 1, later);
    }
}

/// The workspace that an answer is about, as an announcement.
pub open spec fn announced_by(response: LocalResponse) -> Option<Seq<char>> {
    match response {
        LocalResponse::Opened { workspace, .. } => Some(workspace.id@),
        LocalResponse::Focused { workspace, .. } => Some(workspace.id@),
        _ => None,
    }
}

/// Announces the workspace that an answer is about.
pub fn workspace_operation_for_response(response: &LocalResponse) -> (operation: Option<
    DesktopOperation,
>)
    ensures
        match announced_by(*response) {
            Some(id) => operation matches Some(DesktopOperation::Workspace { workspace_id })
                && workspace_id@ == id,
            None => operation is None,
        },
{
    match response {
        LocalResponse::Opened { workspace, .. } => Some(
            DesktopOperation::Workspace { workspace_id: workspace.id.clone() },
        ),
        LocalResponse::Focused { workspace, .. } => Some(
            DesktopOperation::Workspace { workspace_id: workspace.id.clone() },
        ),
        _ => None,
    }
}

/// Announces what a command is about, where that is a pull request or a
/// directory of another host.
pub fn operation_for_event(command: &LocalCommand) -> (operation: Option<DesktopOperation>)
    ensures
        match *command {
            LocalCommand::OpenPullRequest { url } => operation == Some(
                DesktopOperation::PullRequest { url },
            ),
            LocalCommand::OpenSshWorkspace { target } => operation == Some(
                DesktopOperation::SshWorkspace { target },
            ),
            _ => operation is None,
        },
{
    match command {
        LocalCommand::OpenPullRequest { url } => Some(
            DesktopOperation::PullRequest { url: url.clone() },
        ),
        LocalCommand::OpenSshWorkspace { target } => Some(
            DesktopOperation::SshWorkspace { target: target.clone() },
        ),
        _ => None,
    }
}

/// What is announced once a command was carried out: the workspace that the
/// answer is about, or else what the command was about.
pub fn operation_to_announce(response: &LocalResponse, requested: Option<DesktopOperation>) -> (operation:
    Option<DesktopOperation>)
    ensures
        match announced_by(*response) {
            Some(id) => operation matches Some(DesktopOperation::Workspace { workspace_id })
                && workspace_id@ == id,
            None => operation == requested,
        },
{
    match workspace_operation_for_response(response) {
        Some(operation) => Some(operation),
        None => requested,
    }
}

/// Whether an input asks for the base of an override, by path alone.
pub open spec fn asks_for(input: RepositoryBaseInput, entry: BaseOverride) -> bool {
    &&& input.repository_id is None
    &&& input.repository_path is None
    &&& opt_text(input.relative_path) == Some(entry.relative_path@)
    &&& opt_text(input.base) == Some(entry.base@)
}

/// Whether inputs ask for the bases that a client named, one for one.
pub open spec fn ask_for_all(
    inputs: Seq<RepositoryBaseInput>,
    overrides: Seq<BaseOverride>,
) -> bool {
    &&& inputs.len() == overrides.len()
    &&& forall|i: int| 0 <= i < overrides.len() ==> asks_for(#[trigger] inputs[i], overrides[i])
}

fn base_inputs(repository_bases: &Vec<BaseOverride>) -> (bases: Vec<RepositoryBaseInput>)
    ensures
        ask_for_all(bases@, repository_bases@),
{
    let mut bases: Vec<RepositoryBaseInput> = Vec::new();
    while bases.len() < repository_bases.len()
        invariant
            bases.len() <= repository_bases.len(),
            forall|i: int|
                0 <= i < bases.len() ==> asks_for(#[trigger] bases@[i], repository_bases@[i]),
        decreases repository_bases.len() - bases.len(),
    {
        let entry = &repository_bases[bases.len()];
        bases.push(
            RepositoryBaseInput {
                repository_id: None,
                repository_path: None,
                relative_path: Some(entry.relative_path.clone()),
                base: Some(entry.base.clone()),
            },
        );
    }
    bases
}

/// Turns the request of a client into that of the application.
pub fn open_workspace_input(path: String, base: Option<String>, repository_bases: &Vec<BaseOverride>) -> (input:
    OpenWorkspaceInput)
    ensures
        input.path == path,
        input.base == base,
        ask_for_all(input.repository_bases@, repository_bases@),
{
    OpenWorkspaceInput { path, base, repository_bases: base_inputs(repository_bases) }
}

/// The bases that a new capture is asked for with.
#[derive(Debug)]
pub struct ForwardedCapture {
    pub base: Option<String>,
    pub repository_bases: Vec<RepositoryBaseInput>,
}

/// What to do for a request that came back from a host: open a workspace
/// there, and capture it anew where the request names bases.
#[derive(Debug)]
pub struct ForwardedOpen {
    pub target: String,
    pub capture: Option<ForwardedCapture>,
}

/// Decides what a request that came back from a host comes to.
pub fn plan_forwarded_open(
    host: &str,
    path: &str,
    base: Option<String>,
    repository_bases: &Vec<BaseOverride>,
) -> (plan: ForwardedOpen)
    ensures
        plan.target@ == host@ + ":"@ + path@,
        if base is None && repository_bases@.len() == 0 {
            plan.capture is None
        } else {
            plan.capture matches Some(capture) && capture.base == base && ask_for_all(
                capture.repository_bases@,
                repository_bases@,
            )
        },
{
    let mut target = host.to_owned();
    target.append(":");
    target.append(path);
    let capture = if base.is_none() && repository_bases.len() == 0 {
        None
    } else {
        Some(ForwardedCapture { base, repository_bases: base_inputs(repository_bases) })
    };
    ForwardedOpen { target, capture }
}

/// Whether a summary sums a workspace up.
pub open spec fn sums_up(summary: WorkspaceSummary, workspace: WorkspaceView) -> bool {
    &&& summary.id@ == workspace.id@
    &&& summary.name@ == workspace.name@
    &&& summary.source_tags@ == crate::workspace::named_tags(workspace.source@)
    &&& summary.available == (workspace.connection@ == "connected"@)
    &&& opt_text(summary.location) == Some(workspace.location@)
}

/// Answers that a workspace was opened.
pub fn opened_response(request_id: String, workspace: &WorkspaceView, created: bool) -> (response:
    LocalResponse)
    ensures
        response matches LocalResponse::Opened { request_id: id, workspace: summary, created: new }
            && id == request_id && sums_up(summary, *workspace) && new == created,
{
    LocalResponse::Opened { request_id, workspace: protocol_summary(workspace), created }
}

/// Answers that a workspace was focused.
pub fn focused_response(request_id: String, workspace: &WorkspaceView) -> (response: LocalResponse)
    ensures
        response matches LocalResponse::Focused { request_id: id, workspace: summary } && id
            == request_id && sums_up(summary, *workspace),
{
    LocalResponse::Focused { request_id, workspace: protocol_summary(workspace) }
}

/// Answers which workspaces there are.
pub fn workspaces_response(request_id: String, workspaces: &Vec<WorkspaceView>) -> (response:
    LocalResponse)
    ensures
        response matches LocalResponse::Workspaces { request_id: id, workspaces: summaries } && {
            &&& id == request_id
            &&& summaries@.len() == workspaces@.len()
            &&& forall|i: int|
                0 <= i < workspaces@.len() ==> sums_up(#[trigger] summaries@[i], workspaces@[i])
        },
{
    let mut summaries: Vec<WorkspaceSummary> = Vec::new();
    while summaries.len() < workspaces.len()
        invariant
            summaries.len() <= workspaces.len(),
            forall|i: int|
                0 <= i < summaries.len() ==> sums_up(#[trigger] summaries@[i], workspaces@[i]),
        decreases workspaces.len() - summaries.len(),
    {
        summaries.push(protocol_summary(&workspaces[summaries.len()]));
    }
    LocalResponse::Workspaces { request_id, workspaces: summaries }
}

/// Answers that the desktop is there.
pub fn doctor_response(request_id: String, protocol_version: u16) -> (response: LocalResponse)
    ensures
        response matches LocalResponse::Doctor { request_id: id, report } && {
            &&& id == request_id
            &&& report.desktop_reachable
            &&& report.protocol_version == protocol_version
            &&& report.message@ == "authenticated LocalReview desktop endpoint is ready"@
        },
{
    LocalResponse::Doctor {
        request_id,
        report: DoctorReport {
            desktop_reachable: true,
            protocol_version,
            message: "authenticated LocalReview desktop endpoint is ready".to_owned(),
        },
    }
}

} // verus!
