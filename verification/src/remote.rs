//! Remote workspaces: their targets, companions, captured files and records.
use crate::document::{ReviewFile, ReviewFileStatus};
use crate::errors::{invalid, DispatchError};
use crate::ids::{id_chars, id_text, ComparisonId, RepositoryId, ReviewFileId, WorkspaceId};
use crate::remote_source::RemoteRepositoryRef;
use crate::repositories::{HeadState, Repository};
use crate::split::{cut, pieces, split_first, split_pieces};
use crate::text::{
    copy_opt, decimal, list_contains, lists, opt_text, push_wide_decimal, text_eq, texts,
};
use vstd::prelude::*;
use vstd::string::*;

verus! {

/// A directory of another host.
#[derive(Debug)]
pub struct RemoteTarget {
    pub host: String,
    pub root: String,
}

impl RemoteTarget {
    /// Copies the target.
    pub fn copy(&self) -> (target: RemoteTarget)
        ensures
            target == *self,
    {
        RemoteTarget { host: self.host.clone(), root: self.root.clone() }
    }
}

/// Why a text is no target. `problem` says what is wrong with it as a whole,
/// if anything is, and `host_accepted` whether its host can be connected to.
pub open spec fn target_problem(
    value: Seq<char>,
    problem: Option<Seq<char>>,
    host_accepted: bool,
) -> Option<Seq<char>> {
    match problem {
        Some(text) => Some(text),
        None => match cut(value, ':').1 {
            None => Some("SSH target must be host:/absolute/path"@),
            Some(root) => if !host_accepted {
                Some("SSH host must be a normal OpenSSH host or user@host alias"@)
            } else if pieces(root, '/').contains(".."@) {
                Some("SSH workspace root must not contain parent traversal"@)
            } else {
                None
            },
        },
    }
}

/// Reads a target.
pub fn parse_remote_target(value: &str, problem: Option<String>, host_accepted: bool) -> (result:
    Result<RemoteTarget, DispatchError>)
    ensures
        match target_problem(value@, opt_text(problem), host_accepted) {
            Some(text) => result matches Err(error) && error.is_invalid(text),
            None => result matches Ok(target) && target.host@ == cut(value@, ':').0
                && target.root@ == cut(value@, ':').1->0,
        },
{
    match problem {
        Some(text) => {
            return Err(DispatchError::Invalid(text));
        },
        None => {},
    }
    let (host, rest) = split_first(value, ':');
    let root = match rest {
        Some(root) => root,
        None => {
            return Err(invalid("SSH target must be host:/absolute/path"));
        },
    };
    if !host_accepted {
        return Err(invalid("SSH host must be a normal OpenSSH host or user@host alias"));
    }
    let parts = split_pieces(root.as_str(), '/');
    proof {
        let found = texts(parts@);
        if lists(parts@, ".."@) {
            let i = choose|i: int| 0 <= i < parts@.len() && #[trigger] parts@[i]@ == ".."@;
            assert(found[i] == ".."@);
        }
        if found.contains(".."@) {
            let i = choose|i: int| 0 <= i < found.len() && found[i] == ".."@;
            assert(parts@[i]@ == ".."@);
        }
    }
    if list_contains(&parts, "..") {
        return Err(invalid("SSH workspace root must not contain parent traversal"));
    }
    Ok(RemoteTarget { host, root })
}

/// The last of some texts that is not empty.
pub open spec fn last_named(parts: Seq<Seq<char>>) -> Option<Seq<char>>
    decreases parts.len(),
{
    if parts.len() == 0 {
        None
    } else if parts.last().len() > 0 {
        Some(parts.last())
    } else {
        last_named(parts.drop_last())
    }
}

/// What a remote workspace with a root is called on its host: the last part of
/// the root, or a general word where it has none.
pub open spec fn workspace_leaf(root: Seq<char>) -> Seq<char> {
    match last_named(pieces(root, '/')) {
        Some(leaf) => leaf,
        None => "workspace"@,
    }
}

/// A text without the slashes at its end.
pub open spec fn without_trailing_slashes(text: Seq<char>) -> Seq<char>
    decreases text.len(),
{
    if text.len() > 0 && text.last() == '/' {
        without_trailing_slashes(text.drop_last())
    } else {
        text
    }
}

/// What stands behind the last slash of a text; all of it where it has none.
pub open spec fn behind_last_slash(text: Seq<char>) -> Seq<char>
    decreases text.len(),
{
    if text.len() == 0 || text.last() == '/' {
        Seq::empty()
    } else {
        behind_last_slash(text.drop_last()).push(text.last())
    }
}

proof fn lemma_last_piece(text: Seq<char>)
    ensures
        pieces(text, '/').len() > 0,
        pieces(text, '/').last() == behind_last_slash(text),
    decreases text.len(),
{
    if text.len() > 0 {
        lemma_last_piece(text.drop_last());
    }
}

/// A remote workspace is called by what stands behind the last slash of its
/// root once the slashes at its end are gone; so a slash behind the root
/// changes nothing.
pub proof fn law_trailing_slashes_do_not_name_a_workspace(root: Seq<char>)
    ensures
        workspace_leaf(root.push('/')) == workspace_leaf(root),
        workspace_leaf(root) == if behind_last_slash(without_trailing_slashes(root)).len() > 0 {
            behind_last_slash(without_trailing_slashes(root))
        } else {
            "workspace"@
        },
    decreases root.len(),
{
    let longer = root.push('/');
    assert(longer.drop_last() =~= root);
    lemma_last_piece(root);
    assert(pieces(longer, '/').drop_last() =~= pieces(root, '/'));
    if root.len() > 0 && root.last() == '/' {
        assert(root =~= root.drop_last().push('/'));
        law_trailing_slashes_do_not_name_a_workspace(root.drop_last());
    } else if root.len() == 0 {
        assert(pieces(root, '/').drop_last() =~= Seq::<Seq<char>>::empty());
        assert(last_named(pieces(root, '/').drop_last()) is None);
    }
}

/// The name of a remote workspace: its host and the last part of its root.
pub fn remote_workspace_name(target: &RemoteTarget) -> (name: String)
    ensures
        name@ == target.host@ + ":"@ + workspace_leaf(target.root@),
{
    let parts = split_pieces(target.root.as_str(), '/');
    let ghost all = texts(parts@);
    let mut name = target.host.clone();
    name.append(":");
    let mut i: usize = parts.len();
    assert(all.take(all.len() as int) =~= all);
    while i > 0
        invariant
            i <= parts.len(),
            all == texts(parts@),
            name@ == target.host@ + ":"@,
            all == pieces(target.root@, '/'),
            last_named(all) == last_named(all.take(i as int)),
        decreases i,
    {
        assert(all.take(i as int).drop_last() =~= all.take(i - 1));
        assert(all.take(i as int).last() == parts@[i - 1]@);
        if !parts[i - 1].as_str().is_empty() {
            name.append(parts[i - 1].as_str());
            return name;
        }
        i -= 1;
    }
    name.append("workspace");
    name
}

/// Whether a companion can be used.
#[derive(Clone, Copy, Debug, PartialEq, Eq, Structural)]
pub enum RemoteCompanionAvailability {
    Compatible,
    Incompatible,
    MissingOrUnreachable,
}

/// What a companion runs on.
#[derive(Debug)]
pub struct RemoteCompanionPlatform {
    pub operating_system: String,
    pub architecture: String,
}

/// What is known of a companion.
#[derive(Debug)]
pub struct RemoteCompanionStatus {
    pub availability: RemoteCompanionAvailability,
    pub platform: Option<RemoteCompanionPlatform>,
    pub detail: String,
}

/// How an availability reads.
pub open spec fn availability_chars(availability: RemoteCompanionAvailability) -> Seq<char> {
    match availability {
        RemoteCompanionAvailability::Compatible => "compatible"@,
        RemoteCompanionAvailability::Incompatible => "incompatible"@,
        RemoteCompanionAvailability::MissingOrUnreachable => "missing or unreachable"@,
    }
}

/// How an availability reads.
pub fn remote_companion_availability_name(availability: &RemoteCompanionAvailability) -> (name:
    &'static str)
    ensures
        name@ == availability_chars(*availability),
{
    match availability {
        RemoteCompanionAvailability::Compatible => "compatible",
        RemoteCompanionAvailability::Incompatible => "incompatible",
        RemoteCompanionAvailability::MissingOrUnreachable => "missing or unreachable",
    }
}

/// How a platform reads.
pub open spec fn platform_chars(platform: Option<RemoteCompanionPlatform>) -> Seq<char> {
    match platform {
        Some(found) => found.operating_system@ + "/"@ + found.architecture@,
        None => "platform unknown"@,
    }
}

/// How the status of a companion reads.
pub open spec fn companion_chars(status: RemoteCompanionStatus) -> Seq<char> {
    availability_chars(status.availability) + " ("@ + platform_chars(status.platform) + ")"@
}

/// How the status of a companion reads.
pub fn remote_companion_status_detail(status: &RemoteCompanionStatus) -> (detail: String)
    ensures
        detail@ == companion_chars(*status),
{
    let mut detail = remote_companion_availability_name(&status.availability).to_owned();
    detail.append(" (");
    match &status.platform {
        Some(platform) => {
            let mut text = platform.operating_system.clone();
            text.append("/");
            text.append(platform.architecture.as_str());
            detail.append(text.as_str());
        },
        None => {
            detail.append("platform unknown");
        },
    }
    detail.append(")");
    detail
}

/// How a failed connection to a companion reads.
pub open spec fn transport_error_chars(error: Seq<char>) -> Seq<char> {
    "could not connect to the LocalReview SSH companion: "@ + error
        + ". Ensure `localreview agent --stdio` is installed and protocol-compatible on the remote host (or install it manually), then retry."@
}

/// The error of a failed connection to a companion.
pub fn remote_transport_error(error: &str) -> (failure: DispatchError)
    ensures
        failure.is_remote(transport_error_chars(error@)),
{
    let mut text = "could not connect to the LocalReview SSH companion: ".to_owned();
    text.append(error);
    text.append(
        ". Ensure `localreview agent --stdio` is installed and protocol-compatible on the remote host (or install it manually), then retry.",
    );
    DispatchError::Remote(text)
}

/// Why a companion refused a request.
#[derive(Clone, Copy, Debug, PartialEq, Eq, Structural)]
pub enum AgentErrorCode {
    Unavailable,
    UnsupportedVersion,
    Other,
}

/// A reply of a companion that is not the one asked for: an error, or another
/// reply, told as text.
#[derive(Debug)]
pub enum UnexpectedReply {
    Refused { code: AgentErrorCode, message: String },
    Strange { told: String },
}

/// How an unexpected reply reads.
pub open spec fn unexpected_chars(context: Seq<char>, reply: UnexpectedReply) -> Seq<char> {
    match reply {
        UnexpectedReply::Refused { code, message } => context + " failed: "@ + message@
            + if code == AgentErrorCode::Other {
            ""@
        } else {
            " Install or update `localreview` on the remote host and retry."@
        },
        UnexpectedReply::Strange { told } => context
            + " returned an unexpected companion result: "@ + told@,
    }
}

/// The error of an unexpected reply.
pub fn remote_result_error(context: &str, reply: &UnexpectedReply) -> (failure: DispatchError)
    ensures
        failure.is_remote(unexpected_chars(context@, *reply)),
{
    let mut text = context.to_owned();
    match reply {
        UnexpectedReply::Refused { code, message } => {
            text.append(" failed: ");
            text.append(message.as_str());
            match code {
                AgentErrorCode::Other => {
                    text.append("");
                },
                _ => {
                    text.append(" Install or update `localreview` on the remote host and retry.");
                },
            }
        },
        UnexpectedReply::Strange { told } => {
            text.append(" returned an unexpected companion result: ");
            text.append(told.as_str());
        },
    }
    DispatchError::Remote(text)
}

/// How a remote file changed.
#[derive(Clone, Copy, Debug, PartialEq, Eq, Structural)]
pub enum RemoteFileStatus {
    Added,
    Untracked,
    Modified,
    Deleted,
    Renamed,
    Copied,
    ModeChanged,
    TypeChanged,
    Submodule,
}

/// A captured file of a remote repository, without its source.
#[derive(Debug)]
pub struct RemoteCapturedFile {
    pub path: String,
    pub old_path: Option<String>,
    pub status: RemoteFileStatus,
    pub binary: bool,
    pub lfs_pointer: bool,
    pub untracked: bool,
    pub new_object_id: Option<String>,
    pub captured_byte_len: Option<u64>,
}

impl RemoteCapturedFile {
    /// Copies the file.
    pub fn copy(&self) -> (file: RemoteCapturedFile)
        ensures
            file == *self,
    {
        RemoteCapturedFile {
            path: self.path.clone(),
            old_path: copy_opt(&self.old_path),
            status: self.status,
            binary: self.binary,
            lfs_pointer: self.lfs_pointer,
            untracked: self.untracked,
            new_object_id: copy_opt(&self.new_object_id),
            captured_byte_len: self.captured_byte_len,
        }
    }
}

/// The status under which a remote file is reviewed.
pub open spec fn reviewed_status(file: RemoteCapturedFile) -> ReviewFileStatus {
    if file.binary {
        ReviewFileStatus::Binary
    } else if file.lfs_pointer {
        ReviewFileStatus::LfsPointer
    } else {
        match file.status {
            RemoteFileStatus::Added | RemoteFileStatus::Untracked => ReviewFileStatus::Added,
            RemoteFileStatus::Modified => ReviewFileStatus::Modified,
            RemoteFileStatus::Deleted => ReviewFileStatus::Deleted,
            RemoteFileStatus::Renamed => ReviewFileStatus::Renamed,
            RemoteFileStatus::Copied => ReviewFileStatus::Copied,
            RemoteFileStatus::ModeChanged => ReviewFileStatus::ModeChanged,
            RemoteFileStatus::TypeChanged => ReviewFileStatus::TypeChanged,
            RemoteFileStatus::Submodule => ReviewFileStatus::Submodule,
        }
    }
}

/// The status under which a remote file is reviewed.
pub fn remote_review_file_status(remote: &RemoteCapturedFile) -> (status: ReviewFileStatus)
    ensures
        status == reviewed_status(*remote),
{
    if remote.binary {
        return ReviewFileStatus::Binary;
    }
    if remote.lfs_pointer {
        return ReviewFileStatus::LfsPointer;
    }
    match remote.status {
        RemoteFileStatus::Added | RemoteFileStatus::Untracked => ReviewFileStatus::Added,
        RemoteFileStatus::Modified => ReviewFileStatus::Modified,
        RemoteFileStatus::Deleted => ReviewFileStatus::Deleted,
        RemoteFileStatus::Renamed => ReviewFileStatus::Renamed,
        RemoteFileStatus::Copied => ReviewFileStatus::Copied,
        RemoteFileStatus::ModeChanged => ReviewFileStatus::ModeChanged,
        RemoteFileStatus::TypeChanged => ReviewFileStatus::TypeChanged,
        RemoteFileStatus::Submodule => ReviewFileStatus::Submodule,
    }
}

/// Whether a remote file has no text to show.
pub open spec fn is_not_text(file: RemoteCapturedFile) -> bool {
    file.binary || file.lfs_pointer || file.status == RemoteFileStatus::Submodule
}

/// Whether a remote file has text on its old side.
pub open spec fn has_old_text(file: RemoteCapturedFile) -> bool {
    file.status != RemoteFileStatus::Added && file.status != RemoteFileStatus::Untracked
        && !is_not_text(file)
}

/// Whether a remote file has text on its new side.
pub open spec fn has_new_text(file: RemoteCapturedFile) -> bool {
    file.status != RemoteFileStatus::Deleted && !is_not_text(file)
}

/// Whether a remote file has no text to show.
pub fn remote_file_requires_non_text(file: &RemoteCapturedFile) -> (result: bool)
    ensures
        result == is_not_text(*file),
{
    file.binary || file.lfs_pointer || file.status == RemoteFileStatus::Submodule
}

/// Whether a remote file has text on its old side.
pub fn remote_file_has_old_source(file: &RemoteCapturedFile) -> (result: bool)
    ensures
        result == has_old_text(*file),
{
    file.status != RemoteFileStatus::Added && file.status != RemoteFileStatus::Untracked
        && !remote_file_requires_non_text(file)
}

/// Whether a remote file has text on its new side.
pub fn remote_file_has_new_source(file: &RemoteCapturedFile) -> (result: bool)
    ensures
        result == has_new_text(*file),
{
    file.status != RemoteFileStatus::Deleted && !remote_file_requires_non_text(file)
}

/// What is wrong with the paths of a remote file, if anything is.
#[derive(Debug)]
pub struct PathProblems {
    pub path: Option<String>,
    pub old_path: Option<String>,
}

/// The problem that refuses a remote file: that of its path comes first, and
/// that of its old path counts where it has one.
pub open spec fn path_problem(file: RemoteCapturedFile, problems: PathProblems) -> Option<Seq<char>> {
    if problems.path is Some {
        opt_text(problems.path)
    } else if file.old_path is Some {
        opt_text(problems.old_path)
    } else {
        None
    }
}

/// Whether a reviewed file is the remote one.
pub open spec fn reviews(file: ReviewFile, id: ReviewFileId, remote: RemoteCapturedFile) -> bool {
    &&& file.id == id
    &&& file.path@ == remote.path@
    &&& opt_text(file.old_path) == opt_text(remote.old_path)
    &&& file.status == reviewed_status(remote)
}

/// The file under review that stands for a remote file.
pub fn remote_review_file(id: ReviewFileId, remote: &RemoteCapturedFile, problems: &PathProblems) -> (result:
    Result<ReviewFile, DispatchError>)
    ensures
        match path_problem(*remote, *problems) {
            Some(problem) => result matches Err(error) && error.is_invalid(problem),
            None => result matches Ok(file) && reviews(file, id, *remote),
        },
{
    match &problems.path {
        Some(problem) => {
            return Err(DispatchError::Invalid(problem.clone()));
        },
        None => {},
    }
    if remote.old_path.is_some() {
        match &problems.old_path {
            Some(problem) => {
                return Err(DispatchError::Invalid(problem.clone()));
            },
            None => {},
        }
    }
    Ok(
        ReviewFile {
            id,
            path: remote.path.clone(),
            old_path: copy_opt(&remote.old_path),
            status: remote_review_file_status(remote),
        },
    )
}

/// A captured file with the id under which it is reviewed, and whether its
/// text was read.
#[derive(Debug)]
pub struct RemoteFileBinding {
    pub file_id: String,
    pub file: RemoteCapturedFile,
    pub materialized: bool,
}

/// A captured comparison of a remote repository.
#[derive(Debug)]
pub struct RemoteComparisonCapture {
    pub capture_id: String,
    pub generation: u64,
    pub repository: RemoteRepositoryRef,
    pub requested_base: String,
    pub base_tip_sha: String,
    pub merge_base_sha: String,
    pub head_sha: Option<String>,
    pub head: HeadState,
    pub files: Vec<RemoteCapturedFile>,
}

/// A captured comparison with the ids under which it is reviewed.
#[derive(Debug)]
pub struct RemoteCaptureBinding {
    pub repository_id: String,
    pub comparison_id: String,
    pub capture: RemoteComparisonCapture,
    pub files: Vec<RemoteFileBinding>,
}

/// What is on record of a remote workspace.
#[derive(Debug)]
pub struct RemoteWorkspaceMetadata {
    pub schema_version: u16,
    pub target: RemoteTarget,
    pub review_session_id: String,
    pub generation: u64,
    pub agent_version: Option<String>,
    pub latency_millis: Option<u128>,
    pub captures: Vec<RemoteCaptureBinding>,
    pub stale: bool,
    pub last_error: Option<String>,
    pub companion: Option<RemoteCompanionStatus>,
}

/// The form in which records are kept.
pub const REMOTE_SCHEMA_VERSION: u16 = 4;

/// Brings a record into the current form, and says whether it has to be
/// stored again. `legacy` says that it was found under its former key.
pub fn promote_metadata(metadata: &mut RemoteWorkspaceMetadata, legacy: bool) -> (changed: bool)
    ensures
        changed == (legacy || old(metadata).schema_version < REMOTE_SCHEMA_VERSION),
        *final(metadata) == if changed {
            (RemoteWorkspaceMetadata { schema_version: REMOTE_SCHEMA_VERSION, ..*old(metadata) })
        } else {
            *old(metadata)
        },
{
    if legacy || metadata.schema_version < REMOTE_SCHEMA_VERSION {
        metadata.schema_version = REMOTE_SCHEMA_VERSION;
        true
    } else {
        false
    }
}

/// Notes that the record no longer shows what is on the host, and why.
pub fn mark_stale(metadata: &mut RemoteWorkspaceMetadata, error: String)
    ensures
        *final(metadata) == (RemoteWorkspaceMetadata {
            stale: true,
            last_error: Some(error),
            ..*old(metadata)
        }),
{
    metadata.stale = true;
    metadata.last_error = Some(error);
}

/// Notes that a companion answered.
pub fn note_connected(metadata: &mut RemoteWorkspaceMetadata, companion: RemoteCompanionStatus)
    ensures
        *final(metadata) == (RemoteWorkspaceMetadata {
            companion: Some(companion),
            last_error: None,
            ..*old(metadata)
        }),
{
    metadata.companion = Some(companion);
    metadata.last_error = None;
}

/// Notes that no companion answered, and why.
pub fn note_unconnected(
    metadata: &mut RemoteWorkspaceMetadata,
    companion: RemoteCompanionStatus,
    error: String,
)
    ensures
        *final(metadata) == (RemoteWorkspaceMetadata {
            companion: Some(companion),
            last_error: Some(error),
            ..*old(metadata)
        }),
{
    metadata.companion = Some(companion);
    metadata.last_error = Some(error);
}

/// The bindings of a capture once a file of it has been read.
pub open spec fn is_read_capture(
    after: RemoteCaptureBinding,
    before: RemoteCaptureBinding,
    file: int,
) -> bool {
    &&& after.repository_id == before.repository_id
    &&& after.comparison_id == before.comparison_id
    &&& after.capture == before.capture
    &&& after.files@ == before.files@.update(
        file,
        RemoteFileBinding { materialized: true, ..before.files@[file] },
    )
}

/// Notes that a file of a capture needs no more reading. Where its text came
/// from the host just now, the record shows what is there.
pub fn note_materialized(
    metadata: &mut RemoteWorkspaceMetadata,
    capture: usize,
    file: usize,
    was_read: bool,
)
    requires
        capture < old(metadata).captures@.len(),
        file < old(metadata).captures@[capture as int].files@.len(),
    ensures
        final(metadata).schema_version == old(metadata).schema_version,
        final(metadata).target == old(metadata).target,
        final(metadata).review_session_id == old(metadata).review_session_id,
        final(metadata).generation == old(metadata).generation,
        final(metadata).agent_version == old(metadata).agent_version,
        final(metadata).latency_millis == old(metadata).latency_millis,
        final(metadata).companion == old(metadata).companion,
        final(metadata).stale == (old(metadata).stale && !was_read),
        final(metadata).last_error == if was_read {
            None
        } else {
            old(metadata).last_error
        },
        final(metadata).captures@.len() == old(metadata).captures@.len(),
        is_read_capture(
            final(metadata).captures@[capture as int],
            old(metadata).captures@[capture as int],
            file as int,
        ),
        forall|c: int|
            0 <= c < old(metadata).captures@.len() && c != capture ==> #[trigger] final(metadata).captures@[c]
                == old(metadata).captures@[c],
{
    metadata.captures[capture].files[file].materialized = true;
    if was_read {
        metadata.stale = false;
        metadata.last_error = None;
    }
}

/// Notes what a connection said of itself.
pub fn note_connection(metadata: &mut RemoteWorkspaceMetadata, agent_version: String, latency_millis: u128)
    ensures
        *final(metadata) == (RemoteWorkspaceMetadata {
            agent_version: Some(agent_version),
            latency_millis: Some(latency_millis),
            last_error: None,
            ..*old(metadata)
        }),
{
    metadata.agent_version = Some(agent_version);
    metadata.latency_millis = Some(latency_millis);
    metadata.last_error = None;
}

/// The key under which the record of a workspace is kept.
pub fn remote_workspace_key(workspace_id: WorkspaceId) -> (key: String)
    ensures
        key@ == "remote.workspace.v4."@ + id_chars(workspace_id.0),
{
    let mut key = "remote.workspace.v4.".to_owned();
    key.append(id_text(workspace_id.0).as_str());
    key
}

/// The key under which the record of a workspace was kept before.
pub fn legacy_remote_workspace_key(workspace_id: WorkspaceId) -> (key: String)
    ensures
        key@ == "remote.workspace.v3."@ + id_chars(workspace_id.0),
{
    let mut key = "remote.workspace.v3.".to_owned();
    key.append(id_text(workspace_id.0).as_str());
    key
}

/// Whether a capture may hold a file of a comparison.
pub open spec fn capture_fits(capture: RemoteCaptureBinding, comparison_id: Option<ComparisonId>) -> bool {
    comparison_id matches Some(id) ==> capture.comparison_id@ == id_chars(id.0)
}

/// Whether a place is the first one that holds a file, going by captures and
/// then by files.
pub open spec fn is_file_place(
    captures: Seq<RemoteCaptureBinding>,
    file_id: Seq<char>,
    comparison_id: Option<ComparisonId>,
    capture: int,
    file: int,
) -> bool {
    &&& holds_file(captures, file_id, comparison_id, capture, file)
    &&& forall|c: int, f: int|
        #[trigger] holds_file(captures, file_id, comparison_id, c, f) ==> capture < c || (capture
            == c && file <= f)
}

/// Whether a file stands at a place of the captures.
pub open spec fn holds_file(
    captures: Seq<RemoteCaptureBinding>,
    file_id: Seq<char>,
    comparison_id: Option<ComparisonId>,
    capture: int,
    file: int,
) -> bool {
    &&& 0 <= capture < captures.len()
    &&& capture_fits(captures[capture], comparison_id)
    &&& 0 <= file < captures[capture].files@.len()
    &&& captures[capture].files@[file].file_id@ == file_id
}

/// Finds a file in the captures of a workspace.
pub fn remote_file_binding(
    captures: &Vec<RemoteCaptureBinding>,
    file_id: ReviewFileId,
    comparison_id: Option<ComparisonId>,
) -> (place: Option<(usize, usize)>)
    ensures
        match place {
            Some((capture, file)) => is_file_place(
                captures@,
                id_chars(file_id.0),
                comparison_id,
                capture as int,
                file as int,
            ),
            None => forall|c: int, f: int|
                !#[trigger] holds_file(captures@, id_chars(file_id.0), comparison_id, c, f),
        },
{
    let needle = id_text(file_id.0);
    let wanted: Option<String> = match comparison_id {
        Some(id) => Some(id_text(id.0)),
        None => None,
    };
    let mut c: usize = 0;
    while c < captures.len()
        invariant
            c <= captures.len(),
            needle@ == id_chars(file_id.0),
            match comparison_id {
                Some(id) => wanted matches Some(text) && text@ == id_chars(id.0),
                None => wanted is None,
            },
            forall|d: int, f: int|
                d < c ==> !#[trigger] holds_file(captures@, needle@, comparison_id, d, f),
        decreases captures.len() - c,
    {
        let capture = &captures[c];
        let fits: bool = match &wanted {
            Some(id) => text_eq(capture.comparison_id.as_str(), id.as_str()),
            None => true,
        };
        if fits {
            let mut f: usize = 0;
            while f < capture.files.len()
                invariant
                    c < captures.len(),
                    *capture == captures@[c as int],
                    capture_fits(*capture, comparison_id),
                    f <= capture.files.len(),
                    needle@ == id_chars(file_id.0),
                    forall|d: int, e: int|
                        d < c ==> !#[trigger] holds_file(captures@, needle@, comparison_id, d, e),
                    forall|e: int|
                        e < f ==> !#[trigger] holds_file(
                            captures@,
                            needle@,
                            comparison_id,
                            c as int,
                            e,
                        ),
                decreases capture.files.len() - f,
            {
                if text_eq(capture.files[f].file_id.as_str(), needle.as_str()) {
                    assert(holds_file(captures@, needle@, comparison_id, c as int, f as int));
                    return Some((c, f));
                }
                f += 1;
            }
        }
        c += 1;
    }
    None
}

/// What has to be read before a remote file can be shown.
#[derive(Debug)]
pub enum Materialization {
    /// Nothing: it was read before.
    Complete,
    /// Nothing, but that has to be noted: it has no text.
    WithoutText,
    /// The sources with these paths; a side without a path has no text.
    Read { file: ReviewFile, old_path: Option<String>, new_path: Option<String> },
}

/// Works out what has to be read before a remote file can be shown.
pub fn plan_materialization(id: ReviewFileId, binding: &RemoteFileBinding, problems: &PathProblems) -> (result:
    Result<Materialization, DispatchError>)
    ensures
        if binding.materialized {
            result == Ok::<Materialization, DispatchError>(Materialization::Complete)
        } else {
            match path_problem(binding.file, *problems) {
                Some(problem) => result matches Err(error) && error.is_invalid(problem),
                None => if is_not_text(binding.file) {
                    result == Ok::<Materialization, DispatchError>(Materialization::WithoutText)
                } else {
                    result matches Ok(Materialization::Read { file, old_path, new_path }) && {
                        &&& reviews(file, id, binding.file)
                        &&& old_path == if has_old_text(binding.file) {
                            Some(
                                match binding.file.old_path {
                                    Some(path) => path,
                                    None => binding.file.path,
                                },
                            )
                        } else {
                            None
                        }
                        &&& new_path == if has_new_text(binding.file) {
                            Some(binding.file.path)
                        } else {
                            None
                        }
                    }
                },
            }
        },
{
    if binding.materialized {
        return Ok(Materialization::Complete);
    }
    let file = match remote_review_file(id, &binding.file, problems) {
        Ok(file) => file,
        Err(error) => {
            return Err(error);
        },
    };
    if remote_file_requires_non_text(&binding.file) {
        return Ok(Materialization::WithoutText);
    }
    let old_path: Option<String> = if remote_file_has_old_source(&binding.file) {
        match &binding.file.old_path {
            Some(path) => Some(path.clone()),
            None => Some(binding.file.path.clone()),
        }
    } else {
        None
    };
    let new_path: Option<String> = if remote_file_has_new_source(&binding.file) {
        Some(binding.file.path.clone())
    } else {
        None
    };
    Ok(Materialization::Read { file, old_path, new_path })
}

/// A path with the id of the file that has it.
#[derive(Debug)]
pub struct KnownFile {
    pub path: String,
    pub id: ReviewFileId,
}

/// The id that was noted last for a path.
pub open spec fn known_id(known: Seq<KnownFile>, path: Seq<char>) -> Option<ReviewFileId>
    decreases known.len(),
{
    if known.len() == 0 {
        None
    } else if known.last().path@ == path {
        Some(known.last().id)
    } else {
        known_id(known.drop_last(), path)
    }
}

fn find_known(known: &Vec<KnownFile>, path: &str) -> (id: Option<ReviewFileId>)
    ensures
        id == known_id(known@, path@),
{
    let mut i: usize = known.len();
    assert(known@.take(known.len() as int) =~= known@);
    while i > 0
        invariant
            i <= known.len(),
            known_id(known@, path@) == known_id(known@.take(i as int), path@),
        decreases i,
    {
        assert(known@.take(i as int).drop_last() =~= known@.take(i - 1));
        if text_eq(known[i - 1].path.as_str(), path) {
            return Some(known[i - 1].id);
        }
        i -= 1;
    }
    None
}

/// The paths of a file with its id: its path, and then its old path, if it has
/// one.
pub open spec fn paths_of(file: ReviewFile) -> Seq<(Seq<char>, ReviewFileId)> {
    match file.old_path {
        Some(path) => seq![(file.path@, file.id), (path@, file.id)],
        None => seq![(file.path@, file.id)],
    }
}

/// The paths of some files with their ids, in order.
pub open spec fn all_paths(files: Seq<ReviewFile>) -> Seq<(Seq<char>, ReviewFileId)>
    decreases files.len(),
{
    if files.len() == 0 {
        Seq::empty()
    } else {
        all_paths(files.drop_last()) + paths_of(files.last())
    }
}

/// What a list of noted paths says.
pub open spec fn known_pairs(known: Seq<KnownFile>) -> Seq<(Seq<char>, ReviewFileId)> {
    known.map_values(|entry: KnownFile| (entry.path@, entry.id))
}

/// Notes the paths of the files that a review has so far.
pub fn remote_previous_file_ids(files: &Vec<ReviewFile>) -> (known: Vec<KnownFile>)
    ensures
        known_pairs(known@) == all_paths(files@),
{
    let mut known: Vec<KnownFile> = Vec::new();
    let mut i: usize = 0;
    assert(files@.take(0) =~= Seq::<ReviewFile>::empty());
    assert(known_pairs(known@) =~= all_paths(files@.take(0)));
    while i < files.len()
        invariant
            i <= files.len(),
            known_pairs(known@) == all_paths(files@.take(i as int)),
        decreases files.len() - i,
    {
        let file = &files[i];
        assert(files@.take(i + 1).drop_last() =~= files@.take(i as int));
        let ghost before = known_pairs(known@);
        known.push(KnownFile { path: file.path.clone(), id: file.id });
        assert(known_pairs(known@) =~= before.push((file.path@, file.id)));
        match &file.old_path {
            Some(path) => {
                known.push(KnownFile { path: path.clone(), id: file.id });
                assert(known_pairs(known@) =~= before + paths_of(*file));
            },
            None => {
                assert(known_pairs(known@) =~= before + paths_of(*file));
            },
        }
        i += 1;
    }
    assert(files@.take(files.len() as int) =~= files@);
    known
}

/// The id under which a captured file is reviewed: the one that its path had,
/// or that its old path had, or else a new one.
pub open spec fn assigned_id(known: Seq<KnownFile>, file: RemoteCapturedFile, fresh: ReviewFileId) -> ReviewFileId {
    match known_id(known, file.path@) {
        Some(id) => id,
        None => match file.old_path {
            Some(path) => match known_id(known, path@) {
                Some(id) => id,
                None => fresh,
            },
            None => fresh,
        },
    }
}

/// A captured file as it enters a review, before its text was read.
#[derive(Debug)]
pub struct PlaceholderFile {
    pub file: ReviewFile,
    pub old_text: String,
    pub new_text: String,
    pub binding: RemoteFileBinding,
}

/// Whether a file enters a review as it was captured, without its sources.
pub open spec fn is_placeholder(
    placeholder: PlaceholderFile,
    remote: RemoteCapturedFile,
    id: ReviewFileId,
) -> bool {
    &&& reviews(placeholder.file, id, remote)
    &&& placeholder.old_text@.len() == 0
    &&& placeholder.new_text@.len() == 0
    &&& placeholder.binding.file_id@ == id_chars(id.0)
    &&& placeholder.binding.file == remote
    &&& placeholder.binding.materialized == is_not_text(remote)
}

/// The indices of the captured files whose paths are in order.
pub open spec fn accepted_files(files: Seq<RemoteCapturedFile>, problems: Seq<PathProblems>) -> Seq<int>
    decreases files.len(),
{
    if files.len() == 0 {
        Seq::empty()
    } else {
        let before = accepted_files(files.drop_last(), problems);
        if path_problem(files.last(), problems[files.len() - 1]) is None {
            before.push(files.len() - 1)
        } else {
            before
        }
    }
}

/// Whether a file enters a review as the captured file at `index`.
pub open spec fn stands_for(
    placeholder: PlaceholderFile,
    index: int,
    files: Seq<RemoteCapturedFile>,
    known: Seq<KnownFile>,
    fresh: Seq<ReviewFileId>,
) -> bool {
    &&& 0 <= index < files.len()
    &&& is_placeholder(placeholder, files[index], assigned_id(known, files[index], fresh[index]))
}

/// The files with which a capture enters a review. Each keeps the id that its
/// path had; `fresh` holds an id for each file that had none. A file whose
/// paths are not in order is left out.
pub fn remote_placeholder_files(
    files: &Vec<RemoteCapturedFile>,
    problems: &Vec<PathProblems>,
    known: &Vec<KnownFile>,
    fresh: &Vec<ReviewFileId>,
) -> (placeholders: Vec<PlaceholderFile>)
    requires
        problems.len() == files.len(),
        fresh.len() == files.len(),
    ensures
        placeholders@.len() == accepted_files(files@, problems@).len(),
        forall|i: int|
            0 <= i < placeholders@.len() ==> stands_for(
                #[trigger] placeholders@[i],
                accepted_files(files@, problems@)[i],
                files@,
                known@,
                fresh@,
            ),
{
    let mut placeholders: Vec<PlaceholderFile> = Vec::new();
    let mut i: usize = 0;
    assert(files@.take(0) =~= Seq::<RemoteCapturedFile>::empty());
    while i < files.len()
        invariant
            i <= files.len(),
            problems.len() == files.len(),
            fresh.len() == files.len(),
            placeholders@.len() == accepted_files(files@.take(i as int), problems@).len(),
            forall|j: int|
                0 <= j < placeholders@.len() ==> stands_for(
                    #[trigger] placeholders@[j],
                    accepted_files(files@.take(i as int), problems@)[j],
                    files@,
                    known@,
                    fresh@,
                ),
        decreases files.len() - i,
    {
        let remote = &files[i];
        assert(files@.take(i + 1).drop_last() =~= files@.take(i as int));
        assert(files@.take(i + 1).last() == *remote);
        let mut found: Option<ReviewFileId> = find_known(known, remote.path.as_str());
        if found.is_none() {
            match &remote.old_path {
                Some(path) => {
                    found = find_known(known, path.as_str());
                },
                None => {},
            }
        }
        let id: ReviewFileId = match found {
            Some(id) => id,
            None => fresh[i],
        };
        assert(id == assigned_id(known@, *remote, fresh@[i as int]));
        match remote_review_file(id, remote, &problems[i]) {
            Ok(file) => {
                let ghost before = placeholders@;
                placeholders.push(
                    PlaceholderFile {
                        file,
                        old_text: String::new(),
                        new_text: String::new(),
                        binding: RemoteFileBinding {
                            file_id: id_text(id.0),
                            file: remote.copy(),
                            materialized: remote_file_requires_non_text(remote),
                        },
                    },
                );
                assert(forall|j: int| 0 <= j < before.len() ==> placeholders@[j] == before[j]);
            },
            Err(_) => {},
        }
        i += 1;
    }
    assert(files@.take(files.len() as int) =~= files@);
    placeholders
}

/// A file that was reviewed before keeps its id when its path, or the path it
/// had, comes up again, whatever new id is at hand.
pub proof fn law_known_files_keep_their_ids(
    known: Seq<KnownFile>,
    file: RemoteCapturedFile,
    fresh: ReviewFileId,
)
    ensures
        known_id(known, file.path@) matches Some(id) ==> assigned_id(known, file, fresh) == id,
        known_id(known, file.path@) is None && file.old_path is Some && known_id(
            known,
            file.old_path->0@,
        ) is Some ==> assigned_id(known, file, fresh) == known_id(known, file.old_path->0@)->0,
{
}

/// What is wrong with the names in a capture, if anything is.
#[derive(Debug)]
pub struct CaptureProblems {
    pub requested_base: Option<String>,
    pub base_tip_sha: Option<String>,
    pub merge_base_sha: Option<String>,
    pub head_sha: Option<String>,
    pub head: Option<String>,
}

/// The problem that refuses a capture: the first one there is.
pub open spec fn capture_problem(capture: RemoteComparisonCapture, problems: CaptureProblems) -> Option<
    Seq<char>,
> {
    if problems.requested_base is Some {
        opt_text(problems.requested_base)
    } else if problems.base_tip_sha is Some {
        opt_text(problems.base_tip_sha)
    } else if problems.merge_base_sha is Some {
        opt_text(problems.merge_base_sha)
    } else if capture.head_sha is Some && problems.head_sha is Some {
        opt_text(problems.head_sha)
    } else if capture.head is Detached {
        opt_text(problems.head)
    } else {
        None
    }
}

/// Refuses a capture with a name that is not in order.
pub fn check_capture(capture: &RemoteComparisonCapture, problems: &CaptureProblems) -> (result: Result<
    (),
    DispatchError,
>)
    ensures
        match capture_problem(*capture, *problems) {
            Some(problem) => result matches Err(error) && error.is_invalid(problem),
            None => result is Ok,
        },
{
    match &problems.requested_base {
        Some(problem) => {
            return Err(DispatchError::Invalid(problem.clone()));
        },
        None => {},
    }
    match &problems.base_tip_sha {
        Some(problem) => {
            return Err(DispatchError::Invalid(problem.clone()));
        },
        None => {},
    }
    match &problems.merge_base_sha {
        Some(problem) => {
            return Err(DispatchError::Invalid(problem.clone()));
        },
        None => {},
    }
    if capture.head_sha.is_some() {
        match &problems.head_sha {
            Some(problem) => {
                return Err(DispatchError::Invalid(problem.clone()));
            },
            None => {},
        }
    }
    match &capture.head {
        HeadState::Detached(_) => {
            match &problems.head {
                Some(problem) => {
                    return Err(DispatchError::Invalid(problem.clone()));
                },
                None => {},
            }
        },
        _ => {},
    }
    Ok(())
}

/// The text whose fingerprint stands for the working tree of a capture.
pub fn working_tree_seed(capture: &RemoteComparisonCapture) -> (seed: String)
    ensures
        seed@ == capture.capture_id@ + ":"@ + decimal(capture.generation as nat),
{
    let mut seed = capture.capture_id.clone();
    seed.append(":");
    push_wide_decimal(&mut seed, capture.generation as u128);
    seed
}

/// A captured file that Git does not know; the fingerprint of `seed` stands
/// for its contents.
#[derive(Debug)]
pub struct UntrackedSeed {
    pub path: String,
    pub seed: String,
    pub byte_len: u64,
    pub binary: bool,
}

/// Whether an entry tells of a captured file that Git does not know.
pub open spec fn tells_untracked(entry: UntrackedSeed, file: RemoteCapturedFile, capture_id: Seq<char>) -> bool {
    &&& entry.path@ == file.path@
    &&& entry.seed@ == match file.new_object_id {
        Some(id) => id@,
        None => capture_id,
    }
    &&& entry.byte_len == match file.captured_byte_len {
        Some(length) => length,
        None => 0,
    }
    &&& entry.binary == file.binary
}

/// The files of a capture that Git does not know.
pub open spec fn untracked_of(files: Seq<RemoteCapturedFile>) -> Seq<RemoteCapturedFile>
    decreases files.len(),
{
    if files.len() == 0 {
        Seq::empty()
    } else {
        let before = untracked_of(files.drop_last());
        if files.last().untracked {
            before.push(files.last())
        } else {
            before
        }
    }
}

/// Lists the files of a capture that Git does not know.
pub fn untracked_files(capture: &RemoteComparisonCapture) -> (entries: Vec<UntrackedSeed>)
    ensures
        entries@.len() == untracked_of(capture.files@).len(),
        forall|i: int|
            0 <= i < entries@.len() ==> tells_untracked(
                #[trigger] entries@[i],
                untracked_of(capture.files@)[i],
                capture.capture_id@,
            ),
{
    let ghost files = capture.files@;
    let mut entries: Vec<UntrackedSeed> = Vec::new();
    let mut i: usize = 0;
    assert(files.take(0) =~= Seq::<RemoteCapturedFile>::empty());
    while i < capture.files.len()
        invariant
            i <= capture.files.len(),
            files == capture.files@,
            entries@.len() == untracked_of(files.take(i as int)).len(),
            forall|j: int|
                0 <= j < entries@.len() ==> tells_untracked(
                    #[trigger] entries@[j],
                    untracked_of(files.take(i as int))[j],
                    capture.capture_id@,
                ),
        decreases capture.files.len() - i,
    {
        let file = &capture.files[i];
        assert(files.take(i + 1).drop_last() =~= files.take(i as int));
        if file.untracked {
            let seed = match &file.new_object_id {
                Some(id) => id.clone(),
                None => capture.capture_id.clone(),
            };
            let byte_len: u64 = match file.captured_byte_len {
                Some(length) => length,
                None => 0,
            };
            entries.push(
                UntrackedSeed { path: file.path.clone(), seed, byte_len, binary: file.binary },
            );
        }
        i += 1;
    }
    assert(files.take(files.len() as int) =~= files);
    entries
}

/// A repository that a companion found.
#[derive(Debug)]
pub struct RemoteRepository {
    pub reference: RemoteRepositoryRef,
    pub canonical_worktree: String,
    pub git_common_dir: Option<String>,
    pub primary_remote: Option<String>,
    pub head: HeadState,
}

/// The record of a repository that a companion found. `head_problem` says
/// what is wrong with the commit that is checked out, if one is.
pub fn remote_repository_record(
    id: RepositoryId,
    workspace_id: WorkspaceId,
    remote: &RemoteRepository,
    head_problem: Option<String>,
) -> (result: Result<Repository, DispatchError>)
    ensures
        if remote.head is Detached && head_problem is Some {
            result matches Err(error) && error.is_invalid(head_problem->0@)
        } else {
            result == Ok::<Repository, DispatchError>(
                Repository {
                    id,
                    workspace_id,
                    relative_path: remote.reference.relative_path,
                    worktree_path: remote.canonical_worktree,
                    git_common_dir: remote.git_common_dir,
                    normalized_primary_remote: remote.primary_remote,
                    enabled: true,
                    base_override: None,
                    current_branch: remote.head,
                    last_resolved_base_sha: None,
                    last_fetch_at: None,
                    last_fetch_error: None,
                    discovery_error: None,
                    comparison_error: None,
                },
            )
        },
{
    match &remote.head {
        HeadState::Detached(_) => {
            match head_problem {
                Some(problem) => {
                    return Err(DispatchError::Invalid(problem));
                },
                None => {},
            }
        },
        _ => {},
    }
    Ok(
        Repository {
            id,
            workspace_id,
            relative_path: remote.reference.relative_path.clone(),
            worktree_path: remote.canonical_worktree.clone(),
            git_common_dir: copy_opt(&remote.git_common_dir),
            normalized_primary_remote: copy_opt(&remote.primary_remote),
            enabled: true,
            base_override: None,
            current_branch: remote.head.copy(),
            last_resolved_base_sha: None,
            last_fetch_at: None,
            last_fetch_error: None,
            discovery_error: None,
            comparison_error: None,
        },
    )
}

/// How a connection stands.
#[derive(Debug)]
pub enum ConnectionState {
    /// There is none.
    Absent,
    /// It cannot be asked.
    Unavailable,
    /// The companion answered.
    Connected { agent_version: String, latency_millis: u128 },
    /// It is being made.
    Connecting,
    /// It broke.
    Disconnected { detail: String },
}

/// How a connection reads: in a word, and in detail. Of a broken one the last
/// error on record tells more.
pub open spec fn connection_chars(state: ConnectionState, last_error: Option<Seq<char>>) -> (
    Seq<char>,
    Seq<char>,
) {
    match state {
        ConnectionState::Absent => ("offline"@, "reconnect when ready"@),
        ConnectionState::Unavailable => ("offline"@, "connection state unavailable"@),
        ConnectionState::Connected { agent_version, latency_millis } => (
            "connected"@,
            agent_version@ + " · "@ + decimal(latency_millis as nat) + "ms"@,
        ),
        ConnectionState::Connecting => ("connecting"@, "connecting companion"@),
        ConnectionState::Disconnected { detail } => (
            "offline"@,
            match last_error {
                Some(error) => error,
                None => detail@,
            },
        ),
    }
}

/// How a connection reads.
pub fn remote_connection_view(state: &ConnectionState, last_error: Option<String>) -> (view: (
    String,
    String,
))
    ensures
        (view.0@, view.1@) == connection_chars(*state, opt_text(last_error)),
{
    match state {
        ConnectionState::Absent => ("offline".to_owned(), "reconnect when ready".to_owned()),
        ConnectionState::Unavailable => (
            "offline".to_owned(),
            "connection state unavailable".to_owned(),
        ),
        ConnectionState::Connected { agent_version, latency_millis } => {
            let mut detail = agent_version.clone();
            detail.append(" · ");
            push_wide_decimal(&mut detail, *latency_millis);
            detail.append("ms");
            ("connected".to_owned(), detail)
        },
        ConnectionState::Connecting => (
            "connecting".to_owned(),
            "connecting companion".to_owned(),
        ),
        ConnectionState::Disconnected { detail } => {
            let text = match last_error {
                Some(error) => error,
                None => detail.clone(),
            };
            ("offline".to_owned(), text)
        },
    }
}

/// Whether a connection can be used again.
pub fn connection_is_usable(state: &ConnectionState) -> (usable: bool)
    ensures
        usable == (state is Connected || state is Connecting),
{
    match state {
        ConnectionState::Connected { .. } => true,
        ConnectionState::Connecting => true,
        _ => false,
    }
}

} // verus!
