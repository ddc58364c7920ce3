//! Workspaces: how they are found, renamed, archived and shown.
use crate::annotations::{Annotation, AnnotationState, PublicationState};
use crate::errors::{invalid, not_found, DispatchError};
use crate::ids::{id_chars, id_text, parse_workspace_id, parsed_id, ReviewFileId, WorkspaceId};
use crate::refresh::RefreshAvailability;
use crate::remote::{
    companion_chars, connection_chars, remote_companion_status_detail, remote_connection_view,
    ConnectionState, RemoteTarget, RemoteWorkspaceMetadata,
};
use crate::repositories::SourceKind;
use crate::source_lines::slice_bytes;
use crate::text::{
    char_count, copy_opt, decimal, decimal_text, has_control_code, holds_control_code, opt_text,
    push_wide_decimal, text_eq, texts, trim_text, trimmed,
};
use crate::text_set::TextSet;
use crate::time::Timestamp;
use crate::views::{ReviewProgress, WorkspaceView};
use vstd::prelude::*;
use vstd::string::*;
use vstd::utf8::*;

verus! {

/// Where the source of a workspace lies.
#[derive(Debug)]
pub enum WorkspaceSource {
    LocalDirectory { root: String },
    RemoteDirectory { host: String, root: String },
    PullRequest { url: String, number: u64 },
}

impl WorkspaceSource {
    /// The kind of the source.
    pub open spec fn kind_of(self) -> SourceKind {
        match self {
            WorkspaceSource::LocalDirectory { .. } => SourceKind::Local,
            WorkspaceSource::RemoteDirectory { .. } => SourceKind::Remote,
            WorkspaceSource::PullRequest { .. } => SourceKind::PullRequest,
        }
    }

    /// The kind of the source.
    pub fn kind(&self) -> (kind: SourceKind)
        ensures
            kind == self.kind_of(),
    {
        match self {
            WorkspaceSource::LocalDirectory { .. } => SourceKind::Local,
            WorkspaceSource::RemoteDirectory { .. } => SourceKind::Remote,
            WorkspaceSource::PullRequest { .. } => SourceKind::PullRequest,
        }
    }
}

/// A workspace.
#[derive(Debug)]
pub struct Workspace {
    pub id: WorkspaceId,
    pub display_name: String,
    pub source: WorkspaceSource,
    pub default_base: String,
    pub pinned: bool,
    pub archived_at: Option<Timestamp>,
    pub created_at: Timestamp,
    pub updated_at: Timestamp,
}

/// Whether a workspace is open and has a name.
pub open spec fn is_open_as(workspace: Workspace, name: Seq<char>) -> bool {
    workspace.archived_at is None && workspace.display_name@ == name
}

/// How many workspaces are open and have a name.
pub open spec fn open_count(workspaces: Seq<Workspace>, name: Seq<char>) -> nat
    decreases workspaces.len(),
{
    if workspaces.len() == 0 {
        0
    } else {
        open_count(workspaces.drop_last(), name) + if is_open_as(workspaces.last(), name) {
            1nat
        } else {
            0
        }
    }
}

/// The first workspace with an id.
pub open spec fn position_of(workspaces: Seq<Workspace>, id: u128) -> Option<int>
    decreases workspaces.len(),
{
    if workspaces.len() == 0 {
        None
    } else {
        let before = position_of(workspaces.drop_last(), id);
        if before is Some {
            before
        } else if workspaces.last().id.0 == id {
            Some(workspaces.len() - 1)
        } else {
            None
        }
    }
}

/// The position of the workspace whose id a text is.
pub open spec fn selected_by_id(workspaces: Seq<Workspace>, selector: Seq<char>) -> Option<int> {
    match parsed_id(selector) {
        Some(id) => position_of(workspaces, id),
        None => None,
    }
}

fn find_by_id(workspaces: &Vec<Workspace>, id: WorkspaceId) -> (found: Option<usize>)
    ensures
        match position_of(workspaces@, id.0) {
            Some(index) => found matches Some(place) && place == index && place < workspaces.len(),
            None => found is None,
        },
{
    let mut found: Option<usize> = None;
    let mut i: usize = 0;
    assert(workspaces@.take(0) =~= Seq::<Workspace>::empty());
    while i < workspaces.len()
        invariant
            i <= workspaces.len(),
            match position_of(workspaces@.take(i as int), id.0) {
                Some(index) => found matches Some(place) && place == index && place < i,
                None => found is None,
            },
        decreases workspaces.len() - i,
    {
        assert(workspaces@.take(i + 1).drop_last() =~= workspaces@.take(i as int));
        if found.is_none() && workspaces[i].id == id {
            found = Some(i);
        }
        i += 1;
    }
    assert(workspaces@.take(workspaces.len() as int) =~= workspaces@);
    found
}

/// Finds the workspace that a selector means: the one with this id, or else
/// the one open workspace with this name.
pub fn focus_workspace(workspaces: &Vec<Workspace>, selector: &str) -> (result: Result<
    usize,
    DispatchError,
>)
    ensures
        match selected_by_id(workspaces@, selector@) {
            Some(index) => if workspaces@[index].archived_at is Some {
                result matches Err(error) && error.is_invalid(
                    "workspace is archived; reopen it from Review history or open its local path again"@,
                )
            } else {
                result matches Ok(place) && place == index
            },
            None => if open_count(workspaces@, selector@) == 0 {
                result matches Err(error) && error.is_not_found(selector@)
            } else if open_count(workspaces@, selector@) == 1 {
                result matches Ok(place) && place < workspaces@.len() && is_open_as(
                    workspaces@[place as int],
                    selector@,
                )
            } else {
                result matches Err(error) && error.is_ambiguous(selector@)
            },
        },
{
    match parse_workspace_id(selector) {
        Some(id) => {
            match find_by_id(workspaces, id) {
                Some(place) => {
                    if workspaces[place].archived_at.is_some() {
                        return Err(
                            invalid(
                                "workspace is archived; reopen it from Review history or open its local path again",
                            ),
                        );
                    }
                    return Ok(place);
                },
                None => {},
            }
        },
        None => {},
    }
    let mut count: usize = 0;
    let mut place: usize = 0;
    let mut i: usize = 0;
    assert(workspaces@.take(0) =~= Seq::<Workspace>::empty());
    while i < workspaces.len()
        invariant
            i <= workspaces.len(),
            count <= i,
            count == open_count(workspaces@.take(i as int), selector@),
            count > 0 ==> place < i && is_open_as(workspaces@[place as int], selector@),
        decreases workspaces.len() - i,
    {
        assert(workspaces@.take(i + 1).drop_last() =~= workspaces@.take(i as int));
        if workspaces[i].archived_at.is_none() && text_eq(
            workspaces[i].display_name.as_str(),
            selector,
        ) {
            count += 1;
            place = i;
        }
        i += 1;
    }
    assert(workspaces@.take(workspaces.len() as int) =~= workspaces@);
    if count == 0 {
        Err(not_found(selector))
    } else if count == 1 {
        Ok(place)
    } else {
        Err(DispatchError::Ambiguous(selector.to_owned()))
    }
}

/// Where one open workspace alone has a name, no other does.
pub proof fn law_focused_name_is_unambiguous(
    workspaces: Seq<Workspace>,
    name: Seq<char>,
    a: int,
    b: int,
)
    requires
        open_count(workspaces, name) == 1,
        0 <= a < workspaces.len(),
        0 <= b < workspaces.len(),
        is_open_as(workspaces[a], name),
        is_open_as(workspaces[b], name),
    ensures
        a == b,
{
    if a < b {
        lemma_two_open(workspaces, name, a, b);
    } else if b < a {
        lemma_two_open(workspaces, name, b, a);
    }
}

proof fn lemma_one_open(workspaces: Seq<Workspace>, name: Seq<char>, a: int)
    requires
        0 <= a < workspaces.len(),
        is_open_as(workspaces[a], name),
    ensures
        open_count(workspaces, name) >= 1,
    decreases workspaces.len(),
{
    if a < workspaces.len() - 1 {
        lemma_one_open(workspaces.drop_last(), name, a);
    }
}

proof fn lemma_two_open(workspaces: Seq<Workspace>, name: Seq<char>, a: int, b: int)
    requires
        0 <= a < b < workspaces.len(),
        is_open_as(workspaces[a], name),
        is_open_as(workspaces[b], name),
    ensures
        open_count(workspaces, name) >= 2,
    decreases workspaces.len(),
{
    if b < workspaces.len() - 1 {
        lemma_two_open(workspaces.drop_last(), name, a, b);
    } else {
        lemma_one_open(workspaces.drop_last(), name, a);
    }
}

/// Whether a workspace is the remote directory of a target, and open.
pub open spec fn is_open_target(workspace: Workspace, target: RemoteTarget) -> bool {
    &&& workspace.source matches WorkspaceSource::RemoteDirectory { host, root } && host@
        == target.host@ && root@ == target.root@
    &&& workspace.archived_at is None
}

/// Whether a place is that of the first open workspace of a target, if there
/// is one.
pub open spec fn is_found_target(
    found: Option<usize>,
    workspaces: Seq<Workspace>,
    target: RemoteTarget,
) -> bool {
    match found {
        Some(place) => {
            &&& place < workspaces.len()
            &&& is_open_target(workspaces[place as int], target)
            &&& forall|i: int|
                0 <= i < place ==> !is_open_target(#[trigger] workspaces[i], target)
        },
        None => forall|i: int|
            0 <= i < workspaces.len() ==> !is_open_target(#[trigger] workspaces[i], target),
    }
}

/// Finds the first open workspace of a target.
pub fn find_remote_workspace(workspaces: &Vec<Workspace>, target: &RemoteTarget) -> (found: Option<
    usize,
>)
    ensures
        is_found_target(found, workspaces@, *target),
{
    let mut i: usize = 0;
    while i < workspaces.len()
        invariant
            i <= workspaces.len(),
            forall|j: int| 0 <= j < i ==> !is_open_target(#[trigger] workspaces@[j], *target),
        decreases workspaces.len() - i,
    {
        let workspace = &workspaces[i];
        let same: bool = match &workspace.source {
            WorkspaceSource::RemoteDirectory { host, root } => text_eq(
                host.as_str(),
                target.host.as_str(),
            ) && text_eq(root.as_str(), target.root.as_str()),
            _ => false,
        };
        if same && workspace.archived_at.is_none() {
            return Some(i);
        }
        i += 1;
    }
    None
}

/// How many characters the name of a workspace has at most.
pub const MAX_NAME_CHARS: usize = 120;

/// Why a name is refused.
pub open spec fn name_problem(name: Seq<char>) -> Option<Seq<char>> {
    if name.len() == 0 || name.len() > MAX_NAME_CHARS {
        Some("workspace name must contain between 1 and 120 characters"@)
    } else if has_control_code(name) {
        Some("workspace name cannot contain control characters"@)
    } else {
        None
    }
}

/// Why a change of the name and the pin of a workspace is refused.
pub open spec fn metadata_problem(workspace: Workspace, display_name: Option<String>) -> Option<
    Seq<char>,
> {
    if workspace.archived_at is Some {
        Some("reopen an archived workspace before changing its rail metadata"@)
    } else {
        match display_name {
            Some(name) => name_problem(trimmed(name@)),
            None => None,
        }
    }
}

/// Gives a workspace a new name or pin. White space around the name does not
/// count.
pub fn update_workspace_metadata(
    workspace: Workspace,
    display_name: Option<String>,
    pinned: Option<bool>,
    now: Timestamp,
) -> (result: Result<Workspace, DispatchError>)
    ensures
        match metadata_problem(workspace, display_name) {
            Some(problem) => result matches Err(error) && error.is_invalid(problem),
            None => result matches Ok(updated) && {
                &&& updated.display_name@ == match display_name {
                    Some(name) => trimmed(name@),
                    None => workspace.display_name@,
                }
                &&& updated == (Workspace {
                    display_name: updated.display_name,
                    pinned: match pinned {
                        Some(choice) => choice,
                        None => workspace.pinned,
                    },
                    updated_at: now,
                    ..workspace
                })
            },
        },
{
    if workspace.archived_at.is_some() {
        return Err(invalid("reopen an archived workspace before changing its rail metadata"));
    }
    let mut updated = workspace;
    match display_name {
        Some(given) => {
            let name = trim_text(given.as_str());
            let count: usize = char_count(name.as_str());
            if count == 0 || count > MAX_NAME_CHARS {
                return Err(invalid("workspace name must contain between 1 and 120 characters"));
            }
            if holds_control_code(name.as_str()) {
                return Err(invalid("workspace name cannot contain control characters"));
            }
            updated.display_name = name;
        },
        None => {},
    }
    match pinned {
        Some(choice) => {
            updated.pinned = choice;
        },
        None => {},
    }
    updated.updated_at = now;
    Ok(updated)
}

/// Opens an archived workspace again.
pub fn reopen_archived_workspace(workspace: Workspace, now: Timestamp) -> (result: Result<
    Workspace,
    DispatchError,
>)
    ensures
        if workspace.archived_at is None {
            result matches Err(error) && error.is_invalid(
                "workspace is already open in the workspace rail"@,
            )
        } else {
            result == Ok::<Workspace, DispatchError>(
                Workspace { archived_at: None, updated_at: now, ..workspace },
            )
        },
{
    if workspace.archived_at.is_none() {
        return Err(invalid("workspace is already open in the workspace rail"));
    }
    let mut reopened = workspace;
    reopened.archived_at = None;
    reopened.updated_at = now;
    Ok(reopened)
}

/// Archives a workspace.
pub fn archived_workspace(workspace: Workspace, now: Timestamp) -> (archived: Workspace)
    ensures
        archived == (Workspace { archived_at: Some(now), updated_at: now, ..workspace }),
{
    let mut archived = workspace;
    archived.archived_at = Some(now);
    archived.updated_at = now;
    archived
}

/// A workspace that was archived and opened again is what it was, but for the
/// time of its last change.
pub proof fn law_reopening_undoes_archiving(workspace: Workspace, archived: Workspace, now: Timestamp)
    requires
        workspace.archived_at is None,
        archived == (Workspace { archived_at: Some(now), updated_at: now, ..workspace }),
    ensures
        (Workspace { archived_at: None, updated_at: now, ..archived }) == (Workspace {
            updated_at: now,
            ..workspace
        }),
{
}

/// The indices of the workspaces that are archived, or of those that are not.
pub open spec fn listed_workspaces(workspaces: Seq<Workspace>, archived: bool) -> Seq<usize>
    decreases workspaces.len(),
{
    if workspaces.len() == 0 {
        Seq::empty()
    } else {
        let before = listed_workspaces(workspaces.drop_last(), archived);
        if (workspaces.last().archived_at is Some) == archived {
            before.push((workspaces.len() - 1) as usize)
        } else {
            before
        }
    }
}

/// Lists the workspaces that are archived, or those that are not.
pub fn list_workspaces(workspaces: &Vec<Workspace>, archived: bool) -> (indices: Vec<usize>)
    ensures
        indices@ == listed_workspaces(workspaces@, archived),
{
    let mut indices: Vec<usize> = Vec::new();
    let mut i: usize = 0;
    assert(workspaces@.take(0) =~= Seq::<Workspace>::empty());
    while i < workspaces.len()
        invariant
            i <= workspaces.len(),
            indices@ == listed_workspaces(workspaces@.take(i as int), archived),
        decreases workspaces.len() - i,
    {
        assert(workspaces@.take(i + 1).drop_last() =~= workspaces@.take(i as int));
        if workspaces[i].archived_at.is_some() == archived {
            indices.push(i);
        }
        i += 1;
    }
    assert(workspaces@.take(workspaces.len() as int) =~= workspaces@);
    indices
}

/// A mark that tells where the source of a workspace lies.
#[derive(Clone, Copy, Debug, PartialEq, Eq, Structural)]
pub enum WorkspaceSourceTag {
    GitHub,
    Local,
    Ssh,
}

/// The name of a mark.
pub open spec fn tag_chars(tag: WorkspaceSourceTag) -> Seq<char> {
    match tag {
        WorkspaceSourceTag::GitHub => "github"@,
        WorkspaceSourceTag::Local => "local"@,
        WorkspaceSourceTag::Ssh => "ssh"@,
    }
}

/// The name of a mark.
pub fn source_name(source: WorkspaceSourceTag) -> (name: &'static str)
    ensures
        name@ == tag_chars(source),
{
    match source {
        WorkspaceSourceTag::GitHub => "github",
        WorkspaceSourceTag::Local => "local",
        WorkspaceSourceTag::Ssh => "ssh",
    }
}

/// The mark that a text names.
pub open spec fn named_tag(name: Seq<char>) -> Option<WorkspaceSourceTag> {
    if name == "github"@ {
        Some(WorkspaceSourceTag::GitHub)
    } else if name == "local"@ {
        Some(WorkspaceSourceTag::Local)
    } else if name == "ssh"@ {
        Some(WorkspaceSourceTag::Ssh)
    } else {
        None
    }
}

/// The marks that some texts name; texts that name none are left out.
pub open spec fn named_tags(names: Seq<String>) -> Seq<WorkspaceSourceTag>
    decreases names.len(),
{
    if names.len() == 0 {
        Seq::empty()
    } else {
        let before = named_tags(names.drop_last());
        match named_tag(names.last()@) {
            Some(tag) => before.push(tag),
            None => before,
        }
    }
}

/// The names of marks read back as the marks.
pub proof fn law_source_names_read_back(tag: WorkspaceSourceTag)
    ensures
        named_tag(tag_chars(tag)) == Some(tag),
{
    reveal_strlit("github");
    reveal_strlit("local");
    reveal_strlit("ssh");
    assert("github"@[0] == 'g');
    assert("local"@[0] == 'l');
    assert("ssh"@[0] == 's');
}

/// What a client of the desktop is told of a workspace.
#[derive(Debug)]
pub struct WorkspaceSummary {
    pub id: String,
    pub name: String,
    pub source_tags: Vec<WorkspaceSourceTag>,
    pub available: bool,
    pub location: Option<String>,
}

/// Sums a workspace up for a client of the desktop.
pub fn protocol_summary(workspace: &WorkspaceView) -> (summary: WorkspaceSummary)
    ensures
        summary.id@ == workspace.id@,
        summary.name@ == workspace.name@,
        summary.source_tags@ == named_tags(workspace.source@),
        summary.available == (workspace.connection@ == "connected"@),
        opt_text(summary.location) == Some(workspace.location@),
{
    let ghost names = workspace.source@;
    let mut source_tags: Vec<WorkspaceSourceTag> = Vec::new();
    let mut i: usize = 0;
    assert(names.take(0) =~= Seq::<String>::empty());
    while i < workspace.source.len()
        invariant
            i <= workspace.source.len(),
            names == workspace.source@,
            source_tags@ == named_tags(names.take(i as int)),
        decreases workspace.source.len() - i,
    {
        assert(names.take(i + 1).drop_last() =~= names.take(i as int));
        let name: &str = workspace.source[i].as_str();
        if text_eq(name, "github") {
            source_tags.push(WorkspaceSourceTag::GitHub);
        } else if text_eq(name, "local") {
            source_tags.push(WorkspaceSourceTag::Local);
        } else if text_eq(name, "ssh") {
            source_tags.push(WorkspaceSourceTag::Ssh);
        }
        i += 1;
    }
    assert(names.take(names.len() as int) =~= names);
    WorkspaceSummary {
        id: workspace.id.clone(),
        name: workspace.name.clone(),
        source_tags,
        available: text_eq(workspace.connection.as_str(), "connected"),
        location: Some(workspace.location.clone()),
    }
}

/// How many files have an id that is in a set.
pub open spec fn viewed_count(files: Seq<ReviewFileId>, viewed: Set<Seq<char>>) -> nat
    decreases files.len(),
{
    if files.len() == 0 {
        0
    } else {
        viewed_count(files.drop_last(), viewed) + if viewed.contains(id_chars(files.last().0)) {
            1nat
        } else {
            0
        }
    }
}

/// How far a review has come: how many of its files were viewed.
pub fn review_progress(files: &Vec<ReviewFileId>, viewed: &TextSet) -> (progress: ReviewProgress)
    requires
        viewed.wf(),
    ensures
        progress.total == files@.len(),
        progress.viewed == viewed_count(files@, viewed@),
        progress.viewed <= progress.total,
{
    let mut count: usize = 0;
    let mut i: usize = 0;
    assert(files@.take(0) =~= Seq::<ReviewFileId>::empty());
    while i < files.len()
        invariant
            viewed.wf(),
            i <= files.len(),
            count <= i,
            count == viewed_count(files@.take(i as int), viewed@),
        decreases files.len() - i,
    {
        assert(files@.take(i + 1).drop_last() =~= files@.take(i as int));
        if viewed.contains(id_text(files[i].0).as_str()) {
            count += 1;
        }
        i += 1;
    }
    assert(files@.take(files.len() as int) =~= files@);
    ReviewProgress { viewed: count, total: files.len() }
}

/// Whether an annotation still waits to be dealt with and published.
pub open spec fn is_draft(annotation: Annotation) -> bool {
    annotation.state == AnnotationState::Open && annotation.publication_state
        != PublicationState::Published
}

/// How many annotations still wait to be dealt with and published.
pub open spec fn draft_total(annotations: Seq<Annotation>) -> nat
    decreases annotations.len(),
{
    if annotations.len() == 0 {
        0
    } else {
        draft_total(annotations.drop_last()) + if is_draft(annotations.last()) {
            1nat
        } else {
            0
        }
    }
}

/// Counts the annotations that still wait to be dealt with and published.
pub fn draft_count(annotations: &Vec<Annotation>) -> (count: usize)
    ensures
        count == draft_total(annotations@),
{
    let mut count: usize = 0;
    let mut i: usize = 0;
    assert(annotations@.take(0) =~= Seq::<Annotation>::empty());
    while i < annotations.len()
        invariant
            i <= annotations.len(),
            count <= i,
            count == draft_total(annotations@.take(i as int)),
        decreases annotations.len() - i,
    {
        assert(annotations@.take(i + 1).drop_last() =~= annotations@.take(i as int));
        if annotations[i].state == AnnotationState::Open && annotations[i].publication_state
            != PublicationState::Published {
            count += 1;
        }
        i += 1;
    }
    assert(annotations@.take(annotations.len() as int) =~= annotations@);
    count
}

/// What is on record of the pull request of a workspace.
#[derive(Debug)]
pub struct PinnedPullRequest {
    pub number: u64,
    pub pinned_head_sha: String,
}

/// What is known of a workspace beside its own record.
#[derive(Debug)]
pub enum WorkspaceFacts {
    /// Of a local one: how many repositories it has.
    Local { repository_count: usize },
    /// Of a pull request: what is on record of it.
    PullRequest { pinned: Option<PinnedPullRequest> },
    /// Of a remote one: its record, how many repositories it has, and how the
    /// connection stands.
    Remote {
        metadata: Option<RemoteWorkspaceMetadata>,
        repository_count: usize,
        connection: ConnectionState,
    },
}

/// How many bytes of a pinned commit are shown.
pub const SHORT_SHA_BYTES: usize = 7;

/// Whether the facts are about the kind of workspace that it is, and a pinned
/// commit is long enough to be cut short.
pub open spec fn facts_fit(source: WorkspaceSource, facts: WorkspaceFacts) -> bool {
    match source {
        WorkspaceSource::LocalDirectory { .. } => facts is Local,
        WorkspaceSource::RemoteDirectory { .. } => facts is Remote,
        WorkspaceSource::PullRequest { .. } => facts matches WorkspaceFacts::PullRequest { pinned }
            && (pinned matches Some(review) ==> is_char_boundary(
            encode_utf8(review.pinned_head_sha@),
            SHORT_SHA_BYTES as int,
        )),
    }
}

/// How a pull request reads.
pub open spec fn pull_request_chars(number: u64, pinned: Option<PinnedPullRequest>) -> Seq<char> {
    match pinned {
        Some(review) => "GitHub PR #"@ + decimal(review.number as nat) + " · pinned "@
            + decode_utf8(
            encode_utf8(review.pinned_head_sha@).subrange(0, SHORT_SHA_BYTES as int),
        ),
        None => "GitHub pull request #"@ + decimal(number as nat),
    }
}

/// How the record of a remote workspace reads.
pub open spec fn record_chars(metadata: Option<RemoteWorkspaceMetadata>, repository_count: nat) -> Seq<
    char,
> {
    match metadata {
        Some(record) => decimal(record.captures@.len()) + " · "@ + (match record.agent_version {
            Some(version) => version@,
            None => "unknown agent"@,
        }) + (match record.latency_millis {
            Some(latency) => " · "@ + decimal(latency as nat) + "ms"@,
            None => ""@,
        }) + (if record.stale {
            " · Refresh required"@
        } else {
            ""@
        }) + (match record.companion {
            Some(status) => " · "@ + companion_chars(status),
            None => ""@,
        }),
        None => decimal(repository_count) + " remote repositories"@,
    }
}

/// The last error on record of a remote workspace.
pub open spec fn recorded_error(metadata: Option<RemoteWorkspaceMetadata>) -> Option<Seq<char>> {
    match metadata {
        Some(record) => opt_text(record.last_error),
        None => None,
    }
}

/// Where a workspace is, what is to be said of it, whether it is out of date
/// by its own record, and how its connection reads.
pub open spec fn described(source: WorkspaceSource, facts: WorkspaceFacts) -> (
    Seq<char>,
    Seq<char>,
    bool,
    Seq<char>,
) {
    match (source, facts) {
        (WorkspaceSource::PullRequest { url, number }, WorkspaceFacts::PullRequest { pinned }) => (
            url@,
            pull_request_chars(number, pinned),
            false,
            "connected"@,
        ),
        (
            WorkspaceSource::RemoteDirectory { host, root },
            WorkspaceFacts::Remote { metadata, repository_count, connection },
        ) => (
            host@ + ":"@ + root@,
            record_chars(metadata, repository_count as nat) + " · "@ + connection_chars(
                connection,
                recorded_error(metadata),
            ).1,
            metadata matches Some(record) && record.stale,
            connection_chars(connection, recorded_error(metadata)).0,
        ),
        (
            WorkspaceSource::LocalDirectory { root },
            WorkspaceFacts::Local { repository_count },
        ) => (
            root@,
            decimal(repository_count as nat) + " repositories"@,
            false,
            "connected"@,
        ),
        _ => (Seq::empty(), Seq::empty(), false, Seq::empty()),
    }
}

fn describe_record(metadata: &Option<RemoteWorkspaceMetadata>, repository_count: usize) -> (text:
    String)
    ensures
        text@ == record_chars(*metadata, repository_count as nat),
{
    match metadata {
        Some(record) => {
            let mut text = decimal_text(record.captures.len() as u64);
            text.append(" · ");
            match &record.agent_version {
                Some(version) => {
                    text.append(version.as_str());
                },
                None => {
                    text.append("unknown agent");
                },
            }
            match record.latency_millis {
                Some(latency) => {
                    let mut part = " · ".to_owned();
                    push_wide_decimal(&mut part, latency);
                    part.append("ms");
                    text.append(part.as_str());
                },
                None => {
                    text.append("");
                },
            }
            if record.stale {
                text.append(" · Refresh required");
            } else {
                text.append("");
            }
            match &record.companion {
                Some(status) => {
                    let mut part = " · ".to_owned();
                    part.append(remote_companion_status_detail(status).as_str());
                    text.append(part.as_str());
                },
                None => {
                    text.append("");
                },
            }
            text
        },
        None => {
            let mut text = decimal_text(repository_count as u64);
            text.append(" remote repositories");
            text
        },
    }
}

fn describe(source: &WorkspaceSource, facts: &WorkspaceFacts) -> (description: (
    String,
    String,
    bool,
    String,
))
    requires
        facts_fit(*source, *facts),
    ensures
        (description.0@, description.1@, description.2, description.3@) == described(
            *source,
            *facts,
        ),
{
    match (source, facts) {
        (WorkspaceSource::PullRequest { url, number }, WorkspaceFacts::PullRequest { pinned }) => {
            let detail = match pinned {
                Some(review) => {
                    let mut text = "GitHub PR #".to_owned();
                    push_wide_decimal(&mut text, review.number as u128);
                    text.append(" · pinned ");
                    let sha: &str = review.pinned_head_sha.as_str();
                    proof {
                        encode_utf8_valid_utf8(sha@);
                        is_char_boundary_start_end_of_seq(sha.spec_bytes());
                    }
                    text.append(slice_bytes(sha, 0, SHORT_SHA_BYTES));
                    text
                },
                None => {
                    let mut text = "GitHub pull request #".to_owned();
                    push_wide_decimal(&mut text, *number as u128);
                    text
                },
            };
            (url.clone(), detail, false, "connected".to_owned())
        },
        (
            WorkspaceSource::RemoteDirectory { host, root },
            WorkspaceFacts::Remote { metadata, repository_count, connection },
        ) => {
            let last_error: Option<String> = match metadata {
                Some(record) => copy_opt(&record.last_error),
                None => None,
            };
            let stale: bool = match metadata {
                Some(record) => record.stale,
                None => false,
            };
            let (word, agent_detail) = remote_connection_view(connection, last_error);
            let mut location = host.clone();
            location.append(":");
            location.append(root.as_str());
            let mut detail = describe_record(metadata, *repository_count);
            detail.append(" · ");
            detail.append(agent_detail.as_str());
            (location, detail, stale, word)
        },
        (WorkspaceSource::LocalDirectory { root }, WorkspaceFacts::Local { repository_count }) => {
            let mut detail = decimal_text(*repository_count as u64);
            detail.append(" repositories");
            (root.clone(), detail, false, "connected".to_owned())
        },
        _ => {
            let none = String::new();
            (String::new(), String::new(), false, none)
        },
    }
}

/// What is known of the active review of a workspace: its files, those that
/// were viewed, and its annotations.
#[derive(Debug)]
pub struct ActiveReview {
    pub files: Vec<ReviewFileId>,
    pub viewed: TextSet,
    pub annotations: Vec<Annotation>,
}

/// The names of some marks.
pub open spec fn tag_names(tags: Seq<WorkspaceSourceTag>) -> Seq<Seq<char>> {
    tags.map_values(|tag: WorkspaceSourceTag| tag_chars(tag))
}

/// Whether a view shows a workspace.
pub open spec fn is_workspace_view(
    view: WorkspaceView,
    workspace: Workspace,
    tags: Seq<WorkspaceSourceTag>,
    review: Option<ActiveReview>,
    availability: RefreshAvailability,
    facts: WorkspaceFacts,
) -> bool {
    let (location, detail, stale, connection) = described(workspace.source, facts);
    &&& view.id@ == id_chars(workspace.id.0)
    &&& view.name@ == workspace.display_name@
    &&& texts(view.source@) == tag_names(tags)
    &&& view.location@ == location
    &&& view.detail@ == detail
    &&& view.default_base@ == workspace.default_base@
    &&& match review {
        Some(active) => {
            &&& view.progress.viewed == viewed_count(active.files@, active.viewed@)
            &&& view.progress.total == active.files@.len()
            &&& view.draft_count == draft_total(active.annotations@)
        },
        None => view.progress.viewed == 0 && view.progress.total == 0 && view.draft_count == 0,
    }
    &&& view.pinned == workspace.pinned
    &&& view.refresh_available == (stale || availability.available)
    &&& view.refresh_available_revision == availability.revision
    &&& view.connection@ == connection
    &&& view.review_ready == (review is Some)
    &&& view.archived == (workspace.archived_at is Some)
}

fn name_tags(tags: &Vec<WorkspaceSourceTag>) -> (names: Vec<String>)
    ensures
        texts(names@) == tag_names(tags@),
{
    let mut names: Vec<String> = Vec::new();
    while names.len() < tags.len()
        invariant
            names.len() <= tags.len(),
            texts(names@) =~= tag_names(tags@).take(names.len() as int),
        decreases tags.len() - names.len(),
    {
        let ghost before = texts(names@);
        let tag: WorkspaceSourceTag = tags[names.len()];
        names.push(source_name(tag).to_owned());
        assert(texts(names@) =~= before.push(tag_chars(tag)));
    }
    assert(texts(names@) =~= tag_names(tags@));
    names
}

/// Shows a workspace.
pub fn workspace_view(
    workspace: &Workspace,
    tags: &Vec<WorkspaceSourceTag>,
    review: &Option<ActiveReview>,
    availability: RefreshAvailability,
    facts: &WorkspaceFacts,
) -> (view: WorkspaceView)
    requires
        facts_fit(workspace.source, *facts),
        review matches Some(active) ==> active.viewed.wf(),
    ensures
        is_workspace_view(view, *workspace, tags@, *review, availability, *facts),
{
    let (location, detail, stale, connection) = describe(&workspace.source, facts);
    let progress = match review {
        Some(active) => review_progress(&active.files, &active.viewed),
        None => ReviewProgress { viewed: 0, total: 0 },
    };
    let drafts: usize = match review {
        Some(active) => draft_count(&active.annotations),
        None => 0,
    };
    WorkspaceView {
        id: id_text(workspace.id.0),
        name: workspace.display_name.clone(),
        source: name_tags(tags),
        location,
        detail,
        default_base: workspace.default_base.clone(),
        progress,
        draft_count: drafts,
        pinned: workspace.pinned,
        refresh_available: stale || availability.available,
        refresh_available_revision: availability.revision,
        connection,
        review_ready: review.is_some(),
        archived: workspace.archived_at.is_some(),
    }
}

} // verus!
