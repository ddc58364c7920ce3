//! What is done, in which order, and what it comes to.
use crate::annotations::{Annotation, AnnotationState, PublicationState};
use crate::difftastic::DifftasticPresentation;
use crate::document::{DiffSide, ReviewDiffDocument, ReviewFileStatus};
use crate::errors::DispatchError;
use crate::flows::{plan_archive, plan_deletion, plan_refresh, plan_start, CaptureStep, RemovalStep};
use crate::history::{annotation_total, checkpoint_item, sets_annotation_count, RecordedSet};
use crate::ids::{id_chars, RepositoryId, WorkspaceId};
use crate::present::resolve_presentation_location;
use crate::presentation::{ephemeral_state, PresentationRequest};
use crate::presentation_cache::PresentationCache;
use crate::remote::{
    parse_remote_target, remote_repository_record, remote_result_error, remote_workspace_name,
    AgentErrorCode, RemoteRepository, RemoteTarget, RemoteWorkspaceMetadata, UnexpectedReply,
};
use crate::remote_open::opened_workspace;
use crate::remote_refresh::{next_refresh_action, RefreshAction, RefreshEvent};
use crate::remote_review::{
    known_repository, repository_at, watcher_readiness, Promotion, RefreshResult, RefreshRun,
    WatcherReport,
};
use crate::repositories::{
    head_text, note_fetch, repository_base, HeadState, Repository, SourceKind,
};
use crate::review::file_view;
use crate::rpc::{operation_for_event, LocalCommand};
use crate::split::{cut, law_cut_loses_only_the_separator, pieces};
use crate::text::texts;
use crate::time::Timestamp;
use crate::ui_state::ReviewUiState;
use crate::views::{DesktopOperation, PresentationLocation, ReviewFileView, ReviewHistoryItem};
use crate::workspace::{draft_count, draft_total, find_remote_workspace, Workspace, WorkspaceSource};
use std::sync::Arc;
use vstd::prelude::*;
use vstd::string::*;

verus! {

/// Archiving puts the workspace on record as archived, or deletes the checkout
/// that a pull request was given, which does; either way its changes are
/// forgotten and nothing of its records is purged.
pub proof fn law_archived_workspaces_are_put_on_record(
    source: SourceKind,
    checkout_exists: bool,
    steps: Vec<RemovalStep>,
)
    requires
        call_ensures(plan_archive, (source, checkout_exists), steps),
    ensures
        steps@.contains(RemovalStep::DeleteCheckout) <==> source == SourceKind::PullRequest
            && checkout_exists,
        steps@.contains(RemovalStep::ArchiveRecord) <==> !(source == SourceKind::PullRequest
            && checkout_exists),
        steps@.contains(RemovalStep::ForgetChanges),
        !steps@.contains(RemovalStep::PurgeRecords),
        steps@.contains(RemovalStep::StopRemoteWatchers) <==> source == SourceKind::Remote,
        steps@.contains(RemovalStep::DropRemoteSession) <==> source == SourceKind::Remote,
        source == SourceKind::Local ==> steps@.contains(RemovalStep::DropLocalWatcher),
{
    let list = steps@;
    if source == SourceKind::PullRequest {
        assert(list[1] == RemovalStep::ForgetChanges);
        if checkout_exists {
            assert(list[0] == RemovalStep::DeleteCheckout);
        } else {
            assert(list[0] == RemovalStep::ArchiveRecord);
        }
    } else if source == SourceKind::Remote {
        assert(list[0] == RemovalStep::StopRemoteWatchers);
        assert(list[1] == RemovalStep::DropRemoteSession);
        assert(list[2] == RemovalStep::ArchiveRecord);
        assert(list[4] == RemovalStep::ForgetChanges);
    } else {
        assert(list[0] == RemovalStep::ArchiveRecord);
        assert(list[1] == RemovalStep::DropLocalWatcher);
        assert(list[2] == RemovalStep::ForgetChanges);
    }
}

/// Deleting a workspace leaves nothing of it: no watcher, no session on another
/// host, no checkout that it was given, no record and no cache.
pub proof fn law_deleted_workspaces_leave_nothing(
    source: SourceKind,
    checkout_exists: bool,
    steps: Vec<RemovalStep>,
)
    requires
        call_ensures(plan_deletion, (source, checkout_exists), steps),
    ensures
        steps@.contains(RemovalStep::PurgeRecords),
        steps@.contains(RemovalStep::DropCaches),
        steps@.contains(RemovalStep::DropLocalWatcher),
        steps@.contains(RemovalStep::ForgetChanges),
        steps@.contains(RemovalStep::ForgetLastWorkspace),
        steps@.contains(RemovalStep::DeleteCheckout) <==> source == SourceKind::PullRequest
            && checkout_exists,
        steps@.contains(RemovalStep::StopRemoteWatchers) <==> source == SourceKind::Remote,
        steps@.contains(RemovalStep::DropRemoteSession) <==> source == SourceKind::Remote,
{
    let list = steps@;
    let n = list.len();
    assert(list[n - 1] == RemovalStep::DropCaches);
    assert(list[n - 2] == RemovalStep::PurgeRecords);
    assert(list[n - 3] == RemovalStep::ForgetLastWorkspace);
    assert(list[n - 4] == RemovalStep::ForgetChanges);
    assert(list[n - 5] == RemovalStep::DropLocalWatcher);
    if source == SourceKind::PullRequest && checkout_exists {
        assert(list[0] == RemovalStep::DeleteCheckout);
    } else if source == SourceKind::Remote {
        assert(list[0] == RemovalStep::StopRemoteWatchers);
        assert(list[1] == RemovalStep::DropRemoteSession);
    }
}

/// A review is started by a capture whose outcome is stored and which is then
/// shown; a workspace on another host is captured there, for a new review. Of a
/// local workspace the watcher is started first.
pub proof fn law_reviews_start_with_a_capture(source: SourceKind, steps: Vec<CaptureStep>)
    requires
        call_ensures(plan_start, (source,), steps),
    ensures
        source == SourceKind::Remote ==> steps@ == seq![
            CaptureStep::CaptureRemotely { replace: true },
        ],
        source != SourceKind::Remote ==> {
            let n = steps@.len() as int;
            &&& n >= 5
            &&& steps@[n - 1] == CaptureStep::LoadReview
            &&& steps@[n - 2] == CaptureStep::Acknowledge
            &&& steps@[n - 3] == CaptureStep::StoreOutcomes
            &&& steps@[n - 4] == CaptureStep::Capture
            &&& steps@[n - 5] == CaptureStep::FetchIfAsked
            &&& steps@.contains(CaptureStep::ApplyBaselines)
        },
        source == SourceKind::PullRequest ==> steps@[0] == CaptureStep::EnsureSubmitted,
        source == SourceKind::Local ==> steps@.contains(CaptureStep::RestartWatcher),
{
    if source == SourceKind::PullRequest {
        assert(steps@[1] == CaptureStep::ApplyBaselines);
    } else if source == SourceKind::Local {
        assert(steps@[0] == CaptureStep::ApplyBaselines);
        assert(steps@[1] == CaptureStep::RestartWatcher);
    }
}

/// A review is brought up to date where it is: on another host, with the
/// provider, or by a capture into the round that is open.
pub proof fn law_reviews_are_refreshed_in_place(source: SourceKind, steps: Vec<CaptureStep>)
    requires
        call_ensures(plan_refresh, (source,), steps),
    ensures
        source == SourceKind::Remote ==> steps@ == seq![
            CaptureStep::CaptureRemotely { replace: false },
        ],
        source == SourceKind::PullRequest ==> steps@ == seq![
            CaptureStep::RefreshProvider,
            CaptureStep::LoadReview,
        ],
        source == SourceKind::Local ==> steps@.contains(CaptureStep::FindReview) && steps@.contains(
            CaptureStep::Capture,
        ) && steps@.contains(CaptureStep::StoreOutcomes) && steps@.contains(
            CaptureStep::RestartWatcher,
        ) && steps@.last() == CaptureStep::LoadReview,
{
    if source == SourceKind::Local {
        assert(steps@[1] == CaptureStep::FindReview);
        assert(steps@[3] == CaptureStep::RestartWatcher);
        assert(steps@[4] == CaptureStep::Capture);
        assert(steps@[5] == CaptureStep::StoreOutcomes);
    }
}

/// A new capture of another host goes from step to step: texts are retained
/// only where a new review takes the place of the old one, and the review
/// changes only as far as something was captured.
pub proof fn law_remote_captures_follow_their_outcome(
    event: RefreshEvent,
    replace: bool,
    action: RefreshAction,
)
    requires
        call_ensures(next_refresh_action, (event, replace), action),
    ensures
        action == RefreshAction::RetainTexts <==> event == RefreshEvent::ReviewFound && replace,
        action == RefreshAction::Connect <==> event == RefreshEvent::TextsRetained || (event
            == RefreshEvent::ReviewFound && !replace),
        action == RefreshAction::ReplaceReview <==> event == (RefreshEvent::AllTried {
            promotion: Promotion::Replace,
        }),
        action == RefreshAction::RefreshReview <==> event == (RefreshEvent::AllTried {
            promotion: Promotion::Refresh,
        }),
        action == RefreshAction::StoreRecord <==> event == (RefreshEvent::AllTried {
            promotion: Promotion::Keep,
        }),
        action == RefreshAction::MarkAvailable <==> event == (RefreshEvent::Stored { stale: true }),
        action == RefreshAction::ClearToBoundary <==> event == (RefreshEvent::Stored {
            stale: false,
        }),
        action == RefreshAction::MarkStale <==> event == RefreshEvent::NotConnected || event
            == RefreshEvent::NotDiscovered,
        action == RefreshAction::TryRepositories <==> event == RefreshEvent::Discovered,
        action == RefreshAction::StartWatcher <==> event == RefreshEvent::RecordRead,
{
}

/// A capture of another host of which something succeeded is promoted, into a
/// new review where one was asked for; where nothing did, the captures on
/// record stay. The record is out of date just where something failed.
pub proof fn law_captures_are_promoted_where_something_succeeded(
    run: RefreshRun,
    metadata: RemoteWorkspaceMetadata,
    generation: u64,
    agent_version: String,
    latency_millis: u128,
    result: RefreshResult,
)
    requires
        call_ensures(
            RefreshRun::finish,
            (run, metadata, generation, agent_version, latency_millis),
            result,
        ),
    ensures
        result.promotion == Promotion::Keep <==> !run@.succeeded,
        result.promotion == Promotion::Replace <==> run@.succeeded && run@.replace,
        result.promotion == Promotion::Refresh <==> run@.succeeded && !run@.replace,
        run@.succeeded ==> result.metadata.captures@ == run@.captures,
        !run@.succeeded && run@.replace ==> result.metadata.captures@ == run@.prior,
        result.metadata.stale <==> run@.first_error is Some,
        result.metadata.last_error is Some <==> run@.first_error is Some,
        result.metadata.last_error matches Some(error) ==> run@.first_error == Some(error@),
        result.metadata.generation == generation,
        result.metadata.target == metadata.target,
        result.metadata.review_session_id == metadata.review_session_id,
        result.repositories@ == run@.staged,
        run@.succeeded ==> result.metadata.agent_version == Some(agent_version)
            && result.metadata.latency_millis == Some(latency_millis),
        !run@.succeeded ==> result.metadata.agent_version == metadata.agent_version,
{
}

proof fn lemma_repository_at(repositories: Seq<Repository>, path: Seq<char>)
    ensures
        match repository_at(repositories, path) {
            Some(found) => found.relative_path@ == path && repositories.contains(found),
            None => forall|i: int|
                0 <= i < repositories.len() ==> (#[trigger] repositories[i]).relative_path@ != path,
        },
    decreases repositories.len(),
{
    if repositories.len() > 0 {
        let rest = repositories.drop_first();
        if repositories[0].relative_path@ == path {
            assert(repositories.contains(repositories[0]));
        } else {
            lemma_repository_at(rest, path);
            match repository_at(rest, path) {
                Some(found) => {
                    let i = choose|i: int| 0 <= i < rest.len() && rest[i] == found;
                    assert(repositories[i + 1] == found);
                },
                None => {
                    assert forall|i: int| 0 <= i < repositories.len() implies (
                    #[trigger] repositories[i]).relative_path@ != path by {
                        if i > 0 {
                            assert(rest[i - 1] == repositories[i]);
                        }
                    }
                },
            }
        }
    }
}

/// A repository is known again by its path.
pub proof fn law_repositories_are_known_by_their_path(
    repositories: Vec<Repository>,
    path: &str,
    found: Option<Repository>,
)
    requires
        call_ensures(known_repository, (&repositories, path), found),
    ensures
        found is Some <==> exists|i: int|
            0 <= i < repositories@.len() && (#[trigger] repositories@[i]).relative_path@ == path@,
        found matches Some(repository) ==> repository.relative_path@ == path@
            && repositories@.contains(repository),
{
    lemma_repository_at(repositories@, path@);
    if found is Some {
        let i = choose|i: int| 0 <= i < repositories@.len() && repositories@[i] == found->0;
        assert(repositories@[i].relative_path@ == path@);
    }
}

/// A watcher is ready just where it told that it watches.
pub proof fn law_watchers_are_ready_where_they_watch(
    report: WatcherReport,
    result: Result<(), DispatchError>,
)
    requires
        call_ensures(watcher_readiness, (&report,), result),
    ensures
        result is Ok <==> report is Watching,
        result matches Err(error) ==> error is Remote,
{
}

/// A target of another host is taken apart at its first colon, and refused
/// where it has none, where the host is refused, or where its path leads
/// upwards.
pub proof fn law_targets_are_taken_apart(
    value: &str,
    host_accepted: bool,
    result: Result<RemoteTarget, DispatchError>,
)
    requires
        call_ensures(parse_remote_target, (value, None::<String>, host_accepted), result),
    ensures
        result matches Ok(target) ==> {
            &&& value@ == target.host@ + seq![':'] + target.root@
            &&& !target.host@.contains(':')
            &&& host_accepted
            &&& !pieces(target.root@, '/').contains(".."@)
        },
        result is Err ==> !value@.contains(':') || !host_accepted || exists|root: Seq<char>| #[trigger]
            pieces(root, '/').contains(".."@) && exists|host: Seq<char>| value@ == #[trigger] (host
                + seq![':'] + root),
{
    law_cut_loses_only_the_separator(value@, ':');
    let (head, tail) = cut(value@, ':');
    if tail is Some {
        assert(value@ =~= head + seq![':'] + tail->0);
        if host_accepted && pieces(tail->0, '/').contains(".."@) {
            let root = tail->0;
            assert(value@ == head + seq![':'] + root);
        }
    } else {
        assert(value@ == head);
    }
}

/// A record of a repository of another host says where it lies, what is checked
/// out there, and nothing of a capture yet.
pub proof fn law_remote_repositories_are_recorded(
    id: RepositoryId,
    workspace_id: WorkspaceId,
    remote: RemoteRepository,
    head_problem: Option<String>,
    result: Result<Repository, DispatchError>,
)
    requires
        call_ensures(remote_repository_record, (id, workspace_id, &remote, head_problem), result),
    ensures
        result is Err <==> remote.head is Detached && head_problem is Some,
        result matches Ok(repository) ==> {
            &&& repository.id == id && repository.workspace_id == workspace_id
            &&& repository.relative_path@ == remote.reference.relative_path@
            &&& repository.worktree_path@ == remote.canonical_worktree@
            &&& repository.current_branch == remote.head
            &&& repository.enabled && repository.base_override is None
            &&& repository.last_resolved_base_sha is None && repository.discovery_error is None
        },
{
}

proof fn lemma_draft_total(annotations: Seq<Annotation>)
    ensures
        draft_total(annotations) == drafts_among(annotations),
    decreases annotations.len(),
{
    if annotations.len() > 0 {
        lemma_draft_total(annotations.drop_last());
    }
}

/// How many annotations are open and not published.
pub open spec fn drafts_among(annotations: Seq<Annotation>) -> nat
    decreases annotations.len(),
{
    if annotations.len() == 0 {
        0
    } else if annotations.last().state == AnnotationState::Open
        && annotations.last().publication_state != PublicationState::Published {
        drafts_among(annotations.drop_last()) + 1
    } else {
        drafts_among(annotations.drop_last())
    }
}

/// Every annotation that is open and not published counts as a draft, and no
/// other does.
pub proof fn law_drafts_are_counted(annotations: Vec<Annotation>, count: usize)
    requires
        call_ensures(draft_count, (&annotations,), count),
    ensures
        count == drafts_among(annotations@),
{
    lemma_draft_total(annotations@);
}

/// A target that was opened before is found again, unless it was archived.
pub proof fn law_open_targets_are_found_again(
    workspaces: Vec<Workspace>,
    target: RemoteTarget,
    found: Option<usize>,
    index: int,
)
    requires
        call_ensures(find_remote_workspace, (&workspaces, &target), found),
        0 <= index < workspaces@.len(),
    ensures
        (workspaces@[index].source matches WorkspaceSource::RemoteDirectory { host, root } && host@
            == target.host@ && root@ == target.root@ && workspaces@[index].archived_at is None)
            ==> found is Some && found->0 <= index,
        found matches Some(place) ==> place < workspaces@.len() && workspaces@[place as int].archived_at
            is None && (workspaces@[place as int].source matches WorkspaceSource::RemoteDirectory {
            host,
            root,
        } && host@ == target.host@ && root@ == target.root@),
{
}

/// How a checked out state reads tells a branch, a commit and neither apart.
pub proof fn law_heads_are_told_apart(head: HeadState, text: String)
    requires
        call_ensures(head_text, (&head,), text),
    ensures
        head matches HeadState::Branch(name) ==> text@ == name@,
        head matches HeadState::Detached(sha) ==> text@ == "detached "@ + sha@,
        head is Unborn ==> text@ == "unborn"@,
{
}

/// A repository has its own base where it was given one, and else that of the
/// workspace.
pub proof fn law_repositories_inherit_their_base(
    repository: Repository,
    default_base: &str,
    base: String,
)
    requires
        call_ensures(repository_base, (&repository, default_base), base),
    ensures
        repository.base_override matches Some(own) ==> base@ == own@,
        repository.base_override is None ==> base@ == default_base@,
{
}

/// A fetch is noted with its time and its failure, and changes nothing else of
/// the repository.
pub proof fn law_fetches_are_noted(
    repository: Repository,
    at: Timestamp,
    error: Option<String>,
    updated: Repository,
)
    requires
        call_ensures(note_fetch, (repository, at, error), updated),
    ensures
        updated.last_fetch_at == Some(at) && updated.last_fetch_error == error,
        updated.id == repository.id && updated.enabled == repository.enabled,
        updated.base_override == repository.base_override,
        updated.discovery_error == repository.discovery_error,
        updated.last_resolved_base_sha == repository.last_resolved_base_sha,
{
}

/// Where no blocks are named, a request is shown with the remembered ones; those
/// that it names stand in for them.
pub proof fn law_requests_bring_their_own_blocks(
    state: ReviewUiState,
    request: PresentationRequest,
    documents: Vec<ReviewDiffDocument>,
    result: Result<ReviewUiState, DispatchError>,
)
    requires
        state.wf(),
        call_ensures(ephemeral_state, (state, &request, &documents), result),
    ensures
        request.ephemeral_expanded_full_file_deletion_blocks is None
            && request.ephemeral_collapsed_full_file_addition_blocks is None ==> result is Ok
            && result->Ok_0@ == state@,
        result matches Ok(shown) ==> {
            &&& shown@.viewed_file_ids == state@.viewed_file_ids
            &&& shown@.hunk_context_lines == state@.hunk_context_lines
            &&& request.ephemeral_expanded_full_file_deletion_blocks matches Some(ids)
                ==> forall|i: int|
                0 <= i < ids@.len() ==> shown@.expanded_full_file_deletion_blocks.contains(
                    (#[trigger] ids@[i])@,
                )
            &&& request.ephemeral_expanded_full_file_deletion_blocks is None
                ==> shown@.expanded_full_file_deletion_blocks
                == state@.expanded_full_file_deletion_blocks
        },
{
    if result is Ok {
        if let Some(ids) = request.ephemeral_expanded_full_file_deletion_blocks {
            let named = texts(ids@);
            assert forall|i: int| 0 <= i < ids@.len() implies named.to_set().contains(
                (#[trigger] ids@[i])@,
            ) by {
                assert(named[i] == ids@[i]@);
                assert(named.contains(ids@[i]@));
            }
        }
    }
}

/// A file is listed with what became of it: a copy as a renamed file, and what
/// changed in another way than its text as a modified one.
pub proof fn law_files_are_listed_with_their_state(
    document: ReviewDiffDocument,
    repository_id: String,
    language: &str,
    viewed: bool,
    annotation_count: usize,
    view: ReviewFileView,
)
    requires
        call_ensures(
            file_view,
            (&document, repository_id, language, viewed, annotation_count),
            view,
        ),
    ensures
        view.repository_id@ == repository_id@ && view.language@ == language@,
        view.viewed == viewed && view.annotation_count == annotation_count,
        view.comparison_id@ == id_chars(document.comparison_id.0),
        document.file.status == ReviewFileStatus::Added ==> view.status@ == "added"@,
        document.file.status == ReviewFileStatus::Deleted ==> view.status@ == "deleted"@,
        document.file.status == ReviewFileStatus::Renamed || document.file.status
            == ReviewFileStatus::Copied ==> view.status@ == "renamed"@,
        document.file.status == ReviewFileStatus::Modified || document.file.status
            == ReviewFileStatus::Binary || document.file.status == ReviewFileStatus::ModeChanged
            || document.file.status == ReviewFileStatus::TypeChanged ==> view.status@
            == "modified"@,
        document.file.status == ReviewFileStatus::Submodule ==> view.status@ == "submodule"@,
        document.file.status == ReviewFileStatus::LfsPointer ==> view.status@ == "lfs_pointer"@,
{
}

/// What a client asks the desktop to do is announced: a pull request to open, or
/// a workspace of another host.
pub proof fn law_requests_to_open_are_announced(
    command: LocalCommand,
    operation: Option<DesktopOperation>,
)
    requires
        call_ensures(operation_for_event, (&command,), operation),
    ensures
        command matches LocalCommand::OpenPullRequest { url } ==> (
        operation matches Some(DesktopOperation::PullRequest { url: told }) && told@ == url@),
        command matches LocalCommand::OpenSshWorkspace { target } ==> (
        operation matches Some(DesktopOperation::SshWorkspace { target: told }) && told@
            == target@),
        !(command is OpenPullRequest) && !(command is OpenSshWorkspace) ==> operation is None,
{
}

/// A failed answer of a companion is told with what it failed at and with its
/// message; only where an update could help is one advised.
pub proof fn law_failed_answers_are_told(
    context: &str,
    reply: UnexpectedReply,
    failure: DispatchError,
)
    requires
        call_ensures(remote_result_error, (context, &reply), failure),
    ensures
        reply matches UnexpectedReply::Refused { code, message } ==> {
            &&& code == AgentErrorCode::Other ==> failure.is_remote(
                context@ + " failed: "@ + message@,
            )
            &&& code != AgentErrorCode::Other ==> failure.is_remote(
                context@ + " failed: "@ + message@
                    + " Install or update `localreview` on the remote host and retry."@,
            )
        },
        reply matches UnexpectedReply::Strange { told } ==> failure.is_remote(
            context@ + " returned an unexpected companion result: "@ + told@,
        ),
{
    reveal_strlit("");
    if let UnexpectedReply::Refused { code, message } = reply {
        assert(context@ + " failed: "@ + message@ + ""@ =~= context@ + " failed: "@ + message@);
    }
}

/// A line is looked for only where it is one of the captured source, in a mode
/// that there is.
pub proof fn law_lines_are_looked_for_in_the_captured_source<D, S>(
    cache: &mut PresentationCache<D, S>,
    document: ReviewDiffDocument,
    state: ReviewUiState,
    structural: Option<Arc<DifftasticPresentation>>,
    mode: &str,
    side: DiffSide,
    line: u32,
    result: Result<PresentationLocation, DispatchError>,
)
    requires
        old(cache).wf(),
        call_ensures(
            resolve_presentation_location::<D, S>,
            (cache, &document, &state, structural, mode, side, line),
            result,
        ),
    ensures
        result matches Ok(location) ==> {
            &&& 1 <= line <= (match side {
                DiffSide::Old => document.old.line_count,
                DiffSide::New => document.new.line_count,
            })
            &&& location.line == line
            &&& mode@ == "unified"@ || mode@ == "split"@ || mode@ == "full"@ || mode@
                == "difftastic"@
        },
        1 <= line <= (match side {
            DiffSide::Old => document.old.line_count,
            DiffSide::New => document.new.line_count,
        }) && (mode@ == "unified"@ || mode@ == "split"@ || mode@ == "difftastic"@) ==> result is Ok,
{
    reveal_strlit("full");
    reveal_strlit("unified");
    reveal_strlit("split");
    reveal_strlit("difftastic");
    assert("full"@[0] == 'f' && "unified"@[0] == 'u' && "split"@[0] == 's' && "difftastic"@[0]
        == 'd');
}

/// How many annotations some sets hold in all.
pub open spec fn annotations_in(sets: Seq<RecordedSet>) -> int {
    sets.fold_left(0, |count: int, set: RecordedSet| count + set.annotations@.len())
}

/// The annotations of several sets are all counted.
pub proof fn law_annotations_of_sets_are_counted(sets: Vec<RecordedSet>, count: usize)
    requires
        annotation_total(sets@) <= usize::MAX,
        call_ensures(sets_annotation_count, (&sets,), count),
    ensures
        count == annotations_in(sets@),
{
    lemma_annotations_in(sets@);
}

proof fn lemma_annotations_in(sets: Seq<RecordedSet>)
    ensures
        annotation_total(sets) == annotations_in(sets),
    decreases sets.len(),
{
    reveal_with_fuel(Seq::fold_left, 2);
    if sets.len() > 0 {
        lemma_annotations_in(sets.drop_last());
    }
}

/// A checkpoint is listed under its own id, with the number of its annotations
/// and with each of them.
pub proof fn law_checkpoints_hold_their_annotations(
    recorded: RecordedSet,
    documents: Vec<ReviewDiffDocument>,
    label: &str,
    item: ReviewHistoryItem,
)
    requires
        call_ensures(checkpoint_item, (&recorded, &documents, label), item),
        recorded.annotations@.len() <= usize::MAX,
    ensures
        item@.id == "set:"@ + id_chars(recorded.set.id.0),
        item@.label == label@,
        item@.annotation_count == recorded.annotations@.len(),
        item@.annotations matches Some(shown) && shown.len() == recorded.annotations@.len()
            && forall|i: int|
            0 <= i < shown.len() ==> (#[trigger] shown[i]).body
                == recorded.annotations@[i].body_markdown@ && shown[i].id == id_chars(
                recorded.annotations@[i].id.0,
            ),
{
}

/// A workspace of another host is opened under the name of its host and of its
/// directory, at the target that was asked for, and is neither pinned nor
/// archived.
pub proof fn law_remote_workspaces_are_opened_at_their_target(
    id: WorkspaceId,
    target: RemoteTarget,
    default_base: &str,
    at: Timestamp,
    workspace: Workspace,
    name: String,
)
    requires
        call_ensures(opened_workspace, (id, &target, default_base, at), workspace),
        call_ensures(remote_workspace_name, (&target,), name),
    ensures
        workspace.id == id,
        workspace.display_name@ == name@,
        workspace.source matches WorkspaceSource::RemoteDirectory { host, root } && host@
            == target.host@ && root@ == target.root@,
        workspace.default_base@ == default_base@,
        !workspace.pinned && workspace.archived_at is None,
        workspace.created_at == at,
{
}

} // verus!
