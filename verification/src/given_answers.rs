//! What requests are answered, and what drafts, checkpoints and submissions
//! have to meet.
use crate::annotations::AnnotationKind;
use crate::canonical::lines_of;
use crate::contexts::{
    changed_since_view, check_blame_request, github_pull_request_context_view,
    imported_github_thread_view, plan_commit_context, shows_change, shows_comment, shows_commit,
    update_status_view, BlameTarget, CommitContextPlan, GitHubPullRequestRecord,
    ImportedReviewThread, PreviousReviewFile, PreviousReviewFileChangeKind, PullRequestUpdateStatus,
};
use crate::document::{lemma_side_names_differ, DiffSide, ReviewDiffDocument, ReviewFileStatus};
use crate::drafts::{
    check_annotation_draft, check_draft_place, check_restored, check_restored_place,
    document_repository_id, keeps_stored_draft, owner_of, prepare_restored, ComparisonOwner,
    DraftTarget, NoteRoute,
};
use crate::editor::{external_editor_command, EditorCommand};
use crate::errors::{display_error, DispatchError};
use crate::finish::{
    check_abandon, check_finish_request, finish_preview, finish_result, id_list,
    GitHubPublicationStatus, PreparedSubmission, PublicationRecord,
};
use crate::ids::{
    id_chars, parsed_id, AnnotationId, ComparisonId, RepositoryId, ReviewFileId, ReviewSessionId,
    WorkspaceId,
};
use crate::prompt::first_bad_id;
use crate::refresh::{published, published_at, RefreshAvailability, RefreshCaptureBoundary};
use crate::replay::{remembered, was_seen};
use crate::repositories::SourceKind;
use crate::review::{
    acknowledge_refresh, acknowledge_start, outline_side, outline_views, shows_symbol,
    Acknowledgement, OutlineKind, OutlineSymbol,
};
use crate::rpc::{
    asks_for, dispatch_error, error_response, judged, operation_to_announce, plan_forwarded_open,
    sums_up, workspaces_response, BaseOverride, ForwardedOpen, LocalResponse, ProtocolErrorKind,
    RequestFacts, RpcErrorCode,
};
use crate::text::{decimal, opt_text, texts, trimmed};
use crate::time::parsed_time;
use crate::views::{
    AnnotationDraft, AnnotationView, CapturedBlameInput, ChangedSincePreviousReviewView,
    CommitContextInput, DesktopOperation, FinishReviewInput, FinishReviewPreview,
    FinishReviewResult, FinishReviewSubmissionInput, GitHubPullRequestContextView,
    GitHubPullRequestUpdateStatusView, ImportedGitHubReviewThreadView, OutlineSymbolView,
    WorkspaceView,
};
use vstd::prelude::*;
use vstd::string::*;
use vstd::utf8::*;

verus! {

/// A change is offered unless it comes from a watcher that was replaced; the
/// offer is taken back only where there is one.
pub proof fn law_changes_are_offered_and_taken_back(
    state: RefreshAvailability,
    epoch: Option<u64>,
)
    ensures
        ({
            let heard = epoch is None || epoch == Some(state.watcher_epoch);
            let offered = published(state, epoch, true);
            let withdrawn = published(state, epoch, false);
            &&& offered is Some <==> heard
            &&& offered matches Some(after) ==> after.available && (state.revision < u64::MAX
                ==> after.revision == state.revision + 1) && after.watcher_epoch
                == state.watcher_epoch
            &&& withdrawn is Some <==> heard && state.available
            &&& withdrawn matches Some(after) ==> !after.available && (state.revision < u64::MAX
                ==> after.revision == state.revision + 1) && after.watcher_epoch
                == state.watcher_epoch
        }),
{
}

/// What a capture shows is taken back just where nothing happened since the
/// capture began and there is something to take back.
pub proof fn law_captures_acknowledge_what_they_show(
    state: RefreshAvailability,
    boundary: RefreshCaptureBoundary,
    available: bool,
)
    ensures
        ({
            let after = published_at(state, boundary, available);
            &&& after is Some <==> state.revision == boundary.revision && state.watcher_epoch
                == boundary.watcher_epoch && state.available != available
            &&& after matches Some(next) ==> next.available == available && next.watcher_epoch
                == state.watcher_epoch && (state.revision < u64::MAX ==> next.revision
                == state.revision + 1)
        }),
{
}

/// A capture of which nothing failed says that it shows the changes up to its
/// beginning; a new capture of which something failed says that some are left.
pub proof fn law_failed_captures_leave_changes_on_offer(
    source: SourceKind,
    failures: usize,
    started: Acknowledgement,
    refreshed: Acknowledgement,
)
    requires
        call_ensures(acknowledge_start, (source, failures), started),
        call_ensures(acknowledge_refresh, (failures,), refreshed),
    ensures
        started == Acknowledgement::CapturedUpToBoundary <==> failures == 0 && source
            == SourceKind::Local,
        started != Acknowledgement::StillOutdated,
        refreshed == Acknowledgement::CapturedUpToBoundary <==> failures == 0,
        refreshed == Acknowledgement::StillOutdated <==> failures > 0,
{
}

/// A request is admitted just where it has its form, is authentic, was issued
/// within two minutes and is not among those still remembered. What is refused
/// before that is not remembered; what is admitted is.
pub proof fn law_requests_are_admitted_once(
    requests: Seq<(u64, Seq<char>)>,
    facts: RequestFacts,
    now: u64,
)
    ensures
        ({
            let (refusal, after) = judged(requests, facts, now);
            let in_form = facts.shape_error is None && facts.authentic;
            let in_time = now - facts.issued_at_unix_secs <= 120 && facts.issued_at_unix_secs - now
                <= 120;
            &&& refusal is None <==> in_form && in_time && !was_seen(
                remembered(requests, now),
                facts.request_id@,
            )
            &&& !in_form || !in_time ==> after == requests
            &&& refusal is None ==> after.len() > 0 && after.last() == (
                facts.issued_at_unix_secs,
                facts.request_id@,
            ) && after.drop_last() == remembered(requests, now)
            &&& facts.shape_error is None && !facts.authentic ==> refusal is Some && (refusal->0).0
                == RpcErrorCode::AuthenticationFailed
            &&& facts.shape_error matches Some((kind, message)) ==> refusal is Some && (
            refusal->0).1 == message@
        }),
{
    let after = judged(requests, facts, now).1;
    if judged(requests, facts, now).0 is None {
        assert(after.drop_last() =~= remembered(requests, now));
    }
}

/// A failure is answered with the request's id and its message under a code
/// that tells who has to act: the client for what was malformed, nobody for
/// what is not there, and the desktop for everything else.
pub proof fn law_failures_are_answered_with_their_kind(
    request_id: Option<String>,
    error: DispatchError,
    response: LocalResponse,
    message: String,
)
    requires
        call_ensures(dispatch_error, (request_id, &error), response),
        call_ensures(display_error, (&error,), message),
    ensures
        response matches LocalResponse::Error { request_id: id, code, message: text } && {
            &&& opt_text(id) == opt_text(request_id)
            &&& text@ == message@
            &&& code == RpcErrorCode::NotFound <==> error is NotFound
            &&& code == RpcErrorCode::InvalidRequest <==> error is Invalid || error is Ambiguous
                || error is Cancelled
            &&& code == RpcErrorCode::Internal <==> error is Service || error is Persistence
                || error is Remote || error is Internal
        },
{
}

/// An error is told with what it is about.
pub proof fn law_errors_tell_what_they_are_about(error: DispatchError, message: String)
    requires
        call_ensures(display_error, (&error,), message),
    ensures
        error matches DispatchError::Invalid(text) ==> message@ == "invalid request: "@ + text@,
        error matches DispatchError::NotFound(text) ==> message@ == "workspace not found: "@
            + text@,
        error matches DispatchError::Ambiguous(text) ==> message@
            == "workspace name is ambiguous: "@ + text@,
        error matches DispatchError::Service(text) ==> message@
            == "durable review operation failed: "@ + text@,
        error matches DispatchError::Persistence(text) ==> message@
            == "durable state operation failed: "@ + text@,
        error matches DispatchError::Remote(text) ==> message@
            == "remote review operation failed: "@ + text@,
{
}

/// A refused request is answered with the code of its refusal and with the
/// message that came with it.
pub proof fn law_refusals_keep_their_code(
    request_id: Option<String>,
    kind: ProtocolErrorKind,
    message: String,
    response: LocalResponse,
)
    requires
        call_ensures(error_response, (request_id, kind, message), response),
    ensures
        response matches LocalResponse::Error { request_id: id, code, message: text } && {
            &&& opt_text(id) == opt_text(request_id)
            &&& text@ == message@
            &&& code == RpcErrorCode::UnsupportedVersion <==> kind
                == ProtocolErrorKind::UnsupportedVersion
            &&& code == RpcErrorCode::AuthenticationFailed <==> kind
                == ProtocolErrorKind::AuthenticationFailed
            &&& code == RpcErrorCode::InvalidRequest <==> kind == ProtocolErrorKind::Other
        },
{
}

/// The desktop shows the workspace that was opened or focused; where an answer
/// names none, it does what was asked for.
pub proof fn law_opened_workspaces_are_announced(
    response: LocalResponse,
    requested: Option<DesktopOperation>,
    operation: Option<DesktopOperation>,
)
    requires
        call_ensures(operation_to_announce, (&response, requested), operation),
    ensures
        response matches LocalResponse::Opened { workspace, .. } ==> (
        operation matches Some(DesktopOperation::Workspace { workspace_id }) && workspace_id@
            == workspace.id@),
        response matches LocalResponse::Focused { workspace, .. } ==> (
        operation matches Some(DesktopOperation::Workspace { workspace_id }) && workspace_id@
            == workspace.id@),
        !(response is Opened) && !(response is Focused) ==> operation == requested,
{
}

/// Every workspace is told to a client, in order, with its id, its name and
/// where it lies, and as available just where it is connected.
pub proof fn law_every_workspace_is_told(
    request_id: String,
    workspaces: Vec<WorkspaceView>,
    response: LocalResponse,
    index: int,
)
    requires
        call_ensures(workspaces_response, (request_id, &workspaces), response),
        0 <= index < workspaces@.len(),
    ensures
        response matches LocalResponse::Workspaces { request_id: id, workspaces: told } && {
            &&& id == request_id
            &&& told@.len() == workspaces@.len()
            &&& told@[index].id@ == workspaces@[index].id@
            &&& told@[index].name@ == workspaces@[index].name@
            &&& told@[index].available <==> workspaces@[index].connection@ == "connected"@
            &&& told@[index].location matches Some(place) && place@ == workspaces@[index].location@
        },
{
    if let LocalResponse::Workspaces { request_id: id, workspaces: told } = response {
        assert(sums_up(told@[index], workspaces@[index]));
    }
}

/// A workspace on another host is opened at the path that was named there, and
/// captured anew just where a base was named: with that base, and with each
/// base that was named for a repository.
pub proof fn law_forwarded_workspaces_are_captured_with_their_bases(
    host: &str,
    path: &str,
    base: Option<String>,
    repository_bases: Vec<BaseOverride>,
    plan: ForwardedOpen,
)
    requires
        call_ensures(plan_forwarded_open, (host, path, base, &repository_bases), plan),
    ensures
        plan.target@ == host@ + ":"@ + path@,
        plan.capture is Some <==> base is Some || repository_bases@.len() > 0,
        plan.capture matches Some(capture) ==> {
            &&& capture.base == base
            &&& capture.repository_bases@.len() == repository_bases@.len()
            &&& forall|i: int|
                0 <= i < repository_bases@.len() ==> (
                #[trigger] capture.repository_bases@[i]).repository_id is None && opt_text(
                    capture.repository_bases@[i].relative_path,
                ) == Some(repository_bases@[i].relative_path@) && opt_text(
                    capture.repository_bases@[i].base,
                ) == Some(repository_bases@[i].base@)
        },
{
    if plan.capture is Some {
        let asked = plan.capture->0.repository_bases@;
        assert forall|i: int| 0 <= i < repository_bases@.len() implies (
        #[trigger] asked[i]).repository_id is None && opt_text(asked[i].relative_path) == Some(
            repository_bases@[i].relative_path@,
        ) && opt_text(asked[i].base) == Some(repository_bases@[i].base@) by {
            assert(asks_for(asked[i], repository_bases@[i]));
        }
    }
}

/// A submission is abandoned just where its preview is the one on record and
/// was not used, or where its outcome is open and the user confirmed it.
pub proof fn law_only_unused_previews_are_abandoned(
    submission: FinishReviewSubmissionInput,
    record: Option<&PublicationRecord>,
    confirmed: bool,
    result: Result<(), DispatchError>,
)
    requires
        call_ensures(check_abandon, (&submission, record, confirmed), result),
    ensures
        result is Ok ==> (record matches Some(found) && found.preview_token@
            == submission.preview_token@ && (found.status == GitHubPublicationStatus::Previewed || (
        found.status == GitHubPublicationStatus::Prepared && confirmed))),
        record matches Some(found) ==> found.preview_token@ == submission.preview_token@ && 0
            < encode_utf8(submission.preview_token@).len() <= 256
            && !submission.preview_token@.contains('\0')
            && !submission.preview_token@.contains('\n')
            && !submission.preview_token@.contains('\r') && (found.status
            == GitHubPublicationStatus::Previewed || (found.status
            == GitHubPublicationStatus::Prepared && confirmed)) ==> result is Ok,
{
}

proof fn lemma_bad_submission_id(ids: Seq<String>)
    ensures
        first_bad_id(ids) is None <==> forall|i: int|
            0 <= i < ids.len() ==> parsed_id((#[trigger] ids[i])@) is Some,
    decreases ids.len(),
{
    if ids.len() > 0 {
        let before = ids.drop_last();
        lemma_bad_submission_id(before);
        assert forall|i: int| 0 <= i < before.len() implies before[i] == #[trigger] ids[i] by {}
        if first_bad_id(ids) is None {
            assert forall|i: int| 0 <= i < ids.len() implies parsed_id(
                (#[trigger] ids[i])@,
            ) is Some by {
                if i < before.len() {
                    assert(parsed_id(before[i]@) is Some);
                }
            }
        } else if forall|i: int|
            0 <= i < ids.len() ==> parsed_id((#[trigger] ids[i])@) is Some {
            assert forall|i: int| 0 <= i < before.len() implies parsed_id(
                (#[trigger] before[i])@,
            ) is Some by {
                assert(parsed_id(ids[i]@) is Some);
            }
            assert(parsed_id(ids[ids.len() - 1]@) is Some);
        }
    }
}

/// A submission goes ahead with exactly the annotations that were named, in
/// their order, as long as it is not too large and every name is one.
pub proof fn law_submissions_hold_the_named_annotations(
    request: FinishReviewInput,
    result: Result<Vec<AnnotationId>, DispatchError>,
)
    requires
        call_ensures(check_finish_request, (&request,), result),
    ensures
        result is Ok <==> request.annotation_ids@.len() <= 10000 && encode_utf8(
            request.summary@,
        ).len() <= 100000 && forall|i: int|
            0 <= i < request.annotation_ids@.len() ==> parsed_id(
                (#[trigger] request.annotation_ids@[i])@,
            ) is Some,
        result matches Ok(ids) ==> ids@.len() == request.annotation_ids@.len() && forall|i: int|
            0 <= i < ids@.len() ==> parsed_id(request.annotation_ids@[i]@) == Some(
                (#[trigger] ids@[i]).0,
            ),
{
    lemma_bad_submission_id(request.annotation_ids@);
}

/// What came of a submission is told with the review's number where the
/// provider gave one, with every annotation by its id, and as submitted or
/// reconciled as the record has it.
pub proof fn law_submissions_are_told_as_recorded(
    record: PublicationRecord,
    count: usize,
    result: FinishReviewResult,
)
    requires
        call_ensures(finish_result, (record, count), result),
    ensures
        record.remote_review_id matches Some(id) ==> result.review_id@ == decimal(id as nat),
        record.remote_review_id is None ==> result.review_id@ == record.id@,
        result.annotation_count == count,
        result.annotation_ids@.len() == record.annotation_ids@.len(),
        forall|i: int|
            0 <= i < result.annotation_ids@.len() ==> (#[trigger] result.annotation_ids@[i])@
                == id_chars(record.annotation_ids@[i].0),
        result.payload_json@ == record.payload_json@,
        record.status == GitHubPublicationStatus::Submitted ==> result.publication_status@
            == "submitted"@,
        record.status == GitHubPublicationStatus::Reconciled ==> result.publication_status@
            == "reconciled"@,
{
    let list = id_list(record.annotation_ids@);
    assert(texts(result.annotation_ids@) == list);
    assert(texts(result.annotation_ids@).len() == result.annotation_ids@.len());
    assert forall|i: int| 0 <= i < result.annotation_ids@.len() implies (
    #[trigger] result.annotation_ids@[i])@ == id_chars(record.annotation_ids@[i].0) by {
        assert(texts(result.annotation_ids@)[i] == result.annotation_ids@[i]@);
        assert(list[i] == id_chars(record.annotation_ids@[i].0));
    }
}

/// A preview counts and names the annotations that would be sent, and what
/// would be sent.
pub proof fn law_previews_hold_what_would_be_sent(
    prepared: PreparedSubmission,
    preview: FinishReviewPreview,
)
    requires
        call_ensures(finish_preview, (prepared,), preview),
    ensures
        preview.annotation_count == prepared.annotation_ids@.len(),
        preview.annotation_ids@.len() == prepared.annotation_ids@.len(),
        forall|i: int|
            0 <= i < preview.annotation_ids@.len() ==> (#[trigger] preview.annotation_ids@[i])@
                == id_chars(prepared.annotation_ids@[i].0),
        preview.payload_json@ == prepared.payload_json@,
        preview.preview_token@ == prepared.preview_token@,
        preview.pinned_head_sha@ == prepared.pinned_head_sha@,
{
    let list = id_list(prepared.annotation_ids@);
    assert(texts(preview.annotation_ids@) == list);
    assert(texts(preview.annotation_ids@).len() == preview.annotation_ids@.len());
    assert forall|i: int| 0 <= i < preview.annotation_ids@.len() implies (
    #[trigger] preview.annotation_ids@[i])@ == id_chars(prepared.annotation_ids@[i].0) by {
        assert(texts(preview.annotation_ids@)[i] == preview.annotation_ids@[i]@);
        assert(list[i] == id_chars(prepared.annotation_ids@[i].0));
    }
}

proof fn lemma_editor_names_differ()
    ensures
        "vscode"@ != "cursor"@,
        "vscode"@ != "zed"@,
        "vscode"@ != "sublime"@,
        "vscode"@ != "idea"@,
        "cursor"@ != "zed"@,
        "cursor"@ != "sublime"@,
        "cursor"@ != "idea"@,
        "zed"@ != "sublime"@,
        "zed"@ != "idea"@,
        "sublime"@ != "idea"@,
{
    reveal_strlit("vscode");
    reveal_strlit("cursor");
    reveal_strlit("zed");
    reveal_strlit("sublime");
    reveal_strlit("idea");
    assert("vscode"@[0] == 'v' && "cursor"@[0] == 'c' && "zed"@[0] == 'z' && "sublime"@[0] == 's'
        && "idea"@[0] == 'i');
}

/// An editor that knows lines is started at the file and the line that were
/// asked for; for any other the file is opened as the system does.
pub proof fn law_editors_open_the_file_at_the_line(
    editor: &str,
    path: &str,
    line: u32,
    macos: bool,
    command: EditorCommand,
)
    requires
        call_ensures(external_editor_command, (editor, path, line, macos), command),
    ensures
        ({
            let place = path@ + ":"@ + decimal(line as nat);
            let arguments = texts(command.arguments@);
            &&& editor@ == "vscode"@ ==> command.program@ == "code"@ && arguments.contains(place)
            &&& editor@ == "cursor"@ ==> command.program@ == "cursor"@ && arguments.contains(place)
            &&& editor@ == "zed"@ ==> command.program@ == "zed"@ && arguments == seq![place]
            &&& editor@ == "sublime"@ ==> command.program@ == "subl"@ && arguments == seq![place]
            &&& editor@ == "idea"@ ==> command.program@ == "idea"@ && arguments == seq![
                "--line"@,
                decimal(line as nat),
                path@,
            ]
            &&& editor@ != "vscode"@ && editor@ != "cursor"@ && editor@ != "zed"@ && editor@
                != "sublime"@ && editor@ != "idea"@ ==> arguments == seq![path@] && command.program@
                == if macos {
                "open"@
            } else {
                "xdg-open"@
            }
        }),
{
    lemma_editor_names_differ();
    let place = path@ + ":"@ + decimal(line as nat);
    let arguments = texts(command.arguments@);
    if editor@ == "vscode"@ || editor@ == "cursor"@ {
        assert(arguments[1] == place);
    }
}

proof fn lemma_owner(owners: Seq<ComparisonOwner>, id: ComparisonId)
    ensures
        match owner_of(owners, id) {
            Some(owner) => exists|i: int|
                0 <= i < owners.len() && (#[trigger] owners[i]).comparison_id == id
                    && owners[i].repository_id == owner && forall|j: int|
                    0 <= j < i ==> (#[trigger] owners[j]).comparison_id != id,
            None => forall|i: int|
                0 <= i < owners.len() ==> (#[trigger] owners[i]).comparison_id != id,
        },
    decreases owners.len(),
{
    if owners.len() > 0 && owners[0].comparison_id != id {
        let rest = owners.drop_first();
        lemma_owner(rest, id);
        if owner_of(rest, id) is Some {
            let i = choose|i: int|
                0 <= i < rest.len() && (#[trigger] rest[i]).comparison_id == id
                    && rest[i].repository_id == owner_of(rest, id)->0 && forall|j: int|
                    0 <= j < i ==> (#[trigger] rest[j]).comparison_id != id;
            assert(owners[i + 1] == rest[i]);
            assert forall|j: int| 0 <= j < i + 1 implies (#[trigger] owners[j]).comparison_id
                != id by {
                if j > 0 {
                    assert(rest[j - 1] == owners[j]);
                }
            }
        } else {
            assert forall|i: int| 0 <= i < owners.len() implies (
            #[trigger] owners[i]).comparison_id != id by {
                if i > 0 {
                    assert(rest[i - 1] == owners[i]);
                }
            }
        }
    }
}

/// The repository of a captured file is the one that its comparison is of; a
/// file of no comparison that is active belongs to none.
pub proof fn law_files_belong_to_the_repository_of_their_comparison(
    document: ReviewDiffDocument,
    owners: Vec<ComparisonOwner>,
    result: Result<RepositoryId, DispatchError>,
)
    requires
        call_ensures(document_repository_id, (&document, &owners), result),
    ensures
        result is Ok <==> exists|i: int|
            0 <= i < owners@.len() && (#[trigger] owners@[i]).comparison_id
                == document.comparison_id,
        result matches Ok(id) ==> exists|i: int|
            0 <= i < owners@.len() && (#[trigger] owners@[i]).comparison_id
                == document.comparison_id && owners@[i].repository_id == id,
{
    lemma_owner(owners@, document.comparison_id);
}

/// A draft is kept just where it is of the workspace and of the shape that
/// drafts have: something that is named, a file, a repository, a kind, a side, a
/// range of lines and a time.
pub proof fn law_drafts_that_are_in_order_are_accepted(
    draft: AnnotationDraft,
    workspace_id: WorkspaceId,
    result: Result<DraftTarget, DispatchError>,
)
    requires
        call_ensures(check_annotation_draft, (&draft, workspace_id), result),
    ensures
        result is Ok <==> {
            &&& draft.workspace_id@ == id_chars(workspace_id.0)
            &&& trimmed(draft.id@).len() > 0 && encode_utf8(draft.id@).len() <= 160
            &&& !draft.id@.contains('\0') && !draft.id@.contains('\n') && !draft.id@.contains('\r')
            &&& encode_utf8(draft.body@).len() <= 1048576 && !draft.body@.contains('\0')
            &&& parsed_id(draft.file_id@) is Some && parsed_id(draft.repository_id@) is Some
            &&& draft.kind@ == "comment"@ || draft.kind@ == "question"@ || draft.kind@
                == "suggestion"@ || draft.kind@ == "file_note"@ || draft.kind@ == "review_note"@
            &&& draft.side@ == "old"@ || draft.side@ == "new"@
            &&& 1 <= draft.start_line <= draft.end_line
            &&& parsed_time(draft.updated_at@) is Some
        },
        result matches Ok(target) ==> {
            &&& parsed_id(draft.file_id@) == Some(target.file_id.0)
            &&& parsed_id(draft.repository_id@) == Some(target.repository_id.0)
            &&& target.side == DiffSide::Old <==> draft.side@ == "old"@
        },
{
    lemma_side_names_differ();
}

/// A draft stays where its repository owns the captured file and its lines are
/// lines of the captured source of its side.
pub proof fn law_drafts_stay_with_their_file(
    draft: AnnotationDraft,
    target: DraftTarget,
    document: ReviewDiffDocument,
    owners: Vec<ComparisonOwner>,
    owner: Result<RepositoryId, DispatchError>,
    result: Result<(), DispatchError>,
)
    requires
        call_ensures(check_draft_place, (&draft, target, &document, &owners), result),
        call_ensures(document_repository_id, (&document, &owners), owner),
    ensures
        result is Ok <==> owner == Ok::<RepositoryId, DispatchError>(target.repository_id)
            && draft.end_line <= lines_of(
            match target.side {
                DiffSide::Old => document.old.content@,
                DiffSide::New => document.new.content@,
            },
        ).len(),
{
}

/// A stored draft that no longer fits is dropped without a failure; any other
/// failure is told.
pub proof fn law_stored_drafts_that_do_not_fit_are_dropped(
    check: Result<(), DispatchError>,
    result: Result<bool, DispatchError>,
)
    requires
        call_ensures(keeps_stored_draft, (check,), result),
    ensures
        result == Ok::<bool, DispatchError>(true) <==> check is Ok,
        result == Ok::<bool, DispatchError>(false) <==> (check matches Err(error) && (
        error is NotFound || error is Invalid)),
        result is Err <==> (check matches Err(error) && !(error is NotFound) && !(
        error is Invalid)),
        result is Err ==> result->Err_0 == check->Err_0,
{
}

proof fn lemma_kind_names_differ()
    ensures
        "review_note"@ != "comment"@,
        "review_note"@ != "question"@,
        "review_note"@ != "suggestion"@,
        "review_note"@ != "file_note"@,
        "file_note"@ != "comment"@,
        "file_note"@ != "question"@,
        "file_note"@ != "suggestion"@,
        "comment"@ != "question"@,
        "comment"@ != "suggestion"@,
        "question"@ != "suggestion"@,
{
    reveal_strlit("review_note");
    reveal_strlit("comment");
    reveal_strlit("question");
    reveal_strlit("suggestion");
    reveal_strlit("file_note");
    assert("review_note"@[0] == 'r' && "comment"@[0] == 'c' && "question"@[0] == 'q'
        && "suggestion"@[0] == 's' && "file_note"@[0] == 'f');
}

/// A checkpoint's annotation is read by its kind: a note on the review carries
/// neither lines nor a file, every other one a file.
pub proof fn law_restored_annotations_are_read_by_their_kind(
    value: AnnotationView,
    result: Result<(AnnotationKind, Option<ReviewFileId>), DispatchError>,
)
    requires
        call_ensures(check_restored, (&value,), result),
    ensures
        value.kind@ == "review_note"@ ==> (result is Ok <==> value.start_line == 0 && value.end_line
            == 0),
        value.kind@ == "review_note"@ && result is Ok ==> (result->Ok_0).0
            == AnnotationKind::ReviewNote && (result->Ok_0).1 is None,
        value.kind@ == "comment"@ || value.kind@ == "question"@ || value.kind@ == "suggestion"@
            || value.kind@ == "file_note"@ ==> (result is Ok <==> parsed_id(value.file_id@) is Some),
        result matches Ok((kind, file)) ==> {
            &&& value.kind@ == "comment"@ <==> kind == AnnotationKind::Comment
            &&& value.kind@ == "question"@ <==> kind == AnnotationKind::Question
            &&& value.kind@ == "suggestion"@ <==> kind == AnnotationKind::Suggestion
            &&& value.kind@ == "file_note"@ <==> kind == AnnotationKind::FileNote
            &&& file matches Some(id) ==> parsed_id(value.file_id@) == Some(id.0)
        },
{
    lemma_kind_names_differ();
}

/// A checkpoint's annotation can be put back just where its file is one of the
/// active review, its state is one, and its lines are those of the captured
/// source of its side; a note on a file has none.
pub proof fn law_restored_annotations_need_their_place(
    value: AnnotationView,
    kind: AnnotationKind,
    document: ReviewDiffDocument,
    owner: Option<ReviewSessionId>,
    session: ReviewSessionId,
    result: Result<(), DispatchError>,
)
    requires
        call_ensures(check_restored_place, (&value, kind, &document, owner, session), result),
    ensures
        result is Ok <==> {
            &&& owner == Some(session)
            &&& value.state@ == "open"@ || value.state@ == "resolved"@ || value.state@
                == "outdated"@
            &&& if kind == AnnotationKind::FileNote {
                value.start_line == 0 && value.end_line == 0
            } else {
                &&& value.side@ == "old"@ || value.side@ == "new"@
                &&& 1 <= value.start_line <= value.end_line
                &&& value.side@ == "old"@ ==> value.end_line <= lines_of(
                    document.old.content@,
                ).len()
                &&& value.side@ == "new"@ ==> value.end_line <= lines_of(
                    document.new.content@,
                ).len()
            }
        },
{
    lemma_side_names_differ();
}

/// What is put back is the annotation of the checkpoint under a new id, with
/// its kind, its text, its labels and its state. A note on the review is filed
/// with a captured file of the review, on no line of it, and cannot be put back
/// where there is none.
pub proof fn law_restored_annotations_keep_what_they_say(
    value: AnnotationView,
    route: Option<NoteRoute>,
    result: Result<AnnotationView, DispatchError>,
)
    requires
        call_ensures(prepare_restored, (value, route), result),
    ensures
        result is Ok <==> value.kind@ != "review_note"@ || route is Some,
        result matches Ok(prepared) ==> {
            &&& prepared@.id.len() == 0
            &&& prepared@.kind == value@.kind && prepared@.body == value@.body
            &&& prepared@.state == value@.state && prepared@.labels == value@.labels
            &&& value.kind@ != "review_note"@ ==> prepared@.file_id == value@.file_id
                && prepared@.start_line == value@.start_line && prepared@.end_line
                == value@.end_line && prepared@.side == value@.side
            &&& value.kind@ == "review_note"@ ==> prepared@.file_id == id_chars(route->0.file_id.0)
                && prepared@.start_line == 0 && prepared@.end_line == 0
        },
{
}

/// Captured blame is asked for a file and a side of a local review alone.
pub proof fn law_blame_is_for_local_reviews(
    source: SourceKind,
    input: CapturedBlameInput,
    result: Result<BlameTarget, DispatchError>,
)
    requires
        call_ensures(check_blame_request, (source, &input), result),
    ensures
        result is Ok <==> source == SourceKind::Local && parsed_id(input.file_id@) is Some && (
        input.side@ == "old"@ || input.side@ == "new"@),
        result matches Ok(target) ==> parsed_id(input.file_id@) == Some(target.file_id.0) && (
        target.side == DiffSide::Old <==> input.side@ == "old"@),
{
    lemma_side_names_differ();
}

/// Commits are listed up to the number that was asked for, merges among them
/// unless they are asked away, and by the filters that were given.
pub proof fn law_commits_are_listed_as_asked(
    input: CommitContextInput,
    in_review: bool,
    sha_problem: Option<String>,
    result: Result<CommitContextPlan, DispatchError>,
)
    requires
        call_ensures(plan_commit_context, (input, in_review, sha_problem), result),
    ensures
        result is Ok <==> in_review && (input.selected_commit is None || sha_problem is None),
        result matches Ok(plan) ==> {
            &&& input.max_entries matches Some(count) ==> plan.max_entries == count
            &&& input.max_entries is None ==> plan.max_entries == 100
            &&& plan.include_merge_commits <==> input.include_merge_commits != Some(false)
            &&& plan.author_contains == input.author_contains
            &&& plan.subject_contains == input.subject_contains
            &&& plan.selected_commit == input.selected_commit
        },
{
}

/// Every commit of a pull request is told in order, with its name and headline.
pub proof fn law_commits_of_a_pull_request_are_told(
    review: GitHubPullRequestRecord,
    view: GitHubPullRequestContextView,
    index: int,
)
    requires
        call_ensures(github_pull_request_context_view, (review,), view),
        0 <= index < review.commits@.len(),
    ensures
        view.title@ == review.title@,
        view.commits@.len() == review.commits@.len(),
        view.commits@[index].sha@ == review.commits@[index].sha@,
        view.commits@[index].message_headline@ == review.commits@[index].message_headline@,
        view.commits@[index].authored_at is Some <==> review.commits@[index].authored_at is Some,
{
    assert(shows_commit(view.commits@[index], review.commits@[index]));
}

/// Every comment of an imported thread is told in order, with its text and
/// author.
pub proof fn law_comments_of_a_thread_are_told(
    thread: ImportedReviewThread,
    view: ImportedGitHubReviewThreadView,
    index: int,
)
    requires
        call_ensures(imported_github_thread_view, (thread,), view),
        0 <= index < thread.comments@.len(),
    ensures
        view.resolved == thread.resolved && view.outdated == thread.outdated,
        view.line == thread.line,
        view.comments@.len() == thread.comments@.len(),
        view.comments@[index].id@ == thread.comments@[index].id@,
        view.comments@[index].body_markdown@ == thread.comments@[index].body_markdown@,
        opt_text(view.comments@[index].author) == opt_text(thread.comments@[index].author),
{
    assert(shows_comment(view.comments@[index], thread.comments@[index]));
}

/// A pull request counts as moved just where its base or its head did.
pub proof fn law_moved_pull_requests_are_told(
    status: PullRequestUpdateStatus,
    shown: (GitHubPullRequestUpdateStatusView, bool),
)
    requires
        call_ensures(update_status_view, (status,), shown),
    ensures
        shown.1 <==> shown.0.base_changed || shown.0.head_changed,
        shown.0.base_changed == status.base_changed,
        shown.0.head_changed == status.head_changed,
{
}

/// Every file that changed since the last review is told in order, with its
/// paths and with what became of it.
pub proof fn law_changes_since_the_last_review_are_told(
    current: ComparisonId,
    previous: Option<ComparisonId>,
    files: Vec<PreviousReviewFile>,
    truncated: bool,
    view: ChangedSincePreviousReviewView,
    index: int,
)
    requires
        call_ensures(changed_since_view, (current, previous, &files, truncated), view),
        0 <= index < files@.len(),
    ensures
        view.files@.len() == files@.len(),
        view.files@[index].path@ == files@[index].path@,
        opt_text(view.files@[index].previous_path) == opt_text(files@[index].previous_path),
        files@[index].kind == PreviousReviewFileChangeKind::Added ==> view.files@[index].kind@
            == "added"@,
        files@[index].kind == PreviousReviewFileChangeKind::Removed ==> view.files@[index].kind@
            == "removed"@,
        files@[index].kind == PreviousReviewFileChangeKind::Renamed ==> view.files@[index].kind@
            == "renamed"@,
        files@[index].kind == PreviousReviewFileChangeKind::Modified ==> view.files@[index].kind@
            == "modified"@,
        files@[index].kind == PreviousReviewFileChangeKind::Unchanged ==> view.files@[index].kind@
            == "unchanged"@,
        files@[index].current_file_id matches Some(id) ==> opt_text(
            view.files@[index].current_file_id,
        ) == Some(id_chars(id.0)),
        files@[index].previous_file_id matches Some(id) ==> opt_text(
            view.files@[index].previous_file_id,
        ) == Some(id_chars(id.0)),
        view.truncated == truncated,
{
    assert(shows_change(view.files@[index], files@[index]));
}

/// Every symbol is listed in order, at its lines and with its name and depth,
/// on the side that it was found on; that is the old one for a deleted file.
pub proof fn law_symbols_are_listed(
    symbols: Vec<OutlineSymbol>,
    side: DiffSide,
    views: Vec<OutlineSymbolView>,
    index: int,
    document: ReviewDiffDocument,
    shown_side: DiffSide,
)
    requires
        call_ensures(outline_views, (&symbols, side), views),
        0 <= index < symbols@.len(),
        call_ensures(outline_side, (&document, side), shown_side),
    ensures
        views@.len() == symbols@.len(),
        views@[index].name@ == symbols@[index].name@,
        views@[index].start_line == symbols@[index].start_line,
        views@[index].end_line == symbols@[index].end_line,
        views@[index].depth == symbols@[index].depth,
        side == DiffSide::Old ==> views@[index].side@ == "old"@,
        side == DiffSide::New ==> views@[index].side@ == "new"@,
        symbols@[index].kind == OutlineKind::Function ==> views@[index].kind@ == "function"@,
        symbols@[index].kind == OutlineKind::Method ==> views@[index].kind@ == "method"@,
        symbols@[index].kind == OutlineKind::Struct ==> views@[index].kind@ == "struct"@,
        symbols@[index].kind == OutlineKind::Class ==> views@[index].kind@ == "class"@,
        document.file.status == ReviewFileStatus::Deleted ==> shown_side == DiffSide::Old,
        document.file.status != ReviewFileStatus::Deleted ==> shown_side == side,
{
    assert(shows_symbol(views@[index], symbols@[index], side, index as nat));
}

} // verus!
