use localreview_desktop::contexts::{
    captured_blame_view, changed_since_view, check_blame_request, check_commit_context,
    classification_view, commit_context_view, github_pull_request_context_view,
    imported_github_conversation_view, imported_github_thread_view, parse_history_repository,
    plan_commit_context, update_status_view, GitHubPullRequestRecord, ImportedCommit,
    ImportedConversationComment, ImportedReviewComment, ImportedReviewThread, PreviousReviewFile,
    PreviousReviewFileChangeKind, PullRequestUpdateStatus,
};
use localreview_desktop::document::{DiffSide, ReviewFile, ReviewFileStatus};
use localreview_desktop::drafts::annotation_draft_key;
use localreview_desktop::editor::{check_editor_paths, check_editor_request, external_editor_command};
use localreview_desktop::errors::{display_error, DispatchError};
use localreview_desktop::events::{
    answers_matter, event_is_candidate, ignore_query, ignores_all, judge_events,
    local_event_can_change_source, EventVerdict, WatchEvent, WatchEventKind,
};
use localreview_desktop::flows::{
    next_source_action, next_watch_action, plan_archive, plan_deletion, RemovalStep, SourceAction,
    SourceEvent, WatchAction, WatchStart,
};
use localreview_desktop::ids::{
    id_text, parse_workspace_id, ComparisonId, RepositoryId, ReviewFileId, ReviewSessionId,
    WorkspaceId,
};
use localreview_desktop::perf::{
    disclosed_blocks, distribution, fixture_source, iteration_count, measured_operations, micros,
    operation_name, record, refresh_iterations, refresh_marker, summarize, symbol_query,
    tracing_enabled, Measurement,
};
use localreview_desktop::refresh::RefreshAvailability;
use localreview_desktop::remote::{
    check_capture, mark_stale, note_materialized, parse_remote_target, plan_materialization,
    promote_metadata, remote_companion_status_detail, remote_connection_view, remote_file_binding,
    remote_placeholder_files, remote_previous_file_ids, remote_repository_record,
    remote_result_error, remote_review_file_status, remote_workspace_key, remote_workspace_name,
    untracked_files, working_tree_seed, AgentErrorCode, CaptureProblems, ConnectionState,
    Materialization, PathProblems, RemoteCaptureBinding, RemoteCapturedFile,
    RemoteCompanionAvailability, RemoteCompanionStatus, RemoteComparisonCapture, RemoteFileBinding,
    RemoteFileStatus, RemoteRepository, RemoteTarget, RemoteWorkspaceMetadata, UnexpectedReply,
};
use localreview_desktop::remote_refresh::{next_refresh_action, RefreshAction, RefreshEvent};
use localreview_desktop::remote_review::{
    companion_from_probe, connection_failure, forward_stays_open, known_repository,
    managed_forward_environment, next_generation, opened_metadata, plan_watch, tells_of_changes,
    watcher_hears, watcher_readiness, CompanionProbe, ForwardEvent, Promotion, RefreshRun,
    WatchPlan, WatcherReport,
};
use localreview_desktop::remote_source::{
    ReadProgress, RemoteRepositoryRef, RemoteSourceRevision, RemoteSourceWindow, SourceReader,
    SourceRequest,
};
use localreview_desktop::replay::{request_is_fresh, ReplayGuard};
use localreview_desktop::repositories::{
    apply_baselines, apply_repository_base, local_capture_outcomes, local_refresh_outcome,
    note_fetch, repository_setup_view, reset_repository_base_overrides, set_repository_inclusion,
    status_summary, take_readings, BaselineSource, CaptureFailure, CaptureSuccess,
    ComparisonOptions, ComparisonReading, HeadState, Repository, RepositoryComparison,
    ResolvedBaseline, SetupReadings, SourceKind, WorkingTreeChange,
};
use localreview_desktop::review::{
    acknowledge_refresh, acknowledge_start, check_refresh_input, is_detached_snapshot,
    workspace_setting_keys, Acknowledgement, LanguageMemory,
};
use localreview_desktop::rpc::{
    admit_request, dispatch_error, doctor_response, error_response, open_workspace_input,
    operation_for_event, operation_to_announce, plan_forwarded_open,
    workspace_operation_for_response, BaseOverride,
    LocalCommand, LocalResponse, ProtocolErrorKind, RequestFacts, RpcErrorCode,
};
use localreview_desktop::settings::{forget_workspace, save_settings, ReviewSettings};
use localreview_desktop::split::{split_first, split_pieces};
use localreview_desktop::text_set::TextSet;
use localreview_desktop::time::{parse_time, Timestamp};
use localreview_desktop::views::{
    CapturedBlameInput, CommitContextInput, CommitRangeView, DesktopOperation, RepositoryBaseInput,
    ReviewFileClassificationViewFacts,
};
use localreview_desktop::workspace::{
    archived_workspace, find_remote_workspace, focus_workspace, list_workspaces,
    reopen_archived_workspace, update_workspace_metadata, workspace_view, ActiveReview,
    PinnedPullRequest, Workspace, WorkspaceFacts, WorkspaceSource, WorkspaceSourceTag,
    WorkspaceSummary,
};
use sha2::{Digest, Sha256};
use std::time::{SystemTime, UNIX_EPOCH};

fn time(seconds: i64) -> Timestamp {
    Timestamp::new(seconds, 0).unwrap()
}

fn message<T>(result: Result<T, DispatchError>) -> String {
    match result {
        Err(DispatchError::Invalid(text)) => text,
        Err(DispatchError::NotFound(text)) => format!("not found: {text}"),
        Err(DispatchError::Remote(text)) => format!("remote: {text}"),
        Err(_) => panic!("another error"),
        Ok(_) => panic!("accepted"),
    }
}

fn workspace(id: u128, name: &str) -> Workspace {
    Workspace {
        id: WorkspaceId(id),
        display_name: name.into(),
        source: WorkspaceSource::LocalDirectory { root: "/work".into() },
        default_base: "origin/master".into(),
        pinned: false,
        archived_at: None,
        created_at: time(1),
        updated_at: time(1),
    }
}

fn repository(id: u128, path: &str) -> Repository {
    Repository {
        id: RepositoryId(id),
        workspace_id: WorkspaceId(0x33),
        relative_path: path.into(),
        worktree_path: format!("/work/{path}"),
        git_common_dir: None,
        normalized_primary_remote: None,
        enabled: true,
        base_override: None,
        current_branch: HeadState::Branch("feature".into()),
        last_resolved_base_sha: None,
        last_fetch_at: None,
        last_fetch_error: None,
        discovery_error: None,
        comparison_error: None,
    }
}

#[test]
fn local_watcher_ignores_git_plumbing_but_keeps_source_generations() {
    assert!(!local_event_can_change_source("/repo/.git/index.lock"));
    assert!(!local_event_can_change_source("/repo/.git/objects/ab/cdef"));
    assert!(!local_event_can_change_source("/repo/.git/logs/HEAD"));
    assert!(local_event_can_change_source("/repo/.git/index"));
    assert!(local_event_can_change_source("/repo/.git/refs/heads/main"));
    assert!(local_event_can_change_source("/repo/.git/info/exclude"));
    assert!(local_event_can_change_source("/repo/src/main.rs"));
}

#[test]
fn only_recent_requests_are_accepted() {
    let now = SystemTime::now().duration_since(UNIX_EPOCH).unwrap().as_secs();
    assert!(request_is_fresh(now, now));
    assert!(!request_is_fresh(now.saturating_sub(121), now));
}

#[test]
fn errors_render_with_their_kind() {
    assert_eq!(display_error(&DispatchError::Invalid("x".into())), "invalid request: x");
    assert_eq!(
        display_error(&DispatchError::Cancelled),
        "presentation request was superseded by a newer viewport"
    );
    assert_eq!(display_error(&DispatchError::NotFound("x".into())), "workspace not found: x");
    assert_eq!(display_error(&DispatchError::Ambiguous("x".into())), "workspace name is ambiguous: x");
    assert_eq!(display_error(&DispatchError::Service("x".into())), "durable review operation failed: x");
    assert_eq!(display_error(&DispatchError::Persistence("x".into())), "durable state operation failed: x");
    assert_eq!(display_error(&DispatchError::Remote("x".into())), "remote review operation failed: x");
    assert_eq!(display_error(&DispatchError::Internal), "internal state error");
}

#[test]
fn unauthenticated_request_is_rejected_before_dispatch() {
    let mut guard = ReplayGuard::new();
    let facts = RequestFacts {
        request_id: "request-1".into(),
        issued_at_unix_secs: 1000,
        shape_error: None,
        authentic: false,
    };
    match admit_request(&mut guard, &facts, 1000) {
        Some(LocalResponse::Error { request_id, code, message }) => {
            assert_eq!(request_id.as_deref(), Some("request-1"));
            assert_eq!(code, RpcErrorCode::AuthenticationFailed);
            assert_eq!(message, "desktop authentication failed");
        }
        _ => panic!("the request must be refused"),
    }
    assert_eq!(guard.len(), 0);
}

#[test]
fn requests_are_admitted_once_and_only_while_fresh() {
    let mut guard = ReplayGuard::new();
    let facts = |authentic: bool, issued: u64| RequestFacts {
        request_id: "request-1".into(),
        issued_at_unix_secs: issued,
        shape_error: None,
        authentic,
    };
    assert!(admit_request(&mut guard, &facts(true, 1000), 1121).is_some());
    assert!(admit_request(&mut guard, &facts(true, 1000), 1120).is_none());
    match admit_request(&mut guard, &facts(true, 1000), 1000) {
        Some(LocalResponse::Error { message, .. }) => {
            assert_eq!(message, "invalid request: request has already been processed")
        }
        _ => panic!("a request must not be admitted twice"),
    }
    let bad = RequestFacts {
        request_id: "request-2".into(),
        issued_at_unix_secs: 1000,
        shape_error: Some((ProtocolErrorKind::UnsupportedVersion, "version 9".into())),
        authentic: true,
    };
    assert!(matches!(
        admit_request(&mut guard, &bad, 1000),
        Some(LocalResponse::Error { code: RpcErrorCode::UnsupportedVersion, .. })
    ));
    assert!(matches!(
        error_response(None, ProtocolErrorKind::Other, "x".into()),
        LocalResponse::Error { code: RpcErrorCode::InvalidRequest, .. }
    ));
    assert!(matches!(
        dispatch_error(None, &DispatchError::NotFound("x".into())),
        LocalResponse::Error { code: RpcErrorCode::NotFound, .. }
    ));
}

#[test]
fn successful_local_open_and_focus_emit_the_canonical_workspace_target() {
    let response = LocalResponse::Opened {
        request_id: "request-1".into(),
        workspace: WorkspaceSummary {
            id: "workspace-id".into(),
            name: "Workspace".into(),
            source_tags: vec![],
            available: true,
            location: None,
        },
        created: true,
    };
    assert!(matches!(
        workspace_operation_for_response(&response),
        Some(DesktopOperation::Workspace { workspace_id }) if workspace_id == "workspace-id"
    ));
    assert!(workspace_operation_for_response(&doctor_response("r".into(), 1)).is_none());
    let asked = operation_for_event(&LocalCommand::OpenPullRequest { url: "u".into() });
    assert!(matches!(asked, Some(DesktopOperation::PullRequest { .. })));
    assert!(matches!(
        operation_to_announce(&response, asked),
        Some(DesktopOperation::Workspace { .. })
    ));
    let input = open_workspace_input(
        "/work".into(),
        None,
        &vec![BaseOverride { relative_path: "a".into(), base: "main".into() }],
    );
    assert_eq!(input.repository_bases[0].relative_path.as_deref(), Some("a"));
}

#[test]
fn capture_watcher_epoch_ignores_queued_events_and_preserves_later_events() {
    let id = WorkspaceId(0x33);
    let mut refresh = RefreshAvailability { available: false, revision: 0, watcher_epoch: 0 };
    refresh.advance_refresh_watcher_epoch();
    refresh.publish_refresh_availability(id, None, true);
    let old_epoch = refresh.watcher_epoch;

    refresh.advance_refresh_watcher_epoch();
    let boundary = refresh.boundary();
    assert!(refresh.publish_refresh_availability(id, Some(old_epoch), true).is_none());
    assert_eq!(
        refresh.revision, boundary.revision,
        "a callback queued by the pre-capture watcher must be ignored"
    );
    refresh.publish_refresh_availability_at_boundary(id, boundary, false);
    assert!(!refresh.available);

    refresh.advance_refresh_watcher_epoch();
    let later_boundary = refresh.boundary();
    let current_epoch = refresh.watcher_epoch;
    refresh.publish_refresh_availability(id, Some(current_epoch), true);
    refresh.publish_refresh_availability_at_boundary(id, later_boundary, false);
    assert!(refresh.available);
    assert!(refresh.revision > later_boundary.revision);
}

#[test]
fn github_workspace_summary_preserves_revisioned_refresh_availability() {
    let mut refresh = RefreshAvailability { available: false, revision: 0, watcher_epoch: 0 };
    refresh.publish_refresh_availability(WorkspaceId(0x33), None, true);
    let mut pull_request = workspace(0x33, "fixture");
    pull_request.source = WorkspaceSource::PullRequest {
        url: "https://github.com/acme/project/pull/42".into(),
        number: 42,
    };
    let summary = workspace_view(
        &pull_request,
        &vec![WorkspaceSourceTag::GitHub],
        &None,
        refresh,
        &WorkspaceFacts::PullRequest { pinned: None },
    );
    assert!(summary.refresh_available);
    assert!(summary.refresh_available_revision > 0);
}

#[test]
fn local_refresh_reports_all_repository_failures_and_keeps_retry_available() {
    let failures = vec![CaptureFailure {
        repository_id: RepositoryId(0x4e),
        relative_path: ".".into(),
        error: "not a repository".into(),
    }];
    let outcome = local_refresh_outcome(0, &failures);
    assert_eq!(outcome.status, "failed");
    assert_eq!(outcome.captured_repository_count, 0);
    assert_eq!(outcome.failed_repository_count, 1);
    assert_eq!(outcome.failures.len(), 1);
    assert_eq!(outcome.failures[0].repository_id, id_text(0x4e));
    assert_eq!(outcome.failures[0].repository_path, ".");
    assert!(!outcome.failures[0].error.is_empty());
    assert_eq!(acknowledge_refresh(failures.len()), Acknowledgement::StillOutdated);
    let mut refresh = RefreshAvailability { available: false, revision: 0, watcher_epoch: 1 };
    refresh.publish_refresh_availability(WorkspaceId(0x33), None, true);
    let shown = workspace_view(
        &workspace(0x33, "fixture"),
        &vec![WorkspaceSourceTag::Local],
        &None,
        refresh,
        &WorkspaceFacts::Local { repository_count: 1 },
    );
    assert!(shown.refresh_available);
    assert!(shown.refresh_available_revision > 0);

    assert_eq!(local_refresh_outcome(2, &failures).status, "partial");
    assert_eq!(local_refresh_outcome(2, &Vec::new()).status, "success");
    assert_eq!(acknowledge_start(SourceKind::PullRequest, 0), Acknowledgement::Silent);
    assert_eq!(
        acknowledge_start(SourceKind::Local, 0),
        Acknowledgement::CapturedUpToBoundary
    );
    let updates = local_capture_outcomes(
        &vec![repository(0x4e, "."), repository(2, "b")],
        &vec![CaptureSuccess { repository_id: RepositoryId(2), base_tip_sha: "abc".into() }],
        &failures,
    );
    assert!(updates.iter().any(|update| update.comparison_error.as_deref() == Some("not a repository")));
    assert!(updates.iter().any(|update| update.last_resolved_base_sha.as_deref() == Some("abc")));
}

#[test]
fn settings_are_bounded_without_scaling_the_window() {
    let settings = save_settings(ReviewSettings {
        left_width: 1,
        right_width: 99_999,
        ..ReviewSettings::default()
    })
    .unwrap();
    assert_eq!(settings.left_width, 180);
    assert_eq!(settings.right_width, 520);
    assert!(save_settings(ReviewSettings { theme: "sepia".into(), ..ReviewSettings::default() }).is_err());
    assert!(save_settings(ReviewSettings { tab_width: 3, ..ReviewSettings::default() }).is_err());
    assert!(save_settings(ReviewSettings {
        prompt_path_style: "private-cache".into(),
        ..ReviewSettings::default()
    })
    .is_err());
}

#[test]
fn older_saved_settings_gain_all_new_presentation_defaults() {
    let mut restored = ReviewSettings {
        left_width: 250,
        right_width: 340,
        left_collapsed: false,
        right_collapsed: true,
        fetch_on_review: false,
        ..ReviewSettings::default()
    };
    assert_eq!(restored.last_workspace_id, None);
    assert_eq!(restored.theme, "dark");
    assert_eq!(restored.code_font, "SF Mono");
    assert_eq!(restored.tab_width, 2);
    assert!(!restored.wrap_lines);
    assert!(!restored.shortcuts.is_empty());
    restored.last_workspace_id = Some("a".into());
    assert!(!forget_workspace(&mut restored, "b"));
    assert!(forget_workspace(&mut restored, "a"));
    assert_eq!(restored.last_workspace_id, None);
}

#[test]
fn workspace_rail_metadata_is_durable_and_cannot_mutate_archived_records() {
    let updated = update_workspace_metadata(
        workspace(0x33, "fixture"),
        Some("  Pinned review  ".into()),
        Some(true),
        time(5),
    )
    .unwrap();
    assert_eq!(updated.display_name, "Pinned review");
    assert!(updated.pinned);
    let archived = archived_workspace(updated, time(6));
    assert!(matches!(
        update_workspace_metadata(archived, Some("hidden mutation".into()), None, time(7)),
        Err(DispatchError::Invalid(_))
    ));
}

#[test]
fn archived_workspace_can_be_reopened_with_its_captured_review_intact() {
    let mut known = vec![workspace(0x33, "fixture")];
    assert_eq!(list_workspaces(&known, true).len(), 0);
    let archived = archived_workspace(known.remove(0), time(9));
    known.push(archived);
    assert!(list_workspaces(&known, false).is_empty());
    assert_eq!(list_workspaces(&known, true).len(), 1);
    let view = workspace_view(
        &known[0],
        &vec![WorkspaceSourceTag::Local],
        &Some(ActiveReview {
            files: vec![ReviewFileId(1)],
            viewed: TextSet::new(),
            annotations: Vec::new(),
        }),
        RefreshAvailability { available: false, revision: 0, watcher_epoch: 0 },
        &WorkspaceFacts::Local { repository_count: 1 },
    );
    assert!(view.archived);
    assert_eq!(view.progress.total, 1);
    assert!(matches!(
        focus_workspace(&known, &id_text(0x33)),
        Err(DispatchError::Invalid(message)) if message.contains("archived")
    ));
    assert!(matches!(focus_workspace(&known, "fixture"), Err(DispatchError::NotFound(_))));
    let reopened = reopen_archived_workspace(known.remove(0), time(10)).unwrap();
    assert!(reopened.archived_at.is_none());
    known.push(reopened);
    assert_eq!(list_workspaces(&known, false).len(), 1);
    assert!(list_workspaces(&known, true).is_empty());
    assert_eq!(focus_workspace(&known, "fixture").unwrap(), 0);
    known.push(workspace(0x34, "fixture"));
    assert!(matches!(focus_workspace(&known, "fixture"), Err(DispatchError::Ambiguous(_))));
}

#[test]
fn workspaces_describe_where_they_are() {
    let plain = RefreshAvailability { available: false, revision: 3, watcher_epoch: 0 };
    let mut pull_request = workspace(0x33, "fixture");
    pull_request.source = WorkspaceSource::PullRequest { url: "u".into(), number: 42 };
    let shown = workspace_view(
        &pull_request,
        &vec![WorkspaceSourceTag::GitHub],
        &None,
        plain,
        &WorkspaceFacts::PullRequest {
            pinned: Some(PinnedPullRequest { number: 42, pinned_head_sha: "abcdef0123456789".into() }),
        },
    );
    assert!(shown.detail.contains("42"));
    assert_eq!(shown.source, vec!["github".to_owned()]);
    assert!(!shown.review_ready);
    let target = RemoteTarget { host: "h".into(), root: "/srv".into() };
    let mut remote = workspace(0x35, "remote");
    remote.source = WorkspaceSource::RemoteDirectory { host: "h".into(), root: "/srv".into() };
    assert_eq!(find_remote_workspace(&vec![workspace(1, "a"), remote], &target), Some(1));
    assert_eq!(
        workspace_setting_keys(WorkspaceId(1)),
        vec![
            "ui.annotation_draft.v1.00000000-0000-0000-0000-000000000001".to_owned(),
            "remote.workspace.v4.00000000-0000-0000-0000-000000000001".to_owned(),
            "remote.workspace.v3.00000000-0000-0000-0000-000000000001".to_owned(),
        ]
    );
    assert_eq!(parse_workspace_id("not an id"), None);
    assert_eq!(
        parse_workspace_id("{0000000000000000000000000000ABCD}"),
        None
    );
    assert_eq!(
        parse_workspace_id("0000000000000000000000000000ABCD"),
        Some(WorkspaceId(0xabcd))
    );
}

#[test]
fn repository_setup_controls_are_scoped_strict_and_keep_failures_on_their_own_row() {
    let sha = "0123456789abcdef0123456789abcdef01234567";
    let pinned = RepositoryComparison {
        id: ComparisonId(0xc0),
        repository_id: RepositoryId(0x4e),
        requested_base: "origin/master".into(),
        base_tip_sha: sha.into(),
        merge_base_sha: sha.into(),
        head_sha: Some(sha.into()),
        head: HeadState::Branch("feature".into()),
        options: ComparisonOptions {
            ignore_all_whitespace: false,
            ignore_space_at_eol: false,
            ignore_cr_at_eol: false,
            path_filters: Vec::new(),
        },
    };
    let unreadable = SetupReadings {
        head: Err("no head".into()),
        status: Err("no status".into()),
        checked_at: time(2),
        suggested_base: None,
        comparison: Err("no base".into()),
    };
    let (read, live) = take_readings(repository(0x4e, "."), unreadable);
    let inherited = ResolvedBaseline {
        reference: "origin/master".into(),
        source: BaselineSource::WorkspaceDefault,
    };
    let row = repository_setup_view(&read, &inherited, Some(&pinned), live);
    assert_eq!(row.path, ".");
    assert_eq!(row.effective_base, "origin/master");
    assert_eq!(row.base_source, "inherited");
    assert!(row.merge_base_sha.is_some(), "pinned fallback remains visible");
    assert!(row.comparison_error.is_some(), "a bad sibling is a row error, not a table failure");

    let known = vec![repository(0x4e, ".")];
    let one = vec![id_text(0x4e)];
    let disabled = set_repository_inclusion(SourceKind::Local, &known, &one, false).unwrap();
    assert!(!disabled[0].enabled);

    let overridden =
        apply_repository_base(SourceKind::Local, &known, &one, "origin/release-1", None).unwrap();
    assert_eq!(overridden[0].base_override.as_deref(), Some("origin/release-1"));
    let inherited = reset_repository_base_overrides(SourceKind::Local, &overridden, &one).unwrap();
    assert_eq!(inherited[0].base_override, None);
    let invalid = apply_repository_base(
        SourceKind::Local,
        &known,
        &one,
        "origin/main^",
        Some("base must be a branch".into()),
    );
    assert!(matches!(invalid, Err(DispatchError::Invalid(_))));
    let fetched = note_fetch(repository(0x4e, "."), time(3), Some("offline".into()));
    assert!(fetched.last_fetch_at.is_some());
    assert!(fetched.last_fetch_error.is_some());
    let twice = vec![id_text(0x4e), id_text(0x4e)];
    assert!(matches!(
        set_repository_inclusion(SourceKind::Local, &known, &twice, true),
        Err(DispatchError::Invalid(_))
    ));
    assert!(set_repository_inclusion(SourceKind::Remote, &known, &one, true).is_err());
}

#[test]
fn live_readings_show_the_state_of_a_checkout() {
    let change = |index_status: char, worktree_status: char, untracked: bool| WorkingTreeChange {
        index_status,
        worktree_status,
        untracked,
    };
    assert_eq!(status_summary(&Vec::new()), "Clean");
    assert_eq!(
        status_summary(&vec![change('M', ' ', false), change(' ', 'M', false), change('?', '?', true)]),
        "Dirty: 1 staged, 1 unstaged, 1 untracked"
    );
    let readings = SetupReadings {
        head: Ok(HeadState::Detached("abc".into())),
        status: Ok(vec![change('M', ' ', false), change(' ', 'M', false), change('?', '?', true)]),
        checked_at: time(2),
        suggested_base: Some("main".into()),
        comparison: Ok(ComparisonReading {
            base_tip_sha: "b".into(),
            merge_base_sha: "m".into(),
            head_sha: "h".into(),
            divergence: Ok((2, 5)),
        }),
    };
    let (read, live) = take_readings(repository(1, "."), readings);
    assert!(matches!(read.current_branch, HeadState::Detached(_)));
    assert_eq!(live.clean, Some(false));
    assert_eq!(live.changed_file_count, Some(3));
    assert_eq!((live.ahead, live.behind), (Some(2), Some(5)));
    let entries = vec![RepositoryBaseInput {
        repository_id: Some(id_text(1)),
        repository_path: None,
        relative_path: None,
        base: Some("main".into()),
    }];
    let (updates, error) = apply_baselines(&entries, &vec![None], &vec![repository(1, ".")]);
    assert!(error.is_none());
    assert_eq!(updates[0].base_override.as_deref(), Some("main"));
}

fn event(kind: WatchEventKind, paths: &[&str]) -> WatchEvent {
    WatchEvent {
        kind,
        need_rescan: false,
        paths: paths.iter().map(|path| path.to_string()).collect(),
    }
}

#[test]
fn events_are_judged_by_the_repository_that_owns_them() {
    let roots = vec!["/repo".to_owned(), "/repo/nested".to_owned()];
    let judged = |events: Vec<WatchEvent>| judge_events(&roots, &events);
    match judged(vec![event(WatchEventKind::Modified, &["/repo/target/x", "/repo/nested/generated/o.rs"])]) {
        EventVerdict::AskRepositories(questions) => {
            assert_eq!(questions[0].to_list(), vec!["target/x".to_owned()]);
            assert_eq!(questions[1].to_list(), vec!["generated/o.rs".to_owned()]);
            assert!(!answers_matter(&questions, &vec![Some(true), Some(true)]));
            assert!(answers_matter(&questions, &vec![Some(true), None]));
            assert_eq!(ignore_query(&questions[0]), b"target/x\0".to_vec());
            let told = b"other\0target/x\0".to_vec();
            assert_eq!(ignores_all(&questions[0], Some(0), &told), Some(true));
            assert_eq!(ignores_all(&questions[1], Some(0), &told), Some(false));
            assert_eq!(ignores_all(&questions[1], Some(1), &Vec::new()), Some(false));
            assert_eq!(ignores_all(&questions[0], Some(128), &told), None);
            assert_eq!(ignores_all(&questions[0], None, &told), None);
        }
        EventVerdict::Matters => panic!("names alone do not settle it"),
    }
    assert!(matches!(
        judged(vec![event(WatchEventKind::Modified, &["/repo/.git/index"])]),
        EventVerdict::Matters
    ));
    assert!(matches!(
        judged(vec![event(WatchEventKind::Created, &["/elsewhere/file"])]),
        EventVerdict::Matters
    ));
    assert!(matches!(
        judged(vec![event(WatchEventKind::Modified, &["repo/target/x"])]),
        EventVerdict::Matters
    ));
    assert!(matches!(judged(vec![event(WatchEventKind::Unspecified, &[])]), EventVerdict::Matters));
    match judged(vec![event(WatchEventKind::Harmless, &["/repo/a"])]) {
        EventVerdict::AskRepositories(questions) => {
            assert!(!answers_matter(&questions, &vec![None, None]));
        }
        EventVerdict::Matters => panic!("reading changes nothing"),
    }
    assert!(event_is_candidate(&event(WatchEventKind::Removed, &["/repo/a"])));
    assert!(!event_is_candidate(&event(WatchEventKind::Harmless, &["/repo/a"])));
    assert!(!event_is_candidate(&event(WatchEventKind::Modified, &["/repo/.git/index.lock"])));
    let lost = WatchEvent { kind: WatchEventKind::Harmless, need_rescan: true, paths: Vec::new() };
    assert!(event_is_candidate(&lost));
}

fn captured(path: &str, status: RemoteFileStatus) -> RemoteCapturedFile {
    RemoteCapturedFile {
        path: path.into(),
        old_path: None,
        status,
        binary: false,
        lfs_pointer: false,
        untracked: false,
        new_object_id: None,
        captured_byte_len: Some(5),
    }
}

fn reference() -> RemoteRepositoryRef {
    RemoteRepositoryRef { workspace_root: "/srv/review".into(), relative_path: ".".into() }
}

fn capture(id: &str, generation: u64) -> RemoteComparisonCapture {
    RemoteComparisonCapture {
        capture_id: id.into(),
        generation,
        repository: reference(),
        requested_base: "origin/master".into(),
        base_tip_sha: "a".repeat(40),
        merge_base_sha: "b".repeat(40),
        head_sha: Some("c".repeat(40)),
        head: HeadState::Branch("feature".into()),
        files: vec![captured("src/lib.rs", RemoteFileStatus::Modified)],
    }
}

fn binding(id: &str, generation: u64) -> RemoteCaptureBinding {
    RemoteCaptureBinding {
        repository_id: id_text(0x4e),
        comparison_id: id_text(0xc0),
        capture: capture(id, generation),
        files: vec![RemoteFileBinding {
            file_id: id_text(0xf1),
            file: captured("src/lib.rs", RemoteFileStatus::Modified),
            materialized: false,
        }],
    }
}

fn metadata() -> RemoteWorkspaceMetadata {
    let companion = RemoteCompanionStatus {
        availability: RemoteCompanionAvailability::Compatible,
        platform: None,
        detail: "ready".into(),
    };
    opened_metadata(
        RemoteTarget { host: "h".into(), root: "/srv/review".into() },
        ReviewSessionId(1),
        1,
        "agent".into(),
        7,
        vec![binding("one", 1)],
        companion,
    )
}

fn source_request() -> SourceRequest {
    SourceRequest {
        capture_id: "one".into(),
        capture_generation: 1,
        repository: reference(),
        path: "src/lib.rs".into(),
        revision: RemoteSourceRevision::Worktree,
    }
}

fn source_window(bytes: &[u8], whole: &[u8], start_line: u32, end_of_file: bool) -> RemoteSourceWindow {
    RemoteSourceWindow {
        capture_id: "one".into(),
        capture_generation: 1,
        repository: reference(),
        path: "src/lib.rs".into(),
        revision: RemoteSourceRevision::Worktree,
        start_line,
        total_lines: whole.iter().filter(|byte| **byte == b'\n').count() as u32,
        byte_len: whole.len() as u64,
        content_sha256_hex: hex::encode(Sha256::digest(whole)),
        bytes: bytes.to_vec(),
        end_of_file,
    }
}

#[test]
fn remote_sources_are_read_exactly_or_not_at_all() {
    let whole = b"new\r\nlines\n";
    let request = source_request();
    let reader = SourceReader::new(1);
    assert_eq!(reader.next_line(), 1);
    let reader = match reader.accept(&source_window(b"new\r\n", whole, 1, false), &request) {
        ReadProgress::More(reader) => reader,
        _ => panic!("there is more to read"),
    };
    assert_eq!(reader.next_line(), 2);
    match reader.accept(&source_window(b"lines\n", whole, 2, true), &request) {
        ReadProgress::Done(text) => assert_eq!(text, "new\r\nlines\n"),
        _ => panic!("everything was read"),
    }
    let mut forged = source_window(b"new\r\nother\n", whole, 1, true);
    forged.byte_len = 12;
    assert!(matches!(
        SourceReader::new(10).accept(&forged, &request),
        ReadProgress::Failed(DispatchError::Remote(_))
    ));
    let mut foreign = source_window(whole, whole, 1, true);
    foreign.capture_id = "two".into();
    assert!(matches!(
        SourceReader::new(10).accept(&foreign, &request),
        ReadProgress::Failed(_)
    ));
    let not_text = [0xffu8, b'\n'];
    assert!(matches!(
        SourceReader::new(10).accept(&source_window(&not_text, &not_text, 1, true), &request),
        ReadProgress::Failed(_)
    ));
}

#[test]
fn remote_files_are_materialized_once() {
    let mut record = metadata();
    let none = PathProblems { path: None, old_path: None };
    assert_eq!(remote_file_binding(&record.captures, ReviewFileId(0xf1), None), Some((0, 0)));
    assert_eq!(
        remote_file_binding(&record.captures, ReviewFileId(0xf1), Some(ComparisonId(1))),
        None
    );
    match plan_materialization(ReviewFileId(0xf1), &record.captures[0].files[0], &none).unwrap() {
        Materialization::Read { file, old_path, new_path } => {
            assert_eq!(file.status, ReviewFileStatus::Modified);
            assert_eq!(old_path.as_deref(), Some("src/lib.rs"));
            assert_eq!(new_path.as_deref(), Some("src/lib.rs"));
        }
        _ => panic!("the text has to be read"),
    }
    mark_stale(&mut record, "offline".into());
    assert!(record.stale);
    note_materialized(&mut record, 0, 0, true);
    assert!(!record.stale);
    assert_eq!(record.last_error, None);
    assert!(matches!(
        plan_materialization(ReviewFileId(0xf1), &record.captures[0].files[0], &none).unwrap(),
        Materialization::Complete
    ));
    assert_eq!(
        remote_review_file_status(&captured("a", RemoteFileStatus::Untracked)),
        ReviewFileStatus::Added
    );
    assert_eq!(
        next_source_action(SourceEvent::Connected, false, true),
        SourceAction::ReadNew
    );
    assert_eq!(
        next_source_action(SourceEvent::NotRead, true, true),
        SourceAction::MarkStaleAndFail
    );
}

#[test]
fn known_files_keep_their_identity_across_captures() {
    let known = remote_previous_file_ids(&vec![ReviewFile {
        id: ReviewFileId(7),
        path: "src/lib.rs".into(),
        old_path: None,
        status: ReviewFileStatus::Modified,
    }]);
    let files = vec![
        captured("src/lib.rs", RemoteFileStatus::Modified),
        captured("src/new.rs", RemoteFileStatus::Added),
    ];
    let fine = || PathProblems { path: None, old_path: None };
    let placeholders = remote_placeholder_files(
        &files,
        &vec![fine(), fine()],
        &known,
        &vec![ReviewFileId(100), ReviewFileId(101)],
    );
    assert_eq!(placeholders[0].file.id, ReviewFileId(7));
    assert_eq!(placeholders[1].file.id, ReviewFileId(101));
    assert!(!placeholders[0].binding.materialized);
    assert!(placeholders[0].old_text.is_empty() && placeholders[0].new_text.is_empty());
}

#[test]
fn a_failed_capture_keeps_the_former_one() {
    let record = metadata();
    let mut run = RefreshRun::begin(metadata().captures, false);
    run.note_failed(repository(0x4e, "."), "offline".into());
    let result = run.finish(record, 2, "agent".into(), 9);
    assert_eq!(result.promotion, Promotion::Keep);
    assert_eq!(result.metadata.captures[0].capture.capture_id, "one");
    assert!(result.metadata.stale);
    assert_eq!(result.repositories.len(), 1);
    let mut run = RefreshRun::begin(metadata().captures, true);
    run.note_captured(repository(0x4e, "."), "b".repeat(40), binding("two", 2));
    let result = run.finish(metadata(), 2, "agent".into(), 9);
    assert_eq!(result.promotion, Promotion::Replace);
    assert_eq!(result.metadata.captures.len(), 1);
    assert_eq!(result.metadata.captures[0].capture.capture_id, "two");
    assert!(!result.metadata.stale);
    assert_eq!(next_generation(1), 2);
    assert_eq!(next_generation(u64::MAX), u64::MAX);
    assert_eq!(known_repository(&vec![repository(1, "a")], "b").map(|found| found.id), None);
}

#[test]
fn a_first_capture_stores_what_was_found() {
    let mut run = RefreshRun::begin(Vec::new(), true);
    run.note_captured(repository(0x4e, "."), "b".repeat(40), binding("one", 1));
    run.note_failed(repository(0x4f, "other"), "no merge base".into());
    let (captures, repositories) = run.opened();
    assert_eq!(captures.len(), 1);
    assert_eq!(repositories[0].last_resolved_base_sha, Some("b".repeat(40)));
    assert_eq!(repositories[0].discovery_error, None);
    assert_eq!(repositories[1].discovery_error.as_deref(), Some("no merge base"));
}

#[test]
fn requests_from_hosts_open_there_and_capture_where_they_name_bases() {
    let plain = plan_forwarded_open("host", "/srv/work", None, &Vec::new());
    assert_eq!(plain.target, "host:/srv/work");
    assert!(plain.capture.is_none());
    let named = plan_forwarded_open("host", "/srv/work", Some("main".into()), &Vec::new());
    assert_eq!(named.capture.unwrap().base.as_deref(), Some("main"));
    let entry = BaseOverride { relative_path: "lib".into(), base: "origin/next".into() };
    let capture = plan_forwarded_open("host", "/srv", None, &vec![entry]).capture.unwrap();
    assert_eq!(capture.base, None);
    assert_eq!(capture.repository_bases[0].relative_path.as_deref(), Some("lib"));
    assert_eq!(capture.repository_bases[0].base.as_deref(), Some("origin/next"));
    assert_eq!(capture.repository_bases[0].repository_id, None);
}

#[test]
fn new_captures_watch_first_and_keep_the_outgoing_texts() {
    let mut event = RefreshEvent::Asked;
    let mut actions = Vec::new();
    loop {
        let action = next_refresh_action(event, true);
        actions.push(action);
        event = match action {
            RefreshAction::ApplyBaselines => RefreshEvent::BaselinesApplied,
            RefreshAction::ReadRecord => RefreshEvent::RecordRead,
            RefreshAction::StartWatcher => RefreshEvent::WatcherReady,
            RefreshAction::FindReview => RefreshEvent::ReviewFound,
            RefreshAction::RetainTexts => RefreshEvent::TextsRetained,
            RefreshAction::Connect => RefreshEvent::Connected,
            RefreshAction::Discover => RefreshEvent::Discovered,
            RefreshAction::TryRepositories => {
                RefreshEvent::AllTried { promotion: Promotion::Replace }
            }
            RefreshAction::ReplaceReview => RefreshEvent::Stored { stale: false },
            RefreshAction::ClearToBoundary => RefreshEvent::Announced,
            _ => break,
        };
    }
    assert_eq!(actions.last(), Some(&RefreshAction::LoadReview));
    let place = |action: RefreshAction| actions.iter().position(|known| *known == action).unwrap();
    assert!(place(RefreshAction::StartWatcher) < place(RefreshAction::TryRepositories));
    assert!(place(RefreshAction::RetainTexts) < place(RefreshAction::ReplaceReview));
    assert_eq!(
        next_refresh_action(RefreshEvent::ReviewFound, false),
        RefreshAction::Connect
    );
    assert_eq!(
        next_refresh_action(RefreshEvent::NotConnected, true),
        RefreshAction::MarkStale
    );
}

#[test]
fn remote_watchers_are_bounded_and_tell_why_they_fail() {
    let captures: Vec<RemoteCaptureBinding> = (0..3).map(|_| binding("one", 1)).collect();
    match plan_watch(WorkspaceId(1), &captures, 0, true) {
        WatchPlan::Watch { repositories, request_id, generation } => {
            assert_eq!(repositories.len(), 1);
            assert_eq!(request_id, "watch-workspace-00000000-0000-0000-0000-000000000001");
            assert_eq!(generation, 1);
        }
        _ => panic!("there is something to watch"),
    }
    assert!(matches!(plan_watch(WorkspaceId(1), &Vec::new(), 1, false), WatchPlan::Idle));
    assert!(matches!(plan_watch(WorkspaceId(1), &Vec::new(), 1, true), WatchPlan::Refuse(_)));
    assert_eq!(
        message(watcher_readiness(&WatcherReport::Silent { error: "timeout".into() })),
        "remote: SSH change watcher did not become ready: timeout"
    );
    assert!(watcher_readiness(&WatcherReport::Watching).is_ok());
    assert!(!watcher_hears(true, 1, 1));
    assert!(watcher_hears(false, 1, 1));
    assert!(tells_of_changes(&vec![1, 4], 3));
    assert!(!tells_of_changes(&vec![1, 2], 3));
    assert_eq!(next_watch_action(WatchStart::NotReady, true), WatchAction::StopMarkAvailableAndFail);
    assert_eq!(next_watch_action(WatchStart::NothingToWatch, false), WatchAction::Finish);
}

#[test]
fn remote_targets_and_companions_are_named() {
    let target = parse_remote_target("me@host:/srv/review", None, true).unwrap();
    assert_eq!((target.host.as_str(), target.root.as_str()), ("me@host", "/srv/review"));
    assert!(remote_workspace_name(&target).contains("review"));
    assert_eq!(
        message(parse_remote_target("host", None, true)),
        "SSH target must be host:/absolute/path"
    );
    assert_eq!(
        message(parse_remote_target("host:/a/../b", None, true)),
        "SSH workspace root must not contain parent traversal"
    );
    assert_eq!(
        message(parse_remote_target("-x:/a", None, false)),
        "SSH host must be a normal OpenSSH host or user@host alias"
    );
    assert_eq!(message(parse_remote_target("x", Some("bad".into()), true)), "bad");
    let (companion, program) = companion_from_probe(CompanionProbe::MissingOrUnreachable {
        platform: None,
        detail: "no route".into(),
    });
    assert_eq!(companion.detail, "no route");
    assert!(remote_companion_status_detail(&companion).ends_with(" (platform unknown)"));
    let failure = connection_failure(companion, program, "refused");
    assert!(matches!(failure.error, DispatchError::Remote(_)));
    assert!(matches!(
        remote_result_error(
            "capture",
            &UnexpectedReply::Refused { code: AgentErrorCode::Unavailable, message: "busy".into() }
        ),
        DispatchError::Remote(_)
    ));
    assert!(managed_forward_environment(&Vec::new(), "session".into()).is_err());
    assert!(forward_stays_open(ForwardEvent::TimedOut));
    assert!(!forward_stays_open(ForwardEvent::Expired));
    assert_eq!(
        remote_workspace_key(WorkspaceId(1)),
        "remote.workspace.v4.00000000-0000-0000-0000-000000000001"
    );
    let mut record = metadata();
    record.schema_version = 3;
    assert!(promote_metadata(&mut record, false));
    assert_eq!(record.schema_version, 4);
    let (label, _) = remote_connection_view(&ConnectionState::Connecting, None);
    assert_eq!(label, "connecting");
}

#[test]
fn captures_are_checked_before_they_are_stored() {
    let fine = || CaptureProblems {
        requested_base: None,
        base_tip_sha: None,
        merge_base_sha: None,
        head_sha: None,
        head: None,
    };
    assert!(check_capture(&capture("one", 1), &fine()).is_ok());
    let bad = CaptureProblems { base_tip_sha: Some("not a hash".into()), ..fine() };
    assert!(check_capture(&capture("one", 1), &bad).is_err());
    assert!(working_tree_seed(&capture("one", 1)).contains("one"));
    let mut with_new = capture("one", 1);
    with_new.files[0].untracked = true;
    assert_eq!(untracked_files(&with_new).len(), 1);
    let remote = RemoteRepository {
        reference: reference(),
        canonical_worktree: "/srv/review".into(),
        git_common_dir: None,
        primary_remote: Some("origin".into()),
        head: HeadState::Unborn,
    };
    let stored = remote_repository_record(RepositoryId(5), WorkspaceId(6), &remote, None).unwrap();
    assert_eq!(stored.relative_path, ".");
    assert_eq!(stored.worktree_path, "/srv/review");
}

#[test]
fn permanent_workspace_delete_purges_reviews_exports_drafts_backups_and_unshared_blobs() {
    let id = WorkspaceId(0x33);
    let mut known = vec![workspace(0x33, "fixture")];
    let mut settings = ReviewSettings {
        last_workspace_id: Some(id_text(0x33)),
        ..ReviewSettings::default()
    };
    let session_draft = annotation_draft_key(ReviewSessionId(0x5e55));
    let mut owned = vec![session_draft.clone()];
    owned.extend(workspace_setting_keys(id));
    let mut stored: Vec<(String, String)> =
        owned.iter().map(|key| (key.clone(), r#"{"owned":true}"#.to_owned())).collect();
    stored.push((workspace_setting_keys(WorkspaceId(0x34))[0].clone(), "another".into()));
    let mut records = vec!["review", "annotation", "export", "blob"];
    let mut caches_kept = true;

    let steps = plan_deletion(SourceKind::Local, false);
    assert!(!steps.contains(&RemovalStep::ArchiveRecord));
    assert!(
        !steps.contains(&RemovalStep::DeleteCheckout),
        "review.rs of a local folder stays where it is"
    );
    for step in &steps {
        match step {
            RemovalStep::ForgetLastWorkspace => {
                assert!(forget_workspace(&mut settings, &id_text(0x33)));
            }
            RemovalStep::PurgeRecords => {
                known.retain(|kept| kept.id != id);
                records.clear();
                let keys = workspace_setting_keys(id);
                stored.retain(|(key, _)| !keys.contains(key) && *key != session_draft);
            }
            RemovalStep::DropCaches => caches_kept = false,
            RemovalStep::DropLocalWatcher | RemovalStep::ForgetChanges => {}
            _ => panic!("nothing else is removed with a local folder"),
        }
    }

    assert!(list_workspaces(&known, false).is_empty());
    assert!(list_workspaces(&known, true).is_empty());
    assert!(matches!(focus_workspace(&known, &id_text(0x33)), Err(DispatchError::NotFound(_))));
    assert!(records.is_empty());
    assert!(!caches_kept);
    assert_eq!(settings.last_workspace_id, None);
    assert!(!forget_workspace(&mut settings, &id_text(0x33)), "it is forgotten already");
    for key in &owned {
        assert!(stored.iter().all(|(kept, _)| kept != key));
    }
    assert_eq!(stored.len(), 1, "what belongs to another workspace stays");
}

#[test]
fn removal_gives_up_the_outside_before_the_records() {
    assert_eq!(
        plan_archive(SourceKind::PullRequest, true),
        vec![RemovalStep::DeleteCheckout, RemovalStep::ForgetChanges]
    );
    assert_eq!(
        plan_archive(SourceKind::PullRequest, false),
        vec![RemovalStep::ArchiveRecord, RemovalStep::ForgetChanges]
    );
    assert!(!plan_archive(SourceKind::Remote, false).contains(&RemovalStep::PurgeRecords));
    for source in [SourceKind::Local, SourceKind::Remote] {
        for exists in [true, false] {
            assert!(!plan_archive(source, exists).contains(&RemovalStep::DeleteCheckout));
            assert!(!plan_deletion(source, exists).contains(&RemovalStep::DeleteCheckout));
        }
    }
    let steps = plan_deletion(SourceKind::PullRequest, true);
    assert_eq!(steps[0], RemovalStep::DeleteCheckout);
    assert_eq!(steps[4], RemovalStep::PurgeRecords);
    assert!(is_detached_snapshot(SourceKind::PullRequest, false));
    assert!(check_refresh_input(SourceKind::PullRequest, true, 0, false).is_err());
    assert!(check_refresh_input(SourceKind::Local, true, 1, true).is_ok());
}

#[test]
fn imported_discussions_are_shown_as_they_are() {
    let context = github_pull_request_context_view(GitHubPullRequestRecord {
        canonical_url: "https://github.com/acme/repo/pull/42".into(),
        title: "Review this".into(),
        author: Some("octocat".into()),
        base_ref: "main".into(),
        head_ref: "feature".into(),
        pinned_base_sha: "a".repeat(40),
        pinned_head_sha: "b".repeat(40),
        draft: false,
        state: "OPEN".into(),
        review_decision: Some("CHANGES_REQUESTED".into()),
        commits: vec![ImportedCommit {
            sha: "c".repeat(40),
            message_headline: "Use stable capture".into(),
            authored_at: parse_time("2026-07-22T00:00:00Z"),
        }],
        import_error: None,
    });
    assert_eq!(context.commits[0].authored_at.as_deref(), Some("2026-07-22T00:00:00+00:00"));
    assert_eq!(context.pinned_head_sha, "b".repeat(40));
    let thread = imported_github_thread_view(ImportedReviewThread {
        id: "thread-1".into(),
        resolved: true,
        outdated: false,
        path: Some("src/main.rs".into()),
        line: Some(42),
        original_line: Some(40),
        comments: vec![ImportedReviewComment {
            id: "comment-1".into(),
            body_markdown: "Please simplify this.".into(),
            author: Some("octocat".into()),
            url: None,
            created_at: None,
        }],
    });
    assert_eq!(thread.original_line, Some(40));
    assert_eq!(thread.comments[0].body_markdown, "Please simplify this.");
    let comment = imported_github_conversation_view(ImportedConversationComment {
        id: 9,
        body_markdown: "hello".into(),
        author: None,
        url: None,
        created_at: None,
    });
    assert_eq!(comment.id, 9);
    let (status, moved) = update_status_view(PullRequestUpdateStatus {
        workspace_id: WorkspaceId(1),
        canonical_url: "u".into(),
        pinned_base_sha: "a".into(),
        pinned_head_sha: "b".into(),
        current_base_sha: "a".into(),
        current_head_sha: "c".into(),
        base_changed: false,
        head_changed: true,
        metadata_fetched_at: time(0),
    });
    assert!(moved);
    assert_eq!(status.metadata_fetched_at, "1970-01-01T00:00:00+00:00");
}

#[test]
fn advanced_review_metadata_stays_read_only_and_capture_bound() {
    let shown = classification_view(
        ComparisonId(1),
        ReviewFileId(2),
        "review.rs".into(),
        ReviewFileClassificationViewFacts {
            generated: true,
            vendored: false,
            lockfile: false,
            binary: false,
            lfs_pointer: false,
            submodule: false,
        },
    );
    assert_eq!(shown.file_id, id_text(2));
    assert!(shown.classification.generated);
    let changed = changed_since_view(ComparisonId(1), None, &Vec::new(), false);
    assert!(changed.previous_comparison_id.is_none());
    assert!(changed.files.is_empty());
    let moved = changed_since_view(
        ComparisonId(1),
        Some(ComparisonId(2)),
        &vec![PreviousReviewFile {
            kind: PreviousReviewFileChangeKind::Renamed,
            path: "b".into(),
            previous_path: Some("a".into()),
            current_file_id: Some(ReviewFileId(3)),
            previous_file_id: None,
            current_document_fingerprint: None,
            previous_document_fingerprint: None,
        }],
        true,
    );
    assert_eq!(moved.files[0].kind, "renamed");
    assert_eq!(moved.files[0].current_file_id, Some(id_text(3)));
    assert!(parse_history_repository("x").is_err());
}

#[test]
fn attribution_is_local_and_bounded() {
    let input = |side: &str, start_line: u32, end_line: u32| CapturedBlameInput {
        file_id: id_text(2),
        side: side.into(),
        start_line,
        end_line,
    };
    let target = check_blame_request(SourceKind::Local, &input("old", 1, 2)).unwrap();
    assert_eq!((target.file_id, target.side), (ReviewFileId(2), DiffSide::Old));
    assert!(check_blame_request(SourceKind::Remote, &input("old", 1, 2)).is_err());
    assert!(captured_blame_view(ComparisonId(1), DiffSide::New, Vec::new()).lines.is_empty());
    let commits = |entries: Option<usize>| CommitContextInput {
        repository_id: id_text(4),
        max_entries: entries,
        include_merge_commits: None,
        author_contains: None,
        subject_contains: None,
        selected_commit: None,
    };
    assert_eq!(
        check_commit_context(SourceKind::Local, &commits(None)).unwrap(),
        RepositoryId(4)
    );
    assert!(plan_commit_context(commits(None), false, None).is_err());
    let plan = plan_commit_context(commits(None), true, None).unwrap();
    assert!(plan.max_entries > 0);
    let range = CommitRangeView { merge_base: "a".into(), head: "b".into() };
    assert!(commit_context_view(ComparisonId(1), range, Vec::new(), true, None).truncated);
}

#[test]
fn editors_open_only_files_of_a_local_workspace() {
    assert_eq!(check_editor_request(SourceKind::Local, None).unwrap(), 1);
    assert!(check_editor_request(SourceKind::Local, Some(0)).is_err());
    assert!(check_editor_request(SourceKind::Remote, Some(1)).is_err());
    assert!(check_editor_paths("/work", "/work/a", "/work/a/x.rs", true).is_ok());
    assert!(check_editor_paths("/work", "/work/a", "/outside/x.rs", true).is_err());
    assert!(check_editor_paths("/work", "work/a", "/work/a/x.rs", true).is_err());
    assert!(check_editor_paths("/work", "/work/a", "work/a/x.rs", true).is_err());
    let command = external_editor_command("idea", "/work/x.rs", 12, false);
    assert_eq!(command.program, "idea");
    assert_eq!(command.arguments, vec!["--line".to_owned(), "12".into(), "/work/x.rs".into()]);
    assert_eq!(external_editor_command("system", "/x", 1, true).program, "open");
}

#[test]
fn measurements_are_summed_up_by_order() {
    let spread = distribution(&vec![5, 1, 3, 2, 4]);
    assert_eq!((spread.min, spread.median, spread.p95, spread.max), (1, 3, 4, 5));
    let sample = |wall_micros: u64| Measurement {
        wall_micros,
        native_micros: 0,
        serialization_micros: 0,
        response_bytes: 0,
        response_rows: 0,
        syntax_tokens: 0,
        omitted_blocks: 0,
    };
    let report = summarize("open", Some(3), &vec![sample(2), sample(8)]);
    assert_eq!(report.samples, 2);
    assert_eq!(report.wall_micros.max, 8);
    assert_eq!(iteration_count(None), 24);
    assert_eq!(iteration_count(Some(5000)), 24);
    assert_eq!(iteration_count(Some(1000)), 1000);
    assert!(refresh_iterations(24) <= 24);
    assert_eq!(micros(7), 7);
    assert_eq!(micros(u128::MAX), u64::MAX);
    assert!(record(false, "open", 1, "ok", None).is_none());
    assert_eq!(record(true, "open", 9, "ok", Some(2)).unwrap().duration_micros, 9);
    assert_ne!(fixture_source(false), fixture_source(true));
    assert_eq!(refresh_marker(3), "\npub const REFRESH_MARKER_3: usize = 3;\n");
}

#[test]
fn only_the_value_one_turns_tracing_on() {
    assert!(tracing_enabled(Some("1")));
    for value in [None, Some(""), Some("0"), Some("true"), Some("11")] {
        assert!(!tracing_enabled(value));
        assert!(record(tracing_enabled(value), "open", 1, "ok", None).is_none());
    }
}

#[test]
fn operations_are_measured_in_order() {
    let plan: Vec<(&str, usize, Option<u32>)> = measured_operations(24)
        .iter()
        .map(|planned| (operation_name(planned.operation), planned.samples, planned.viewport_rows))
        .collect();
    assert_eq!(
        plan,
        vec![
            ("individual_disclosure", 24, Some(220)),
            ("expand_collapse_all", 24, Some(220)),
            ("highlight_cold", 1, Some(220)),
            ("highlight_cached_viewport", 24, Some(220)),
            ("refresh", 6, None),
            ("symbol_navigation", 24, None),
        ]
    );
    let (deletions, additions) =
        (vec!["a".to_owned(), "b".to_owned()], vec!["c".to_owned(), "d".to_owned()]);
    assert_eq!(
        disclosed_blocks(false, 0, &deletions, &additions),
        (vec!["a".to_owned()], Vec::new())
    );
    assert_eq!(disclosed_blocks(true, 1, &deletions, &additions), (Vec::new(), additions.clone()));
    let query = symbol_query(WorkspaceId(1), RepositoryId(2));
    assert_eq!(query.repository_id, id_text(2));
    assert_eq!(query.symbol, "target_symbol");
}

#[test]
fn languages_are_remembered_even_where_there_is_none() {
    let mut memory = LanguageMemory::new();
    assert_eq!(memory.recall("c", "a.rs"), None);
    memory.remember("c", "a.rs", None);
    assert_eq!(memory.recall("c", "a.rs"), Some(None));
    memory.remember("c", "b.rs", Some("Java".into()));
    assert_eq!(memory.recall("c", "b.rs"), Some(Some("Java".into())));
    memory.remember("c", "b.rs", Some("Rust".into()));
    assert_eq!(memory.recall("c", "b.rs"), Some(Some("Rust".into())));
    assert_eq!(memory.recall("c", "a.rs"), Some(None));
}

#[test]
fn texts_split_and_times_read_back() {
    assert_eq!(split_pieces("a/b/", '/'), vec!["a".to_owned(), "b".into(), "".into()]);
    assert_eq!(split_first("a:b:c", ':'), ("a".to_owned(), Some("b:c".to_owned())));
    let moment = parse_time("2026-07-22T02:00:00+02:00").unwrap();
    assert_eq!(moment.to_rfc3339(), "2026-07-22T00:00:00+00:00");
    assert!(parse_time("yesterday").is_none());
    assert!(Timestamp::new(0, 4_000_000_000).is_none());
}
