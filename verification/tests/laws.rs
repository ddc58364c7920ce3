use localreview_desktop::annotations::{
    annotation_kind_name, parse_annotation_kind, Annotation, AnnotationKind, AnnotationState,
    PublicationState,
};
use localreview_desktop::cache::BoundedCache;
use localreview_desktop::errors::{display_error, DispatchError};
use localreview_desktop::flows::{plan_refresh, plan_start, CaptureStep};
use localreview_desktop::full_file::{parse_full_file_view, FullFileView};
use localreview_desktop::ids::{
    id_text, AnnotationId, AnnotationSetId, ComparisonId, ReviewFileId, ReviewSessionId,
    WorkspaceId,
};
use localreview_desktop::jobs::{PresentationJobRegistry, MAX_PRESENTATION_JOBS};
use localreview_desktop::ownership::{
    active_annotation, annotations_for_session, check_copied_file, check_ssh_workspace,
    check_workspace_path, copied_file, draft_workspace, require_session, session_for_comparison,
    stays_open, Purpose, SessionRecord,
};
use localreview_desktop::perf::distribution;
use localreview_desktop::remote::{remote_workspace_name, RemoteTarget};
use localreview_desktop::remote_open::{opened_workspace, plan_open, OpenStep};
use localreview_desktop::remote_review::forward_failure;
use localreview_desktop::replay::ReplayGuard;
use localreview_desktop::repositories::{RepositorySetupLive, SourceKind};
use localreview_desktop::rows::nearest;
use localreview_desktop::sessions::{new_session, ReviewSession, ReviewSessionStatus};
use localreview_desktop::settings::{save_settings, ReviewSettings};
use localreview_desktop::source_lines::{
    byte_to_utf16_index, github_path, slice_bytes, source_line_offsets, source_line_range,
    source_offset,
};
use localreview_desktop::split::split_first;
use localreview_desktop::time::Timestamp;
use localreview_desktop::views::{AnnotationDraft, CopyReviewItemRequest};
use localreview_desktop::workspace::{find_remote_workspace, source_name, WorkspaceSourceTag};

fn time(seconds: i64) -> Timestamp {
    Timestamp::new(seconds, 0).unwrap()
}

fn message<T>(result: Result<T, DispatchError>) -> String {
    match result {
        Ok(_) => panic!("the request was accepted"),
        Err(error) => display_error(&error),
    }
}

fn round(id: u128, status: ReviewSessionStatus) -> ReviewSession {
    ReviewSession { status, ..new_session(ReviewSessionId(id), WorkspaceId(1), time(10)) }
}

fn shows(id: u128, comparisons: &[u128]) -> SessionRecord {
    SessionRecord {
        session: round(id, ReviewSessionStatus::Active),
        comparisons: comparisons.iter().map(|id| ComparisonId(*id)).collect(),
    }
}

fn note(id: u128, labels: &[&str]) -> Annotation {
    Annotation {
        id: AnnotationId(id),
        annotation_set_id: AnnotationSetId(1),
        kind: AnnotationKind::Comment,
        state: AnnotationState::Open,
        publication_state: PublicationState::LocalOnly,
        labels: labels.iter().map(|label| label.to_string()).collect(),
        body_markdown: "note".into(),
        anchor: None,
        created_at: time(1),
        updated_at: time(1),
    }
}

#[test]
fn a_comparison_is_found_in_the_first_round_that_shows_it() {
    let records = vec![shows(1, &[10, 11]), shows(2, &[12]), shows(3, &[12, 13])];
    assert_eq!(session_for_comparison(&records, ComparisonId(11)), Some(0));
    assert_eq!(session_for_comparison(&records, ComparisonId(12)), Some(1));
    assert_eq!(session_for_comparison(&records, ComparisonId(13)), Some(2));
    assert_eq!(session_for_comparison(&records, ComparisonId(14)), None);
    assert_eq!(session_for_comparison(&Vec::new(), ComparisonId(10)), None);
    let found = require_session(&records, ComparisonId(13), Purpose::Presentation).unwrap();
    assert_eq!(found.id, ReviewSessionId(3));
}

#[test]
fn files_of_no_round_are_refused_with_what_they_were_wanted_for() {
    let refusal =
        |purpose| message(require_session(&vec![shows(1, &[10])], ComparisonId(11), purpose));
    assert_eq!(
        refusal(Purpose::Presentation),
        "invalid request: file is not part of a retained immutable review"
    );
    assert_eq!(
        refusal(Purpose::Outline),
        "invalid request: file is not part of a retained review"
    );
    assert_eq!(
        refusal(Purpose::HunkContext),
        "invalid request: file is not part of an active review"
    );
    assert_eq!(
        refusal(Purpose::Annotation),
        "invalid request: the file does not belong to an active review"
    );
}

#[test]
fn rounds_show_their_annotations_but_no_deleted_ones() {
    let ids = |shown: Vec<Annotation>| shown.iter().map(|one| one.id.0).collect::<Vec<_>>();
    let active = round(1, ReviewSessionStatus::Active);
    let notes = || vec![note(1, &[]), note(2, &["localreview:deleted"]), note(3, &["later"])];
    let shown = annotations_for_session(&active, Some(notes()), vec![vec![note(9, &[])]]);
    assert_eq!(ids(shown.unwrap()), vec![1, 3]);
    assert_eq!(
        message(annotations_for_session(&active, None, Vec::new())),
        "invalid request: active review has no annotation set"
    );
    let ended = round(2, ReviewSessionStatus::Archived);
    let shown = annotations_for_session(&ended, None, vec![vec![note(9, &[])], notes()]);
    assert_eq!(ids(shown.unwrap()), vec![9, 1, 3]);
}

#[test]
fn annotations_of_the_active_set_are_found_by_their_identity() {
    let notes = vec![note(1, &[]), note(2, &[]), note(2, &["twin"])];
    assert_eq!(active_annotation(Some(&notes), AnnotationId(2)).unwrap(), 1);
    assert_eq!(
        message(active_annotation(Some(&notes), AnnotationId(3))),
        format!("workspace not found: {}", id_text(3))
    );
    assert_eq!(
        message(active_annotation(None, AnnotationId(1))),
        "invalid request: active review has no annotation set"
    );
}

#[test]
fn requests_name_what_exists() {
    assert!(check_workspace_path("/work").is_ok());
    for path in ["", "work", "./work"] {
        assert_eq!(
            message(check_workspace_path(path)),
            "invalid request: workspace path must be absolute after CLI resolution"
        );
    }
    assert!(stays_open(WorkspaceId(1), Some(WorkspaceId(1))));
    assert!(!stays_open(WorkspaceId(1), Some(WorkspaceId(2))));
    assert!(!stays_open(WorkspaceId(1), None));
    assert!(check_ssh_workspace(SourceKind::Remote).is_ok());
    for source in [SourceKind::Local, SourceKind::PullRequest] {
        assert_eq!(
            message(check_ssh_workspace(source)),
            "invalid request: workspace is not an SSH review"
        );
    }
    let mut draft = AnnotationDraft {
        id: "draft".into(),
        workspace_id: id_text(7),
        file_id: id_text(2),
        repository_id: id_text(1),
        kind: "comment".into(),
        side: "new".into(),
        start_line: 1,
        end_line: 1,
        body: "draft".into(),
        updated_at: "2026-01-01T00:00:00Z".into(),
    };
    assert_eq!(draft_workspace(&draft).unwrap(), WorkspaceId(7));
    draft.workspace_id = "seven".into();
    assert_eq!(message(draft_workspace(&draft)), "invalid request: draft workspaceId is invalid");
    let mut request = CopyReviewItemRequest {
        kind: "path".into(),
        file_id: id_text(5),
        side: None,
        start_line: None,
        end_line: None,
    };
    assert_eq!(copied_file(&request).unwrap(), ReviewFileId(5));
    request.file_id = "five".into();
    assert_eq!(message(copied_file(&request)), "invalid request: copy request fileId is invalid");
    assert!(check_copied_file(&vec![ComparisonId(1)], ComparisonId(1)).is_ok());
    assert_eq!(
        message(check_copied_file(&vec![ComparisonId(1)], ComparisonId(2))),
        "invalid request: file is not in the active review"
    );
}

#[test]
fn names_read_back_as_what_they_name() {
    for kind in [
        AnnotationKind::Comment,
        AnnotationKind::Question,
        AnnotationKind::Suggestion,
        AnnotationKind::FileNote,
        AnnotationKind::ReviewNote,
    ] {
        assert_eq!(parse_annotation_kind(annotation_kind_name(kind)).unwrap(), kind);
    }
    for view in [FullFileView::Old, FullFileView::New, FullFileView::Both] {
        assert_eq!(parse_full_file_view(view.name()).unwrap(), view);
    }
    assert_eq!(
        message(parse_full_file_view("left")),
        message(parse_full_file_view("Both"))
    );
    assert_eq!(source_name(WorkspaceSourceTag::GitHub), "github");
    assert_eq!(source_name(WorkspaceSourceTag::Local), "local");
    assert_eq!(source_name(WorkspaceSourceTag::Ssh), "ssh");
}

#[test]
fn caches_keep_the_newest_within_their_bounds() {
    let mut cache: BoundedCache<u32> = BoundedCache::new(2, 10);
    cache.insert("a".into(), 4, 1);
    cache.insert("b".into(), 4, 2);
    assert_eq!(cache.get("a"), Some(&1));
    cache.insert("c".into(), 4, 3);
    assert_eq!(cache.get("b"), None);
    assert_eq!(cache.get("a"), Some(&1));
    assert_eq!(cache.get("c"), Some(&3));
    cache.insert("c".into(), 9, 4);
    assert_eq!(cache.get("c"), Some(&4));
    assert_eq!(cache.get("a"), None);
    assert!(cache.len() <= 2 && cache.cost() <= 10);
}

#[test]
fn registries_make_room_for_the_newest_job() {
    let mut registry = PresentationJobRegistry::new();
    let first = registry.acquire(ReviewFileId(0), 1).unwrap();
    for file in 1..=(MAX_PRESENTATION_JOBS as u128) {
        let lease = registry.acquire(ReviewFileId(file), 1).unwrap();
        assert!(registry.is_current(&lease));
    }
    assert_eq!(registry.len(), MAX_PRESENTATION_JOBS);
    assert!(!registry.is_current(&first));
}

#[test]
fn saved_settings_can_be_saved_again() {
    let once = save_settings(ReviewSettings {
        left_width: 1,
        right_width: 9_999,
        code_font: "  Menlo ".into(),
        last_workspace_id: Some("   ".into()),
        ..ReviewSettings::default()
    })
    .unwrap();
    assert_eq!((once.left_width, once.right_width), (180, 520));
    assert_eq!(once.code_font, "Menlo");
    assert_eq!(once.last_workspace_id, None);
    let twice = save_settings(once).unwrap();
    assert_eq!((twice.left_width, twice.right_width), (180, 520));
    assert_eq!(twice.code_font, "Menlo");
}

#[test]
fn line_ranges_cut_whole_lines() {
    let source = "fn α() {\n    β\n}\n";
    assert_eq!(source_line_offsets(source), vec![0, 10, 17]);
    let cut = |first, last| {
        let range = source_line_range(source, Some(first), Some(last)).unwrap();
        slice_bytes(source, range.start, range.end).to_owned()
    };
    assert_eq!(cut(1, 1), "fn α() {\n");
    assert_eq!(cut(2, 3), "    β\n}\n");
    assert_eq!(cut(1, 3), source);
}

#[test]
fn cuts_take_away_one_separator() {
    assert_eq!(split_first("host:/a:b", ':'), ("host".into(), Some("/a:b".into())));
    assert_eq!(split_first("host", ':'), ("host".into(), None));
    assert_eq!(split_first(":", ':'), (String::new(), Some(String::new())));
}

#[test]
fn samples_have_one_summary_whatever_their_order() {
    let spread = distribution(&vec![5, 1, 4, 2, 3]);
    let again = distribution(&vec![3, 5, 2, 4, 1]);
    assert_eq!((spread.min, spread.median, spread.p95, spread.max), (1, 3, 4, 5));
    assert_eq!((again.min, again.median, again.p95, again.max), (1, 3, 4, 5));
}

#[test]
fn the_nearest_row_is_the_exact_one_where_there_is_one() {
    assert_eq!(nearest(&vec![Some(2), None, Some(0), Some(1)]), 2);
    assert_eq!(nearest(&vec![None, Some(3), Some(3)]), 1);
    assert_eq!(nearest(&vec![None, None]), 0);
}

#[test]
fn unread_repositories_show_nothing() {
    let live = RepositorySetupLive::default();
    assert_eq!(live.status_summary, "");
    assert!(live.clean.is_none() && live.comparison_error.is_none());
}

#[test]
fn forwarding_that_cannot_begin_names_its_host() {
    let failure = forward_failure("build-host", "no free port");
    assert_eq!(
        failure.companion.detail,
        "could not prepare a managed SSH reverse-forward session"
    );
    assert_eq!(
        display_error(&failure.error),
        "remote review operation failed: could not create managed reverse forwarding for \
         build-host: no free port"
    );
}

#[test]
fn captures_watch_and_fetch_first_and_announce_last() {
    for steps in [plan_start(SourceKind::Local), plan_refresh(SourceKind::Local)] {
        let place = |wanted| steps.iter().position(|step| *step == wanted).unwrap();
        assert!(place(CaptureStep::RestartWatcher) < place(CaptureStep::Capture));
        assert!(place(CaptureStep::FetchIfAsked) < place(CaptureStep::Capture));
        assert!(place(CaptureStep::StoreOutcomes) < place(CaptureStep::Acknowledge));
        assert_eq!(steps.last(), Some(&CaptureStep::LoadReview));
    }
    assert_eq!(
        plan_refresh(SourceKind::PullRequest),
        vec![CaptureStep::RefreshProvider, CaptureStep::LoadReview]
    );
    assert_eq!(plan_start(SourceKind::PullRequest)[0], CaptureStep::EnsureSubmitted);
    assert_eq!(
        plan_start(SourceKind::Remote),
        vec![CaptureStep::CaptureRemotely { replace: true }]
    );
}

#[test]
fn the_text_from_an_offset_begins_with_its_line() {
    let source = "one\nzw\u{00f6}lf\r\n\nend";
    let offsets = source_line_offsets(source);
    for (index, line) in source.lines().enumerate() {
        let offset = source_offset(&offsets, index as u32 + 1) as usize;
        assert_eq!(source[offset..].lines().next(), Some(line));
    }
    assert_eq!(source_offset(&offsets, 0), 0);
    assert_eq!(source_offset(&offsets, 9), 0);
}

#[test]
fn adjacent_line_ranges_join() {
    let source = "one\ntwo\nthree\nfour";
    let before = source_line_range(source, Some(2), Some(3)).unwrap();
    let behind = source_line_range(source, Some(4), Some(4)).unwrap();
    assert_eq!(&source[before.clone()], "two\nthree\n");
    assert_eq!(before.end, behind.start);
    assert_eq!(behind.end, source.len());
}

#[test]
fn utf16_positions_grow_with_the_boundaries() {
    let text = "a\u{00e9}\u{1f600}z";
    let found: Vec<Option<u32>> = (0..=9).map(|byte| byte_to_utf16_index(text, byte)).collect();
    assert_eq!(
        found,
        vec![Some(0), Some(1), None, Some(2), None, None, None, Some(4), Some(5), None]
    );
}

#[test]
fn url_paths_keep_their_slashes_and_differ() {
    assert_eq!(github_path("a b/\u{00e9}%.rs"), "a%20b/%C3%A9%25.rs");
    assert_eq!(github_path("a/b"), github_path("a/") + &github_path("b"));
    assert_ne!(github_path("a%20b"), github_path("a b"));
}

#[test]
fn trailing_slashes_do_not_name_a_workspace() {
    let named = |root: &str| {
        remote_workspace_name(&RemoteTarget { host: "dev".into(), root: root.into() })
    };
    assert_eq!(named("/srv/review"), "dev:review");
    assert_eq!(named("/srv/review//"), "dev:review");
    assert_eq!(named("/"), "dev:workspace");
}

#[test]
fn the_files_used_last_keep_their_jobs() {
    let mut registry = PresentationJobRegistry::new();
    let leases: Vec<_> = (0..MAX_PRESENTATION_JOBS as u128)
        .map(|id| registry.acquire(ReviewFileId(id), 1).unwrap())
        .collect();
    registry.acquire(ReviewFileId(0), 1).unwrap();
    registry.acquire(ReviewFileId(1000), 0).unwrap();
    assert!(leases.iter().all(|lease| !registry.is_cancelled(lease)));
    registry.acquire(ReviewFileId(1000), 1).unwrap();
    assert_eq!(registry.len(), MAX_PRESENTATION_JOBS);
    assert!(!registry.is_cancelled(&leases[0]));
    assert!(registry.is_cancelled(&leases[1]));
    assert!(!registry.is_cancelled(&leases[2]));
}

#[test]
fn taken_requests_stay_refused() {
    let mut guard = ReplayGuard::new();
    guard.accept_request_id("first", 1000, 1000).unwrap();
    for number in 0..4095 {
        guard.accept_request_id(&format!("other-{number}"), 1000, 1100).unwrap();
    }
    assert!(guard.accept_request_id("first", 1300, 1300).is_err());
    assert!(guard.accept_request_id("first", 1, 1300).is_err());
    guard.accept_request_id("one too many", 1300, 1300).unwrap();
    guard.accept_request_id("first", 1300, 1300).unwrap();
    let mut aged = ReplayGuard::new();
    aged.accept_request_id("first", 1000, 1000).unwrap();
    aged.accept_request_id("first", 1301, 1301).unwrap();
}

#[test]
fn opening_a_target_twice_gives_one_workspace() {
    let target = RemoteTarget { host: "dev".into(), root: "/srv/review".into() };
    let mut workspaces = Vec::new();
    let first = find_remote_workspace(&workspaces, &target);
    assert_eq!(plan_open(first.is_some()).last(), Some(&OpenStep::ShowCreated));
    workspaces.push(opened_workspace(WorkspaceId(7), &target, "origin/main", time(5)));
    assert_eq!(workspaces[0].display_name, "dev:review");
    let second = find_remote_workspace(&workspaces, &target).unwrap();
    assert_eq!(workspaces[second].id, WorkspaceId(7));
    assert_eq!(plan_open(true), vec![OpenStep::Reconnect, OpenStep::ShowKnown]);
}
