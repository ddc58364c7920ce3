use localreview_desktop::annotations::{
    annotation_kind_name, annotation_views, delete_annotation, parse_annotation_kind,
    parse_annotation_state, set_annotation_state, Annotation, AnnotationKind,
};
use localreview_desktop::copies::{canonical_patch_text, copy_review_item, ProviderRevision};
use localreview_desktop::document::{
    DiffCell, DiffLineKind, DiffSide, FullFileRow, HunkHeader, ReviewDiffDocument, ReviewFile,
    ReviewFileStatus, ReviewHunk, SourceSnapshot, SplitRow, UnifiedRow,
};
use localreview_desktop::drafts::{
    annotation_draft_key, check_annotation_draft, check_draft_place, keeps_stored_draft,
    prepare_restored, restored_copy, ComparisonOwner, NoteRoute,
};
use localreview_desktop::errors::DispatchError;
use localreview_desktop::finish::{
    check_abandon, check_finish_request, finish_result, GitHubPublicationStatus, PublicationRecord,
};
use localreview_desktop::history::{history, RecordedExport, RecordedSession, RecordedSet};
use localreview_desktop::ids::{
    id_text, parse_annotation_id, AnnotationId, AnnotationSetId, ComparisonId, PromptExportId,
    RepositoryId, ReviewFileId, ReviewSessionId, WorkspaceId,
};
use localreview_desktop::prompt::{
    export_file_name, hunk_for_annotation, prepare_prompt, prompt_contexts, prompt_export_file,
    prompt_path_style, prompt_preview, prompt_scope, resolve_prompt_source, PreparedPrompt,
    PromptContext, PromptExportRecord, PromptFindings, PromptPathStyle, PromptScope, PromptSource,
};
use localreview_desktop::repositories::{
    ComparisonOptions, HeadState, Repository, RepositoryComparison,
};
use localreview_desktop::review::{kept_annotations, review_data_for_session, CapturedReview};
use localreview_desktop::saving::{
    check_checkpoint, check_restored_history, save_annotation, RestoreFinding, SaveFindings,
};
use localreview_desktop::sessions::{
    archived_review_id, check_archived_session, AnnotationSet, ReviewSession, ReviewSessionStatus,
};
use localreview_desktop::text_set::TextSet;
use localreview_desktop::time::Timestamp;
use localreview_desktop::ui_state::{
    apply_ui_state_patch, expand_hunk_context, workspace_ui_state_view, ReviewUiState,
    WorkspaceUiStatePatch,
};
use localreview_desktop::views::{
    AnnotationDraft, AnnotationView, CopyReviewItemRequest, FinishReviewInput,
    FinishReviewSubmissionInput, PromptExportSaveFormat, PromptInput, ReviewConclusion,
    ReviewProgress, WorkspaceView,
};

fn time(seconds: i64) -> Timestamp {
    Timestamp::new(seconds, 0).unwrap()
}

fn lines_of(source: &str) -> Vec<String> {
    source.lines().map(|line| line.to_owned()).collect()
}

fn cell(side: DiffSide, line_number: u32, text: &str) -> Option<DiffCell> {
    Some(DiffCell { side, line_number, text: text.to_owned() })
}

/// Matches equal lines: the common ends first, then the longest common
/// subsequence of what is between them.
fn matched_lines(old: &[String], new: &[String]) -> Vec<(usize, usize)> {
    let mut head = 0;
    while head < old.len() && head < new.len() && old[head] == new[head] {
        head += 1;
    }
    let mut tail = 0;
    while tail < old.len() - head
        && tail < new.len() - head
        && old[old.len() - 1 - tail] == new[new.len() - 1 - tail]
    {
        tail += 1;
    }
    let rows = old.len() - head - tail;
    let columns = new.len() - head - tail;
    let mut longest = vec![vec![0usize; columns + 1]; rows + 1];
    for i in (0..rows).rev() {
        for j in (0..columns).rev() {
            longest[i][j] = if old[head + i] == new[head + j] {
                longest[i + 1][j + 1] + 1
            } else {
                longest[i + 1][j].max(longest[i][j + 1])
            };
        }
    }
    let mut pairs: Vec<(usize, usize)> = (0..head).map(|line| (line, line)).collect();
    let (mut i, mut j) = (0, 0);
    while i < rows && j < columns {
        if old[head + i] == new[head + j] {
            pairs.push((head + i, head + j));
            i += 1;
            j += 1;
        } else if longest[i + 1][j] >= longest[i][j + 1] {
            i += 1;
        } else {
            j += 1;
        }
    }
    for back in (0..tail).rev() {
        pairs.push((old.len() - 1 - back, new.len() - 1 - back));
    }
    pairs
}

/// A captured comparison of two sources, with three lines of context around
/// each change.
fn document_from_sources(
    comparison_id: ComparisonId,
    file: ReviewFile,
    old_source: &str,
    new_source: &str,
) -> ReviewDiffDocument {
    let old = lines_of(old_source);
    let new = lines_of(new_source);
    let mut pairs = matched_lines(&old, &new);
    pairs.push((old.len(), new.len()));
    // Every line in order: a kind with its places in both sources.
    let mut script: Vec<(DiffLineKind, usize, usize)> = Vec::new();
    let (mut i, mut j) = (0, 0);
    for (a, b) in pairs {
        while i < a {
            script.push((DiffLineKind::Removal, i, j));
            i += 1;
        }
        while j < b {
            script.push((DiffLineKind::Addition, i, j));
            j += 1;
        }
        if a < old.len() && b < new.len() {
            script.push((DiffLineKind::Context, i, j));
            i += 1;
            j += 1;
        }
    }
    let mut base_rows = Vec::new();
    let mut current_rows = Vec::new();
    let mut changed_old_lines = Vec::new();
    let mut changed_new_lines = Vec::new();
    for (kind, a, b) in &script {
        let old_row = |changed| FullFileRow {
            side: DiffSide::Old,
            line_number: *a as u32 + 1,
            text: old[*a].clone(),
            changed,
        };
        let new_row = |changed| FullFileRow {
            side: DiffSide::New,
            line_number: *b as u32 + 1,
            text: new[*b].clone(),
            changed,
        };
        match kind {
            DiffLineKind::Context => {
                base_rows.push(old_row(false));
                current_rows.push(new_row(false));
            }
            DiffLineKind::Removal => {
                changed_old_lines.push(*a as u32 + 1);
                base_rows.push(old_row(true));
                current_rows.push(old_row(true));
            }
            DiffLineKind::Addition => {
                changed_new_lines.push(*b as u32 + 1);
                base_rows.push(new_row(true));
                current_rows.push(new_row(true));
            }
        }
    }
    let mut hunks: Vec<ReviewHunk> = Vec::new();
    let mut position = 0;
    while position < script.len() {
        if script[position].0 == DiffLineKind::Context {
            position += 1;
            continue;
        }
        let start = position.saturating_sub(3);
        let mut last = position;
        let mut look = position;
        while look < script.len() && look <= last + 6 {
            if script[look].0 != DiffLineKind::Context {
                last = look;
            }
            look += 1;
        }
        let end = (last + 4).min(script.len());
        let id = format!("hunk-{}", hunks.len());
        let mut unified_rows = Vec::new();
        let mut split_rows: Vec<SplitRow> = Vec::new();
        let mut removed: Vec<usize> = Vec::new();
        let mut added: Vec<usize> = Vec::new();
        let mut flush = |removed: &mut Vec<usize>, added: &mut Vec<usize>, rows: &mut Vec<SplitRow>| {
            for pair in 0..removed.len().max(added.len()) {
                rows.push(SplitRow {
                    id: format!("split-{}", rows.len()),
                    old: removed.get(pair).and_then(|a| cell(DiffSide::Old, *a as u32 + 1, &old[*a])),
                    new: added.get(pair).and_then(|b| cell(DiffSide::New, *b as u32 + 1, &new[*b])),
                });
            }
            removed.clear();
            added.clear();
        };
        for (kind, a, b) in &script[start..end] {
            let old_cell = || cell(DiffSide::Old, *a as u32 + 1, &old[*a]);
            let new_cell = || cell(DiffSide::New, *b as u32 + 1, &new[*b]);
            let row_id = format!("row-{}-{}", hunks.len(), unified_rows.len());
            match kind {
                DiffLineKind::Context => {
                    flush(&mut removed, &mut added, &mut split_rows);
                    split_rows.push(SplitRow {
                        id: format!("split-{}", split_rows.len()),
                        old: old_cell(),
                        new: new_cell(),
                    });
                    unified_rows.push(UnifiedRow { id: row_id, kind: *kind, old: old_cell(), new: new_cell() });
                }
                DiffLineKind::Removal => {
                    removed.push(*a);
                    unified_rows.push(UnifiedRow { id: row_id, kind: *kind, old: old_cell(), new: None });
                }
                DiffLineKind::Addition => {
                    added.push(*b);
                    unified_rows.push(UnifiedRow { id: row_id, kind: *kind, old: None, new: new_cell() });
                }
            }
        }
        flush(&mut removed, &mut added, &mut split_rows);
        let old_count = unified_rows.iter().filter(|row| row.old.is_some()).count() as u32;
        let new_count = unified_rows.iter().filter(|row| row.new.is_some()).count() as u32;
        hunks.push(ReviewHunk {
            id,
            header: HunkHeader {
                old_start: script[start].1 as u32 + 1,
                old_count,
                new_start: script[start].2 as u32 + 1,
                new_count,
                context: None,
            },
            unified_rows,
            split_rows,
        });
        position = end;
    }
    ReviewDiffDocument {
        comparison_id,
        file,
        old: SourceSnapshot {
            content: old_source.to_owned(),
            line_count: old.len() as u32,
            fingerprint: format!("old-{}", old_source.len()),
        },
        new: SourceSnapshot {
            content: new_source.to_owned(),
            line_count: new.len() as u32,
            fingerprint: format!("new-{}", new_source.len()),
        },
        hunks,
        changed_old_lines,
        changed_new_lines,
        base_rows,
        current_rows,
    }
}

fn review_document(old_source: &str, new_source: &str) -> ReviewDiffDocument {
    document_from_sources(
        ComparisonId(0xc0),
        ReviewFile {
            id: ReviewFileId(0xf1),
            path: "review.rs".into(),
            old_path: None,
            status: ReviewFileStatus::Modified,
        },
        old_source,
        new_source,
    )
}

const SESSION: ReviewSessionId = ReviewSessionId(0x5e55);
const SET: AnnotationSetId = AnnotationSetId(0x5e7);

fn owners() -> Vec<ComparisonOwner> {
    vec![ComparisonOwner { comparison_id: ComparisonId(0xc0), repository_id: RepositoryId(0x4e) }]
}

/// A stored set of annotations on one captured file.
struct Store {
    old_source: String,
    new_source: String,
    set: AnnotationSetId,
    next_id: u128,
    annotations: Vec<Annotation>,
}

impl Store {
    fn new(old_source: &str, new_source: &str) -> Store {
        Store {
            old_source: old_source.into(),
            new_source: new_source.into(),
            set: SET,
            next_id: 0xa000,
            annotations: Vec::new(),
        }
    }

    fn document(&self) -> ReviewDiffDocument {
        review_document(&self.old_source, &self.new_source)
    }

    fn save(&mut self, value: &AnnotationView) -> Result<AnnotationView, DispatchError> {
        let fresh = AnnotationId(self.next_id);
        let findings = SaveFindings {
            document: Some(self.document()),
            in_active_review: true,
            active_set: Some(self.set),
            annotations: std::mem::take(&mut self.annotations).into_iter().map(copy_of).collect(),
            owners: owners(),
        };
        self.annotations = findings.annotations.iter().map(|annotation| copy_of_ref(annotation)).collect();
        let saved = save_annotation(value, findings, fresh, time(100))?;
        self.next_id += 1;
        match self.annotations.iter().position(|known| known.id == saved.annotation.id) {
            Some(place) => self.annotations[place] = saved.annotation,
            None => self.annotations.push(saved.annotation),
        }
        Ok(saved.view)
    }

    fn views(&self) -> Vec<AnnotationView> {
        let left = kept_annotations(self.annotations.iter().map(copy_of_ref).collect());
        annotation_views(&left, &vec![self.document()])
    }
}

fn copy_of(annotation: Annotation) -> Annotation {
    annotation
}

fn copy_of_ref(annotation: &Annotation) -> Annotation {
    Annotation {
        id: annotation.id,
        annotation_set_id: annotation.annotation_set_id,
        kind: annotation.kind,
        state: annotation.state,
        publication_state: annotation.publication_state,
        labels: annotation.labels.clone(),
        body_markdown: annotation.body_markdown.clone(),
        anchor: annotation.anchor.as_ref().map(|anchor| {
            localreview_desktop::annotations::AnnotationAnchor {
                comparison_id: anchor.comparison_id,
                repository_id: anchor.repository_id,
                file_path: anchor.file_path.clone(),
                side: anchor.side,
                start_line: anchor.start_line,
                end_line: anchor.end_line,
                selected_source: anchor.selected_source.clone(),
                surrounding_context: anchor.surrounding_context.clone(),
                outdated: anchor.outdated,
            }
        }),
        created_at: annotation.created_at,
        updated_at: annotation.updated_at,
    }
}

fn value(kind: &str, line: u32, body: &str) -> AnnotationView {
    AnnotationView {
        id: id_text(0x77),
        file_id: id_text(0xf1),
        repository_id: id_text(0x4e),
        kind: kind.into(),
        state: "open".into(),
        side: "new".into(),
        start_line: line,
        end_line: line,
        body: body.into(),
        selected_source: String::new(),
        labels: Vec::new(),
        local_only: true,
        created_at: "2026-07-22T00:00:00+00:00".into(),
        published_id: None,
    }
}

fn session(id: u128, status: ReviewSessionStatus) -> ReviewSession {
    ReviewSession {
        id: ReviewSessionId(id),
        workspace_id: WorkspaceId(0x33),
        status,
        started_at: time(id as i64),
        refreshed_at: None,
        archived_at: None,
        completed_at: None,
    }
}

fn set(id: u128, session: u128) -> AnnotationSet {
    AnnotationSet {
        id: AnnotationSetId(id),
        review_session_id: ReviewSessionId(session),
        sequence: 1,
        active: true,
        archived_at: None,
        created_at: time(5),
    }
}

fn message<T>(result: Result<T, DispatchError>) -> String {
    match result {
        Err(DispatchError::Invalid(text)) => text,
        Err(DispatchError::NotFound(text)) => format!("not found: {text}"),
        Err(_) => panic!("another error"),
        Ok(_) => panic!("accepted"),
    }
}

#[test]
fn file_and_review_notes_preserve_optional_anchor_semantics() {
    let mut store = Store::new("fn old() {}\n", "fn new() {}\n");
    let file_note = store.save(&value("file_note", 0, "This whole file needs follow-up.")).unwrap();
    assert_eq!(file_note.file_id, id_text(0xf1));
    assert_eq!(file_note.start_line, 0);

    let review_note = store.save(&value("review_note", 0, "Check the overall rollout plan.")).unwrap();
    assert!(review_note.file_id.is_empty());
    assert_eq!(review_note.start_line, 0);

    assert!(store.annotations.iter().any(|annotation| {
        annotation.kind == AnnotationKind::FileNote
            && annotation.anchor.as_ref().is_some_and(|anchor| anchor.side.is_none())
    }));
    assert!(store
        .annotations
        .iter()
        .any(|annotation| annotation.kind == AnnotationKind::ReviewNote && annotation.anchor.is_none()));

    let checkpoint = store.views();
    let findings: Vec<RestoreFinding> = checkpoint
        .iter()
        .map(|_| RestoreFinding { document: Some(store.document()), owner: Some(SESSION) })
        .collect();
    check_checkpoint(&checkpoint, &findings, SESSION).unwrap();
    store.annotations.clear();
    let route = NoteRoute { file_id: ReviewFileId(0xf1), repository_id: RepositoryId(0x4e) };
    for restored in checkpoint {
        let prepared = prepare_restored(restored, Some(route)).unwrap();
        store.save(&prepared).unwrap();
    }
    let restored = store.views();
    assert!(restored
        .iter()
        .any(|annotation| annotation.kind == "file_note" && annotation.start_line == 0));
    assert!(restored
        .iter()
        .any(|annotation| annotation.kind == "review_note" && annotation.file_id.is_empty()));
}

#[test]
fn saved_annotations_take_their_place_from_the_captured_source() {
    let mut store = Store::new("a\n", "one\ntwo\nthree\nfour\nfive\nsix\nseven\n");
    let mut asked = value("comment", 5, "Look here");
    asked.end_line = 6;
    asked.labels = vec!["localreview:deleted".into(), "kept".into()];
    let shown = store.save(&asked).unwrap();
    assert_eq!(shown.selected_source, "five\nsix");
    assert_eq!(shown.labels, vec!["kept".to_owned()]);
    assert_eq!(shown.id, id_text(0xa000), "a foreign identity is not taken over");
    assert_eq!(shown.created_at, "2026-07-22T00:00:00+00:00");
    let anchor = store.annotations[0].anchor.as_ref().unwrap();
    assert_eq!(anchor.surrounding_context, "two\nthree\nfour\nfive\nsix\nseven");

    let mut again = shown.clone();
    again.body = "Changed".into();
    again.local_only = false;
    let changed = store.save(&again).unwrap();
    assert_eq!(changed.id, shown.id);
    assert_eq!(store.annotations.len(), 1);
    assert!(!changed.local_only);
    assert_eq!(changed.body, "Changed");
}

#[test]
fn refused_annotations_say_why() {
    let mut store = Store::new("a\n", "b\n");
    let mut refused = |value: AnnotationView| message(store.save(&value));
    assert_eq!(
        refused(value("comment", 1, " \t")),
        "annotation body is empty or exceeds the supported size"
    );
    assert_eq!(refused(value("shout", 1, "x")), "unsupported annotation kind");
    let mut asked = value("comment", 1, "x");
    asked.file_id = "nowhere".into();
    assert_eq!(refused(asked), "annotation fileId is invalid");
    let mut asked = value("comment", 1, "x");
    asked.state = "closed".into();
    assert_eq!(refused(asked), "unsupported annotation state");
    let mut asked = value("comment", 1, "x");
    asked.side = "left".into();
    assert_eq!(refused(asked), "annotation side must be old or new");
    assert_eq!(refused(value("comment", 0, "x")), "annotation range is invalid");
    assert_eq!(
        refused(value("comment", 2, "x")),
        "annotation range is outside the captured source"
    );
    assert_eq!(refused(value("file_note", 1, "x")), "file notes cannot carry a line range");
    assert_eq!(
        refused(value("review_note", 1, "x")),
        "review notes cannot carry a file or line anchor"
    );
    let none = || SaveFindings {
        document: None,
        in_active_review: false,
        active_set: None,
        annotations: Vec::new(),
        owners: Vec::new(),
    };
    let asked = value("comment", 1, "x");
    assert_eq!(
        message(save_annotation(&asked, none(), AnnotationId(1), time(1))),
        format!("not found: {}", id_text(0xf1))
    );
    let found = SaveFindings { document: Some(review_document("a\n", "b\n")), ..none() };
    assert_eq!(
        message(save_annotation(&asked, found, AnnotationId(1), time(1))),
        "the file does not belong to an active review"
    );
    let active = SaveFindings {
        document: Some(review_document("a\n", "b\n")),
        in_active_review: true,
        ..none()
    };
    assert_eq!(
        message(save_annotation(&asked, active, AnnotationId(1), time(1))),
        "active review has no annotation set"
    );
    let unowned = SaveFindings {
        document: Some(review_document("a\n", "b\n")),
        in_active_review: true,
        active_set: Some(SET),
        ..none()
    };
    assert_eq!(
        message(save_annotation(&asked, unowned, AnnotationId(1), time(1))),
        "file comparison is no longer active"
    );
}

#[test]
fn restoring_a_checkpoint_allocates_new_ids_and_keeps_archived_rows_immutable() {
    let mut store = Store::new("fn old() {}\n", "fn new() {}\n");
    let saved = store.save(&value("comment", 1, "Keep this immutable")).unwrap();
    let checkpoint = store.views();
    let archived_before = std::mem::take(&mut store.annotations);
    store.set = AnnotationSetId(0x5e8);
    for annotation in checkpoint {
        let prepared = prepare_restored(annotation, None).unwrap();
        assert!(prepared.id.is_empty());
        store.save(&prepared).unwrap();
    }
    let restored = store.views();
    assert_eq!(restored.len(), 1);
    assert_ne!(restored[0].id, saved.id);
    assert_eq!(restored[0].body, "Keep this immutable");
    assert_eq!(archived_before.len(), 1);
    assert_eq!(id_text(archived_before[0].id.0), saved.id);

    let gone = parse_annotation_id(&restored[0].id).unwrap();
    let kept: Vec<Annotation> = std::mem::take(&mut store.annotations)
        .into_iter()
        .map(|annotation| {
            if annotation.id == gone {
                delete_annotation(annotation, time(200))
            } else {
                annotation
            }
        })
        .collect();
    store.annotations = kept;
    assert!(store.views().is_empty());
    assert_eq!(archived_before[0].body_markdown, "Keep this immutable");
}

#[test]
fn a_bad_checkpoint_is_refused_as_a_whole() {
    let document = || Some(review_document("a\n", "b\n"));
    let good = RestoreFinding { document: document(), owner: Some(SESSION) };
    let foreign = RestoreFinding { document: document(), owner: Some(ReviewSessionId(9)) };
    let values = vec![value("comment", 1, "x"), value("comment", 1, "y")];
    assert_eq!(
        message(check_checkpoint(&values, &vec![good, foreign], SESSION)),
        "annotation checkpoint contains a file from another workspace"
    );
    let missing = RestoreFinding { document: None, owner: None };
    assert_eq!(
        message(check_checkpoint(&vec![value("comment", 1, "x")], &vec![missing], SESSION)),
        format!("not found: {}", id_text(0xf1))
    );
    let inactive = RestoreFinding { document: document(), owner: None };
    assert_eq!(
        message(check_checkpoint(&vec![value("comment", 1, "x")], &vec![inactive], SESSION)),
        "annotation file is not active"
    );
    let note = || RestoreFinding { document: None, owner: None };
    assert_eq!(
        message(check_checkpoint(&vec![value("review_note", 1, "x")], &vec![note()], SESSION)),
        "review notes cannot carry a line range"
    );
    assert_eq!(
        message(check_checkpoint(&vec![value("review_note", 0, "x")], &vec![note()], SESSION)),
        "review has no captured files for note restore"
    );
    assert_eq!(message(prepare_restored(value("review_note", 0, "x"), None)), "review has no captured files for note restore");
}

#[test]
fn a_checkpoint_that_could_not_be_saved_is_refused_before_anything_changes() {
    let found = || RestoreFinding {
        document: Some(review_document("a\n", "b\n")),
        owner: Some(SESSION),
    };
    let body = "annotation body is empty or exceeds the supported size";
    for kind in ["comment", "question", "suggestion"] {
        assert_eq!(
            message(check_checkpoint(&vec![value(kind, 1, "")], &vec![found()], SESSION)),
            body
        );
    }
    for kind in ["file_note", "review_note"] {
        assert_eq!(
            message(check_checkpoint(&vec![value(kind, 0, " \n")], &vec![found()], SESSION)),
            body
        );
    }
    let values = vec![value("comment", 1, "x"), value("comment", 1, "")];
    assert_eq!(message(check_checkpoint(&values, &vec![found(), found()], SESSION)), body);
    let mut note = value("review_note", 0, "x");
    note.state = "done".into();
    assert_eq!(
        message(check_checkpoint(&vec![note], &vec![found()], SESSION)),
        "unsupported annotation state"
    );
    check_checkpoint(&vec![value("review_note", 0, "x")], &vec![found()], SESSION).unwrap();
}

#[test]
fn history_items_restore_as_local_copies_that_need_a_new_place() {
    let mut store = Store::new("a\n", "b\n");
    store.save(&value("comment", 1, "x")).unwrap();
    let archived = store.annotations.pop().unwrap();
    let copy = restored_copy(archived, AnnotationId(1), AnnotationSetId(2), time(300));
    assert_eq!(copy.id, AnnotationId(1));
    assert!(copy.anchor.unwrap().outdated);
    assert_eq!(
        check_restored_history("set:00000000-0000-0000-0000-000000000007").unwrap(),
        AnnotationSetId(7)
    );
    assert_eq!(
        message(check_restored_history("review:00000000-0000-0000-0000-000000000007")),
        "history item cannot be restored"
    );
}

#[test]
fn review_notes_keep_their_distinct_webview_kind() {
    assert_eq!(parse_annotation_kind("review_note").unwrap(), AnnotationKind::ReviewNote);
    assert_eq!(annotation_kind_name(AnnotationKind::ReviewNote), "review_note");
    assert_ne!(
        annotation_kind_name(AnnotationKind::ReviewNote),
        annotation_kind_name(AnnotationKind::FileNote)
    );
}

#[test]
fn annotation_states_change_and_read_back() {
    let mut store = Store::new("a\n", "b\n");
    store.save(&value("comment", 1, "x")).unwrap();
    let annotation = store.annotations.pop().unwrap();
    let resolved = set_annotation_state(annotation, "resolved", time(9)).unwrap();
    assert_eq!(resolved.updated_at, time(9));
    store.annotations.push(resolved);
    assert_eq!(store.views()[0].state, "resolved");
    assert!(parse_annotation_state("done").is_err());
}

#[test]
fn explicit_annotation_inclusion_survives_restart_including_an_empty_selection() {
    let mut store = Store::new("fn old() {}\n", "fn new() {}\n");
    let saved = store.save(&value("comment", 1, "Durable inclusion choice")).unwrap();
    let documents = vec![store.document()];
    let ids: Vec<AnnotationId> = store.annotations.iter().map(|annotation| annotation.id).collect();
    let select = |ids_chosen: Vec<String>| WorkspaceUiStatePatch {
        active_file_id: None,
        mode: None,
        full_file_side: None,
        nearest_source_line: None,
        nearest_source_side: None,
        scroll_top_accepted: None,
        split_ratio_accepted: None,
        right_tab: None,
        selected_annotation_ids: Some(ids_chosen),
        expanded_full_file_deletion_blocks: None,
        collapsed_full_file_addition_blocks: None,
    };
    let state =
        apply_ui_state_patch(ReviewUiState::default(), select(vec![saved.id.clone()]), &documents, Some(&ids))
            .unwrap();
    assert_eq!(
        workspace_ui_state_view(&state).selected_annotation_ids,
        Some(vec![saved.id.clone()])
    );
    let state = apply_ui_state_patch(state, select(vec![]), &documents, Some(&ids)).unwrap();
    assert_eq!(workspace_ui_state_view(&state).selected_annotation_ids, Some(Vec::new()));
    assert!(
        apply_ui_state_patch(state, select(vec![id_text(0xdead)]), &documents, Some(&ids)).is_err()
    );
}

fn draft() -> AnnotationDraft {
    AnnotationDraft {
        id: "draft-1".into(),
        workspace_id: id_text(0x33),
        file_id: id_text(0xf1),
        repository_id: id_text(0x4e),
        kind: "question".into(),
        side: "new".into(),
        start_line: 1,
        end_line: 1,
        // A line range is meaningful restart state before the first character
        // was typed.
        body: String::new(),
        updated_at: "2026-07-22T00:00:00+00:00".into(),
    }
}

#[test]
fn annotation_drafts_survive_restart_validate_ownership_and_clear() {
    let document = review_document("fn old() {}\n", "fn new() {}\n");
    let check = |draft: &AnnotationDraft| -> Result<(), DispatchError> {
        let target = check_annotation_draft(draft, WorkspaceId(0x33))?;
        check_draft_place(draft, target, &document, &owners())
    };
    assert!(check(&draft()).is_ok());
    assert!(keeps_stored_draft(check(&draft())).unwrap());

    let mut wrong_repository = draft();
    wrong_repository.repository_id = id_text(0xbad);
    assert!(check(&wrong_repository).is_err());
    let mut invalid_range = draft();
    invalid_range.end_line = 2;
    assert!(check(&invalid_range).is_err());
    assert!(!keeps_stored_draft(check(&invalid_range)).unwrap());
    assert!(keeps_stored_draft(Err(DispatchError::Internal)).is_err());
    assert_eq!(
        annotation_draft_key(ReviewSessionId(7)),
        "ui.annotation_draft.v1.session.00000000-0000-0000-0000-000000000007"
    );
}

#[test]
fn focused_question_scope_requires_exactly_one_annotation() {
    let annotation = AnnotationId(5);
    assert!(matches!(
        prompt_scope("focused_question", vec![annotation]).unwrap(),
        PromptScope::FocusedQuestion(id) if id == annotation
    ));
    assert!(prompt_scope("focused_question", Vec::new()).is_err());
    assert!(prompt_scope("focused_question", vec![AnnotationId(1), AnnotationId(2)]).is_err());
}

#[test]
fn prompt_scopes_and_path_styles_are_strict() {
    assert!(matches!(prompt_scope("feedback", Vec::new()).unwrap(), PromptScope::AllActionable));
    assert!(matches!(prompt_scope("questions", Vec::new()).unwrap(), PromptScope::AllQuestions));
    assert!(matches!(prompt_scope("all", Vec::new()).unwrap(), PromptScope::CommentsAndQuestions));
    assert!(prompt_scope("everything", Vec::new()).is_err());
    assert_eq!(prompt_path_style(Some("absolute"), None).unwrap(), PromptPathStyle::Absolute);
    assert!(prompt_path_style(Some("private"), None).is_err());
}

fn prompt_input(scope: &str, history_id: Option<String>) -> PromptInput {
    PromptInput {
        scope: scope.into(),
        annotation_ids: Vec::new(),
        portable: Some(true),
        path_style: None,
        include_diff_hunks: None,
        include_git_state: None,
        history_id,
    }
}

#[test]
fn prompts_know_their_annotations_and_contexts() {
    let mut store = Store::new("before\n", "after\n");
    store.save(&value("question", 1, "Why?")).unwrap();
    store.save(&value("review_note", 0, "Overall")).unwrap();
    let mut input = prompt_input("selected", None);
    input.annotation_ids = vec![id_text(0xa000)];
    let prepared = prepare_prompt(&input, None, &store.annotations).unwrap();
    assert!(matches!(prepared.scope, PromptScope::Selected(ids) if ids == vec![AnnotationId(0xa000)]));
    input.annotation_ids = vec![id_text(1)];
    assert_eq!(
        message(prepare_prompt(&input, None, &store.annotations)),
        "selected annotation does not belong to this prompt source"
    );
    input.annotation_ids = vec!["zzz".into()];
    assert_eq!(
        message(prepare_prompt(&input, None, &store.annotations)),
        "annotation id is invalid: zzz"
    );
    let contexts = prompt_contexts(
        &store.annotations,
        &vec![repository()],
        &vec![comparison()],
        &vec![store.document()],
    );
    let context = contexts[0].as_ref().unwrap();
    assert_eq!((context.repository, context.comparison), (0, 0));
    assert!(context.relevant_hunk.as_ref().unwrap().contains("+after"));
    assert!(contexts[1].is_none());
    assert_eq!(
        hunk_for_annotation(&store.annotations[0], &store.document()),
        context.relevant_hunk
    );
}

fn repository() -> Repository {
    Repository {
        id: RepositoryId(0x4e),
        workspace_id: WorkspaceId(0x33),
        relative_path: ".".into(),
        worktree_path: "/work".into(),
        git_common_dir: None,
        normalized_primary_remote: None,
        enabled: true,
        base_override: None,
        current_branch: HeadState::Branch("feature".into()),
        last_resolved_base_sha: None,
        last_fetch_at: None,
        last_fetch_error: None,
        discovery_error: None,
        comparison_error: None,
    }
}

fn comparison() -> RepositoryComparison {
    let sha = "0123456789abcdef0123456789abcdef01234567";
    RepositoryComparison {
        id: ComparisonId(0xc0),
        repository_id: RepositoryId(0x4e),
        requested_base: "origin/master".into(),
        base_tip_sha: sha.into(),
        merge_base_sha: sha.into(),
        head_sha: Some(sha.into()),
        head: HeadState::Branch("feature".into()),
        options: ComparisonOptions {
            ignore_all_whitespace: false,
            ignore_space_at_eol: false,
            ignore_cr_at_eol: false,
            path_filters: Vec::new(),
        },
    }
}

/// What the exporter hands back for a prepared prompt: the title of its scope,
/// the text, and how many annotations went into it.
fn rendered_prompt(
    store: &Store,
    prepared: &PreparedPrompt,
    contexts: &[Option<PromptContext>],
) -> (String, String, usize) {
    let (title, heading) = match prepared.scope {
        PromptScope::AllActionable => ("Review feedback", "# Review feedback"),
        PromptScope::AllQuestions => ("Questions for investigation", "# Review questions"),
        _ => ("Full review prompt", "# Review"),
    };
    let mut text = format!("{heading}\n\n");
    let mut hunks: Vec<&String> = Vec::new();
    let mut count = 0;
    if prepared.include_git_state {
        text.push_str(&format!("Requested base `{}`\n", comparison().requested_base));
    }
    for (annotation, context) in store.annotations.iter().zip(contexts) {
        let label = match annotation.kind {
            AnnotationKind::Comment => "Comment",
            AnnotationKind::Question => "Question",
            AnnotationKind::Suggestion => "Suggestion",
            _ => "Note",
        };
        let taken = match prepared.scope {
            PromptScope::AllActionable => label == "Comment" || label == "Suggestion",
            PromptScope::AllQuestions => label == "Question",
            _ => true,
        };
        if !taken {
            continue;
        }
        count += 1;
        if let Some(context) = context {
            let root = match prepared.path_style {
                PromptPathStyle::Absolute => repository().worktree_path,
                _ => String::new(),
            };
            let anchor = annotation.anchor.as_ref().unwrap();
            text.push_str(&format!("`{root}/{}`\n", anchor.file_path));
            if !anchor.selected_source.is_empty() {
                text.push_str(&format!("Selected source:\n```text\n{}\n```\n", anchor.selected_source));
            }
            if let Some(hunk) = &context.relevant_hunk {
                if prepared.include_diff_hunks && !hunks.contains(&hunk) {
                    text.push_str(&format!("Relevant diff hunk:\n{hunk}\n"));
                    hunks.push(hunk);
                }
            }
        }
        text.push_str(&format!("{label}:\n\n{}\n", annotation.body_markdown));
    }
    (title.into(), text, count)
}

#[test]
fn prompt_modes_are_strict_and_history_keeps_scope_labels() {
    let mut store = Store::new("before\n", "after\n");
    store.save(&value("comment", 1, "comment body")).unwrap();
    store.save(&value("question", 1, "question body")).unwrap();
    store.save(&value("file_note", 0, "file note body")).unwrap();
    store.save(&value("suggestion", 1, "suggestion body")).unwrap();
    store.save(&value("review_note", 0, "review note body")).unwrap();
    let contexts = prompt_contexts(
        &store.annotations,
        &vec![repository()],
        &vec![comparison()],
        &vec![store.document()],
    );
    let prepare = |scope: &str, style: &str, verbose: bool| {
        prepare_prompt(
            &PromptInput {
                scope: scope.into(),
                annotation_ids: Vec::new(),
                portable: None,
                path_style: Some(style.into()),
                include_diff_hunks: Some(verbose),
                include_git_state: Some(verbose),
                history_id: None,
            },
            None,
            &store.annotations,
        )
        .unwrap()
    };
    let show = |id: u128, prepared: &PreparedPrompt| {
        let (title, text, count) = rendered_prompt(&store, prepared, &contexts);
        let mut exported = record(Some(&text));
        exported.id = PromptExportId(id);
        exported.scope = prepared.scope.copy();
        prompt_preview(&exported, &title, text, count)
    };

    let prepared = prepare("feedback", "absolute", false);
    assert!(matches!(prepared.scope, PromptScope::AllActionable));
    let feedback = show(0xe1, &prepared);
    assert_eq!(feedback.title, "Review feedback");
    assert_eq!(feedback.annotation_count, 2);
    assert!(feedback.content.contains("comment body"));
    assert!(feedback.content.contains("suggestion body"));
    assert!(!feedback.content.contains("question body"));
    assert!(!feedback.content.contains("file note body"));
    assert!(!feedback.content.contains("review note body"));

    let prepared = prepare("questions", "absolute", false);
    assert!(matches!(prepared.scope, PromptScope::AllQuestions));
    let questions = show(0xe2, &prepared);
    assert_eq!(questions.title, "Questions for investigation");
    assert_eq!(questions.annotation_count, 1);
    assert!(questions.content.contains("# Review questions"));
    assert!(questions.content.contains("Question:\n\nquestion body"));
    assert!(!questions.content.contains("comment body"));

    let prepared = prepare("all", "absolute", false);
    assert!(matches!(prepared.scope, PromptScope::CommentsAndQuestions));
    assert_eq!(prepared.path_style, PromptPathStyle::Absolute);
    assert!(!prepared.include_diff_hunks && !prepared.include_git_state);
    let full = show(0xe3, &prepared);
    assert_eq!(full.title, "Full review prompt");
    assert_eq!(full.annotation_count, 5);
    for body in
        ["comment body", "question body", "file note body", "suggestion body", "review note body"]
    {
        assert!(full.content.contains(body));
    }
    assert!(!full.content.contains("Requested base `"));
    assert!(!full.content.contains("merge-base `"));
    assert!(!full.content.contains("HEAD `"));
    assert!(!full.content.contains("snapshot `"));
    assert!(!full.content.contains("Relevant diff hunk:"));
    assert!(full.content.contains(&repository().worktree_path));
    assert_eq!(full.content.matches("Selected source:").count(), 3);
    assert!(full.content.contains("Selected source:\n```text\nafter\n```"));

    let prepared = prepare("all", "qualified", true);
    assert_eq!(prepared.path_style, PromptPathStyle::Qualified);
    assert!(prepared.include_diff_hunks && prepared.include_git_state);
    let verbose = show(0xe4, &prepared);
    assert_eq!(verbose.content.matches("Requested base `").count(), 1);
    assert_eq!(verbose.content.matches("Relevant diff hunk:").count(), 1);
    assert!(!full.content.contains("Surrounding context:"));
    assert!(full.content.contains("/review.rs`"));
    assert!(!full.content.contains("Logical path:"));

    let exports = [(0xe1, &feedback), (0xe2, &questions), (0xe3, &full), (0xe4, &verbose)]
        .into_iter()
        .map(|(id, preview)| RecordedExport {
            id: PromptExportId(id),
            title: preview.title.clone(),
            annotation_count: preview.annotation_count,
            created_at: time(id as i64),
        })
        .collect();
    let items = history(&vec![RecordedSession {
        session: session(1, ReviewSessionStatus::Active),
        documents: vec![store.document()],
        sets: Vec::new(),
        exports,
    }]);
    for expected in ["Review feedback", "Questions for investigation", "Full review prompt"] {
        assert!(items.iter().any(|item| item.item_type == "export" && item.label == expected));
    }
}

#[test]
fn prompt_history_references_are_explicit_and_workspace_bound() {
    let workspace = WorkspaceId(0x33);
    let found = resolve_prompt_source(
        workspace,
        PromptFindings::Checkpoint {
            id: AnnotationSetId(7),
            set: Some(set(7, 1)),
            session: Some(session(1, ReviewSessionStatus::Active)),
        },
    )
    .unwrap();
    assert!(matches!(found, PromptSource::Fresh { sets, .. } if sets == vec![AnnotationSetId(7)]));
    assert!(localreview_desktop::ids::parse_prompt_history_reference(Some("no-prefix")).is_err());
    assert!(resolve_prompt_source(
        workspace,
        PromptFindings::Checkpoint { id: AnnotationSetId(8), set: None, session: None }
    )
    .is_err());
    assert!(resolve_prompt_source(
        workspace,
        PromptFindings::Review { id: ReviewSessionId(8), session: None, sets: Vec::new() }
    )
    .is_err());
    assert!(resolve_prompt_source(
        workspace,
        PromptFindings::Export {
            id: PromptExportId(8),
            record: None,
            session: None,
            sets: Vec::new(),
            scope_title: String::new(),
        }
    )
    .is_err());
    assert!(resolve_prompt_source(
        WorkspaceId(0x34),
        PromptFindings::Checkpoint {
            id: AnnotationSetId(7),
            set: Some(set(7, 1)),
            session: Some(session(1, ReviewSessionStatus::Active)),
        },
    )
    .is_err());
}

#[test]
fn archived_review_prompt_aggregates_its_original_sets_and_pinned_snapshot() {
    let source = resolve_prompt_source(
        WorkspaceId(0x33),
        PromptFindings::Review {
            id: ReviewSessionId(4),
            session: Some(session(4, ReviewSessionStatus::Archived)),
            sets: vec![set(1, 4), set(2, 4)],
        },
    )
    .unwrap();
    match source {
        PromptSource::Fresh { session, sets, .. } => {
            assert_eq!(session, ReviewSessionId(4));
            assert_eq!(sets.len(), 2);
        }
        PromptSource::Stored(_) => panic!("nothing is stored"),
    }
}

fn record(markdown: Option<&str>) -> PromptExportRecord {
    PromptExportRecord {
        id: PromptExportId(0xe1),
        review_session_id: ReviewSessionId(1),
        annotation_set_id: AnnotationSetId(7),
        annotation_set_ids: Vec::new(),
        annotation_ids: vec![AnnotationId(3)],
        scope: PromptScope::AllActionable,
        title: None,
        rendered_markdown: markdown.map(|text| text.to_owned()),
        annotation_count: None,
        estimated_tokens: None,
        template_version: 1,
        created_at: time(0),
    }
}

#[test]
fn prompt_exports_reopen_exactly_after_restart_and_legacy_records_regenerate_safely() {
    let findings = |markdown: Option<&str>| PromptFindings::Export {
        id: PromptExportId(0xe1),
        record: Some(record(markdown)),
        session: Some(session(1, ReviewSessionStatus::Active)),
        sets: vec![set(7, 1)],
        scope_title: "Review feedback".into(),
    };
    match resolve_prompt_source(WorkspaceId(0x33), findings(Some("Frozen handoff bytes."))).unwrap() {
        PromptSource::Stored(preview) => {
            assert_eq!(preview.content, "Frozen handoff bytes.");
            assert_eq!(preview.title, "Review feedback");
            assert_eq!(preview.annotation_count, 1);
            assert_eq!(preview.estimated_tokens, 6);
            assert_eq!(preview.export_id, id_text(0xe1));
        }
        PromptSource::Fresh { .. } => panic!("a stored prompt must not be rendered again"),
    }
    match resolve_prompt_source(WorkspaceId(0x33), findings(None)).unwrap() {
        PromptSource::Fresh { sets, scope, .. } => {
            assert_eq!(sets, vec![AnnotationSetId(7)]);
            assert!(matches!(scope, Some(PromptScope::AllActionable)));
        }
        PromptSource::Stored(_) => panic!("nothing is stored"),
    }
    let file = prompt_export_file(&record(Some("text")), "Review feedback").unwrap();
    assert_eq!(file.schema_version, 1);
    assert!(matches!(file.scope, PromptScope::AllActionable));
    assert_eq!(file.created_at, "1970-01-01T00:00:00+00:00");
    assert!(matches!(
        prompt_export_file(&record(None), "Review feedback"),
        Err(DispatchError::Internal)
    ));
    assert_eq!(
        export_file_name(PromptExportId(0xe1), PromptExportSaveFormat::Json),
        "localreview-prompt-00000000-0000-0000-0000-0000000000e1.json"
    );
}

fn workspace() -> WorkspaceView {
    WorkspaceView {
        id: id_text(0x33),
        name: "fixture".into(),
        source: vec!["local".into()],
        location: "/work".into(),
        detail: String::new(),
        default_base: "origin/master".into(),
        progress: ReviewProgress { viewed: 0, total: 1 },
        draft_count: 0,
        pinned: false,
        refresh_available: false,
        refresh_available_revision: 0,
        connection: "local".into(),
        review_ready: true,
        archived: false,
    }
}

#[test]
fn archived_review_session_exposes_frozen_diff_and_annotations_read_only() {
    let mut store = Store::new("before\n", "after\n");
    store.save(&value("comment", 1, "Archived inline feedback.")).unwrap();
    let archived = session(4, ReviewSessionStatus::Archived);
    let history_id = format!("review:{}", id_text(4));
    assert_eq!(archived_review_id(&history_id).unwrap(), ReviewSessionId(4));
    let archived = check_archived_session(Some(archived), WorkspaceId(0x33), &history_id).unwrap();
    let review = CapturedReview {
        session_id: archived.id,
        comparisons: vec![comparison()],
        documents: vec![store.document()],
        languages: vec!["Rust".into()],
        annotations: store.annotations.iter().map(copy_of_ref).collect(),
        viewed: TextSet::new(),
    };
    let data =
        review_data_for_session(workspace(), "origin/master", &vec![repository()], &review, Vec::new(), true)
            .unwrap();
    assert!(data.historical);
    assert_eq!(data.historical_session_id, Some(id_text(4)));
    assert_eq!(data.files.len(), 1);
    assert_eq!(data.annotations.len(), 1);
    assert_eq!(data.files[0].annotation_count, 1);
    assert_eq!(data.files[0].hunk_count, 1);
    assert!(matches!(
        expand_hunk_context(ReviewUiState::default(), &review.documents[0], false, "hunk-0", 24),
        Err(DispatchError::Invalid(message)) if message.contains("archived review")
    ));
    assert!(check_archived_session(
        Some(session(4, ReviewSessionStatus::Active)),
        WorkspaceId(0x33),
        &history_id
    )
    .is_err());
}

#[test]
fn history_lists_rounds_checkpoints_and_prompts_newest_first() {
    let mut store = Store::new("a\n", "b\n");
    store.save(&value("comment", 1, "x")).unwrap();
    let mut checkpoint = set(9, 2);
    checkpoint.active = false;
    checkpoint.archived_at = Some(time(50));
    let recorded = RecordedSession {
        session: session(2, ReviewSessionStatus::Active),
        documents: vec![store.document()],
        sets: vec![RecordedSet { set: checkpoint, annotations: store.annotations }],
        exports: vec![RecordedExport {
            id: PromptExportId(3),
            title: "Review feedback".into(),
            annotation_count: 1,
            created_at: time(80),
        }],
    };
    let items = history(&vec![recorded]);
    let types: Vec<&str> = items.iter().map(|item| item.item_type.as_str()).collect();
    assert_eq!(types, vec!["export", "clear"]);
    assert_eq!(items[0].id, format!("export:{}", id_text(3)));
    assert_eq!(items[1].id, format!("set:{}", id_text(9)));
    assert_eq!(items[1].annotation_count, 1);
}

#[test]
fn copies_come_from_the_captured_snapshot() {
    let document = review_document("fn old() {}\n", "fn captured() {}\n");
    let copy = |kind: &str, side: Option<&str>, line: Option<u32>| {
        copy_review_item(
            &CopyReviewItemRequest {
                kind: kind.into(),
                file_id: id_text(0xf1),
                side: side.map(|side| side.to_owned()),
                start_line: line,
                end_line: line,
            },
            &document,
            Some(&ProviderRevision {
                owner: "acme".into(),
                repository: "project".into(),
                merge_base_sha: "a".repeat(40),
                head_sha: Some("b".repeat(40)),
            }),
        )
    };
    assert_eq!(copy("source", Some("new"), Some(1)).unwrap(), "fn captured() {}\n");
    assert_eq!(copy("path", None, Some(u32::MAX)).unwrap(), "review.rs");
    assert!(copy("provider_permalink", Some("new"), Some(1)).unwrap().contains(&"b".repeat(40)));
    assert!(copy("everything", None, None).is_err());
    let patch = canonical_patch_text(&document);
    assert!(patch.contains("-fn old() {}\n+fn captured() {}\n"));
}

#[test]
fn submissions_are_bounded_and_open_ones_need_confirmation() {
    let request = |ids: Vec<String>, summary: String| FinishReviewInput {
        annotation_ids: ids,
        summary,
        conclusion: ReviewConclusion::Comment,
    };
    assert_eq!(
        check_finish_request(&request(vec![id_text(4)], String::new())).unwrap(),
        vec![AnnotationId(4)]
    );
    assert_eq!(
        message(check_finish_request(&request(Vec::new(), "x".repeat(100_001)))),
        "review payload is too large"
    );
    assert_eq!(
        message(check_finish_request(&request(vec!["?".into()], String::new()))),
        "annotation id is invalid: ?"
    );
    let submission = FinishReviewSubmissionInput { preview_token: "token".into() };
    let record = |status| PublicationRecord {
        id: "local".into(),
        preview_token: "token".into(),
        status,
        remote_review_id: Some(12),
        annotation_ids: vec![AnnotationId(4)],
        payload_json: "{}".into(),
    };
    let previewed = record(GitHubPublicationStatus::Previewed);
    let prepared = record(GitHubPublicationStatus::Prepared);
    assert!(check_abandon(&submission, Some(&previewed), false).is_ok());
    assert!(check_abandon(&submission, Some(&prepared), false).is_err());
    assert!(check_abandon(&submission, Some(&prepared), true).is_ok());
    assert!(check_abandon(&submission, None, true).is_err());
    let done = finish_result(record(GitHubPublicationStatus::Reconciled), 1);
    assert_eq!(done.review_id, "12");
    assert_eq!(done.publication_status, "reconciled");
    assert!(done.submitted);
}
