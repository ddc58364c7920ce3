use localreview_desktop::annotations::{
    Annotation, AnnotationAnchor, AnnotationKind, AnnotationState, PublicationState,
};
use localreview_desktop::canonical::HunkContext;
use localreview_desktop::difftastic::{
    next_structural_step, show_structural, structural_row_count, DifftasticAlignment,
    DifftasticCell, DifftasticChunk, DifftasticDisplay, DifftasticFileStatus, DifftasticHighlight,
    DifftasticPresentation, DifftasticRow, DifftasticSpan, StructuralEvent, StructuralStep,
};
use localreview_desktop::document::{
    DiffCell, DiffLineKind, DiffSide, FullFileRow, HunkHeader, ReviewDiffDocument, ReviewFile,
    ReviewFileStatus, ReviewHunk, SourceSnapshot, SplitRow, UnifiedRow,
};
use localreview_desktop::errors::DispatchError;
use localreview_desktop::full_file::FullFileView;
use localreview_desktop::ids::{
    id_text, AnnotationId, AnnotationSetId, ComparisonId, RepositoryId, ReviewFileId,
};
use localreview_desktop::jobs::{
    PresentationJobLease, PresentationJobRegistry, PresentationWorkPool, WorkPermit,
    MAX_PRESENTATION_JOBS,
};
use localreview_desktop::present::{
    presentation_window, resolve_presentation_location, show_fallback,
};
use localreview_desktop::presentation::{
    build_canonical_presentation, canonical_window, captured_source_range, check_line_range,
    document_rows,
    HighlightResult, HighlightToken, PresentationRequest, SyntaxClass,
};
use localreview_desktop::presentation_cache::{
    canonical_key, document_key, source_bytes, structural_cache_key, PresentationCache,
};
use localreview_desktop::review::{outline_views, OutlineKind, OutlineSymbol};
use localreview_desktop::rows::{bounded_window, nearest};
use localreview_desktop::source_lines::{byte_to_utf16_index, github_path};
use localreview_desktop::time::Timestamp;
use localreview_desktop::ui_state::{
    apply_ui_state_patch, expand_hunk_context, workspace_ui_state_view, ReviewUiState,
    WorkspaceUiStatePatch,
};
use localreview_desktop::views::PresentationWindow;
use std::sync::Arc;

type Cache = PresentationCache<Arc<ReviewDiffDocument>, Arc<DifftasticPresentation>>;

fn time(seconds: i64) -> Timestamp {
    Timestamp::new(seconds, 0).unwrap()
}

fn lines_of(source: &str) -> Vec<String> {
    source.lines().map(|line| line.to_owned()).collect()
}

fn cell(side: DiffSide, line_number: u32, text: &str) -> Option<DiffCell> {
    Some(DiffCell { side, line_number, text: text.to_owned() })
}

/// Matches equal lines: the common ends first, then the longest common
/// subsequence of what is between them.
fn matched_lines(old: &[String], new: &[String]) -> Vec<(usize, usize)> {
    let mut head = 0;
    while head < old.len() && head < new.len() && old[head] == new[head] {
        head += 1;
    }
    let mut tail = 0;
    while tail < old.len() - head
        && tail < new.len() - head
        && old[old.len() - 1 - tail] == new[new.len() - 1 - tail]
    {
        tail += 1;
    }
    let rows = old.len() - head - tail;
    let columns = new.len() - head - tail;
    let mut longest = vec![vec![0usize; columns + 1]; rows + 1];
    for i in (0..rows).rev() {
        for j in (0..columns).rev() {
            longest[i][j] = if old[head + i] == new[head + j] {
                longest[i + 1][j + 1] + 1
            } else {
                longest[i + 1][j].max(longest[i][j + 1])
            };
        }
    }
    let mut pairs: Vec<(usize, usize)> = (0..head).map(|line| (line, line)).collect();
    let (mut i, mut j) = (0, 0);
    while i < rows && j < columns {
        if old[head + i] == new[head + j] {
            pairs.push((head + i, head + j));
            i += 1;
            j += 1;
        } else if longest[i + 1][j] >= longest[i][j + 1] {
            i += 1;
        } else {
            j += 1;
        }
    }
    for back in (0..tail).rev() {
        pairs.push((old.len() - 1 - back, new.len() - 1 - back));
    }
    pairs
}

/// A captured comparison of two sources, with three lines of context around
/// each change.
fn document_from_sources(
    comparison_id: ComparisonId,
    file: ReviewFile,
    old_source: &str,
    new_source: &str,
) -> ReviewDiffDocument {
    let old = lines_of(old_source);
    let new = lines_of(new_source);
    let mut pairs = matched_lines(&old, &new);
    pairs.push((old.len(), new.len()));
    // Every line in order: a kind with its places in both sources.
    let mut script: Vec<(DiffLineKind, usize, usize)> = Vec::new();
    let (mut i, mut j) = (0, 0);
    for (a, b) in pairs {
        while i < a {
            script.push((DiffLineKind::Removal, i, j));
            i += 1;
        }
        while j < b {
            script.push((DiffLineKind::Addition, i, j));
            j += 1;
        }
        if a < old.len() && b < new.len() {
            script.push((DiffLineKind::Context, i, j));
            i += 1;
            j += 1;
        }
    }
    let mut base_rows = Vec::new();
    let mut current_rows = Vec::new();
    let mut changed_old_lines = Vec::new();
    let mut changed_new_lines = Vec::new();
    for (kind, a, b) in &script {
        let old_row = |changed| FullFileRow {
            side: DiffSide::Old,
            line_number: *a as u32 + 1,
            text: old[*a].clone(),
            changed,
        };
        let new_row = |changed| FullFileRow {
            side: DiffSide::New,
            line_number: *b as u32 + 1,
            text: new[*b].clone(),
            changed,
        };
        match kind {
            DiffLineKind::Context => {
                base_rows.push(old_row(false));
                current_rows.push(new_row(false));
            }
            DiffLineKind::Removal => {
                changed_old_lines.push(*a as u32 + 1);
                base_rows.push(old_row(true));
                current_rows.push(old_row(true));
            }
            DiffLineKind::Addition => {
                changed_new_lines.push(*b as u32 + 1);
                base_rows.push(new_row(true));
                current_rows.push(new_row(true));
            }
        }
    }
    let mut hunks: Vec<ReviewHunk> = Vec::new();
    let mut position = 0;
    while position < script.len() {
        if script[position].0 == DiffLineKind::Context {
            position += 1;
            continue;
        }
        let start = position.saturating_sub(3);
        let mut last = position;
        let mut look = position;
        while look < script.len() && look <= last + 6 {
            if script[look].0 != DiffLineKind::Context {
                last = look;
            }
            look += 1;
        }
        let end = (last + 4).min(script.len());
        let id = format!("hunk-{}", hunks.len());
        let mut unified_rows = Vec::new();
        let mut split_rows: Vec<SplitRow> = Vec::new();
        let mut removed: Vec<usize> = Vec::new();
        let mut added: Vec<usize> = Vec::new();
        let mut flush = |removed: &mut Vec<usize>, added: &mut Vec<usize>, rows: &mut Vec<SplitRow>| {
            for pair in 0..removed.len().max(added.len()) {
                rows.push(SplitRow {
                    id: format!("split-{}", rows.len()),
                    old: removed.get(pair).and_then(|a| cell(DiffSide::Old, *a as u32 + 1, &old[*a])),
                    new: added.get(pair).and_then(|b| cell(DiffSide::New, *b as u32 + 1, &new[*b])),
                });
            }
            removed.clear();
            added.clear();
        };
        for (kind, a, b) in &script[start..end] {
            let old_cell = || cell(DiffSide::Old, *a as u32 + 1, &old[*a]);
            let new_cell = || cell(DiffSide::New, *b as u32 + 1, &new[*b]);
            let row_id = format!("row-{}-{}", hunks.len(), unified_rows.len());
            match kind {
                DiffLineKind::Context => {
                    flush(&mut removed, &mut added, &mut split_rows);
                    split_rows.push(SplitRow {
                        id: format!("split-{}", split_rows.len()),
                        old: old_cell(),
                        new: new_cell(),
                    });
                    unified_rows.push(UnifiedRow { id: row_id, kind: *kind, old: old_cell(), new: new_cell() });
                }
                DiffLineKind::Removal => {
                    removed.push(*a);
                    unified_rows.push(UnifiedRow { id: row_id, kind: *kind, old: old_cell(), new: None });
                }
                DiffLineKind::Addition => {
                    added.push(*b);
                    unified_rows.push(UnifiedRow { id: row_id, kind: *kind, old: None, new: new_cell() });
                }
            }
        }
        flush(&mut removed, &mut added, &mut split_rows);
        let old_count = unified_rows.iter().filter(|row| row.old.is_some()).count() as u32;
        let new_count = unified_rows.iter().filter(|row| row.new.is_some()).count() as u32;
        hunks.push(ReviewHunk {
            id,
            header: HunkHeader {
                old_start: script[start].1 as u32 + 1,
                old_count,
                new_start: script[start].2 as u32 + 1,
                new_count,
                context: None,
            },
            unified_rows,
            split_rows,
        });
        position = end;
    }
    ReviewDiffDocument {
        comparison_id,
        file,
        old: SourceSnapshot {
            content: old_source.to_owned(),
            line_count: old.len() as u32,
            fingerprint: format!("old-{}", old_source.len()),
        },
        new: SourceSnapshot {
            content: new_source.to_owned(),
            line_count: new.len() as u32,
            fingerprint: format!("new-{}", new_source.len()),
        },
        hunks,
        changed_old_lines,
        changed_new_lines,
        base_rows,
        current_rows,
    }
}

fn review_document(old_source: &str, new_source: &str) -> ReviewDiffDocument {
    document_from_sources(
        ComparisonId(0xc0),
        ReviewFile {
            id: ReviewFileId(0xf1),
            path: "review.rs".into(),
            old_path: None,
            status: ReviewFileStatus::Modified,
        },
        old_source,
        new_source,
    )
}

/// One token for every line of a source.
fn highlighted(source: &str, side: DiffSide) -> HighlightResult {
    let mut tokens = Vec::new();
    let mut start = 0u32;
    for line in source.split_inclusive('\n') {
        let end = start + line.len() as u32;
        tokens.push(HighlightToken { side, start_byte: start, end_byte: end, class: SyntaxClass::Keyword });
        start = end;
    }
    HighlightResult { tokens, highlighted: true, status: "Highlighted".into() }
}

fn request(mode: &str, side: Option<&str>, start_row: u32, end_row: u32, generation: u64) -> PresentationRequest {
    PresentationRequest {
        file_id: id_text(0xf1),
        comparison_id: None,
        mode: mode.into(),
        start_row,
        end_row,
        generation,
        full_file_side: side.map(|side| side.to_owned()),
        split_ratio_accepted: None,
        ephemeral_expanded_full_file_deletion_blocks: None,
        ephemeral_collapsed_full_file_addition_blocks: None,
    }
}

/// A review of one file with the state that is remembered of it.
struct Review {
    old_source: String,
    new_source: String,
    documents: Vec<ReviewDiffDocument>,
    annotations: Vec<Annotation>,
    cache: Cache,
    full_file_side: Option<String>,
    contexts: Vec<(String, u32)>,
    expanded: Vec<String>,
    collapsed: Vec<String>,
}

impl Review {
    fn new(old_source: &str, new_source: &str) -> Review {
        Review {
            old_source: old_source.to_owned(),
            new_source: new_source.to_owned(),
            documents: vec![review_document(old_source, new_source)],
            annotations: Vec::new(),
            cache: PresentationCache::new(),
            full_file_side: None,
            contexts: Vec::new(),
            expanded: Vec::new(),
            collapsed: Vec::new(),
        }
    }

    fn state(&self) -> ReviewUiState {
        let mut state = ReviewUiState::default();
        state.full_file_side = self.full_file_side.clone();
        for (hunk_id, lines) in &self.contexts {
            state.hunk_context_lines.push(HunkContext { hunk_id: hunk_id.clone(), lines: *lines });
        }
        for id in &self.expanded {
            state.expanded_full_file_deletion_blocks.insert(id.clone());
        }
        for id in &self.collapsed {
            state.collapsed_full_file_addition_blocks.insert(id.clone());
        }
        state
    }

    /// Saves a patch, as it is remembered after a restart.
    fn save(&mut self, patch: WorkspaceUiStatePatch) -> Result<(), DispatchError> {
        let state = apply_ui_state_patch(self.state(), patch, &self.documents, Some(&Vec::new()))?;
        let view = workspace_ui_state_view(&state);
        self.full_file_side = state.full_file_side.clone();
        self.expanded = view.expanded_full_file_deletion_blocks;
        self.collapsed = view.collapsed_full_file_addition_blocks;
        Ok(())
    }

    fn window(&mut self, request: &PresentationRequest) -> Result<PresentationWindow, DispatchError> {
        let state = self.state();
        presentation_window(
            &mut self.cache,
            request,
            &self.documents[0],
            state,
            &self.documents,
            &self.annotations,
            &highlighted(&self.old_source, DiffSide::Old),
            &highlighted(&self.new_source, DiffSide::New),
            true,
        )
    }

    fn locate(&mut self, mode: &str, side: DiffSide, line: u32) -> Result<u32, DispatchError> {
        let state = self.state();
        resolve_presentation_location(&mut self.cache, &self.documents[0], &state, None, mode, side, line)
            .map(|location| location.row_index)
    }
}

fn patch() -> WorkspaceUiStatePatch {
    WorkspaceUiStatePatch {
        active_file_id: None,
        mode: None,
        full_file_side: None,
        nearest_source_line: None,
        nearest_source_side: None,
        scroll_top_accepted: None,
        split_ratio_accepted: None,
        right_tab: None,
        selected_annotation_ids: None,
        expanded_full_file_deletion_blocks: None,
        collapsed_full_file_addition_blocks: None,
    }
}

fn line_annotation(side: DiffSide, start_line: u32, end_line: u32) -> Annotation {
    Annotation {
        id: AnnotationId(0xa1),
        annotation_set_id: AnnotationSetId(0x5e7),
        kind: AnnotationKind::Comment,
        state: AnnotationState::Open,
        publication_state: PublicationState::LocalOnly,
        labels: Vec::new(),
        body_markdown: "Hidden deletion annotation".into(),
        anchor: Some(AnnotationAnchor {
            comparison_id: ComparisonId(0xc0),
            repository_id: RepositoryId(0x4e),
            file_path: "review.rs".into(),
            side: Some(side),
            start_line: Some(start_line),
            end_line: Some(end_line),
            selected_source: String::new(),
            surrounding_context: String::new(),
            outdated: false,
        }),
        created_at: time(1),
        updated_at: time(1),
    }
}

#[test]
fn presentation_jobs_keep_independent_files_concurrent_and_cancel_stale_generations() {
    let mut jobs = PresentationJobRegistry::new();
    let first_file = ReviewFileId(1);
    let second_file = ReviewFileId(2);

    let first = jobs.acquire(first_file, 4).unwrap();
    let second = jobs.acquire(second_file, 9).unwrap();
    assert!(jobs.is_current(&first));
    assert!(jobs.is_current(&second));
    assert!(!jobs.is_cancelled(&first), "a job for a different file must not cancel this file");

    let replacement = jobs.acquire(first_file, 5).unwrap();
    assert!(jobs.is_cancelled(&first));
    assert!(!jobs.is_current(&first));
    assert!(jobs.is_current(&replacement));
    assert!(jobs.is_current(&second));
    assert!(matches!(jobs.acquire(first_file, 4), Err(DispatchError::Cancelled)));
}

#[test]
fn presentation_job_registry_and_worker_pool_are_bounded_and_cancellation_aware() {
    let mut jobs = PresentationJobRegistry::new();
    let first = jobs.acquire(ReviewFileId(1), 1).unwrap();
    for index in 0..MAX_PRESENTATION_JOBS {
        jobs.acquire(ReviewFileId(100 + index as u128), 1).unwrap();
    }
    assert!(jobs.len() <= MAX_PRESENTATION_JOBS);
    assert!(jobs.is_cancelled(&first), "evicted job work must be stopped");

    let mut pool = PresentationWorkPool::new(2);
    assert_eq!(pool.acquire(false), WorkPermit::Granted);
    assert_eq!(pool.acquire(false), WorkPermit::Granted);
    assert_eq!(pool.available(), 0, "two independent workers are admitted");
    assert_eq!(pool.acquire(true), WorkPermit::Cancelled);
    assert_eq!(pool.acquire(false), WorkPermit::Wait);
    pool.release();
    pool.release();
    assert_eq!(pool.available(), 2, "permits are always returned");
    let ephemeral = PresentationJobLease::ephemeral(ReviewFileId(7), 1);
    assert!(!jobs.is_cancelled(&ephemeral));
}

#[test]
fn a_cleared_file_has_no_job_and_a_lost_lease_is_refused() {
    let mut jobs = PresentationJobRegistry::new();
    let lease = jobs.acquire(ReviewFileId(1), 1).unwrap();
    assert!(jobs.ensure_current(&lease).is_ok());
    jobs.cancel_file(ReviewFileId(1));
    assert!(matches!(jobs.ensure_current(&lease), Err(DispatchError::Cancelled)));
    assert!(jobs.has_tickets());
}

#[test]
fn canonical_presentation_cache_remains_bounded_across_view_states() {
    let document = review_document("fn before() {}\n", "fn after() {}\n");
    let mut cache: Cache = PresentationCache::new();
    for index in 0..20 {
        let mut state = ReviewUiState::default();
        state.hunk_context_lines.push(HunkContext { hunk_id: format!("view-{index}"), lines: 3 });
        cache.cached_canonical_rows(&document, "unified", FullFileView::New, &state).unwrap();
    }
    assert!(cache.canonical.len() <= 16);
    assert!(cache.canonical.cost() <= 100_000);
}

#[test]
fn large_full_file_presentations_reuse_one_shared_projection() {
    let unchanged = "let cached = true;\n".repeat(12_100);
    let old_source = format!("let version = 1;\n{unchanged}");
    let new_source = format!("let version = 2;\n{unchanged}");
    let document = Arc::new(review_document(&old_source, &new_source));
    let mut cache: Cache = PresentationCache::new();
    let comparison = Some(ComparisonId(0xc0));
    assert!(cache.find_document(ReviewFileId(0xf1), comparison).is_none());
    cache.keep_document(ReviewFileId(0xf1), comparison, source_bytes(&document), document.clone());
    let first_document = cache.find_document(ReviewFileId(0xf1), comparison).unwrap().clone();
    let second_document = cache.find_document(ReviewFileId(0xf1), comparison).unwrap().clone();

    let state = ReviewUiState::default();
    let first = cache.cached_canonical_rows(&document, "full", FullFileView::New, &state).unwrap();
    let second = cache.cached_canonical_rows(&document, "full", FullFileView::New, &state).unwrap();

    assert!(first.rows.len() > 12_000);
    assert!(
        Arc::ptr_eq(&first_document, &second_document),
        "viewport requests must not reread and deserialize the immutable document"
    );
    assert!(
        Arc::ptr_eq(&first, &second),
        "viewport requests must share the cached full-file projection"
    );
}

#[test]
fn documents_that_are_too_large_are_not_kept() {
    let document = Arc::new(review_document("a\n", "b\n"));
    let mut cache: Cache = PresentationCache::new();
    cache.keep_document(ReviewFileId(1), None, 32 * 1024 * 1024 + 1, document.clone());
    assert!(cache.find_document(ReviewFileId(1), None).is_none());
    cache.keep_document(ReviewFileId(1), None, 20 * 1024 * 1024, document.clone());
    cache.keep_document(ReviewFileId(2), None, 20 * 1024 * 1024, document.clone());
    assert!(cache.find_document(ReviewFileId(1), None).is_none(), "the older one had to go");
    assert!(cache.find_document(ReviewFileId(2), None).is_some());
    cache.clear_file(ReviewFileId(2));
    assert!(cache.find_document(ReviewFileId(2), None).is_none());
}

#[test]
fn cache_keys_name_everything_that_a_presentation_depends_on() {
    let document = review_document("a\n", "b\n");
    assert_eq!(
        document_key(ReviewFileId(0xf1), None),
        "latest:00000000-0000-0000-0000-0000000000f1"
    );
    assert_eq!(
        structural_cache_key(&document, "dark"),
        "00000000-0000-0000-0000-0000000000f1:old-2:new-2:dark"
    );
    let mut state = ReviewUiState::default();
    state.hunk_context_lines.push(HunkContext { hunk_id: "h".into(), lines: 9 });
    state.expanded_full_file_deletion_blocks.insert("block".into());
    assert_eq!(
        canonical_key(&document, "split", FullFileView::Both, &state),
        "00000000-0000-0000-0000-0000000000f1:00000000-0000-0000-0000-0000000000c0:split:both:[[[\"h\",9]],[\"block\"],[]]"
    );
    let mut other = ReviewUiState::default();
    other.hunk_context_lines.push(HunkContext { hunk_id: "h".into(), lines: 9 });
    other.collapsed_full_file_addition_blocks.insert("block".into());
    assert_ne!(
        canonical_key(&document, "split", FullFileView::Both, &other),
        canonical_key(&document, "split", FullFileView::Both, &state)
    );
}

#[test]
fn canonical_windows_are_bounded_highlighted_and_expand_real_source_context() {
    let old = (1..=80)
        .map(|line| format!("fn value_{line}() -> usize {{ {line} }}\n"))
        .collect::<String>();
    let new = old.replace("fn value_40() -> usize { 40 }", "fn value_40() -> usize { 400 }");
    let mut review = Review::new(&old, &new);
    let mut asked = request("unified", Some("new"), 0, u32::MAX, 7);
    asked.split_ratio_accepted = Some(true);
    let first = review.window(&asked).unwrap();
    assert_eq!(first.generation, 7);
    assert!(first.rows.len() <= 2_048);
    assert_eq!(first.highlight_status, "highlighted");
    assert!(!first.new_tokens.is_empty());
    let hunk_id = first.hunks[0].id.clone();
    let initial_rows = first.total_rows;
    let expanded_state = expand_hunk_context(review.state(), &review.documents[0], true, &hunk_id, 30).unwrap();
    for context in &expanded_state.hunk_context_lines {
        review.contexts.push((context.hunk_id.clone(), context.lines));
    }
    let expanded = review.window(&request("unified", None, 0, u32::MAX, 8)).unwrap();
    assert!(expanded.total_rows > initial_rows);
    assert!(expanded.rows.iter().any(|row| row.id.starts_with("expanded:")));

    let full = review.window(&request("full", Some("new"), 20, u32::MAX, 9)).unwrap();
    assert_eq!(full.start_row, 20);
    assert_eq!(full.total_rows, 81);
    assert_eq!(full.rows.len(), 61);
    assert!(full
        .rows
        .iter()
        .filter(|row| row.new_line.is_some())
        .all(|row| row.new_source_start_byte.is_some()));
    assert!(full.rows.iter().any(|row| {
        row.kind == "deletion_gate"
            && row.old_line == Some(40)
            && row.omitted_end_line == Some(40)
            && row.old_source_start_byte.is_none()
    }));
    assert!(full.old_tokens.is_empty());
    let symbols = vec![OutlineSymbol {
        name: "value_40".into(),
        kind: OutlineKind::Function,
        start_line: 40,
        end_line: 40,
        depth: 0,
    }];
    let outline = outline_views(&symbols, DiffSide::New);
    assert!(outline.iter().any(|symbol| symbol.name == "value_40"));
}

#[test]
fn full_file_current_windows_interleave_removals_and_resolve_old_side_anchors() {
    let old = (1..=30)
        .map(|line| format!("const VALUE_{line}: usize = {line};\n"))
        .collect::<String>();
    let new = old
        .lines()
        .enumerate()
        .filter(|(index, _)| !matches!(index + 1, 5..=7 | 20..=21))
        .map(|(_, line)| format!("{line}\n"))
        .collect::<String>();
    let mut review = Review::new(&old, &new);
    review.annotations.push(line_annotation(DiffSide::Old, 6, 6));
    let full = review.window(&request("full", Some("new"), 0, u32::MAX, 10)).unwrap();

    assert_eq!(full.total_rows, 27);
    assert_eq!(full.hunks.len(), 2);
    let gates = full
        .rows
        .iter()
        .enumerate()
        .filter(|(_, row)| row.kind == "deletion_gate")
        .map(|(index, row)| (index, row.old_line, row.omitted_end_line, row.omitted_count))
        .collect::<Vec<_>>();
    assert_eq!(gates, vec![(4, Some(5), Some(7), Some(3)), (17, Some(20), Some(21), Some(2))]);
    assert_eq!(full.omitted_blocks.len(), 2);
    assert!(full.omitted_blocks.iter().all(|block| !block.expanded));
    assert!(full.rows[4].has_annotation);
    assert!(!full.rows[17].has_annotation);
    assert_eq!(full.hunks.iter().map(|hunk| hunk.row_index).collect::<Vec<_>>(), vec![4, 17]);
    assert!(full
        .rows
        .iter()
        .filter(|row| row.new_line.is_some())
        .all(|row| row.new_source_start_byte.is_some() && row.old_source_start_byte.is_none()));
    assert!(!full.new_tokens.is_empty());

    assert_eq!(review.locate("full", DiffSide::Old, 20).unwrap(), 17);

    let mut expanded_ids = full.omitted_blocks.iter().map(|block| block.id.clone()).collect::<Vec<_>>();
    expanded_ids.sort();
    let mut asked = request("full", Some("new"), 0, u32::MAX, 11);
    asked.ephemeral_expanded_full_file_deletion_blocks = Some(expanded_ids.clone());
    let ephemeral = review.window(&asked).unwrap();
    assert!(ephemeral.omitted_blocks.iter().all(|block| block.expanded));
    assert!(
        workspace_ui_state_view(&review.state()).expanded_full_file_deletion_blocks.is_empty(),
        "a presentation-only expansion must not mutate durable session UI state"
    );
    assert!(review
        .save(WorkspaceUiStatePatch {
            expanded_full_file_deletion_blocks: Some(vec!["foreign:block".into()]),
            ..patch()
        })
        .is_err());
    review
        .save(WorkspaceUiStatePatch {
            expanded_full_file_deletion_blocks: Some(expanded_ids.clone()),
            ..patch()
        })
        .unwrap();
    assert_eq!(
        workspace_ui_state_view(&review.state()).expanded_full_file_deletion_blocks,
        expanded_ids
    );
    let expanded = review.window(&request("full", Some("new"), 0, u32::MAX, 12)).unwrap();
    // Each expanded block retains its one-row inline collapse gate.
    assert_eq!(expanded.total_rows, 32);
    assert!(expanded.omitted_blocks.iter().all(|block| block.expanded));
    assert_eq!(
        expanded
            .rows
            .iter()
            .enumerate()
            .filter(|(_, row)| row.kind == "deletion")
            .map(|(index, row)| (index, row.old_line))
            .collect::<Vec<_>>(),
        vec![(5, Some(5)), (6, Some(6)), (7, Some(7)), (21, Some(20)), (22, Some(21))]
    );
    assert_eq!(
        expanded
            .rows
            .iter()
            .enumerate()
            .filter(|(_, row)| row.kind == "deletion_gate")
            .map(|(index, row)| (index, row.omitted_expanded))
            .collect::<Vec<_>>(),
        vec![(4, Some(true)), (20, Some(true))]
    );
    assert_eq!(expanded.hunks.iter().map(|hunk| hunk.row_index).collect::<Vec<_>>(), vec![5, 21]);
    assert_eq!(review.locate("full", DiffSide::Old, 20).unwrap(), 21);
    assert!(!expanded.old_tokens.is_empty());
}

#[test]
fn full_file_base_collapses_additions_and_aligns_both_sides_across_line_shifts() {
    let old = (1..=30).map(|line| format!("let value_{line} = {line};\n")).collect::<String>();
    let mut new = String::new();
    for line in 1..=30 {
        new.push_str(&format!("let value_{line} = {line};\n"));
        if line == 5 {
            new.push_str("let inserted_a = true;\nlet inserted_b = true;\nlet inserted_c = true;\n");
        }
        if line == 20 {
            new.push_str("let inserted_d = true;\nlet inserted_e = true;\n");
        }
    }
    let mut review = Review::new(&old, &new);
    review
        .save(WorkspaceUiStatePatch { full_file_side: Some("old".into()), ..patch() })
        .unwrap();
    let base = review.window(&request("full", Some("old"), 0, u32::MAX, 30)).unwrap();
    let gates = base
        .rows
        .iter()
        .enumerate()
        .filter(|(_, row)| row.kind == "addition_gate")
        .map(|(index, row)| (index, row.new_line, row.omitted_end_line, row.omitted_count))
        .collect::<Vec<_>>();
    assert_eq!(gates, vec![(5, Some(6), Some(8), Some(3)), (21, Some(24), Some(25), Some(2))]);
    assert!(base.omitted_blocks.iter().all(|block| block.side == "new" && !block.expanded));

    assert_eq!(review.locate("full", DiffSide::New, 7).unwrap(), 5);

    let aligned_base_context = review.locate("full", DiffSide::New, 30).unwrap();
    assert_eq!(base.rows[usize::try_from(aligned_base_context).unwrap()].old_line, Some(25));

    let expanded_ids = base.omitted_blocks.iter().map(|block| block.id.clone()).collect::<Vec<_>>();
    let mut asked = request("full", Some("old"), 0, u32::MAX, 31);
    asked.ephemeral_expanded_full_file_deletion_blocks = Some(expanded_ids);
    let expanded = review.window(&asked).unwrap();
    assert_eq!(expanded.rows.iter().filter(|row| row.kind == "addition").count(), 5);

    review
        .save(WorkspaceUiStatePatch { full_file_side: Some("new".into()), ..patch() })
        .unwrap();
    let aligned_current_context = review.locate("full", DiffSide::Old, 25).unwrap();
    let current = review
        .window(&request(
            "full",
            Some("new"),
            aligned_current_context,
            aligned_current_context.saturating_add(1),
            32,
        ))
        .unwrap();
    assert_eq!(current.rows[0].new_line, Some(30));
}

#[test]
fn full_file_both_defaults_additions_open_deletions_closed_and_persists_each_control() {
    let mut review = Review::new(
        "keep\nold a\nold b\ntail\n",
        "keep\nnew a\nnew b\nnew c\ntail\n",
    );
    let both = review.window(&request("full", Some("both"), 0, u32::MAX, 40)).unwrap();
    let addition = both.omitted_blocks.iter().find(|block| block.side == "new").unwrap();
    let deletion = both.omitted_blocks.iter().find(|block| block.side == "old").unwrap();
    let total_additions = both
        .omitted_blocks
        .iter()
        .filter(|block| block.side == "new")
        .map(|block| usize::try_from(block.count).unwrap())
        .sum::<usize>();
    assert!(addition.expanded);
    assert!(!deletion.expanded);
    assert_eq!(both.rows.iter().filter(|row| row.kind == "addition").count(), total_additions);
    assert_eq!(both.rows.iter().filter(|row| row.kind == "deletion").count(), 0);

    let addition_id = addition.id.clone();
    let deletion_id = deletion.id.clone();
    let mut asked = request("full", Some("both"), 0, u32::MAX, 41);
    asked.ephemeral_expanded_full_file_deletion_blocks = Some(vec![]);
    asked.ephemeral_collapsed_full_file_addition_blocks = Some(vec![addition_id.clone()]);
    let collapsed_in_place = review.window(&asked).unwrap();
    assert_eq!(
        collapsed_in_place.rows.iter().filter(|row| row.kind == "addition").count(),
        total_additions.saturating_sub(usize::try_from(addition.count).unwrap())
    );
    let mut asked = request("full", Some("both"), 0, u32::MAX, 42);
    asked.ephemeral_expanded_full_file_deletion_blocks = Some(vec![]);
    asked.ephemeral_collapsed_full_file_addition_blocks = Some(vec![]);
    let expanded_in_place = review.window(&asked).unwrap();
    assert_eq!(
        expanded_in_place.rows.iter().filter(|row| row.kind == "addition").count(),
        total_additions
    );
    review
        .save(WorkspaceUiStatePatch {
            full_file_side: Some("both".into()),
            expanded_full_file_deletion_blocks: Some(vec![deletion_id.clone()]),
            collapsed_full_file_addition_blocks: Some(vec![addition_id.clone()]),
            ..patch()
        })
        .unwrap();
    let state = workspace_ui_state_view(&review.state());
    assert_eq!(state.full_file_side, "both");
    assert_eq!(state.expanded_full_file_deletion_blocks, vec![deletion_id]);
    assert_eq!(state.collapsed_full_file_addition_blocks, vec![addition_id]);
    let toggled = review.window(&request("full", Some("both"), 0, u32::MAX, 43)).unwrap();
    assert_eq!(
        toggled.rows.iter().filter(|row| row.kind == "addition").count(),
        total_additions.saturating_sub(usize::try_from(addition.count).unwrap())
    );
    assert_eq!(
        toggled.rows.iter().filter(|row| row.kind == "deletion").count(),
        usize::try_from(deletion.count).unwrap()
    );
}

#[test]
fn presentation_locations_are_resolved_against_complete_native_rows() {
    let old = (1..=240)
        .map(|line| format!("fn value_{line}() -> usize {{ {line} }}\n"))
        .collect::<String>();
    let new = old.replace("fn value_180() -> usize { 180 }", "fn value_180() -> usize { 1_800 }");
    let mut review = Review::new(&old, &new);
    let state = review.state();
    let unified = resolve_presentation_location(
        &mut review.cache,
        &review.documents[0],
        &state,
        None,
        "unified",
        DiffSide::New,
        180,
    )
    .unwrap();
    let full = review.locate("full", DiffSide::New, 240).unwrap();

    assert_eq!((unified.side.as_str(), unified.line), ("new", 180));
    assert!(unified.row_index > 0);
    // Both is the Full File default. The replacement contributes one
    // collapsed deletion gate plus one expanded addition gate before the
    // Current source row, while retaining the source coordinate.
    assert_eq!(full, 241);
    assert!(review.locate("unified", DiffSide::New, 0).is_err());
    assert!(review.locate("full", DiffSide::New, 241).is_err());
}

#[test]
fn captured_source_ranges_are_exact_and_never_return_partial_text() {
    let document = review_document("old\n", "first line\nα second line\nthird line\n");
    let captured = captured_source_range(&document, DiffSide::New, 2, 3).unwrap();
    assert!(captured.complete);
    assert_eq!(captured.text, "α second line\nthird line\n");

    let incomplete = captured_source_range(&document, DiffSide::New, 2, 4).unwrap();
    assert!(!incomplete.complete);
    assert!(incomplete.text.is_empty());
    assert!(captured_source_range(&document, DiffSide::New, 0, 1).is_err());
    assert!(check_line_range(3, 2).is_err());
}

#[test]
fn source_offsets_and_urls_preserve_unicode_boundaries() {
    let old = "α\nlet value = 1;\n";
    let new = "α\nlet value = 2;\n";
    let document = document_from_sources(
        ComparisonId(1),
        ReviewFile {
            id: ReviewFileId(2),
            path: "space and #/💡.rs".into(),
            old_path: None,
            status: ReviewFileStatus::Modified,
        },
        old,
        new,
    );
    let presentation =
        build_canonical_presentation(&document, "unified", FullFileView::New, &ReviewUiState::default()).unwrap();
    let changed = presentation
        .rows
        .iter()
        .find(|row| row.new_line == Some(2) && row.kind == "addition")
        .unwrap();
    assert_eq!(changed.new_source_start_byte, Some("α\n".len() as u32));
    assert_eq!(byte_to_utf16_index("a💡b", 5), Some(3));
    assert_eq!(byte_to_utf16_index("a💡b", 2), None);
    assert_eq!(github_path("space and #/💡.rs"), "space%20and%20%23/%F0%9F%92%A1.rs");
}

#[test]
fn structural_presentation_choices_survive_controller_restart() {
    let scroll_top = 321.0f64;
    let split_ratio = 0.63f64;
    let documents = vec![review_document("fn old() {}\n", "fn new() {}\n")];
    let state = apply_ui_state_patch(
        ReviewUiState::default(),
        WorkspaceUiStatePatch {
            active_file_id: Some(id_text(0xf1)),
            mode: Some("difftastic".into()),
            full_file_side: Some("old".into()),
            scroll_top_accepted: Some(scroll_top.is_finite() && scroll_top >= 0.0),
            split_ratio_accepted: Some((0.25..=0.75).contains(&split_ratio)),
            right_tab: Some("outline".into()),
            ..patch()
        },
        &documents,
        Some(&Vec::new()),
    )
    .unwrap();
    let restored = workspace_ui_state_view(&state);
    assert_eq!(restored.active_file_id, Some(id_text(0xf1)));
    assert_eq!(restored.mode, "difftastic");
    assert_eq!(restored.full_file_side, "old");
    assert_eq!(restored.right_tab, "outline");
}

#[test]
fn patches_name_what_is_wrong_with_them() {
    let documents = vec![review_document("a\n", "b\n")];
    let refused = |patch: WorkspaceUiStatePatch| {
        match apply_ui_state_patch(ReviewUiState::default(), patch, &documents, None) {
            Err(DispatchError::Invalid(text)) => text,
            _ => panic!("accepted"),
        }
    };
    assert_eq!(
        refused(WorkspaceUiStatePatch { active_file_id: Some("x".into()), ..patch() }),
        "activeFileId is invalid"
    );
    assert_eq!(
        refused(WorkspaceUiStatePatch { active_file_id: Some(id_text(9)), ..patch() }),
        "activeFileId is not in this review"
    );
    assert_eq!(
        refused(WorkspaceUiStatePatch { mode: Some("raw".into()), ..patch() }),
        "unsupported diff mode"
    );
    assert_eq!(
        refused(WorkspaceUiStatePatch { full_file_side: Some("left".into()), ..patch() }),
        "fullFileSide must be old, new, or both"
    );
    assert_eq!(
        refused(WorkspaceUiStatePatch { nearest_source_line: Some(0), ..patch() }),
        "nearestSourceLine must be positive"
    );
    assert_eq!(
        refused(WorkspaceUiStatePatch { scroll_top_accepted: Some(false), ..patch() }),
        "scrollTop is invalid"
    );
    assert_eq!(
        refused(WorkspaceUiStatePatch { split_ratio_accepted: Some(false), ..patch() }),
        "splitRatio must be between 0.25 and 0.75"
    );
    assert_eq!(
        refused(WorkspaceUiStatePatch { right_tab: Some("tree".into()), ..patch() }),
        "rightTab is invalid"
    );
    assert_eq!(
        refused(WorkspaceUiStatePatch { selected_annotation_ids: Some(vec![]), ..patch() }),
        "active review has no annotation set"
    );
    assert_eq!(
        refused(WorkspaceUiStatePatch {
            collapsed_full_file_addition_blocks: Some(vec!["other".into()]),
            ..patch()
        }),
        "collapsedFullFileAdditionBlocks contains a stale or foreign block"
    );
}

#[test]
fn refused_window_requests_say_why() {
    let mut review = Review::new("a\n", "b\n");
    let mut refused = |request: PresentationRequest| match review.window(&request) {
        Err(DispatchError::Invalid(text)) => text,
        _ => panic!("accepted"),
    };
    let mut asked = request("unified", None, 0, 9, 1);
    asked.file_id = "x".into();
    assert_eq!(refused(asked), "presentation fileId is invalid");
    let mut asked = request("unified", None, 0, 9, 1);
    asked.comparison_id = Some("x".into());
    assert_eq!(refused(asked), "presentation comparisonId is invalid");
    assert_eq!(refused(request("raw", None, 0, 9, 1)), "unsupported diff mode");
    assert_eq!(
        refused(request("full", Some("left"), 0, 9, 1)),
        "fullFileSide must be old, new, or both"
    );
    let mut asked = request("split", None, 0, 9, 1);
    asked.split_ratio_accepted = Some(false);
    assert_eq!(refused(asked), "split ratio must be between 0.25 and 0.75");
    let mut asked = request("full", None, 0, 9, 1);
    asked.ephemeral_collapsed_full_file_addition_blocks = Some(vec!["other".into()]);
    assert_eq!(
        refused(asked),
        "ephemeralCollapsedFullFileAdditionBlocks contains a stale or foreign block"
    );
}

#[test]
fn a_superseded_window_request_is_cancelled() {
    let review = Review::new("a\n", "b\n");
    let mut cache: Cache = PresentationCache::new();
    let answer = presentation_window(
        &mut cache,
        &request("unified", None, 0, 9, 1),
        &review.documents[0],
        ReviewUiState::default(),
        &review.documents,
        &Vec::new(),
        &highlighted("a\n", DiffSide::Old),
        &highlighted("b\n", DiffSide::New),
        false,
    );
    assert!(matches!(answer, Err(DispatchError::Cancelled)));
}

#[test]
fn hunk_rows_mark_annotations_and_list_headers_first() {
    let document = review_document("a\nb\nc\n", "a\nB\nc\n");
    let rows = document_rows(&document, "unified", &vec![line_annotation(DiffSide::New, 2, 2)]).unwrap();
    assert_eq!(rows[0].kind, "header");
    assert_eq!(rows[0].hunk.as_deref(), Some("@@ -1,3 +1,3 @@"));
    let marked = rows.iter().filter(|row| row.has_annotation).map(|row| row.new_line).collect::<Vec<_>>();
    assert_eq!(marked, vec![Some(2)]);
    assert!(document_rows(&document, "raw", &Vec::new()).is_err());
}

fn structural() -> DifftasticPresentation {
    DifftasticPresentation {
        status: DifftasticFileStatus::Changed,
        display: DifftasticDisplay::SideBySide,
        chunks: vec![DifftasticChunk {
            rows: vec![
                DifftasticRow {
                    old: Some(DifftasticCell {
                        line_number: 1,
                        text: "é one".into(),
                        changed_spans: vec![DifftasticSpan {
                            start_byte: 3,
                            end_byte: 6,
                            highlight: DifftasticHighlight::Keyword,
                        }],
                    }),
                    new: None,
                },
                DifftasticRow { old: None, new: None },
            ],
        }],
        alignment: vec![
            DifftasticAlignment { old_line_number: Some(1), new_line_number: None },
            DifftasticAlignment { old_line_number: None, new_line_number: Some(8) },
        ],
    }
}

#[test]
fn structural_windows_show_spans_in_utf16_and_are_kept() {
    let document = review_document("é one\n", "two\n");
    let mut cache: Cache = PresentationCache::new();
    let diff = Arc::new(structural());
    assert_eq!(structural_row_count(&diff), 2);
    let window = show_structural(&mut cache, &request("difftastic", None, 0, 9, 3), &document, "dark", diff);
    let shown = window.difftastic.unwrap();
    assert!(shown.fallback.is_none());
    assert_eq!(shown.status, "changed");
    assert_eq!(shown.display, "side_by_side");
    let span = &shown.chunks[0].rows[0].old.as_ref().unwrap().changed_spans[0];
    assert_eq!((span.start, span.end, span.highlight.as_str()), (2, 5, "keyword"));
    assert_eq!(window.total_rows, 2);
    let kept = cache.structural.get(&structural_cache_key(&document, "dark")).unwrap().clone();
    let place = resolve_presentation_location(
        &mut cache,
        &review_document("é one\n", &"x\n".repeat(9)),
        &ReviewUiState::default(),
        Some(kept),
        "difftastic",
        DiffSide::New,
        9,
    )
    .unwrap();
    assert_eq!(place.row_index, 1);
}

#[test]
fn canonical_rows_stand_in_for_a_missing_structural_diff() {
    let document = review_document("a\nb\n", "a\nB\n");
    let mut cache: Cache = PresentationCache::new();
    let window = show_fallback(
        &mut cache,
        &request("difftastic", None, 0, 99, 3),
        FullFileView::Both,
        &document,
        &ReviewUiState::default(),
        &Vec::new(),
        "sidecar_unavailable: none",
    )
    .unwrap();
    assert_eq!(window.mode, "difftastic");
    assert!(!window.rows.is_empty());
    let fallback = window.difftastic.unwrap().fallback.unwrap();
    assert_eq!(fallback.reason, "canonical_fallback");
    assert_eq!(fallback.detail.as_deref(), Some("sidecar_unavailable: none"));
    let state = ReviewUiState::default();
    let place =
        resolve_presentation_location(&mut cache, &document, &state, None, "difftastic", DiffSide::New, 2).unwrap();
    assert_eq!(window.rows[place.row_index as usize].new_line, Some(2));
}

#[test]
fn structural_diffs_are_computed_only_by_verified_programs() {
    assert_eq!(
        next_structural_step(StructuralEvent::Requested, true, true),
        StructuralStep::Cancel
    );
    assert_eq!(
        next_structural_step(StructuralEvent::Requested, false, true),
        StructuralStep::LookUp
    );
    assert_eq!(
        next_structural_step(StructuralEvent::PermitGranted { verified: false }, false, true),
        StructuralStep::VerifyVersion
    );
    assert_eq!(
        next_structural_step(StructuralEvent::VersionConfirmed, false, true),
        StructuralStep::RememberAndRender
    );
    assert_eq!(
        next_structural_step(StructuralEvent::SidecarUnavailable, false, true),
        StructuralStep::ShowFallback
    );
    assert_eq!(
        next_structural_step(StructuralEvent::Rendered, false, false),
        StructuralStep::Cancel
    );
}

#[test]
fn windows_are_clamped_and_ties_go_to_the_earlier_row() {
    assert_eq!(bounded_window(0, u32::MAX, 5000, 2048), (0, 2048));
    assert_eq!(bounded_window(9000, 9001, 5000, 2048), (5000, 5000));
    assert_eq!(bounded_window(10, 4, 5000, 2048), (10, 10));
    assert_eq!(nearest(&vec![Some(4), None, Some(1), Some(1)]), 2);
    assert_eq!(nearest(&vec![None, None]), 0);
}

#[test]
fn windows_that_follow_each_other_show_every_row_once() {
    let old: String = (0..40).map(|line| format!("line {line}\n")).collect();
    let new = old.replace("line 7\n", "changed 7\n").replace("line 30\n", "");
    let mut review = Review::new(&old, &new);
    let ids = |window: PresentationWindow| {
        window.rows.into_iter().map(|row| row.id).collect::<Vec<_>>()
    };
    let whole = review.window(&request("full", Some("both"), 0, 2_000, 1)).unwrap();
    let total = whole.total_rows;
    let mut joined = ids(review.window(&request("full", Some("both"), 0, 11, 2)).unwrap());
    joined.extend(ids(review.window(&request("full", Some("both"), 11, total, 3)).unwrap()));
    assert_eq!(joined, ids(whole));
}

#[test]
fn highlighting_changes_no_row() {
    let document = review_document("one\ntwo\n", "one\nthree\n");
    let state = ReviewUiState::default();
    let built =
        build_canonical_presentation(&document, "unified", FullFileView::Both, &state).unwrap();
    let wanted = request("unified", None, 0, 100, 1);
    let plain = |status: &str| HighlightResult {
        tokens: Vec::new(),
        highlighted: false,
        status: status.into(),
    };
    let coloured = canonical_window(
        &wanted,
        &document,
        &built,
        &Vec::new(),
        &highlighted("one\ntwo\n", DiffSide::Old),
        &highlighted("one\nthree\n", DiffSide::New),
    );
    let bare = canonical_window(
        &wanted,
        &document,
        &built,
        &Vec::new(),
        &plain("UnknownLanguage"),
        &plain("UnknownLanguage"),
    );
    assert_eq!(coloured.highlight_status, "highlighted");
    assert_eq!(bare.highlight_status, "plain_text");
    assert_eq!(
        bare.highlight_reason.as_deref(),
        Some("old=UnknownLanguage; new=UnknownLanguage")
    );
    assert!(!coloured.new_tokens.is_empty() && bare.new_tokens.is_empty());
    assert_eq!(coloured.rows.len(), bare.rows.len());
    for (left, right) in coloured.rows.iter().zip(&bare.rows) {
        assert_eq!(left.id, right.id);
        assert_eq!(left.kind, right.kind);
        assert_eq!(left.old_text, right.old_text);
        assert_eq!(left.new_text, right.new_text);
    }
}
