//! Answering requests for windows and for the place of a line.
use crate::annotations::Annotation;
use crate::cache::{lookup, EntryModel};
use crate::difftastic::{
    aligned_lines, fallback_view, fallback_window, is_fallback_window, nearest_difftastic_row,
    stand_in_view, DifftasticPresentation,
};
use crate::document::{side_name, side_source, DiffSide, ReviewDiffDocument};
use crate::errors::{invalid, DispatchError};
use crate::full_file::FullFileView;
use crate::presentation::{
    canonical_window, check_presentation_request, check_source_line, effective_view,
    ephemeral_problem, ephemeral_state, full_file_location, hunk_row_location, is_canonical,
    is_canonical_window, is_full_file_answer, is_nearest_location, request_problem,
    requested_view, shown_view, with_ephemeral, CachedCanonicalPresentation, HighlightResult,
    PresentationRequest,
};
use crate::presentation_cache::{
    after_serving, canonical_key_chars, is_of_that_file, state_expansion, PresentationCache,
};
use crate::rows::{is_diff_mode, row_lines, validate_diff_mode};
use crate::text::{text_eq, to_row_number};
use crate::ui_state::ReviewUiState;
use crate::views::{PresentationLocation, PresentationWindow};
use std::sync::Arc;
use vstd::prelude::*;
use vstd::string::*;

verus! {

/// What a cache keeps of presentations.
pub type Kept = Seq<EntryModel<Arc<CachedCanonicalPresentation>>>;

/// Whether a presentation is the one that a cache serves, which held `kept` and
/// now holds `after`: the kept one where there is one, which was made for the
/// same file of the same comparison in the same mode, view and state, else the
/// one that the document has.
pub open spec fn is_served(
    served: Arc<CachedCanonicalPresentation>,
    kept: Kept,
    after: Kept,
    document: ReviewDiffDocument,
    mode: Seq<char>,
    view: FullFileView,
    state: ReviewUiState,
) -> bool {
    let key = canonical_key_chars(document, mode, view, state_expansion(state));
    &&& after == after_serving(kept, key, served)
    &&& match lookup(kept, key) {
        Some(entry) => served == entry.value && is_of_that_file(
            *served,
            document,
            mode,
            view,
            state@,
        ),
        None => is_canonical(*served, document, mode, view, state@),
    }
}

/// The view under which the presentation for a request is kept.
pub open spec fn kept_view(request: PresentationRequest, document: ReviewDiffDocument) -> FullFileView {
    if request.mode@ == "full"@ {
        shown_view(document, requested_view(request.full_file_side))
    } else {
        requested_view(request.full_file_side)
    }
}

/// Whether an answer to a request in a canonical mode is right, where `shown`
/// is the state with which it is shown and `current` says that no newer
/// request took its place.
pub open spec fn is_window_answer(
    result: Result<PresentationWindow, DispatchError>,
    kept: Kept,
    after: Kept,
    request: PresentationRequest,
    document: ReviewDiffDocument,
    shown: ReviewUiState,
    annotations: Seq<Annotation>,
    highlights: (HighlightResult, HighlightResult),
    current: bool,
) -> bool {
    exists|served: Arc<CachedCanonicalPresentation>| #[trigger]
        is_served(
            served,
            kept,
            after,
            document,
            request.mode@,
            kept_view(request, document),
            shown,
        ) && if current {
            result matches Ok(window) && is_canonical_window(
                window,
                request,
                document,
                *served,
                annotations,
                highlights.0,
                highlights.1,
            )
        } else {
            result == Err::<PresentationWindow, DispatchError>(DispatchError::Cancelled)
        }
}

/// Answers a request for a window in the unified, side-by-side or full-file
/// mode. `current` says that no newer request took its place by the time that
/// the sources were highlighted.
pub fn presentation_window<D, S>(
    cache: &mut PresentationCache<D, S>,
    request: &PresentationRequest,
    document: &ReviewDiffDocument,
    state: ReviewUiState,
    documents: &Vec<ReviewDiffDocument>,
    annotations: &Vec<Annotation>,
    old_side: &HighlightResult,
    new_side: &HighlightResult,
    current: bool,
) -> (result: Result<PresentationWindow, DispatchError>)
    requires
        old(cache).wf(),
        state.wf(),
        request.mode@ != "difftastic"@,
    ensures
        final(cache).wf(),
        final(cache).documents == old(cache).documents,
        final(cache).structural == old(cache).structural,
        final(cache).verified_sidecars == old(cache).verified_sidecars,
        match request_problem(*request) {
            Some(text) => result matches Err(error) && error.is_invalid(text)
                && final(cache).canonical@ == old(cache).canonical@,
            None => match ephemeral_problem(*request, documents@) {
                Some(text) => result matches Err(error) && error.is_invalid(text)
                    && final(cache).canonical@ == old(cache).canonical@,
                None => exists|shown: ReviewUiState|
                    shown.wf() && shown@ == with_ephemeral(state@, *request)
                        && #[trigger] is_window_answer(
                        result,
                        old(cache).canonical@,
                        final(cache).canonical@,
                        *request,
                        *document,
                        shown,
                        annotations@,
                        (*old_side, *new_side),
                        current,
                    ),
            },
        },
        result is Ok ==> result->Ok_0.rows@.len() <= crate::presentation::MAX_WINDOW_ROWS,
{
    let target = match check_presentation_request(request) {
        Ok(target) => target,
        Err(error) => {
            return Err(error);
        },
    };
    let shown = match ephemeral_state(state, request, documents) {
        Ok(shown) => shown,
        Err(error) => {
            return Err(error);
        },
    };
    let view = if text_eq(request.mode.as_str(), "full") {
        effective_view(document, target.view)
    } else {
        target.view
    };
    let ghost highlights = (*old_side, *new_side);
    let answer = match cache.cached_canonical_rows(document, request.mode.as_str(), view, &shown) {
        Ok(served) => {
            assert(is_served(
                served,
                old(cache).canonical@,
                cache.canonical@,
                *document,
                request.mode@,
                kept_view(*request, *document),
                shown,
            ));
            if current {
                Ok(
                    canonical_window(request, document, &served, annotations, old_side, new_side),
                )
            } else {
                Err(DispatchError::Cancelled)
            }
        },
        Err(error) => Err(error),
    };
    assert(is_window_answer(
        answer,
        old(cache).canonical@,
        cache.canonical@,
        *request,
        *document,
        shown,
        annotations@,
        highlights,
        current,
    ));
    answer
}

/// Answers a request for a structural diff with canonical rows, and says why.
pub fn show_fallback<D, S>(
    cache: &mut PresentationCache<D, S>,
    request: &PresentationRequest,
    requested: FullFileView,
    document: &ReviewDiffDocument,
    shown: &ReviewUiState,
    annotations: &Vec<Annotation>,
    detail: &str,
) -> (result: Result<PresentationWindow, DispatchError>)
    requires
        old(cache).wf(),
    ensures
        final(cache).wf(),
        final(cache).documents == old(cache).documents,
        final(cache).structural == old(cache).structural,
        final(cache).verified_sidecars == old(cache).verified_sidecars,
        result matches Ok(window) && exists|served: Arc<CachedCanonicalPresentation>| #[trigger]
            is_served(
                served,
                old(cache).canonical@,
                final(cache).canonical@,
                *document,
                "unified"@,
                stand_in_view(requested),
                *shown,
            ) && is_fallback_window(
                window,
                *request,
                *document,
                *served,
                annotations@,
                detail@,
            ),
{
    match cache.cached_canonical_rows(document, "unified", fallback_view(requested), shown) {
        Ok(served) => {
            assert(is_served(
                served,
                old(cache).canonical@,
                cache.canonical@,
                *document,
                "unified"@,
                stand_in_view(requested),
                *shown,
            ));
            Ok(fallback_window(request, document, &served, annotations, detail))
        },
        Err(error) => Err(error),
    }
}

/// The view of one side.
pub open spec fn side_view(side: DiffSide) -> FullFileView {
    match side {
        DiffSide::Old => FullFileView::Old,
        DiffSide::New => FullFileView::New,
    }
}

/// Whether an answer says where a line is in the hunks of a document.
pub open spec fn is_hunk_answer(
    result: Result<PresentationLocation, DispatchError>,
    kept: Kept,
    after: Kept,
    document: ReviewDiffDocument,
    state: ReviewUiState,
    mode: Seq<char>,
    side: DiffSide,
    line: u32,
) -> bool {
    result matches Ok(location) && exists|served: Arc<CachedCanonicalPresentation>| #[trigger]
        is_served(served, kept, after, document, mode, side_view(side), state)
            && is_nearest_location(location, row_lines(served.rows@, side), side, line)
}

fn hunk_location<D, S>(
    cache: &mut PresentationCache<D, S>,
    document: &ReviewDiffDocument,
    state: &ReviewUiState,
    mode: &str,
    side: DiffSide,
    line: u32,
) -> (result: Result<PresentationLocation, DispatchError>)
    requires
        old(cache).wf(),
        mode@ == "unified"@ || mode@ == "split"@,
    ensures
        final(cache).wf(),
        final(cache).documents == old(cache).documents,
        final(cache).structural == old(cache).structural,
        final(cache).verified_sidecars == old(cache).verified_sidecars,
        is_hunk_answer(
            result,
            old(cache).canonical@,
            final(cache).canonical@,
            *document,
            *state,
            mode@,
            side,
            line,
        ),
{
    let view = match side {
        DiffSide::Old => FullFileView::Old,
        DiffSide::New => FullFileView::New,
    };
    match cache.cached_canonical_rows(document, mode, view, state) {
        Ok(served) => {
            assert(is_served(
                served,
                old(cache).canonical@,
                cache.canonical@,
                *document,
                mode@,
                side_view(side),
                *state,
            ));
            Ok(hunk_row_location(&served, side, line))
        },
        Err(error) => Err(error),
    }
}

/// Whether an answer says where a line is in the complete presentation of a
/// document, or why it is nowhere. `structural` is the structural diff, if
/// there is one.
pub open spec fn is_location_answer(
    result: Result<PresentationLocation, DispatchError>,
    kept: Kept,
    after: Kept,
    document: ReviewDiffDocument,
    state: ReviewUiState,
    structural: Option<Arc<DifftasticPresentation>>,
    mode: Seq<char>,
    side: DiffSide,
    line: u32,
) -> bool {
    if line == 0 {
        &&& result matches Err(error) && error.is_invalid("source line must be positive"@)
        &&& after == kept
    } else if !is_diff_mode(mode) {
        &&& result matches Err(error) && error.is_invalid("unsupported diff mode"@)
        &&& after == kept
    } else if line > side_source(document, side).line_count {
        &&& result matches Err(error) && error.is_invalid(
            "source line is outside the captured snapshot"@,
        )
        &&& after == kept
    } else if mode == "full"@ {
        &&& is_full_file_answer(result, document, state, side, line)
        &&& after == kept
    } else if mode == "difftastic"@ {
        match structural {
            Some(diff) => {
                &&& result matches Ok(location) && is_nearest_location(
                    location,
                    aligned_lines(diff.alignment@, side),
                    side,
                    line,
                )
                &&& after == kept
            },
            None => is_hunk_answer(result, kept, after, document, state, "unified"@, side, line),
        }
    } else {
        is_hunk_answer(result, kept, after, document, state, mode, side, line)
    }
}

/// Finds a line in the complete presentation of a document, whatever part of
/// it is shown. Where there is no structural diff, the canonical rows that
/// stand in for it are searched.
pub fn resolve_presentation_location<D, S>(
    cache: &mut PresentationCache<D, S>,
    document: &ReviewDiffDocument,
    state: &ReviewUiState,
    structural: Option<Arc<DifftasticPresentation>>,
    mode: &str,
    side: DiffSide,
    line: u32,
) -> (result: Result<PresentationLocation, DispatchError>)
    requires
        old(cache).wf(),
    ensures
        final(cache).wf(),
        final(cache).documents == old(cache).documents,
        final(cache).structural == old(cache).structural,
        final(cache).verified_sidecars == old(cache).verified_sidecars,
        is_location_answer(
            result,
            old(cache).canonical@,
            final(cache).canonical@,
            *document,
            *state,
            structural,
            mode@,
            side,
            line,
        ),
{
    if line == 0 {
        return Err(invalid("source line must be positive"));
    }
    match validate_diff_mode(mode) {
        Ok(_) => {},
        Err(error) => {
            return Err(error);
        },
    }
    match check_source_line(document, side, line) {
        Ok(_) => {},
        Err(error) => {
            return Err(error);
        },
    }
    if text_eq(mode, "full") {
        return full_file_location(document, state, side, line);
    }
    if !text_eq(mode, "difftastic") {
        return hunk_location(cache, document, state, mode, side, line);
    }
    match structural {
        Some(diff) => {
            let index: usize = nearest_difftastic_row(&diff, side, line);
            Ok(
                PresentationLocation {
                    row_index: to_row_number(index),
                    side: side_name(side).to_owned(),
                    line,
                },
            )
        },
        None => hunk_location(cache, document, state, "unified", side, line),
    }
}

} // verus!
