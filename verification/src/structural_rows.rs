//! What is shown of a structural diff, and what stands in for one.
use crate::annotations::Annotation;
use crate::difftastic::{
    aligned_lines, difftastic_file_status, difftastic_view, fallback_view, fallback_window,
    flattened, nearest_difftastic_row, next_structural_step, part, rows_fit, shown_cell,
    shown_spans, shown_structural_row, span_models, structural_models, structural_row_count,
    structural_window, DifftasticCell, DifftasticChunk, DifftasticDisplay, DifftasticFileStatus,
    DifftasticPresentation, DifftasticRow, DifftasticSpan, StructuralEvent, StructuralStep,
};
use crate::document::{DiffSide, ReviewDiffDocument, ReviewFileStatus};
use crate::full_file::FullFileView;
use crate::presentation::{
    window_end, window_start, CachedCanonicalPresentation, PresentationRequest, MAX_WINDOW_ROWS,
};
use crate::rows::{distances_to, nearest_canonical_row, row_lines, row_models};
use crate::source_lines::utf16_index;
use crate::views::{
    DiffRowView, DifftasticCellView, DifftasticFallbackView, DifftasticPresentationView,
    DifftasticRowView, PresentationWindow,
};
use vstd::prelude::*;
use vstd::string::*;

verus! {

/// How many rows the first chunks have.
pub open spec fn rows_before(chunks: Seq<DifftasticChunk>, count: nat) -> nat
    decreases count,
{
    if count == 0 {
        0
    } else {
        rows_before(chunks, (count - 1) as nat) + chunks[count - 1].rows@.len()
    }
}

proof fn lemma_rows_of_head(chunks: Seq<DifftasticChunk>, count: nat)
    requires
        count < chunks.len(),
    ensures
        rows_before(chunks.drop_last(), count) == rows_before(chunks, count),
    decreases count,
{
    if count > 0 {
        lemma_rows_of_head(chunks, (count - 1) as nat);
        assert(chunks.drop_last()[count - 1] == chunks[count - 1]);
    }
}

proof fn lemma_flattened_count(chunks: Seq<DifftasticChunk>)
    ensures
        flattened(chunks).len() == rows_before(chunks, chunks.len()),
    decreases chunks.len(),
{
    if chunks.len() > 0 {
        lemma_flattened_count(chunks.drop_last());
        lemma_rows_of_head(chunks, (chunks.len() - 1) as nat);
    }
}

proof fn lemma_flattened_row(chunks: Seq<DifftasticChunk>, chunk: int, row: int)
    requires
        0 <= chunk < chunks.len(),
        0 <= row < chunks[chunk].rows@.len(),
    ensures
        rows_before(chunks, chunk as nat) + row < flattened(chunks).len(),
        flattened(chunks)[rows_before(chunks, chunk as nat) + row] == chunks[chunk].rows@[row],
    decreases chunks.len(),
{
    let before = chunks.drop_last();
    let last = chunks.len() - 1;
    lemma_flattened_count(before);
    lemma_rows_of_head(chunks, chunk as nat);
    lemma_rows_of_head(chunks, last as nat);
    if chunk < last {
        assert(before[chunk] == chunks[chunk]);
        lemma_flattened_row(before, chunk, row);
    }
}

/// Whether a cell is shown: its line and its text.
pub open spec fn cell_is_shown(view: Option<DifftasticCellView>, cell: Option<DifftasticCell>) -> bool {
    match cell {
        Some(computed) => view matches Some(shown) && shown.line_number == computed.line_number
            && shown.text@ == computed.text@,
        None => view is None,
    }
}

/// A view shows every row of the structural diff from its start to its end, in
/// the order of the chunks: on each side the line with its number and its text.
pub proof fn law_structural_rows_are_shown(
    presentation: DifftasticPresentation,
    start: usize,
    end: usize,
    fallback: Option<DifftasticFallbackView>,
    view: DifftasticPresentationView,
    chunk: int,
    row: int,
)
    requires
        rows_fit(presentation),
        call_ensures(difftastic_view, (&presentation, start, end, fallback), view),
        0 <= chunk < presentation.chunks@.len(),
        0 <= row < presentation.chunks@[chunk].rows@.len(),
        start <= rows_before(presentation.chunks@, chunk as nat) + row < end,
    ensures
        view.chunks@.len() == 1,
        ({
            let place = rows_before(presentation.chunks@, chunk as nat) + row - start;
            let computed = presentation.chunks@[chunk].rows@[row];
            &&& place < view.chunks@[0].rows@.len()
            &&& cell_is_shown(view.chunks@[0].rows@[place].old, computed.old)
            &&& cell_is_shown(view.chunks@[0].rows@[place].new, computed.new)
        }),
{
    let all = flattened(presentation.chunks@);
    lemma_flattened_row(presentation.chunks@, chunk, row);
    let place = rows_before(presentation.chunks@, chunk as nat) + row - start;
    let rows = part(all, start as int, end as int);
    assert(rows.len() > place);
    assert(rows[place] == presentation.chunks@[chunk].rows@[row]);
    let shown = structural_models(view.chunks@[0].rows@);
    assert(shown.len() == view.chunks@[0].rows@.len());
    assert(shown[place] == view.chunks@[0].rows@[place]@);
    assert(shown[place] == shown_structural_row(rows[place]));
}

/// A view tells how many rows there are in all and where it starts, and holds
/// no more rows than lie between its start and its end.
pub proof fn law_structural_views_keep_to_their_range(
    presentation: DifftasticPresentation,
    start: usize,
    end: usize,
    fallback: Option<DifftasticFallbackView>,
    view: DifftasticPresentationView,
    count: usize,
)
    requires
        rows_fit(presentation),
        call_ensures(difftastic_view, (&presentation, start, end, fallback), view),
        call_ensures(structural_row_count, (&presentation,), count),
        count <= u32::MAX,
        start <= u32::MAX,
    ensures
        count == rows_before(presentation.chunks@, presentation.chunks@.len()),
        view.total_rows == count,
        view.start_row == start,
        view.fallback == fallback,
        start >= end || start >= count ==> view.chunks@.len() == 0,
        start < end && start < count ==> view.chunks@.len() == 1 && view.chunks@[0].rows@.len() == (
        if end <= count {
            end - start
        } else {
            count - start
        }),
{
    lemma_flattened_count(presentation.chunks@);
    let rows = part(
        flattened(presentation.chunks@),
        start as int,
        end as int,
    );
    if start < end && start < count {
        let shown = structural_models(view.chunks@[0].rows@);
        assert(shown.len() == view.chunks@[0].rows@.len());
        assert(rows.len() == shown.len());
    }
}

/// The lines that stand next to each other are told pair by pair.
pub proof fn law_pairs_of_lines_are_told(
    presentation: DifftasticPresentation,
    start: usize,
    end: usize,
    fallback: Option<DifftasticFallbackView>,
    view: DifftasticPresentationView,
    pair: int,
)
    requires
        rows_fit(presentation),
        call_ensures(difftastic_view, (&presentation, start, end, fallback), view),
        start <= pair < end,
        pair < presentation.alignment@.len(),
    ensures
        pair - start < view.alignment@.len(),
        view.alignment@[pair - start].old_line == presentation.alignment@[pair].old_line_number,
        view.alignment@[pair - start].new_line == presentation.alignment@[pair].new_line_number,
{
    let pairs = part(presentation.alignment@, start as int, end as int);
    assert(pairs[pair - start] == presentation.alignment@[pair]);
}

proof fn lemma_shown_spans(text: Seq<char>, spans: Seq<DifftasticSpan>)
    requires
        forall|i: int|
            0 <= i < spans.len() ==> span_fits(text, #[trigger] spans[i]),
    ensures
        shown_spans(text, spans).len() == spans.len(),
        forall|i: int|
            0 <= i < spans.len() ==> Some((#[trigger] shown_spans(text, spans)[i]).start)
                == utf16_index(text, spans[i].start_byte) && Some(shown_spans(text, spans)[i].end)
                == utf16_index(text, spans[i].end_byte),
    decreases spans.len(),
{
    if spans.len() > 0 {
        let before = spans.drop_last();
        assert forall|i: int| 0 <= i < before.len() implies span_fits(text, #[trigger] before[i]) by {
            assert(before[i] == spans[i]);
        }
        lemma_shown_spans(text, before);
        assert(span_fits(text, spans[spans.len() - 1]));
        assert forall|i: int| 0 <= i < spans.len() implies Some(
            (#[trigger] shown_spans(text, spans)[i]).start,
        ) == utf16_index(text, spans[i].start_byte) && Some(shown_spans(text, spans)[i].end)
            == utf16_index(text, spans[i].end_byte) by {
            if i < before.len() {
                assert(shown_spans(text, spans)[i] == shown_spans(text, before)[i]);
                assert(before[i] == spans[i]);
            }
        }
    }
}

/// Whether a span covers characters of a text.
pub open spec fn span_fits(text: Seq<char>, span: DifftasticSpan) -> bool {
    &&& utf16_index(text, span.start_byte) is Some
    &&& utf16_index(text, span.end_byte) is Some
    &&& utf16_index(text, span.start_byte)->0 < utf16_index(text, span.end_byte)->0
}

/// The spans that changed are shown one for one, each from where it starts to
/// where it ends, as long as they cover characters of the line.
pub proof fn law_changed_spans_are_shown(
    presentation: DifftasticPresentation,
    start: usize,
    end: usize,
    fallback: Option<DifftasticFallbackView>,
    view: DifftasticPresentationView,
    chunk: int,
    row: int,
    side: DiffSide,
)
    requires
        rows_fit(presentation),
        call_ensures(difftastic_view, (&presentation, start, end, fallback), view),
        0 <= chunk < presentation.chunks@.len(),
        0 <= row < presentation.chunks@[chunk].rows@.len(),
        start <= rows_before(presentation.chunks@, chunk as nat) + row < end,
        cell_on(presentation.chunks@[chunk].rows@[row], side) matches Some(cell) && forall|i: int|
            0 <= i < cell.changed_spans@.len() ==> span_fits(
                cell.text@,
                #[trigger] cell.changed_spans@[i],
            ),
    ensures
        ({
            let place = rows_before(presentation.chunks@, chunk as nat) + row - start;
            let cell = cell_on(presentation.chunks@[chunk].rows@[row], side)->0;
            shown_cell_on(view.chunks@[0].rows@[place], side) matches Some(shown) && {
                &&& shown.changed_spans@.len() == cell.changed_spans@.len()
                &&& forall|i: int|
                    0 <= i < shown.changed_spans@.len() ==> Some(
                        (#[trigger] shown.changed_spans@[i]).start,
                    ) == utf16_index(cell.text@, cell.changed_spans@[i].start_byte) && Some(
                        shown.changed_spans@[i].end,
                    ) == utf16_index(cell.text@, cell.changed_spans@[i].end_byte)
            }
        }),
{
    let all = flattened(presentation.chunks@);
    lemma_flattened_row(presentation.chunks@, chunk, row);
    let place = rows_before(presentation.chunks@, chunk as nat) + row - start;
    let rows = part(all, start as int, end as int);
    assert(rows[place] == presentation.chunks@[chunk].rows@[row]);
    let models = structural_models(view.chunks@[0].rows@);
    assert(models.len() == view.chunks@[0].rows@.len());
    assert(models[place] == view.chunks@[0].rows@[place]@);
    assert(models[place] == shown_structural_row(rows[place]));
    let cell = cell_on(presentation.chunks@[chunk].rows@[row], side)->0;
    lemma_shown_spans(cell.text@, cell.changed_spans@);
    let shown = shown_cell_on(view.chunks@[0].rows@[place], side)->0;
    assert(shown@ == shown_cell(cell));
    let spans = span_models(shown.changed_spans@);
    assert(spans == shown_spans(cell.text@, cell.changed_spans@));
    assert(spans.len() == shown.changed_spans@.len());
    assert forall|i: int| 0 <= i < shown.changed_spans@.len() implies Some(
        (#[trigger] shown.changed_spans@[i]).start,
    ) == utf16_index(cell.text@, cell.changed_spans@[i].start_byte) && Some(
        shown.changed_spans@[i].end,
    ) == utf16_index(cell.text@, cell.changed_spans@[i].end_byte) by {
        assert(spans[i] == shown.changed_spans@[i]@);
        assert(shown_spans(cell.text@, cell.changed_spans@)[i].start == spans[i].start);
    }
}

/// The cell of a computed row on a side.
pub open spec fn cell_on(row: DifftasticRow, side: DiffSide) -> Option<DifftasticCell> {
    match side {
        DiffSide::Old => row.old,
        DiffSide::New => row.new,
    }
}

/// The cell of a shown row on a side.
pub open spec fn shown_cell_on(row: DifftasticRowView, side: DiffSide) -> Option<
    DifftasticCellView,
> {
    match side {
        DiffSide::Old => row.old,
        DiffSide::New => row.new,
    }
}

/// How far a line is from another.
pub open spec fn apart(a: u32, b: u32) -> int {
    if a <= b {
        b - a
    } else {
        a - b
    }
}

/// The pair that stands for a line of a side is one that holds the line where
/// there is one; otherwise none with a line on that side is nearer, and of two
/// that are equally near it is the earlier.
pub proof fn law_nearest_pairs_are_found(
    presentation: DifftasticPresentation,
    side: DiffSide,
    line: u32,
    index: usize,
    other: int,
)
    requires
        call_ensures(nearest_difftastic_row, (&presentation, side, line), index),
        0 <= other < presentation.alignment@.len(),
        line_of_pair(presentation, side, other) is Some,
    ensures
        index < presentation.alignment@.len(),
        line_of_pair(presentation, side, index as int) is Some,
        apart(line_of_pair(presentation, side, index as int)->0, line) <= apart(
            line_of_pair(presentation, side, other)->0,
            line,
        ),
        other < index ==> apart(line_of_pair(presentation, side, index as int)->0, line) < apart(
            line_of_pair(presentation, side, other)->0,
            line,
        ),
{
    let distances = distances_to(aligned_lines(presentation.alignment@, side), line);
    assert(distances[other] is Some);
    assert(distances[index as int] is Some);
}

/// The line of a pair on a side.
pub open spec fn line_of_pair(
    presentation: DifftasticPresentation,
    side: DiffSide,
    pair: int,
) -> Option<u32> {
    match side {
        DiffSide::Old => presentation.alignment@[pair].old_line_number,
        DiffSide::New => presentation.alignment@[pair].new_line_number,
    }
}

/// The line that a row shows on a side.
pub open spec fn line_of_row(rows: Seq<DiffRowView>, side: DiffSide, row: int) -> Option<u32> {
    match side {
        DiffSide::Old => rows[row].old_line,
        DiffSide::New => rows[row].new_line,
    }
}

/// The row that stands for a line of a side is one that shows the line where
/// there is one; otherwise none that shows a line of that side is nearer, and
/// of two that are equally near it is the earlier.
pub proof fn law_nearest_rows_are_found(
    rows: Vec<DiffRowView>,
    side: DiffSide,
    line: u32,
    index: usize,
    other: int,
)
    requires
        call_ensures(nearest_canonical_row, (&rows, side, line), index),
        0 <= other < rows@.len(),
        line_of_row(rows@, side, other) is Some,
    ensures
        index < rows@.len(),
        line_of_row(rows@, side, index as int) is Some,
        apart(line_of_row(rows@, side, index as int)->0, line) <= apart(
            line_of_row(rows@, side, other)->0,
            line,
        ),
        other < index ==> apart(line_of_row(rows@, side, index as int)->0, line) < apart(
            line_of_row(rows@, side, other)->0,
            line,
        ),
{
    let distances = distances_to(row_lines(rows@, side), line);
    assert(distances[other] is Some);
    assert(distances[index as int] is Some);
}

/// A window on a structural diff shows it from the row that was asked for, as
/// a view of the same range does.
pub proof fn law_structural_windows_show_the_rows_asked_for(
    request: PresentationRequest,
    presentation: DifftasticPresentation,
    window: PresentationWindow,
    chunk: int,
    row: int,
)
    requires
        rows_fit(presentation),
        call_ensures(structural_window, (&request, &presentation), window),
        flattened(presentation.chunks@).len() <= u32::MAX,
        0 <= chunk < presentation.chunks@.len(),
        0 <= row < presentation.chunks@[chunk].rows@.len(),
        request.start_row <= rows_before(presentation.chunks@, chunk as nat) + row
            < request.end_row,
        rows_before(presentation.chunks@, chunk as nat) + row < request.start_row + 2048,
    ensures
        window.start_row == request.start_row,
        window.file_id@ == request.file_id@,
        window.generation == request.generation,
        window.difftastic matches Some(view) && view.fallback is None && view.chunks@.len() == 1 && {
            let place = rows_before(presentation.chunks@, chunk as nat) + row - request.start_row;
            let computed = presentation.chunks@[chunk].rows@[row];
            &&& place < view.chunks@[0].rows@.len()
            &&& cell_is_shown(view.chunks@[0].rows@[place].old, computed.old)
            &&& cell_is_shown(view.chunks@[0].rows@[place].new, computed.new)
        },
{
    let all = flattened(presentation.chunks@);
    let total = all.len();
    lemma_flattened_row(presentation.chunks@, chunk, row);
    let start = window_start(request, total);
    let end = window_end(
        request,
        total,
        MAX_WINDOW_ROWS as nat,
    );
    let at = rows_before(presentation.chunks@, chunk as nat) + row;
    assert(start == request.start_row);
    assert(start <= at < end);
    let place = at - request.start_row;
    let rows = part(all, start, end);
    assert(rows[place] == presentation.chunks@[chunk].rows@[row]);
    let view = window.difftastic->0;
    let shown = structural_models(view.chunks@[0].rows@);
    assert(shown.len() == view.chunks@[0].rows@.len());
    assert(shown[place] == view.chunks@[0].rows@[place]@);
    assert(shown[place] == shown_structural_row(rows[place]));
}

/// Where canonical rows stand in for a structural diff, they are those from the
/// row that was asked for, with their lines and texts; the reason is told, as
/// far as there is room, and what became of the file.
pub proof fn law_stand_in_rows_are_the_canonical_ones(
    request: PresentationRequest,
    document: ReviewDiffDocument,
    canonical: CachedCanonicalPresentation,
    annotations: Vec<Annotation>,
    detail: &str,
    window: PresentationWindow,
    row: int,
)
    requires
        call_ensures(
            fallback_window,
            (&request, &document, &canonical, &annotations, detail),
            window,
        ),
        canonical.rows@.len() <= u32::MAX,
        request.start_row <= row < request.end_row,
        row < canonical.rows@.len(),
        row < request.start_row + 2048,
    ensures
        row - request.start_row < window.rows@.len(),
        ({
            let shown = window.rows@[row - request.start_row]@;
            let own = canonical.rows@[row]@;
            &&& shown.kind == own.kind
            &&& shown.old_line == own.old_line && shown.new_line == own.new_line
            &&& shown.old_text == own.old_text && shown.new_text == own.new_text
            &&& shown.hunk_id == own.hunk_id
        }),
        window.hunks@ == canonical.hunks@,
        window.total_rows == canonical.rows@.len(),
        window.difftastic matches Some(view) && view.chunks@.len() == 0 && (
        view.fallback matches Some(fallback) && fallback.detail is Some && (detail@.len() <= 1000
            ==> fallback.detail->0@ == detail@)),
{
    let models = row_models(window.rows@);
    assert(models.len() == window.rows@.len());
    assert(models[row - request.start_row] == window.rows@[row - request.start_row]@);
    assert(row_models(canonical.rows@)[row] == canonical.rows@[row]@);
}

/// A file is told as created just where it was added, as deleted just where it
/// was deleted, and else as changed.
pub proof fn law_stand_in_states_tell_what_became_of_the_file(
    document: ReviewDiffDocument,
    name: &'static str,
)
    requires
        call_ensures(difftastic_file_status, (&document,), name),
    ensures
        name@ == "created"@ <==> document.file.status == ReviewFileStatus::Added,
        name@ == "deleted"@ <==> document.file.status == ReviewFileStatus::Deleted,
        name@ == "created"@ || name@ == "deleted"@ || name@ == "changed"@,
{
    reveal_strlit("created");
    reveal_strlit("deleted");
    reveal_strlit("changed");
    assert("created"@[0] == 'c' && "created"@[1] == 'r');
    assert("deleted"@[0] == 'd');
    assert("changed"@[0] == 'c' && "changed"@[1] == 'h');
}

/// What became of the file, and how the diff is meant to be shown, is told by
/// name.
pub proof fn law_structural_states_are_told(
    presentation: DifftasticPresentation,
    start: usize,
    end: usize,
    fallback: Option<DifftasticFallbackView>,
    view: DifftasticPresentationView,
)
    requires
        rows_fit(presentation),
        call_ensures(difftastic_view, (&presentation, start, end, fallback), view),
    ensures
        presentation.status == DifftasticFileStatus::Unchanged ==> view.status@ == "unchanged"@,
        presentation.status == DifftasticFileStatus::Changed ==> view.status@ == "changed"@,
        presentation.status == DifftasticFileStatus::Created ==> view.status@ == "created"@,
        presentation.status == DifftasticFileStatus::Deleted ==> view.status@ == "deleted"@,
        presentation.display == DifftasticDisplay::Inline ==> view.display@ == "inline"@,
        presentation.display == DifftasticDisplay::SideBySide ==> view.display@
            == "side_by_side"@,
{
}

/// The old file stands in for itself, the new one for every other view.
pub proof fn law_stand_in_views_keep_the_old_side(requested: FullFileView, view: FullFileView)
    requires
        call_ensures(fallback_view, (requested,), view),
    ensures
        view == FullFileView::Old <==> requested == FullFileView::Old,
        view == FullFileView::New <==> requested != FullFileView::Old,
{
}

/// A structural diff is shown just where one is kept or was computed for a
/// request that is still the current one. The program's version is asked before
/// it first computes, and without the program canonical rows are shown.
pub proof fn law_structural_diffs_are_shown_to_current_requests(
    event: StructuralEvent,
    cancelled: bool,
    current: bool,
    step: StructuralStep,
)
    requires
        call_ensures(next_structural_step, (event, cancelled, current), step),
    ensures
        step == StructuralStep::ShowStructural <==> (event == StructuralEvent::Cached || event
            == StructuralEvent::Rendered) && !cancelled && current,
        step == StructuralStep::VerifyVersion <==> event == (StructuralEvent::PermitGranted {
            verified: false,
        }),
        step == StructuralStep::Render <==> event == (StructuralEvent::PermitGranted {
            verified: true,
        }),
        step == StructuralStep::RememberAndRender <==> event == StructuralEvent::VersionConfirmed,
        step == StructuralStep::ShowFallback <==> event == StructuralEvent::SidecarUnavailable || (
        !cancelled && (event == StructuralEvent::VersionRefused || event
            == StructuralEvent::RenderFellBack)),
        step == StructuralStep::LookUp <==> event == StructuralEvent::Requested && !cancelled,
        step == StructuralStep::LocateSidecar <==> event == StructuralEvent::NotCached,
        step == StructuralStep::TakePermit <==> event == StructuralEvent::SidecarReady,
{
}

} // verus!
