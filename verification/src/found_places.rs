//! Where lines, folds and hunks are found in what is shown.
use crate::annotations::Annotation;
use crate::canonical::{clamp_context, hunk_location_model, lines_of, new_lines_of, old_lines_of};
use crate::document::{
    format_hunk_header, DiffLineKind, DiffSide, FullFileRow, ReviewDiffDocument, ReviewHunk,
    UnifiedRow,
};
use crate::errors::DispatchError;
use crate::full_file::{
    block_at, block_ids, block_models, blocks_from, changed_news, changed_olds, first_change,
    full_file_hunk_locations, full_file_omitted_block_views, full_file_omitted_blocks, gate_holds,
    has_line, hunk_target, is_block_of, is_block_view, is_exact_row, is_full_file_location,
    is_nearest_row, is_omitted, law_nearest_full_file_row_is_unique, nearest_full_file_row,
    omitted_blocks, projected_distances, projected_models, projected_row_model, run_end, shows_line,
    valid_full_file_deletion_block_ids, FullFileOmittedBlock, FullFileProjectedRow, FullFileView,
    ProjectedModel,
};
use crate::ids::id_chars;
use crate::line_texts::{joined, law_text_from_an_offset_begins_with_its_line};
use crate::patch_lines::lemma_lines_between;
use crate::presentation::{
    captured_source_range, document_rows, full_file_location, full_file_models,
    full_file_row_models, hunk_row_location, is_canonical, is_full_file_target, listed_hunk,
    listed_hunks, requested_view, shown_view, CachedCanonicalPresentation,
};
use crate::rows::{
    distances_to, hunk_models, is_nearest, law_nearest_is_unique, nearest_canonical_row, row_lines,
    row_models,
};
use crate::shown_hunks::{
    lemma_first_some, lemma_hunk_modes_are_not_full, lemma_requested, line_begins_at, shows_hunks,
};
use crate::source_lines::{as_offsets, line_starts, lines_inclusive};
use crate::structural_rows::apart;
use crate::text::{decimal, row_number};
use crate::text_set::TextSet;
use crate::ui_state::{ReviewUiState, UiStateModel};
use crate::views::{
    CapturedSourceRange, DiffRowView, FullFileOmittedBlockView, HunkLocationView,
    PresentationLocation,
};
use vstd::prelude::*;
use vstd::string::*;
use vstd::utf8::*;

verus! {

/// Whether a row shows a line of a side.
pub open spec fn row_shows(row: FullFileProjectedRow, side: DiffSide, line: u32) -> bool {
    row matches FullFileProjectedRow::Line(shown) && shown.side == side && shown.line_number
        == line
}

/// Whether a row is the fold marker of rows of a side, from a line up to the
/// line of its last row, that a line lies among.
pub open spec fn row_folds(row: FullFileProjectedRow, side: DiffSide, line: u32) -> bool {
    row matches FullFileProjectedRow::OmittedGate(block, _) && block.side == side
        && block.rows@.len() > 0 && block.rows@[0].line_number <= line
        <= block.rows@.last().line_number
}

/// A line of a side is found at the first row that shows it, and where none
/// does, at the first fold that it lies behind.
pub proof fn law_lines_are_found_where_they_are_shown(
    rows: Vec<FullFileProjectedRow>,
    side: DiffSide,
    line: u32,
    index: usize,
    other: int,
)
    requires
        call_ensures(nearest_full_file_row, (&rows, side, line), index),
        line > 0,
        0 <= other < rows@.len(),
    ensures
        row_shows(rows@[other], side, line) ==> index <= other && row_shows(
            rows@[index as int],
            side,
            line,
        ),
        row_folds(rows@[other], side, line) ==> index < rows@.len() && (row_shows(
            rows@[index as int],
            side,
            line,
        ) || (index <= other && row_folds(rows@[index as int], side, line))),
{
    let models = projected_models(rows@);
    assert(models[other] == rows@[other]@);
    if row_shows(rows@[other], side, line) {
        assert(shows_line(models[other], side, line));
        assert(has_line(models, side, line));
        assert(models[index as int] == rows@[index as int]@);
    }
    if row_folds(rows@[other], side, line) {
        assert(gate_holds(models[other], side, line));
        assert(has_line(models, side, line));
        assert(models[index as int] == rows@[index as int]@);
    }
}

/// Where a line of a side is neither shown nor folded, no row that shows a line
/// of that side is nearer than the one that is found.
pub proof fn law_other_lines_are_found_nearby(
    rows: Vec<FullFileProjectedRow>,
    side: DiffSide,
    line: u32,
    index: usize,
    other: int,
)
    requires
        call_ensures(nearest_full_file_row, (&rows, side, line), index),
        line > 0,
        forall|j: int|
            0 <= j < rows@.len() ==> !row_shows(#[trigger] rows@[j], side, line) && !row_folds(
                rows@[j],
                side,
                line,
            ),
        forall|j: int| 0 <= j < rows@.len() ==> #[trigger] rows@[j] is Line,
        0 <= other < rows@.len(),
        rows@[other]->Line_0.side == side,
    ensures
        index < rows@.len(),
        rows@[index as int]->Line_0.side == side,
        apart(rows@[index as int]->Line_0.line_number, line) <= apart(
            rows@[other]->Line_0.line_number,
            line,
        ),
        other < index ==> apart(rows@[index as int]->Line_0.line_number, line) < apart(
            rows@[other]->Line_0.line_number,
            line,
        ),
{
    let models = projected_models(rows@);
    assert forall|j: int| 0 <= j < models.len() implies !shows_line(
        #[trigger] models[j],
        side,
        line,
    ) && !gate_holds(models[j], side, line) by {
        assert(models[j] == rows@[j]@);
        assert(!row_shows(rows@[j], side, line));
        assert(rows@[j] is Line);
    }
    assert(!has_line(models, side, line));
    let distances = projected_distances(models, side, line);
    assert(models[other] == rows@[other]@);
    assert(rows@[other] is Line);
    assert(distances[other] is Some);
    assert(models[index as int] == rows@[index as int]@);
    assert(rows@[index as int] is Line);
    assert(distances[index as int] is Some);
}

/// A fold is listed with its first and last line, its side and its number of
/// lines, as open just where one of its markers is, and at the row where its
/// first line is found.
pub proof fn law_folds_are_listed_where_they_are_found(
    blocks: Vec<FullFileOmittedBlock>,
    rows: Vec<FullFileProjectedRow>,
    views: Vec<FullFileOmittedBlockView>,
    block: int,
    index: usize,
)
    requires
        call_ensures(full_file_omitted_block_views, (&blocks, &rows), views),
        0 <= block < blocks@.len(),
        blocks@[block].rows@.len() > 0,
        blocks@[block].rows@.len() <= u32::MAX,
        call_ensures(
            nearest_full_file_row,
            (&rows, blocks@[block].side, blocks@[block].rows@[0].line_number),
            index,
        ),
        index <= u32::MAX,
    ensures
        views@.len() == blocks@.len(),
        views@[block].id@ == blocks@[block].id@,
        blocks@[block].side == DiffSide::Old ==> views@[block].side@ == "old"@,
        blocks@[block].side == DiffSide::New ==> views@[block].side@ == "new"@,
        views@[block].start_line == blocks@[block].rows@[0].line_number,
        views@[block].end_line == blocks@[block].rows@.last().line_number,
        views@[block].count == blocks@[block].rows@.len(),
        views@[block].expanded <==> exists|j: int|
            0 <= j < rows@.len() && (
            #[trigger] rows@[j] matches FullFileProjectedRow::OmittedGate(gate, open) && open
                && gate.id@ == blocks@[block].id@),
        views@[block].row_index == index,
{
    let models = projected_models(rows@);
    let own = blocks@[block]@;
    assert(is_block_view(views@[block]@, own, models));
    assert(own.first_line() == blocks@[block].rows@[0].line_number);
    let found = choose|found: int| #[trigger]
        is_nearest_row(models, own.side, own.first_line(), found) && views@[block]@.row_index
            == row_number(found as nat);
    law_nearest_full_file_row_is_unique(
        models,
        own.side,
        own.first_line(),
        found,
        index as int,
    );
    assert forall|j: int| 0 <= j < rows@.len() implies models[j] == #[trigger] rows@[j]@ by {}
    if views@[block].expanded {
        let j = choose|j: int|
            0 <= j < models.len() && (#[trigger] models[j] matches ProjectedModel::Gate(
                gate,
                open,
            ) && open && gate.id == own.id);
        assert(models[j] == rows@[j]@);
        assert(rows@[j] is OmittedGate);
    }
    if exists|j: int|
        0 <= j < rows@.len() && (
        #[trigger] rows@[j] matches FullFileProjectedRow::OmittedGate(gate, open) && open
            && gate.id@ == blocks@[block].id@) {
        let j = choose|j: int|
            0 <= j < rows@.len() && (
            #[trigger] rows@[j] matches FullFileProjectedRow::OmittedGate(gate, open) && open
                && gate.id@ == blocks@[block].id@);
        assert(models[j] == rows@[j]@);
        assert(models[j] is Gate);
    }
}

proof fn lemma_first_change(rows: Seq<UnifiedRow>, row: int)
    requires
        0 <= row < rows.len(),
        rows[row].kind != DiffLineKind::Context,
        rows[row].old is Some || rows[row].new is Some,
        forall|i: int| 0 <= i < row ==> (#[trigger] rows[i]).kind == DiffLineKind::Context,
    ensures
        first_change(rows) == Some(
            if rows[row].old is Some {
                (DiffSide::Old, rows[row].old->0.line_number)
            } else {
                (DiffSide::New, rows[row].new->0.line_number)
            },
        ),
    decreases rows.len(),
{
    let before = rows.drop_last();
    if row < rows.len() - 1 {
        assert(before[row] == rows[row]);
        assert forall|i: int| 0 <= i < row implies (#[trigger] before[i]).kind
            == DiffLineKind::Context by {
            assert(before[i] == rows[i]);
        }
        lemma_first_change(before, row);
    } else {
        lemma_no_change(before);
    }
}

proof fn lemma_no_change(rows: Seq<UnifiedRow>)
    requires
        forall|i: int| 0 <= i < rows.len() ==> (#[trigger] rows[i]).kind == DiffLineKind::Context,
    ensures
        first_change(rows) is None,
    decreases rows.len(),
{
    if rows.len() > 0 {
        let before = rows.drop_last();
        assert forall|i: int| 0 <= i < before.len() implies (#[trigger] before[i]).kind
            == DiffLineKind::Context by {
            assert(before[i] == rows[i]);
        }
        lemma_no_change(before);
        assert(rows[rows.len() - 1].kind == DiffLineKind::Context);
    }
}

/// A hunk is found in the full file at its first change: at the removed line
/// where that is one, else at the added line.
pub proof fn law_hunks_are_found_at_their_first_change(
    document: ReviewDiffDocument,
    side: DiffSide,
    rows: Vec<FullFileProjectedRow>,
    locations: Vec<HunkLocationView>,
    hunk: int,
    row: int,
    index: usize,
)
    requires
        call_ensures(full_file_hunk_locations, (&document, side, &rows), locations),
        0 <= hunk < document.hunks@.len(),
        0 <= row < document.hunks@[hunk].unified_rows@.len(),
        document.hunks@[hunk].unified_rows@[row].kind != DiffLineKind::Context,
        document.hunks@[hunk].unified_rows@[row].old is Some
            || document.hunks@[hunk].unified_rows@[row].new is Some,
        forall|i: int|
            0 <= i < row ==> (#[trigger] document.hunks@[hunk].unified_rows@[i]).kind
                == DiffLineKind::Context,
        call_ensures(
            nearest_full_file_row,
            (
                &rows,
                if document.hunks@[hunk].unified_rows@[row].old is Some {
                    DiffSide::Old
                } else {
                    DiffSide::New
                },
                if document.hunks@[hunk].unified_rows@[row].old is Some {
                    document.hunks@[hunk].unified_rows@[row].old->0.line_number
                } else {
                    document.hunks@[hunk].unified_rows@[row].new->0.line_number
                },
            ),
            index,
        ),
        index <= u32::MAX,
    ensures
        locations@.len() == document.hunks@.len(),
        locations@[hunk].id@ == document.hunks@[hunk].id@,
        locations@[hunk].row_index == index,
        document.hunks@[hunk].unified_rows@[row].old matches Some(cell)
            ==> locations@[hunk].old_line == Some(cell.line_number),
        document.hunks@[hunk].unified_rows@[row].new matches Some(cell)
            ==> locations@[hunk].new_line == Some(cell.line_number),
{
    let models = projected_models(rows@);
    let own = document.hunks@[hunk];
    lemma_first_change(own.unified_rows@, row);
    assert(is_full_file_location(locations@[hunk]@, own, side, models));
    let target = hunk_target(own, side);
    let found = choose|found: int| #[trigger]
        is_nearest_row(models, target.0, target.1, found) && locations@[hunk]@.row_index
            == row_number(found as nat);
    law_nearest_full_file_row_is_unique(models, target.0, target.1, found, index as int);
    let olds = changed_olds(own.unified_rows@);
    let news = changed_news(own.unified_rows@);
    assert forall|j: int| 0 <= j < row implies (#[trigger] olds[j]) is None by {
        assert(own.unified_rows@[j].kind == DiffLineKind::Context);
    }
    assert forall|j: int| 0 <= j < row implies (#[trigger] news[j]) is None by {
        assert(own.unified_rows@[j].kind == DiffLineKind::Context);
    }
    if own.unified_rows@[row].old is Some {
        lemma_first_some(olds, row);
    }
    if own.unified_rows@[row].new is Some {
        lemma_first_some(news, row);
    }
}

/// The line that a row of a presentation shows on a side, if it is no fold
/// marker.
pub open spec fn line_shown(row: DiffRowView, side: DiffSide) -> Option<u32> {
    if row@.omitted_block_id is Some {
        None
    } else {
        match side {
            DiffSide::Old => row@.old_line,
            DiffSide::New => row@.new_line,
        }
    }
}

/// Going to a line leads to a row of the full-file presentation that shows it
/// wherever there is one.
pub proof fn law_lines_are_gone_to_where_they_are_shown(
    document: ReviewDiffDocument,
    state: ReviewUiState,
    side: DiffSide,
    line: u32,
    result: Result<PresentationLocation, DispatchError>,
    presentation: CachedCanonicalPresentation,
    view: FullFileView,
    row: int,
)
    requires
        call_ensures(full_file_location, (&document, &state, side, line), result),
        state.full_file_side matches Some(name) ==> name@ == "old"@ || name@ == "new"@ || name@
            == "both"@,
        view == (match state.full_file_side {
            Some(name) => if name@ == "old"@ {
                FullFileView::Old
            } else if name@ == "new"@ {
                FullFileView::New
            } else {
                FullFileView::Both
            },
            None => FullFileView::Both,
        }),
        is_canonical(presentation, document, "full"@, view, state@),
        presentation.rows@.len() <= u32::MAX,
        0 <= row < presentation.rows@.len(),
        line_shown(presentation.rows@[row], side) == Some(line),
    ensures
        result matches Ok(location) && {
            &&& location.line == line
            &&& location.row_index <= row
            &&& line_shown(presentation.rows@[location.row_index as int], side) == Some(line)
        },
{
    let shown = shown_view(document, view);
    let models = full_file_models(document, shown, state@);
    assert(view == requested_view(state.full_file_side));
    lemma_shown_model(presentation, document, view, state, row);
    assert(shows_line(models[row], side, line));
    assert(has_line(models, side, line));
    let location = result->Ok_0;
    let index = choose|index: int| #[trigger]
        is_full_file_target(index, document, shown, state@, side, line) && location.row_index
            == row_number(index as nat);
    assert(is_exact_row(models, side, line, index));
    lemma_shown_model(presentation, document, view, state, index);
    assert(shows_line(models[index], side, line));
}

proof fn lemma_shown_model(
    presentation: CachedCanonicalPresentation,
    document: ReviewDiffDocument,
    view: FullFileView,
    state: ReviewUiState,
    index: int,
)
    requires
        is_canonical(presentation, document, "full"@, view, state@),
    ensures
        ({
            let models = full_file_models(document, shown_view(document, view), state@);
            &&& models.len() == presentation.rows@.len()
            &&& 0 <= index < presentation.rows@.len() ==> presentation.rows@[index]@
                == projected_row_model(
                models[index],
                as_offsets(line_starts(encode_utf8(document.old.content@))),
                as_offsets(line_starts(encode_utf8(document.new.content@))),
            )
        }),
{
    let models = full_file_models(document, shown_view(document, view), state@);
    let shown = row_models(presentation.rows@);
    assert(shown == full_file_row_models(document, models));
    assert(shown.len() == models.len());
    if 0 <= index < presentation.rows@.len() {
        assert(shown[index] == presentation.rows@[index]@);
    }
}

/// Going to a line of a hunk presentation leads to the row that stands for it.
pub proof fn law_hunk_lines_are_gone_to(
    presentation: CachedCanonicalPresentation,
    side: DiffSide,
    line: u32,
    location: PresentationLocation,
    index: usize,
)
    requires
        call_ensures(hunk_row_location, (&presentation, side, line), location),
        call_ensures(nearest_canonical_row, (&presentation.rows, side, line), index),
        index <= u32::MAX,
    ensures
        location.row_index == index,
        location.line == line,
        side == DiffSide::Old ==> location.side@ == "old"@,
        side == DiffSide::New ==> location.side@ == "new"@,
{
    let distances = distances_to(row_lines(presentation.rows@, side), line);
    let found = choose|found: int| #[trigger]
        is_nearest(distances, found) && location.row_index == row_number(found as nat);
    law_nearest_is_unique(distances, found, index as int);
}

/// A selection of source lines holds exactly those lines, line ends and all; one
/// that reaches beyond the captured source is told to be incomplete.
pub proof fn law_selections_hold_their_lines(
    document: ReviewDiffDocument,
    side: DiffSide,
    first: u32,
    last: u32,
    result: Result<CapturedSourceRange, DispatchError>,
)
    requires
        call_ensures(captured_source_range, (&document, side, first, last), result),
        encode_utf8(
            match side {
                DiffSide::Old => document.old.content@,
                DiffSide::New => document.new.content@,
            },
        ).len() <= u32::MAX,
    ensures
        ({
            let lines = lines_inclusive(
                match side {
                    DiffSide::Old => document.old.content@,
                    DiffSide::New => document.new.content@,
                },
            );
            &&& result is Ok <==> 1 <= first <= last
            &&& 1 <= first <= last <= lines.len() ==> result->Ok_0.complete && result->Ok_0.text@
                == joined(lines.subrange(first - 1, last as int))
            &&& 1 <= first <= last && last > lines.len() ==> !result->Ok_0.complete
                && result->Ok_0.text@.len() == 0
        }),
{
    let source = match side {
        DiffSide::Old => document.old.content@,
        DiffSide::New => document.new.content@,
    };
    assert(lines_of(source).len() == lines_inclusive(source).len());
    if 1 <= first <= last <= lines_inclusive(source).len() {
        lemma_lines_between(source, first, last);
    }
}

/// How many rows stand before a hunk where each has a header row.
pub open spec fn rows_before_hunk(document: ReviewDiffDocument, split: bool, hunk: nat) -> nat
    decreases hunk,
{
    if hunk == 0 {
        0
    } else {
        rows_before_hunk(document, split, (hunk - 1) as nat) + 1 + if split {
            document.hunks@[hunk - 1].split_rows@.len()
        } else {
            document.hunks@[hunk - 1].unified_rows@.len()
        }
    }
}

proof fn lemma_listed_rows(
    document: ReviewDiffDocument,
    split: bool,
    annotations: Seq<Annotation>,
    count: nat,
    hunk: int,
    place: int,
)
    requires
        count <= document.hunks@.len(),
        0 <= hunk < count,
        0 <= place < listed_hunk(document.hunks@[hunk], split, annotations, document).len(),
    ensures
        listed_hunks(document, split, annotations, count).len() == rows_before_hunk(
            document,
            split,
            count,
        ),
        rows_before_hunk(document, split, hunk as nat) + place < listed_hunks(
            document,
            split,
            annotations,
            count,
        ).len(),
        listed_hunks(document, split, annotations, count)[rows_before_hunk(
            document,
            split,
            hunk as nat,
        ) + place] == listed_hunk(document.hunks@[hunk], split, annotations, document)[place],
    decreases count,
{
    let earlier = (count - 1) as nat;
    lemma_listed_count(document, split, annotations, count);
    lemma_listed_count(document, split, annotations, earlier);
    if hunk < count - 1 {
        lemma_listed_rows(document, split, annotations, earlier, hunk, place);
    }
}

proof fn lemma_listed_count(
    document: ReviewDiffDocument,
    split: bool,
    annotations: Seq<Annotation>,
    count: nat,
)
    requires
        count <= document.hunks@.len(),
    ensures
        listed_hunks(document, split, annotations, count).len() == rows_before_hunk(
            document,
            split,
            count,
        ),
    decreases count,
{
    if count > 0 {
        lemma_listed_count(document, split, annotations, (count - 1) as nat);
    }
}

/// A document's rows are those of its hunks in order, each behind a header: in
/// the unified form every row shows both of its cells as they were captured.
pub proof fn law_documents_show_every_row_of_their_hunks(
    document: ReviewDiffDocument,
    mode: &str,
    annotations: Vec<Annotation>,
    result: Result<Vec<DiffRowView>, DispatchError>,
    hunk: int,
    row: int,
)
    requires
        call_ensures(document_rows, (&document, mode, &annotations), result),
        mode@ == "unified"@,
        0 <= hunk < document.hunks@.len(),
        0 <= row < document.hunks@[hunk].unified_rows@.len(),
    ensures
        result matches Ok(rows) && {
            let place = rows_before_hunk(document, false, hunk as nat) + 1 + row;
            let captured = document.hunks@[hunk].unified_rows@[row];
            &&& rows@.len() == rows_before_hunk(document, false, document.hunks@.len())
            &&& place < rows@.len()
            &&& rows@[place]@.hunk_id == Some(document.hunks@[hunk].id@)
            &&& captured.old matches Some(cell) ==> rows@[place]@.old_line == Some(cell.line_number)
                && rows@[place]@.old_text == Some(cell.text@)
            &&& captured.old is None ==> rows@[place]@.old_line is None && rows@[place]@.old_text
                is None
            &&& captured.new matches Some(cell) ==> rows@[place]@.new_line == Some(cell.line_number)
                && rows@[place]@.new_text == Some(cell.text@)
            &&& captured.new is None ==> rows@[place]@.new_line is None && rows@[place]@.new_text
                is None
            &&& captured.kind == DiffLineKind::Addition ==> rows@[place]@.kind == "addition"@
            &&& captured.kind == DiffLineKind::Removal ==> rows@[place]@.kind == "deletion"@
            &&& captured.kind == DiffLineKind::Context ==> rows@[place]@.kind == "context"@
        },
{
    lemma_unified_is_not_split();
    let own = document.hunks@[hunk];
    let listed = listed_hunk(own, false, annotations@, document);
    lemma_listed_rows(document, false, annotations@, document.hunks@.len(), hunk, 1 + row);
    let rows = result->Ok_0;
    let models = row_models(rows@);
    assert(models.len() == rows@.len());
    let place = rows_before_hunk(document, false, hunk as nat) + 1 + row;
    assert(models[place] == rows@[place]@);
    assert(models[place] == listed[1 + row]);
}

proof fn lemma_unified_is_not_split()
    ensures
        "unified"@ != "split"@,
{
    reveal_strlit("unified");
    reveal_strlit("split");
    assert("unified"@[0] == 'u');
    assert("split"@[0] == 's');
}

/// In the side-by-side form, too, every row of a hunk shows both of its cells.
pub proof fn law_documents_show_every_pair_of_their_hunks(
    document: ReviewDiffDocument,
    mode: &str,
    annotations: Vec<Annotation>,
    result: Result<Vec<DiffRowView>, DispatchError>,
    hunk: int,
    row: int,
)
    requires
        call_ensures(document_rows, (&document, mode, &annotations), result),
        mode@ == "split"@,
        0 <= hunk < document.hunks@.len(),
        0 <= row < document.hunks@[hunk].split_rows@.len(),
    ensures
        result matches Ok(rows) && {
            let place = rows_before_hunk(document, true, hunk as nat) + 1 + row;
            let captured = document.hunks@[hunk].split_rows@[row];
            &&& place < rows@.len()
            &&& captured.old matches Some(cell) ==> rows@[place]@.old_line == Some(cell.line_number)
                && rows@[place]@.old_text == Some(cell.text@)
            &&& captured.old is None ==> rows@[place]@.old_line is None
            &&& captured.new matches Some(cell) ==> rows@[place]@.new_line == Some(cell.line_number)
                && rows@[place]@.new_text == Some(cell.text@)
            &&& captured.new is None ==> rows@[place]@.new_line is None
        },
{
    let own = document.hunks@[hunk];
    let listed = listed_hunk(own, true, annotations@, document);
    lemma_listed_rows(document, true, annotations@, document.hunks@.len(), hunk, 1 + row);
    let rows = result->Ok_0;
    let models = row_models(rows@);
    assert(models.len() == rows@.len());
    let place = rows_before_hunk(document, true, hunk as nat) + 1 + row;
    assert(models[place] == rows@[place]@);
    assert(models[place] == listed[1 + row]);
}

/// Every fold of every document, in whichever view, is one that can be opened
/// and closed.
pub proof fn law_every_fold_can_be_opened(
    documents: Vec<ReviewDiffDocument>,
    ids: TextSet,
    index: int,
    view: FullFileView,
    blocks: Vec<FullFileOmittedBlock>,
    block: int,
)
    requires
        call_ensures(valid_full_file_deletion_block_ids, (&documents,), ids),
        0 <= index < documents@.len(),
        call_ensures(full_file_omitted_blocks, (&documents@[index], view), blocks),
        0 <= block < blocks@.len(),
    ensures
        ids@.contains(blocks@[block].id@),
{
    let all = omitted_blocks(documents@[index], view);
    let models = block_models(blocks@);
    assert(models.len() == blocks@.len());
    assert(models[block] == blocks@[block]@);
    assert(all[block].id == blocks@[block].id@);
    assert(is_block_of(documents@[index], view, blocks@[block].id@));
    assert(block_ids(documents@[index]).contains(blocks@[block].id@));
}

/// The context of a hunk is kept between three lines and twelve hundred.
pub proof fn law_context_keeps_its_bounds(asked: u32, bounded: u32)
    requires
        call_ensures(clamp_context, (asked,), bounded),
    ensures
        3 <= bounded <= 1200,
        3 <= asked <= 1200 ==> bounded == asked,
        asked < 3 ==> bounded == 3,
        asked > 1200 ==> bounded == 1200,
{
}

/// A header tells where a hunk starts on either side and how many lines it has
/// there, and what it stands in where that is known.
pub proof fn law_headers_tell_where_hunks_start(hunk: ReviewHunk, text: String)
    requires
        call_ensures(format_hunk_header, (&hunk,), text),
    ensures
        ({
            let old_part = "-"@ + decimal(hunk.header.old_start as nat) + ","@ + decimal(
                hunk.header.old_count as nat,
            );
            let new_part = "+"@ + decimal(hunk.header.new_start as nat) + ","@ + decimal(
                hunk.header.new_count as nat,
            );
            let place = "@@ "@ + old_part + " "@ + new_part + " @@"@;
            &&& hunk.header.context is None ==> text@ == place
            &&& hunk.header.context matches Some(context) ==> text@ == place + " "@ + context@
        }),
{
    reveal_strlit("@@ -");
    reveal_strlit("@@ ");
    reveal_strlit("-");
    reveal_strlit(" +");
    reveal_strlit(" ");
    reveal_strlit("+");
    assert("@@ -"@ =~= "@@ "@ + "-"@);
    assert(" +"@ =~= " "@ + "+"@);
    let old_part = "-"@ + decimal(hunk.header.old_start as nat) + ","@ + decimal(
        hunk.header.old_count as nat,
    );
    let new_part = "+"@ + decimal(hunk.header.new_start as nat) + ","@ + decimal(
        hunk.header.new_count as nat,
    );
    let place = "@@ "@ + old_part + " "@ + new_part + " @@"@;
    let ranges = "@@ -"@ + decimal(hunk.header.old_start as nat) + ","@ + decimal(
        hunk.header.old_count as nat,
    ) + " +"@ + decimal(hunk.header.new_start as nat) + ","@ + decimal(
        hunk.header.new_count as nat,
    ) + " @@"@;
    assert(ranges =~= place);
}

/// In a hunk presentation every hunk is listed with its id and header, with the
/// first line that it shows on either side, and with the context that was asked
/// for, within its bounds.
pub proof fn law_hunks_are_listed_with_their_lines(
    presentation: CachedCanonicalPresentation,
    document: ReviewDiffDocument,
    mode: Seq<char>,
    view: FullFileView,
    state: UiStateModel,
    hunk: int,
    old_row: int,
    new_row: int,
    header: String,
    asked: u32,
    context: u32,
)
    requires
        shows_hunks(mode),
        is_canonical(presentation, document, mode, view, state),
        0 <= hunk < document.hunks@.len(),
        0 <= old_row < document.hunks@[hunk].unified_rows@.len(),
        document.hunks@[hunk].unified_rows@[old_row].old is Some,
        forall|j: int|
            0 <= j < old_row ==> (#[trigger] document.hunks@[hunk].unified_rows@[j]).old is None,
        0 <= new_row < document.hunks@[hunk].unified_rows@.len(),
        document.hunks@[hunk].unified_rows@[new_row].new is Some,
        forall|j: int|
            0 <= j < new_row ==> (#[trigger] document.hunks@[hunk].unified_rows@[j]).new is None,
        call_ensures(format_hunk_header, (&document.hunks@[hunk],), header),
        forall|j: int|
            0 <= j < state.hunk_context_lines.len() && (
            #[trigger] state.hunk_context_lines[j]).hunk_id@ == document.hunks@[hunk].id@
                ==> state.hunk_context_lines[j].lines == asked,
        asked == 3 || exists|j: int|
            0 <= j < state.hunk_context_lines.len() && (
            #[trigger] state.hunk_context_lines[j]).hunk_id@ == document.hunks@[hunk].id@,
        call_ensures(clamp_context, (asked,), context),
    ensures
        presentation.hunks@.len() == document.hunks@.len(),
        presentation.hunks@[hunk].id@ == document.hunks@[hunk].id@,
        presentation.hunks@[hunk].header@ == header@,
        presentation.hunks@[hunk].old_line == Some(
            document.hunks@[hunk].unified_rows@[old_row].old->0.line_number,
        ),
        presentation.hunks@[hunk].new_line == Some(
            document.hunks@[hunk].unified_rows@[new_row].new->0.line_number,
        ),
        presentation.hunks@[hunk].collapsed_context_lines == Some(context),
{
    lemma_hunk_modes_are_not_full();
    let rows = document.hunks@[hunk].unified_rows@;
    let olds = old_lines_of(rows);
    let news = new_lines_of(rows);
    assert forall|j: int| 0 <= j < old_row implies (#[trigger] olds[j]) is None by {
        assert(rows[j].old is None);
    }
    assert forall|j: int| 0 <= j < new_row implies (#[trigger] news[j]) is None by {
        assert(rows[j].new is None);
    }
    lemma_first_some(olds, old_row);
    lemma_first_some(news, new_row);
    lemma_requested(state.hunk_context_lines, document.hunks@[hunk].id@, asked);
    let listed = hunk_models(presentation.hunks@);
    assert(listed.len() == presentation.hunks@.len());
    assert(listed[hunk] == presentation.hunks@[hunk]@);
    assert(listed[hunk] == hunk_location_model(
        document,
        mode == "split"@,
        state.hunk_context_lines,
        hunk as nat,
    ));
}

/// A row of the full-file presentation tells where its line starts in the
/// captured source of its side.
pub proof fn law_full_file_rows_tell_where_their_line_starts(
    presentation: CachedCanonicalPresentation,
    document: ReviewDiffDocument,
    view: FullFileView,
    state: ReviewUiState,
    index: int,
)
    requires
        is_canonical(presentation, document, "full"@, view, state@),
        0 <= index < presentation.rows@.len(),
        presentation.rows@[index]@.omitted_block_id is None,
        encode_utf8(document.old.content@).len() <= u32::MAX,
        encode_utf8(document.new.content@).len() <= u32::MAX,
    ensures
        ({
            let row = presentation.rows@[index]@;
            &&& row.old_source_start_byte is Some <==> row.old_line is Some
            &&& row.new_source_start_byte is Some <==> row.new_line is Some
            &&& row.old_line matches Some(line) ==> 1 <= line <= lines_of(
                document.old.content@,
            ).len() ==> line_begins_at(
                document.old.content@,
                line,
                row.old_source_start_byte->0,
            )
            &&& row.new_line matches Some(line) ==> 1 <= line <= lines_of(
                document.new.content@,
            ).len() ==> line_begins_at(
                document.new.content@,
                line,
                row.new_source_start_byte->0,
            )
        }),
{
    lemma_shown_model(presentation, document, view, state, index);
    let row = presentation.rows@[index]@;
    if let Some(line) = row.old_line {
        law_text_from_an_offset_begins_with_its_line(document.old.content@, line);
    }
    if let Some(line) = row.new_line {
        law_text_from_an_offset_begins_with_its_line(document.new.content@, line);
    }
}

/// A fold is named by the file, by its side and by its first and last line, so
/// that it keeps its name as long as it holds the same lines.
pub proof fn law_folds_are_named_by_their_lines(
    document: ReviewDiffDocument,
    view: FullFileView,
    blocks: Vec<FullFileOmittedBlock>,
    block: int,
)
    requires
        call_ensures(full_file_omitted_blocks, (&document, view), blocks),
        0 <= block < blocks@.len(),
    ensures
        ({
            let rows = blocks@[block].rows@;
            let owner = id_chars(document.comparison_id.0) + ":"@ + id_chars(document.file.id.0);
            let lines = decimal(rows[0].line_number as nat) + "-"@ + decimal(
                rows.last().line_number as nat,
            );
            &&& rows.len() > 0
            &&& forall|i: int|
                0 <= i < rows.len() ==> (#[trigger] rows[i]).side == blocks@[block].side
            &&& blocks@[block].side == DiffSide::Old ==> blocks@[block].id@ == owner + ":"@ + lines
            &&& blocks@[block].side == DiffSide::New ==> blocks@[block].id@ == owner + ":new:"@
                + lines
        }),
{
    let rows = match view {
        FullFileView::Old => document.base_rows@,
        _ => document.current_rows@,
    };
    let all = blocks_from(document.comparison_id, document.file.id, rows, view, 0);
    let models = block_models(blocks@);
    assert(models == all);
    assert(models.len() == blocks@.len());
    assert(models[block] == blocks@[block]@);
    lemma_block_is_a_run(document, rows, view, 0, block);
    let (start, end) = choose|start: int, end: int|
        #![trigger block_at(document.comparison_id, document.file.id, rows, start, end)]
        0 <= start < end <= rows.len() && all[block] == block_at(
            document.comparison_id,
            document.file.id,
            rows,
            start,
            end,
        ) && forall|k: int| start <= k < end ==> (#[trigger] rows[k]).side == rows[start].side;
    let own = blocks@[block].rows@;
    assert(own == rows.subrange(start, end));
    assert(own[0] == rows[start]);
    assert(own.last() == rows[end - 1]);
    let owner = id_chars(document.comparison_id.0) + ":"@ + id_chars(document.file.id.0);
    let lines = decimal(own[0].line_number as nat) + "-"@ + decimal(own.last().line_number as nat);
    if blocks@[block].side == DiffSide::Old {
        assert(blocks@[block].id@ =~= owner + ":"@ + lines);
    } else {
        assert(blocks@[block].id@ =~= owner + ":new:"@ + lines);
    }
    assert forall|i: int| 0 <= i < own.len() implies (#[trigger] own[i]).side
        == blocks@[block].side by {
        assert(own[i] == rows[start + i]);
    }
}

proof fn lemma_run(rows: Seq<FullFileRow>, view: FullFileView, side: DiffSide, index: int)
    requires
        0 <= index <= rows.len(),
    ensures
        index <= run_end(rows, view, side, index) <= rows.len(),
        forall|k: int|
            index <= k < run_end(rows, view, side, index) ==> (#[trigger] rows[k]).side == side,
    decreases rows.len() - index,
{
    if index < rows.len() && is_omitted(rows[index], view) && rows[index].side == side {
        lemma_run(rows, view, side, index + 1);
    }
}

proof fn lemma_block_is_a_run(
    document: ReviewDiffDocument,
    rows: Seq<FullFileRow>,
    view: FullFileView,
    index: int,
    block: int,
)
    requires
        0 <= index,
        0 <= block < blocks_from(
            document.comparison_id,
            document.file.id,
            rows,
            view,
            index,
        ).len(),
    ensures
        exists|start: int, end: int|
            #![trigger block_at(document.comparison_id, document.file.id, rows, start, end)]
            0 <= start < end <= rows.len() && blocks_from(
                document.comparison_id,
                document.file.id,
                rows,
                view,
                index,
            )[block] == block_at(document.comparison_id, document.file.id, rows, start, end)
                && forall|k: int| start <= k < end ==> (#[trigger] rows[k]).side
                == rows[start].side,
    decreases rows.len() - index,
{
    if index < rows.len() {
        if !is_omitted(rows[index], view) {
            lemma_block_is_a_run(document, rows, view, index + 1, block);
        } else {
            let end = run_end(rows, view, rows[index].side, index + 1);
            lemma_run(rows, view, rows[index].side, index + 1);
            if block > 0 {
                lemma_block_is_a_run(document, rows, view, end, block - 1);
            } else {
                assert(blocks_from(
                    document.comparison_id,
                    document.file.id,
                    rows,
                    view,
                    index,
                )[0] == block_at(document.comparison_id, document.file.id, rows, index, end));
            }
        }
    }
}

} // verus!
