//! What the full-file presentation shows of the captured sources: which lines,
//! with which texts, and what its folds hide.
use crate::canonical::lines_of;
use crate::document::{side_source, DiffSide, FullFileRow, ReviewDiffDocument, ReviewFileStatus};
use crate::full_file::{
    as_lines, block_at, blocks_from, has_distinct_lines, is_omitted, is_unfolded, last_starting_at,
    law_projection_loses_no_line, lemma_run_end, omitted_blocks, project_from, projected_row_model,
    run_end, unfolded, view_rows, BlockModel, FullFileView, ProjectedModel,
};
use crate::ids::{ComparisonId, ReviewFileId};
use crate::presentation::{
    full_file_models, full_file_row_models, is_canonical, shown_view, CachedCanonicalPresentation,
};
use crate::rows::row_models;
use crate::source_lines::{as_offsets, line_starts};
use crate::ui_state::UiStateModel;
use crate::views::DiffRowView;
use vstd::prelude::*;
use vstd::string::*;
use vstd::utf8::*;

verus! {

/// Whether every row is a numbered line of the captured source of its side.
pub open spec fn rows_are_captured(rows: Seq<FullFileRow>, document: ReviewDiffDocument) -> bool {
    forall|k: int|
        0 <= k < rows.len() ==> {
            let lines = lines_of(side_source(document, (#[trigger] rows[k]).side).content@);
            1 <= rows[k].line_number <= lines.len() && rows[k].text@ == lines[rows[k].line_number
                - 1]
        }
}

/// The captured rows that a view shows: those of the old source for its own
/// view and for a deleted file, else those of the new one.
pub open spec fn captured_rows(document: ReviewDiffDocument, view: FullFileView) -> Seq<FullFileRow> {
    if document.file.status == ReviewFileStatus::Deleted || view == FullFileView::Old {
        document.base_rows@
    } else {
        document.current_rows@
    }
}

/// Whether a row goes behind a fold: what the view adds to the source that it
/// completes, or every change where it shows both.
pub open spec fn goes_behind_a_fold(
    document: ReviewDiffDocument,
    view: FullFileView,
    row: FullFileRow,
) -> bool {
    if document.file.status == ReviewFileStatus::Deleted || view == FullFileView::Old {
        row.side == DiffSide::New
    } else if view == FullFileView::New {
        row.side == DiffSide::Old
    } else {
        row.changed
    }
}

/// Whether a run is the longest stretch of foldable rows of one side at a
/// place.
spec fn is_run_at(block: BlockModel, rows: Seq<FullFileRow>, view: FullFileView, start: int) -> bool {
    let end = start + block.rows.len();
    &&& 0 <= start < end <= rows.len()
    &&& block.rows == rows.subrange(start, end)
    &&& forall|k: int|
        start <= k < end ==> (#[trigger] rows[k]).side == block.side && is_omitted(rows[k], view)
    &&& start > 0 ==> rows[start - 1].side != block.side || !is_omitted(rows[start - 1], view)
    &&& end < rows.len() ==> rows[end].side != block.side || !is_omitted(rows[end], view)
}

/// Whether a run is a longest stretch of foldable rows of one side.
spec fn is_run(block: BlockModel, rows: Seq<FullFileRow>, view: FullFileView) -> bool {
    exists|start: int| #[trigger] is_run_at(block, rows, view, start)
}

proof fn lemma_blocks_are_runs(
    comparison: ComparisonId,
    file: ReviewFileId,
    rows: Seq<FullFileRow>,
    view: FullFileView,
    index: int,
)
    requires
        0 <= index <= rows.len(),
        0 < index < rows.len() ==> rows[index - 1].side != rows[index].side || !is_omitted(
            rows[index - 1],
            view,
        ) || !is_omitted(rows[index], view),
    ensures
        forall|m: int|
            0 <= m < blocks_from(comparison, file, rows, view, index).len() ==> is_run(
                #[trigger] blocks_from(comparison, file, rows, view, index)[m],
                rows,
                view,
            ),
    decreases rows.len() - index,
{
    let blocks = blocks_from(comparison, file, rows, view, index);
    if index < rows.len() {
        if !is_omitted(rows[index], view) {
            lemma_blocks_are_runs(comparison, file, rows, view, index + 1);
            assert(blocks == blocks_from(comparison, file, rows, view, index + 1));
        } else {
            let side = rows[index].side;
            let end = run_end(rows, view, side, index + 1);
            lemma_run_end(rows, view, side, index + 1);
            lemma_run_is_of_one_side(rows, view, side, index + 1);
            lemma_blocks_are_runs(comparison, file, rows, view, end);
            let rest = blocks_from(comparison, file, rows, view, end);
            assert(blocks == seq![block_at(comparison, file, rows, index, end)] + rest);
            assert(is_run_at(blocks[0], rows, view, index));
            assert forall|m: int| 0 <= m < blocks.len() implies is_run(
                #[trigger] blocks[m],
                rows,
                view,
            ) by {
                if m > 0 {
                    assert(blocks[m] == rest[m - 1]);
                }
            }
        }
    }
}

/// All rows up to the end of a run are foldable rows of its side.
proof fn lemma_run_is_of_one_side(
    rows: Seq<FullFileRow>,
    view: FullFileView,
    side: DiffSide,
    index: int,
)
    requires
        0 <= index <= rows.len(),
    ensures
        forall|k: int|
            index <= k < run_end(rows, view, side, index) ==> (#[trigger] rows[k]).side == side
                && is_omitted(rows[k], view),
        ({
            let end = run_end(rows, view, side, index);
            end < rows.len() ==> rows[end].side != side || !is_omitted(rows[end], view)
        }),
    decreases rows.len() - index,
{
    if index < rows.len() && is_omitted(rows[index], view) && rows[index].side == side {
        lemma_run_is_of_one_side(rows, view, side, index + 1);
    }
}

/// Whether a row of the presentation is one of the rows, or the marker of one
/// of the runs, unfolded where it should be and then followed by its lines.
spec fn is_placed(
    rows: Seq<FullFileRow>,
    blocks: Seq<BlockModel>,
    view: FullFileView,
    expanded: Set<Seq<char>>,
    collapsed: Set<Seq<char>>,
    shown: Seq<ProjectedModel>,
    j: int,
) -> bool {
    match shown[j] {
        ProjectedModel::Line(row) => rows.contains(row),
        ProjectedModel::Gate(block, open) => {
            &&& blocks.contains(block)
            &&& open == is_unfolded(block, view, expanded, collapsed)
            &&& open ==> j + 1 + block.rows.len() <= shown.len() && shown.subrange(
                j + 1,
                j + 1 + block.rows.len(),
            ) == as_lines(block.rows)
        },
    }
}

proof fn lemma_rows_are_placed(
    rows: Seq<FullFileRow>,
    blocks: Seq<BlockModel>,
    view: FullFileView,
    expanded: Set<Seq<char>>,
    collapsed: Set<Seq<char>>,
    used: Set<int>,
    index: int,
)
    requires
        forall|m: int| 0 <= m < blocks.len() ==> is_run(#[trigger] blocks[m], rows, view),
    ensures
        forall|j: int|
            0 <= j < project_from(rows, blocks, view, expanded, collapsed, used, index).len()
                ==> #[trigger] is_placed(
                rows,
                blocks,
                view,
                expanded,
                collapsed,
                project_from(rows, blocks, view, expanded, collapsed, used, index),
                j,
            ),
    decreases rows.len() - index,
{
    let shown = project_from(rows, blocks, view, expanded, collapsed, used, index);
    if 0 <= index < rows.len() {
        let row = rows[index];
        let found = last_starting_at(blocks, row.side, row.line_number);
        let (head, rest, next_used, next) = if !is_omitted(row, view) || found is None
            || used.contains(found->0) {
            (seq![ProjectedModel::Line(row)], project_from(
                rows,
                blocks,
                view,
                expanded,
                collapsed,
                used,
                index + 1,
            ), used, index + 1)
        } else {
            lemma_found_is_there(blocks, row.side, row.line_number);
            assert(is_run(blocks[found->0], rows, view));
            let block = blocks[found->0];
            let open = is_unfolded(block, view, expanded, collapsed);
            let next = index + block.rows.len();
            let head = seq![ProjectedModel::Gate(block, open)] + if open {
                as_lines(block.rows)
            } else {
                Seq::empty()
            };
            (head, if next <= rows.len() {
                project_from(
                    rows,
                    blocks,
                    view,
                    expanded,
                    collapsed,
                    used.insert(found->0),
                    next,
                )
            } else {
                Seq::empty()
            }, used.insert(found->0), next)
        };
        assert(shown == head + rest);
        if next <= rows.len() {
            lemma_rows_are_placed(rows, blocks, view, expanded, collapsed, next_used, next);
        }
        assert forall|j: int| 0 <= j < shown.len() implies #[trigger] is_placed(
            rows,
            blocks,
            view,
            expanded,
            collapsed,
            shown,
            j,
        ) by {
            if j >= head.len() {
                let k = j - head.len();
                assert(is_placed(rows, blocks, view, expanded, collapsed, rest, k));
                assert(shown[j] == rest[k]);
                match rest[k] {
                    ProjectedModel::Gate(block, open) => {
                        if open {
                            assert(shown.subrange(j + 1, j + 1 + block.rows.len())
                                =~= rest.subrange(k + 1, k + 1 + block.rows.len()));
                        }
                    },
                    ProjectedModel::Line(_) => {},
                }
            } else if !is_omitted(row, view) || found is None || used.contains(found->0) {
                assert(rows[index] == row);
            } else {
                let block = blocks[found->0];
                if j == 0 {
                    assert(blocks.contains(block));
                    if is_unfolded(block, view, expanded, collapsed) {
                        assert(shown.subrange(j + 1, j + 1 + block.rows.len()) =~= as_lines(block.rows));
                    }
                } else {
                    let start = choose|start: int| #[trigger] is_run_at(block, rows, view, start);
                    assert(shown[j] == ProjectedModel::Line(block.rows[j - 1]));
                    assert(rows[start + j - 1] == block.rows[j - 1]);
                }
            }
        }
    }
}

proof fn lemma_found_is_there(blocks: Seq<BlockModel>, side: DiffSide, line: u32)
    ensures
        last_starting_at(blocks, side, line) matches Some(k) ==> 0 <= k < blocks.len(),
    decreases blocks.len(),
{
    if blocks.len() > 0 {
        lemma_found_is_there(blocks.drop_last(), side, line);
    }
}

proof fn lemma_presentation_is_placed(
    document: ReviewDiffDocument,
    view: FullFileView,
    state: UiStateModel,
)
    ensures
        forall|j: int|
            0 <= j < full_file_models(document, view, state).len() ==> #[trigger] is_placed(
                view_rows(document, view),
                omitted_blocks(document, view),
                view,
                state.expanded_full_file_deletion_blocks,
                state.collapsed_full_file_addition_blocks,
                full_file_models(document, view, state),
                j,
            ),
        forall|m: int|
            0 <= m < omitted_blocks(document, view).len() ==> is_run(
                #[trigger] omitted_blocks(document, view)[m],
                view_rows(document, view),
                view,
            ),
{
    let rows = view_rows(document, view);
    lemma_blocks_are_runs(document.comparison_id, document.file.id, rows, view, 0);
    lemma_rows_are_placed(
        rows,
        omitted_blocks(document, view),
        view,
        state.expanded_full_file_deletion_blocks,
        state.collapsed_full_file_addition_blocks,
        Set::empty(),
        0,
    );
}

/// A row of the full-file presentation that is no fold marker shows one line of
/// one side, and its text is that of this line in the captured source. It is
/// shown as changed where the captured row is, as a deletion on the old side
/// and as an addition on the new one.
pub proof fn law_full_file_rows_show_their_source_lines(
    presentation: CachedCanonicalPresentation,
    document: ReviewDiffDocument,
    view: FullFileView,
    state: UiStateModel,
    index: int,
)
    requires
        is_canonical(presentation, document, "full"@, view, state),
        rows_are_captured(document.base_rows@, document),
        rows_are_captured(document.current_rows@, document),
        has_distinct_lines(document.base_rows@),
        has_distinct_lines(document.current_rows@),
        0 <= index < presentation.rows@.len(),
        presentation.rows@[index]@.omitted_block_id is None,
    ensures
        ({
            let row = presentation.rows@[index]@;
            let old_lines = lines_of(document.old.content@);
            let new_lines = lines_of(document.new.content@);
            &&& row.old_line is Some <==> row.new_line is None
            &&& row.old_line matches Some(line) ==> {
                &&& 1 <= line <= old_lines.len()
                &&& row.old_text == Some(old_lines[line - 1])
                &&& row.text == Some(old_lines[line - 1])
                &&& row.new_text is None
                &&& row.kind == "context"@ || row.kind == "deletion"@
            }
            &&& row.new_line matches Some(line) ==> {
                &&& 1 <= line <= new_lines.len()
                &&& row.new_text == Some(new_lines[line - 1])
                &&& row.text == Some(new_lines[line - 1])
                &&& row.old_text is None
                &&& row.kind == "context"@ || row.kind == "addition"@
            }
            &&& forall|k: int|
                0 <= k < captured_rows(document, view).len() ==> {
                    let captured = #[trigger] captured_rows(document, view)[k];
                    (captured.side == DiffSide::Old && row.old_line == Some(captured.line_number)
                        || captured.side == DiffSide::New && row.new_line == Some(
                        captured.line_number,
                    )) ==> (captured.changed <==> row.kind != "context"@)
                }
        }),
{
    let shown = shown_view(document, view);
    let rows = view_rows(document, shown);
    let projection = full_file_models(document, shown, state);
    lemma_presentation_is_placed(document, shown, state);
    lemma_shown_row(presentation, document, view, state, index);
    reveal_strlit("context");
    reveal_strlit("deletion");
    reveal_strlit("addition");
    assert("context"@[0] == 'c');
    assert("deletion"@[0] == 'd');
    assert("addition"@[0] == 'a');
    assert(is_placed(
        rows,
        omitted_blocks(document, shown),
        shown,
        state.expanded_full_file_deletion_blocks,
        state.collapsed_full_file_addition_blocks,
        projection,
        index,
    ));
    match projection[index] {
        ProjectedModel::Line(row) => {
            let k = choose|k: int| 0 <= k < rows.len() && rows[k] == row;
            assert(rows[k] == row);
        },
        ProjectedModel::Gate(_, _) => {},
    }
}

proof fn lemma_shown_row(
    presentation: CachedCanonicalPresentation,
    document: ReviewDiffDocument,
    view: FullFileView,
    state: UiStateModel,
    index: int,
)
    requires
        is_canonical(presentation, document, "full"@, view, state),
        0 <= index < presentation.rows@.len(),
    ensures
        ({
            let projection = full_file_models(document, shown_view(document, view), state);
            &&& projection.len() == presentation.rows@.len()
            &&& presentation.rows@[index]@ == projected_row_model(
                projection[index],
                as_offsets(line_starts(encode_utf8(document.old.content@))),
                as_offsets(line_starts(encode_utf8(document.new.content@))),
            )
        }),
{
    let projection = full_file_models(document, shown_view(document, view), state);
    let models = row_models(presentation.rows@);
    assert(models == full_file_row_models(document, projection));
    assert(models.len() == projection.len());
    assert(models[index] == presentation.rows@[index]@);
}

/// Whether captured rows are the longest stretch of foldable rows of a side at
/// a place.
pub open spec fn is_fold_at(
    document: ReviewDiffDocument,
    view: FullFileView,
    side: DiffSide,
    start: int,
    count: int,
) -> bool {
    let rows = captured_rows(document, view);
    &&& 0 <= start < start + count <= rows.len()
    &&& forall|k: int|
        start <= k < start + count ==> (#[trigger] rows[k]).side == side && goes_behind_a_fold(
            document,
            view,
            rows[k],
        )
    &&& start > 0 ==> rows[start - 1].side != side || !goes_behind_a_fold(
        document,
        view,
        rows[start - 1],
    )
    &&& start + count < rows.len() ==> rows[start + count].side != side || !goes_behind_a_fold(
        document,
        view,
        rows[start + count],
    )
}

/// Whether a fold marker stands for captured rows: it counts them, names their
/// first and last line and their side, and where it is unfolded they follow it.
pub open spec fn marks_fold(
    rows: Seq<DiffRowView>,
    index: int,
    captured: Seq<FullFileRow>,
    side: DiffSide,
    start: int,
    count: int,
) -> bool {
    let gate = rows[index]@;
    let first = Some(captured[start].line_number);
    &&& gate.omitted_count == Some(count as u32)
    &&& gate.omitted_end_line == Some(captured[start + count - 1].line_number)
    &&& match side {
        DiffSide::Old => gate.old_line == first && gate.new_line is None && gate.omitted_side
            == Some("old"@) && gate.kind == "deletion_gate"@,
        DiffSide::New => gate.new_line == first && gate.old_line is None && gate.omitted_side
            == Some("new"@) && gate.kind == "addition_gate"@,
    }
    &&& gate.old_text is None && gate.new_text is None
    &&& gate.omitted_expanded == Some(true) ==> index + count < rows.len() && forall|k: int|
        0 <= k < count ==> {
            let row = (#[trigger] rows[index + 1 + k])@;
            &&& row.omitted_block_id is None
            &&& row.text == Some(captured[start + k].text@)
            &&& match side {
                DiffSide::Old => row.old_line == Some(captured[start + k].line_number),
                DiffSide::New => row.new_line == Some(captured[start + k].line_number),
            }
        }
}

/// A fold marker stands for a longest stretch of rows that the view folds: the
/// other source's rows, or the changed rows where both sources are shown. It
/// is unfolded where the user unfolded it, or, for additions beside deletions,
/// unless the user folded it; then its lines stand right behind it.
pub proof fn law_fold_markers_stand_for_their_lines(
    presentation: CachedCanonicalPresentation,
    document: ReviewDiffDocument,
    view: FullFileView,
    state: UiStateModel,
    index: int,
)
    requires
        is_canonical(presentation, document, "full"@, view, state),
        captured_rows(document, view).len() <= u32::MAX,
        0 <= index < presentation.rows@.len(),
        presentation.rows@[index]@.omitted_block_id is Some,
    ensures
        exists|side: DiffSide, start: int, count: int|
            #![trigger is_fold_at(document, view, side, start, count)]
            {
                let gate = presentation.rows@[index]@;
                let id = gate.omitted_block_id->0;
                let both = document.file.status != ReviewFileStatus::Deleted && view
                    == FullFileView::Both;
                &&& is_fold_at(document, view, side, start, count)
                &&& marks_fold(
                    presentation.rows@,
                    index,
                    captured_rows(document, view),
                    side,
                    start,
                    count,
                )
                &&& gate.omitted_expanded == Some(
                    if both && side == DiffSide::New {
                        !state.collapsed_full_file_addition_blocks.contains(id)
                    } else {
                        state.expanded_full_file_deletion_blocks.contains(id)
                    },
                )
            },
{
    let shown = shown_view(document, view);
    let rows = view_rows(document, shown);
    let blocks = omitted_blocks(document, shown);
    let projection = full_file_models(document, shown, state);
    lemma_presentation_is_placed(document, shown, state);
    lemma_shown_row(presentation, document, view, state, index);
    assert(is_placed(
        rows,
        blocks,
        shown,
        state.expanded_full_file_deletion_blocks,
        state.collapsed_full_file_addition_blocks,
        projection,
        index,
    ));
    match projection[index] {
        ProjectedModel::Line(_) => {},
        ProjectedModel::Gate(block, open) => {
            let m = choose|m: int| 0 <= m < blocks.len() && blocks[m] == block;
            assert(is_run(blocks[m], rows, shown));
            let start = choose|start: int| #[trigger] is_run_at(block, rows, shown, start);
            let count = block.rows.len() as int;
            assert(forall|k: int|
                0 <= k < rows.len() ==> is_omitted(#[trigger] rows[k], shown)
                    == goes_behind_a_fold(document, view, rows[k]));
            assert(rows == captured_rows(document, view));
            assert(block.rows[0] == rows[start]);
            assert(block.rows.last() == rows[start + count - 1]);
            assert(rows[start].side == block.side);
            assert(is_fold_at(document, view, block.side, start, count));
            if open {
                let behind = projection.subrange(index + 1, index + 1 + count);
                assert(behind == as_lines(block.rows));
                assert forall|k: int| 0 <= k < count implies ({
                    let row = (#[trigger] presentation.rows@[index + 1 + k])@;
                    &&& row.omitted_block_id is None
                    &&& row.text == Some(rows[start + k].text@)
                    &&& match block.side {
                        DiffSide::Old => row.old_line == Some(rows[start + k].line_number),
                        DiffSide::New => row.new_line == Some(rows[start + k].line_number),
                    }
                }) by {
                    lemma_shown_row(presentation, document, view, state, index + 1 + k);
                    assert(projection[index + 1 + k] == behind[k]);
                    assert(behind[k] == ProjectedModel::Line(block.rows[k]));
                    assert(block.rows[k] == rows[start + k]);
                    assert(rows[start + k].side == block.side);
                }
            }
            assert(marks_fold(
                presentation.rows@,
                index,
                captured_rows(document, view),
                block.side,
                start,
                count,
            ));
        },
    }
}

/// The texts that rows show of a side, in order.
pub open spec fn shown_texts(rows: Seq<DiffRowView>, side: DiffSide) -> Seq<Seq<char>>
    decreases rows.len(),
{
    if rows.len() == 0 {
        Seq::empty()
    } else {
        let before = shown_texts(rows.drop_last(), side);
        let text = match side {
            DiffSide::Old => rows.last()@.old_text,
            DiffSide::New => rows.last()@.new_text,
        };
        match text {
            Some(shown) => before.push(shown),
            None => before,
        }
    }
}

/// The texts of the captured rows of a side, in order.
pub open spec fn captured_texts(rows: Seq<FullFileRow>, side: DiffSide) -> Seq<Seq<char>>
    decreases rows.len(),
{
    if rows.len() == 0 {
        Seq::empty()
    } else {
        let before = captured_texts(rows.drop_last(), side);
        if rows.last().side == side {
            before.push(rows.last().text@)
        } else {
            before
        }
    }
}

proof fn lemma_captured_texts_concat(a: Seq<FullFileRow>, b: Seq<FullFileRow>, side: DiffSide)
    ensures
        captured_texts(a + b, side) == captured_texts(a, side) + captured_texts(b, side),
    decreases b.len(),
{
    if b.len() == 0 {
        assert(a + b =~= a);
        assert(captured_texts(a, side) + captured_texts(b, side) =~= captured_texts(a, side));
    } else {
        assert((a + b).drop_last() =~= a + b.drop_last());
        assert((a + b).last() == b.last());
        lemma_captured_texts_concat(a, b.drop_last(), side);
        assert(captured_texts(a + b, side) =~= captured_texts(a, side) + captured_texts(b, side));
    }
}

proof fn lemma_no_captured_texts(rows: Seq<FullFileRow>, side: DiffSide)
    requires
        forall|k: int| 0 <= k < rows.len() ==> (#[trigger] rows[k]).side != side,
    ensures
        captured_texts(rows, side) == Seq::<Seq<char>>::empty(),
    decreases rows.len(),
{
    if rows.len() > 0 {
        assert(rows.last() == rows[rows.len() - 1]);
        assert forall|k: int| 0 <= k < rows.drop_last().len() implies (
        #[trigger] rows.drop_last()[k]).side != side by {
            assert(rows.drop_last()[k] == rows[k]);
        }
        lemma_no_captured_texts(rows.drop_last(), side);
    }
}

/// Whether a row of the presentation hides no row of a side.
spec fn hides_nothing_of(row: ProjectedModel, side: DiffSide) -> bool {
    match row {
        ProjectedModel::Gate(block, open) => open || forall|k: int|
            0 <= k < block.rows.len() ==> (#[trigger] block.rows[k]).side != side,
        ProjectedModel::Line(_) => true,
    }
}

/// Rows show what the lines of their projection hold, where no folded run has
/// a row of the side.
proof fn lemma_shown_texts(
    rows: Seq<DiffRowView>,
    projection: Seq<ProjectedModel>,
    old_offsets: Seq<u32>,
    new_offsets: Seq<u32>,
    side: DiffSide,
)
    requires
        rows.len() == projection.len(),
        forall|j: int|
            0 <= j < rows.len() ==> (#[trigger] rows[j])@ == projected_row_model(
                projection[j],
                old_offsets,
                new_offsets,
            ),
        forall|j: int|
            0 <= j < rows.len() ==> hides_nothing_of(#[trigger] projection[j], side),
    ensures
        shown_texts(rows, side) == captured_texts(unfolded(projection), side),
    decreases rows.len(),
{
    if rows.len() > 0 {
        let before = rows.drop_last();
        let earlier = projection.drop_last();
        let last = projection.last();
        assert forall|j: int| 0 <= j < before.len() implies (#[trigger] before[j])@
            == projected_row_model(earlier[j], old_offsets, new_offsets) by {
            assert(before[j] == rows[j]);
        }
        assert forall|j: int| 0 <= j < before.len() implies hides_nothing_of(
            #[trigger] earlier[j],
            side,
        ) by {
            assert(earlier[j] == projection[j]);
        }
        lemma_shown_texts(before, earlier, old_offsets, new_offsets, side);
        assert(rows.last() == rows[rows.len() - 1]);
        assert(last == projection[rows.len() - 1]);
        match last {
            ProjectedModel::Line(row) => {
                lemma_captured_texts_concat(unfolded(earlier), seq![row], side);
                assert(seq![row].drop_last() =~= Seq::<FullFileRow>::empty());
                assert(captured_texts(seq![row].drop_last(), side) =~= Seq::empty());
                assert(shown_texts(rows, side) =~= captured_texts(unfolded(projection), side));
            },
            ProjectedModel::Gate(block, open) => {
                let hidden = if open {
                    Seq::empty()
                } else {
                    block.rows
                };
                lemma_captured_texts_concat(unfolded(earlier), hidden, side);
                lemma_no_captured_texts(hidden, side);
                assert(shown_texts(rows, side) =~= captured_texts(unfolded(projection), side));
            },
        }
    }
}

/// The view of one source shows all of it: whatever is folded, the rows of
/// that side are the captured lines, in order. Where both sources are shown,
/// so are all lines of the new one as long as no addition was folded.
pub proof fn law_no_line_of_the_source_is_left_out(
    presentation: CachedCanonicalPresentation,
    document: ReviewDiffDocument,
    view: FullFileView,
    state: UiStateModel,
)
    requires
        is_canonical(presentation, document, "full"@, view, state),
        has_distinct_lines(document.base_rows@),
        has_distinct_lines(document.current_rows@),
        captured_texts(document.base_rows@, DiffSide::Old) == lines_of(document.old.content@),
        captured_texts(document.current_rows@, DiffSide::New) == lines_of(document.new.content@),
        view == FullFileView::Both ==> state.collapsed_full_file_addition_blocks.is_empty(),
    ensures
        if document.file.status == ReviewFileStatus::Deleted || view == FullFileView::Old {
            shown_texts(presentation.rows@, DiffSide::Old) == lines_of(document.old.content@)
        } else {
            shown_texts(presentation.rows@, DiffSide::New) == lines_of(document.new.content@)
        },
{
    let shown = shown_view(document, view);
    let side = if shown == FullFileView::Old {
        DiffSide::Old
    } else {
        DiffSide::New
    };
    let blocks = omitted_blocks(document, shown);
    let rows = view_rows(document, shown);
    let projection = full_file_models(document, shown, state);
    lemma_presentation_is_placed(document, shown, state);
    law_projection_loses_no_line(
        document,
        shown,
        state.expanded_full_file_deletion_blocks,
        state.collapsed_full_file_addition_blocks,
    );
    assert(row_models(presentation.rows@).len() == projection.len());
    assert forall|j: int| 0 <= j < presentation.rows@.len() implies (
    #[trigger] presentation.rows@[j])@ == projected_row_model(
        projection[j],
        as_offsets(line_starts(encode_utf8(document.old.content@))),
        as_offsets(line_starts(encode_utf8(document.new.content@))),
    ) by {
        lemma_shown_row(presentation, document, view, state, j);
    }
    assert forall|j: int| 0 <= j < presentation.rows@.len() implies hides_nothing_of(
        #[trigger] projection[j],
        side,
    ) by {
        assert(is_placed(
            rows,
            blocks,
            shown,
            state.expanded_full_file_deletion_blocks,
            state.collapsed_full_file_addition_blocks,
            projection,
            j,
        ));
        match projection[j] {
            ProjectedModel::Gate(block, open) => {
                if !open {
                    let m = choose|m: int| 0 <= m < blocks.len() && blocks[m] == block;
                    assert(is_run(blocks[m], rows, shown));
                    let start = choose|start: int| #[trigger] is_run_at(block, rows, shown, start);
                    assert forall|k: int| 0 <= k < block.rows.len() implies (
                    #[trigger] block.rows[k]).side != side by {
                        assert(block.rows[k] == rows[start + k]);
                    }
                }
            },
            ProjectedModel::Line(_) => {},
        }
    }
    lemma_shown_texts(
        presentation.rows@,
        projection,
        as_offsets(line_starts(encode_utf8(document.old.content@))),
        as_offsets(line_starts(encode_utf8(document.new.content@))),
        side,
    );
}

/// Whether every fold of some rows is open.
pub open spec fn all_unfolded(rows: Seq<DiffRowView>) -> bool {
    forall|j: int|
        0 <= j < rows.len() ==> (#[trigger] rows[j])@.omitted_expanded != Some(false)
}

/// With every fold open, the rows of each side are the captured rows of that
/// side, in order: deletions and additions stand in their place.
pub proof fn law_open_folds_show_every_captured_row(
    presentation: CachedCanonicalPresentation,
    document: ReviewDiffDocument,
    view: FullFileView,
    state: UiStateModel,
    side: DiffSide,
)
    requires
        is_canonical(presentation, document, "full"@, view, state),
        has_distinct_lines(document.base_rows@),
        has_distinct_lines(document.current_rows@),
        all_unfolded(presentation.rows@),
    ensures
        shown_texts(presentation.rows@, side) == captured_texts(
            captured_rows(document, view),
            side,
        ),
{
    let shown = shown_view(document, view);
    let projection = full_file_models(document, shown, state);
    law_projection_loses_no_line(
        document,
        shown,
        state.expanded_full_file_deletion_blocks,
        state.collapsed_full_file_addition_blocks,
    );
    assert(row_models(presentation.rows@).len() == projection.len());
    assert forall|j: int| 0 <= j < presentation.rows@.len() implies (
    #[trigger] presentation.rows@[j])@ == projected_row_model(
        projection[j],
        as_offsets(line_starts(encode_utf8(document.old.content@))),
        as_offsets(line_starts(encode_utf8(document.new.content@))),
    ) by {
        lemma_shown_row(presentation, document, view, state, j);
    }
    assert forall|j: int| 0 <= j < presentation.rows@.len() implies hides_nothing_of(
        #[trigger] projection[j],
        side,
    ) by {
        assert(presentation.rows@[j]@.omitted_expanded != Some(false));
    }
    lemma_shown_texts(
        presentation.rows@,
        projection,
        as_offsets(line_starts(encode_utf8(document.old.content@))),
        as_offsets(line_starts(encode_utf8(document.new.content@))),
        side,
    );
}

} // verus!
