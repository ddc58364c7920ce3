//! What the unified and the side-by-side presentation show of the captured
//! hunks: which rows, in which order, with which texts.
use crate::canonical::{
    body_models, context_line, context_model, context_models, context_of, context_outward,
    context_text, first_some, hunk_location_model, hunk_row_models, last_some, lines_of,
    new_lines_of, old_lines_of, requested_context, rows_of_hunks, HunkContext,
};
use crate::document::{
    header_chars, side_source, DiffCell, DiffLineKind, DiffSide, ReviewDiffDocument, ReviewHunk,
    UnifiedRow,
};
use crate::full_file::FullFileView;
use crate::line_texts::law_text_from_an_offset_begins_with_its_line;
use crate::presentation::{is_canonical, CachedCanonicalPresentation};
use crate::rows::{hunk_models, row_models, RowModel};
use crate::source_lines::{as_offsets, line_starts, offset_of};
use crate::ui_state::UiStateModel;
use vstd::prelude::*;
use vstd::string::*;
use vstd::utf8::*;

verus! {

/// Whether a cell is a numbered line of the captured source of a side.
pub open spec fn cell_is_captured(
    cell: Option<DiffCell>,
    side: DiffSide,
    document: ReviewDiffDocument,
) -> bool {
    cell matches Some(shown) ==> {
        let lines = lines_of(side_source(document, side).content@);
        1 <= shown.line_number <= lines.len() && shown.text@ == lines[shown.line_number - 1]
    }
}

/// Whether every cell of a hunk is a line of the captured sources.
pub open spec fn hunk_is_captured(hunk: ReviewHunk, document: ReviewDiffDocument) -> bool {
    &&& forall|k: int|
        0 <= k < hunk.unified_rows@.len() ==> cell_is_captured(
            (#[trigger] hunk.unified_rows@[k]).old,
            DiffSide::Old,
            document,
        ) && cell_is_captured(hunk.unified_rows@[k].new, DiffSide::New, document)
    &&& forall|k: int|
        0 <= k < hunk.split_rows@.len() ==> cell_is_captured(
            (#[trigger] hunk.split_rows@[k]).old,
            DiffSide::Old,
            document,
        ) && cell_is_captured(hunk.split_rows@[k].new, DiffSide::New, document)
}

/// Whether every cell of every hunk is a line of the captured sources.
pub open spec fn hunks_are_captured(document: ReviewDiffDocument) -> bool {
    forall|h: int|
        0 <= h < document.hunks@.len() ==> hunk_is_captured(
            #[trigger] document.hunks@[h],
            document,
        )
}

/// Whether a line number and a text belong together: the text is that of the
/// line, and there is none where there is no such line.
pub open spec fn text_fits_line(
    line: Option<u32>,
    text: Option<Seq<char>>,
    lines: Seq<Seq<char>>,
) -> bool {
    match line {
        Some(number) => {
            &&& 1 <= number <= lines.len() ==> text == Some(lines[number - 1])
            &&& number > lines.len() && number > 1 ==> text is None
        },
        None => text is None,
    }
}

/// Whether the texts of a row are those of its lines.
pub open spec fn texts_fit_lines(row: RowModel, document: ReviewDiffDocument) -> bool {
    &&& text_fits_line(row.old_line, row.old_text, lines_of(document.old.content@))
    &&& text_fits_line(row.new_line, row.new_text, lines_of(document.new.content@))
}

/// Whether a row is context of a hunk with the texts of its lines.
spec fn is_fitting_context(row: RowModel, hunk_id: Seq<char>, document: ReviewDiffDocument) -> bool {
    texts_fit_lines(row, document) && row.hunk_id == Some(hunk_id) && row.kind == "context"@
}

proof fn lemma_outward_fits(
    hunk_id: Seq<char>,
    phase: Seq<char>,
    old_boundary: Option<u32>,
    new_boundary: Option<u32>,
    extra: u32,
    document: ReviewDiffDocument,
    old_offsets: Seq<u32>,
    new_offsets: Seq<u32>,
    before: bool,
)
    ensures
        ({
            let rows = context_outward(
                hunk_id,
                phase,
                old_boundary,
                new_boundary,
                extra,
                lines_of(document.old.content@),
                lines_of(document.new.content@),
                old_offsets,
                new_offsets,
                before,
            );
            forall|i: int|
                0 <= i < rows.len() ==> is_fitting_context(#[trigger] rows[i], hunk_id, document)
        }),
    decreases extra,
{
    if extra > 0 {
        lemma_outward_fits(
            hunk_id,
            phase,
            old_boundary,
            new_boundary,
            (extra - 1) as u32,
            document,
            old_offsets,
            new_offsets,
            before,
        );
        lemma_one_context_row_fits(
            hunk_id,
            phase,
            old_boundary,
            new_boundary,
            extra,
            document,
            old_offsets,
            new_offsets,
            before,
        );
        let old_lines = lines_of(document.old.content@);
        let new_lines = lines_of(document.new.content@);
        let rows = context_outward(
            hunk_id,
            phase,
            old_boundary,
            new_boundary,
            extra,
            old_lines,
            new_lines,
            old_offsets,
            new_offsets,
            before,
        );
        let nearer = context_outward(
            hunk_id,
            phase,
            old_boundary,
            new_boundary,
            (extra - 1) as u32,
            old_lines,
            new_lines,
            old_offsets,
            new_offsets,
            before,
        );
        assert forall|i: int| 0 <= i < rows.len() implies is_fitting_context(
            #[trigger] rows[i],
            hunk_id,
            document,
        ) by {
            if i < nearer.len() {
                assert(rows[i] == nearer[i]);
            }
        }
    }
}

proof fn lemma_one_context_row_fits(
    hunk_id: Seq<char>,
    phase: Seq<char>,
    old_boundary: Option<u32>,
    new_boundary: Option<u32>,
    offset: u32,
    document: ReviewDiffDocument,
    old_offsets: Seq<u32>,
    new_offsets: Seq<u32>,
    before: bool,
)
    ensures
        context_model(
            hunk_id,
            phase,
            old_boundary,
            new_boundary,
            offset,
            lines_of(document.old.content@),
            lines_of(document.new.content@),
            old_offsets,
            new_offsets,
            before,
        ) matches Some(row) ==> is_fitting_context(row, hunk_id, document),
{
    let old_line = context_line(old_boundary, offset, before);
    let new_line = context_line(new_boundary, offset, before);
    let old_lines = lines_of(document.old.content@);
    let new_lines = lines_of(document.new.content@);
    assert(text_fits_line(old_line, context_text(old_lines, old_line), old_lines));
    assert(text_fits_line(new_line, context_text(new_lines, new_line), new_lines));
}

proof fn lemma_context_fits(
    hunk_id: Seq<char>,
    phase: Seq<char>,
    old_boundary: Option<u32>,
    new_boundary: Option<u32>,
    extra: u32,
    document: ReviewDiffDocument,
    old_offsets: Seq<u32>,
    new_offsets: Seq<u32>,
    before: bool,
)
    ensures
        ({
            let rows = context_models(
                hunk_id,
                phase,
                old_boundary,
                new_boundary,
                extra,
                lines_of(document.old.content@),
                lines_of(document.new.content@),
                old_offsets,
                new_offsets,
                before,
            );
            forall|i: int|
                0 <= i < rows.len() ==> is_fitting_context(#[trigger] rows[i], hunk_id, document)
        }),
{
    lemma_outward_fits(
        hunk_id,
        phase,
        old_boundary,
        new_boundary,
        extra,
        document,
        old_offsets,
        new_offsets,
        before,
    );
}

proof fn lemma_hunk_rows_fit(
    document: ReviewDiffDocument,
    hunk: ReviewHunk,
    split: bool,
    context: u32,
    old_offsets: Seq<u32>,
    new_offsets: Seq<u32>,
)
    requires
        hunk_is_captured(hunk, document),
    ensures
        ({
            let rows = hunk_row_models(
                hunk,
                split,
                context,
                lines_of(document.old.content@),
                lines_of(document.new.content@),
                old_offsets,
                new_offsets,
            );
            forall|i: int|
                0 <= i < rows.len() ==> texts_fit_lines(#[trigger] rows[i], document)
                    && rows[i].hunk_id == Some(hunk.id@)
        }),
{
    let olds = old_lines_of(hunk.unified_rows@);
    let news = new_lines_of(hunk.unified_rows@);
    let extra = (context - 3) as u32;
    lemma_context_fits(
        hunk.id@,
        "before"@,
        first_some(olds),
        first_some(news),
        extra,
        document,
        old_offsets,
        new_offsets,
        true,
    );
    lemma_context_fits(
        hunk.id@,
        "after"@,
        last_some(olds),
        last_some(news),
        extra,
        document,
        old_offsets,
        new_offsets,
        false,
    );
    let body = body_models(hunk, split, old_offsets, new_offsets);
    assert forall|k: int| 0 <= k < body.len() implies texts_fit_lines(#[trigger] body[k], document)
        && body[k].hunk_id == Some(hunk.id@) by {
        if split {
            assert(cell_is_captured(hunk.split_rows@[k].old, DiffSide::Old, document));
        } else {
            assert(cell_is_captured(hunk.unified_rows@[k].old, DiffSide::Old, document));
        }
    }
}

/// The rows of a hunk of the document in a presentation.
spec fn own_rows(
    document: ReviewDiffDocument,
    split: bool,
    contexts: Seq<HunkContext>,
    h: int,
) -> Seq<RowModel> {
    hunk_row_models(
        document.hunks@[h],
        split,
        context_of(contexts, document.hunks@[h].id@),
        lines_of(document.old.content@),
        lines_of(document.new.content@),
        as_offsets(line_starts(encode_utf8(document.old.content@))),
        as_offsets(line_starts(encode_utf8(document.new.content@))),
    )
}

/// The rows of the hunks in front of one come first, then its own.
proof fn lemma_rows_of_hunk(
    document: ReviewDiffDocument,
    split: bool,
    contexts: Seq<HunkContext>,
    h: int,
    count: nat,
)
    requires
        0 <= h < count <= document.hunks@.len(),
    ensures
        ({
            let all = rows_of_hunks(document, split, contexts, count);
            let start = rows_of_hunks(document, split, contexts, h as nat).len();
            let end = rows_of_hunks(document, split, contexts, (h + 1) as nat).len();
            &&& end == start + own_rows(document, split, contexts, h).len()
            &&& end <= all.len()
            &&& all.subrange(start as int, end as int) == own_rows(document, split, contexts, h)
        }),
    decreases count,
{
    let all = rows_of_hunks(document, split, contexts, count);
    let before = rows_of_hunks(document, split, contexts, (count - 1) as nat);
    let start = rows_of_hunks(document, split, contexts, h as nat).len();
    let own = own_rows(document, split, contexts, h);
    assert(all == before + own_rows(document, split, contexts, count - 1));
    if h == count - 1 {
        assert(all.subrange(start as int, all.len() as int) =~= own);
    } else {
        lemma_rows_of_hunk(document, split, contexts, h, (count - 1) as nat);
        let end = rows_of_hunks(document, split, contexts, (h + 1) as nat).len();
        assert(all.subrange(start as int, end as int) =~= before.subrange(
            start as int,
            end as int,
        ));
    }
}

/// Every row belongs to a hunk.
proof fn lemma_hunk_of_row(
    document: ReviewDiffDocument,
    split: bool,
    contexts: Seq<HunkContext>,
    index: int,
    count: nat,
) -> (h: int)
    requires
        count <= document.hunks@.len(),
        0 <= index < rows_of_hunks(document, split, contexts, count).len(),
    ensures
        0 <= h < count,
        rows_of_hunks(document, split, contexts, h as nat).len() <= index < rows_of_hunks(
            document,
            split,
            contexts,
            (h + 1) as nat,
        ).len(),
    decreases count,
{
    if index < rows_of_hunks(document, split, contexts, (count - 1) as nat).len() {
        lemma_hunk_of_row(document, split, contexts, index, (count - 1) as nat)
    } else {
        count - 1
    }
}

/// Whether a mode shows the hunks of a document.
pub open spec fn shows_hunks(mode: Seq<char>) -> bool {
    mode == "unified"@ || mode == "split"@
}

pub proof fn lemma_hunk_modes_are_not_full()
    ensures
        !shows_hunks("full"@),
        "unified"@ != "split"@,
{
    reveal_strlit("unified");
    reveal_strlit("split");
    reveal_strlit("full");
    assert("unified"@[0] == 'u');
    assert("split"@[0] == 's');
    assert("full"@[0] == 'f');
}

/// A row of the unified or side-by-side presentation that carries a line number
/// of a side carries the text of this line of the captured source, be it a row
/// of the hunk or context that was asked for around it. A row without a line of
/// a side has no text of it, and every row belongs to a hunk of the document.
pub proof fn law_hunk_rows_show_their_source_lines(
    presentation: CachedCanonicalPresentation,
    document: ReviewDiffDocument,
    mode: Seq<char>,
    view: FullFileView,
    state: UiStateModel,
    index: int,
)
    requires
        shows_hunks(mode),
        is_canonical(presentation, document, mode, view, state),
        hunks_are_captured(document),
        0 <= index < presentation.rows@.len(),
    ensures
        ({
            let row = presentation.rows@[index]@;
            let old_lines = lines_of(document.old.content@);
            let new_lines = lines_of(document.new.content@);
            &&& row.old_line matches Some(line) ==> 1 <= line <= old_lines.len() ==> row.old_text
                == Some(old_lines[line - 1])
            &&& row.new_line matches Some(line) ==> 1 <= line <= new_lines.len() ==> row.new_text
                == Some(new_lines[line - 1])
            &&& row.old_line is None ==> row.old_text is None
            &&& row.new_line is None ==> row.new_text is None
            &&& exists|h: int|
                0 <= h < document.hunks@.len() && row.hunk_id == Some(
                    (#[trigger] document.hunks@[h]).id@,
                )
        }),
{
    lemma_hunk_modes_are_not_full();
    let split = mode == "split"@;
    let contexts = state.hunk_context_lines;
    let count = document.hunks@.len();
    let all = rows_of_hunks(document, split, contexts, count);
    assert(row_models(presentation.rows@)[index] == presentation.rows@[index]@);
    let h = lemma_hunk_of_row(document, split, contexts, index, count);
    lemma_rows_of_hunk(document, split, contexts, h, count);
    let own = own_rows(document, split, contexts, h);
    let start = rows_of_hunks(document, split, contexts, h as nat).len();
    let end = rows_of_hunks(document, split, contexts, (h + 1) as nat).len();
    assert(all.subrange(start as int, end as int)[index - start] == all[index]);
    assert(own[index - start] == all[index]);
    lemma_hunk_rows_fit(
        document,
        document.hunks@[h],
        split,
        context_of(contexts, document.hunks@[h].id@),
        as_offsets(line_starts(encode_utf8(document.old.content@))),
        as_offsets(line_starts(encode_utf8(document.new.content@))),
    );
    assert(texts_fit_lines(own[index - start], document));
    assert(document.hunks@[h].id@ == presentation.rows@[index]@.hunk_id->0);
}

pub proof fn lemma_first_some(values: Seq<Option<u32>>, k: int)
    requires
        0 <= k < values.len(),
        values[k] is Some,
        forall|j: int| 0 <= j < k ==> (#[trigger] values[j]) is None,
    ensures
        first_some(values) == values[k],
    decreases values.len(),
{
    if k < values.len() - 1 {
        lemma_first_some(values.drop_last(), k);
    } else {
        lemma_none_is_first(values.drop_last());
    }
}

proof fn lemma_none_is_first(values: Seq<Option<u32>>)
    requires
        forall|j: int| 0 <= j < values.len() ==> (#[trigger] values[j]) is None,
    ensures
        first_some(values) is None,
    decreases values.len(),
{
    if values.len() > 0 {
        lemma_none_is_first(values.drop_last());
        assert(values[values.len() - 1] is None);
    }
}

proof fn lemma_last_some(values: Seq<Option<u32>>, k: int)
    requires
        0 <= k < values.len(),
        values[k] is Some,
        forall|j: int| k < j < values.len() ==> (#[trigger] values[j]) is None,
    ensures
        last_some(values) == values[k],
    decreases values.len(),
{
    if k < values.len() - 1 {
        assert(values[values.len() - 1] is None);
        lemma_last_some(values.drop_last(), k);
    }
}

pub proof fn lemma_requested(contexts: Seq<HunkContext>, hunk_id: Seq<char>, asked: u32)
    requires
        forall|j: int|
            0 <= j < contexts.len() && (#[trigger] contexts[j]).hunk_id@ == hunk_id
                ==> contexts[j].lines == asked,
    ensures
        requested_context(contexts, hunk_id) matches Some(lines) ==> lines == asked,
        requested_context(contexts, hunk_id) is Some <==> exists|j: int|
            0 <= j < contexts.len() && (#[trigger] contexts[j]).hunk_id@ == hunk_id,
    decreases contexts.len(),
{
    if contexts.len() > 0 {
        let less = contexts.drop_last();
        let last = contexts.len() - 1;
        assert forall|j: int| 0 <= j < less.len() && (#[trigger] less[j]).hunk_id@
            == hunk_id implies less[j].lines == asked by {
            assert(contexts[j] == less[j]);
        }
        lemma_requested(less, hunk_id, asked);
        assert(contexts[last] == contexts.last());
        if requested_context(less, hunk_id) is Some {
            let j = choose|j: int| 0 <= j < less.len() && (#[trigger] less[j]).hunk_id@ == hunk_id;
            assert(contexts[j].hunk_id@ == hunk_id);
        } else if contexts.last().hunk_id@ != hunk_id {
            assert forall|j: int| 0 <= j < contexts.len() implies (#[trigger] contexts[j]).hunk_id@
                != hunk_id by {
                if j < last {
                    assert(less[j] == contexts[j]);
                }
            }
        }
    }
}

/// Context rows up to where both sources end are there without a gap.
proof fn lemma_context_has_no_gap(
    hunk_id: Seq<char>,
    phase: Seq<char>,
    old_boundary: Option<u32>,
    new_boundary: Option<u32>,
    extra: u32,
    old_lines: Seq<Seq<char>>,
    new_lines: Seq<Seq<char>>,
    old_offsets: Seq<u32>,
    new_offsets: Seq<u32>,
    before: bool,
    reach: int,
)
    requires
        0 <= reach,
        forall|d: u32|
            1 <= d ==> ((#[trigger] context_model(
                hunk_id,
                phase,
                old_boundary,
                new_boundary,
                d,
                old_lines,
                new_lines,
                old_offsets,
                new_offsets,
                before,
            )) is Some <==> d <= reach),
    ensures
        ({
            let outward = context_outward(
                hunk_id,
                phase,
                old_boundary,
                new_boundary,
                extra,
                old_lines,
                new_lines,
                old_offsets,
                new_offsets,
                before,
            );
            &&& outward.len() == if extra <= reach {
                extra as int
            } else {
                reach
            }
            &&& forall|i: int|
                0 <= i < outward.len() ==> Some(#[trigger] outward[i]) == context_model(
                    hunk_id,
                    phase,
                    old_boundary,
                    new_boundary,
                    (i + 1) as u32,
                    old_lines,
                    new_lines,
                    old_offsets,
                    new_offsets,
                    before,
                )
        }),
    decreases extra,
{
    if extra > 0 {
        lemma_context_has_no_gap(
            hunk_id,
            phase,
            old_boundary,
            new_boundary,
            (extra - 1) as u32,
            old_lines,
            new_lines,
            old_offsets,
            new_offsets,
            before,
            reach,
        );
    }
}

/// Whether a row of a hunk is the first that shows a line of a side.
pub open spec fn is_first_cell(rows: Seq<UnifiedRow>, side: DiffSide, k: int) -> bool {
    &&& 0 <= k < rows.len()
    &&& side_of(rows[k], side) is Some
    &&& forall|j: int| 0 <= j < k ==> side_of(#[trigger] rows[j], side) is None
}

/// Whether a row of a hunk is the last that shows a line of a side.
pub open spec fn is_last_cell(rows: Seq<UnifiedRow>, side: DiffSide, k: int) -> bool {
    &&& 0 <= k < rows.len()
    &&& side_of(rows[k], side) is Some
    &&& forall|j: int| k < j < rows.len() ==> side_of(#[trigger] rows[j], side) is None
}

/// The cell of a row on a side.
pub open spec fn side_of(row: UnifiedRow, side: DiffSide) -> Option<DiffCell> {
    match side {
        DiffSide::Old => row.old,
        DiffSide::New => row.new,
    }
}

/// A line number, if it is one.
pub open spec fn as_line(number: int) -> Option<u32> {
    if 0 <= number <= u32::MAX {
        Some(number as u32)
    } else {
        None
    }
}

/// The greater of two numbers.
pub open spec fn greater_of(a: int, b: int) -> int {
    if a >= b {
        a
    } else {
        b
    }
}

/// How many lines beyond a hunk are asked for, on each side of it: those
/// beyond three, of which at most 1200 are shown.
pub open spec fn lines_beyond(asked: u32) -> int {
    if asked <= 3 {
        0
    } else if asked >= 1200 {
        1197
    } else {
        asked - 3
    }
}

/// Whether a row of the presentation shows a row of a hunk.
pub open spec fn shows_own_row(row: RowModel, hunk: ReviewHunk, split: bool, k: int) -> bool {
    let (id, old_cell, new_cell) = if split {
        (hunk.split_rows@[k].id@, hunk.split_rows@[k].old, hunk.split_rows@[k].new)
    } else {
        (hunk.unified_rows@[k].id@, hunk.unified_rows@[k].old, hunk.unified_rows@[k].new)
    };
    &&& row.id == id
    &&& match old_cell {
        Some(cell) => row.old_line == Some(cell.line_number) && row.old_text == Some(cell.text@),
        None => row.old_line is None && row.old_text is None,
    }
    &&& match new_cell {
        Some(cell) => row.new_line == Some(cell.line_number) && row.new_text == Some(cell.text@),
        None => row.new_line is None && row.new_text is None,
    }
    &&& split ==> {
        &&& old_cell is Some && new_cell is Some ==> row.kind == "context"@
        &&& old_cell is Some && new_cell is None ==> row.kind == "deletion"@
        &&& old_cell is None && new_cell is Some ==> row.kind == "addition"@
    }
    &&& !split ==> row.kind == match hunk.unified_rows@[k].kind {
        DiffLineKind::Context => "context"@,
        DiffLineKind::Addition => "addition"@,
        DiffLineKind::Removal => "deletion"@,
    }
}

/// How many rows a hunk has of its own.
pub open spec fn own_count(hunk: ReviewHunk, split: bool) -> nat {
    if split {
        hunk.split_rows@.len()
    } else {
        hunk.unified_rows@.len()
    }
}

/// Whether rows of a presentation are those of a hunk: its header, then as much
/// context as is asked for and there is, line by line up to its first lines,
/// then its own rows in order, then the context behind its last lines.
pub open spec fn is_laid_out(
    rows: Seq<RowModel>,
    hunk: ReviewHunk,
    split: bool,
    above: int,
    below: int,
    first: (int, int),
    last: (int, int),
) -> bool {
    let own = own_count(hunk, split);
    &&& rows.len() == 1 + above + own + below
    &&& rows[0].kind == "header"@ && rows[0].hunk == Some(header_chars(hunk.header))
    &&& rows[0].old_line is None && rows[0].new_line is None
    &&& forall|i: int|
        0 <= i < above ==> {
            let row = #[trigger] rows[1 + i];
            &&& row.kind == "context"@
            &&& row.old_line == as_line(first.0 - above + i)
            &&& row.new_line == as_line(first.1 - above + i)
        }
    &&& forall|k: int|
        0 <= k < own ==> shows_own_row(#[trigger] rows[1 + above + k], hunk, split, k)
    &&& forall|i: int|
        0 <= i < below ==> {
            let row = #[trigger] rows[1 + above + own + i];
            &&& row.kind == "context"@
            &&& row.old_line == as_line(last.0 + 1 + i)
            &&& row.new_line == as_line(last.1 + 1 + i)
        }
    &&& forall|i: int| 0 <= i < rows.len() ==> (#[trigger] rows[i]).hunk_id == Some(hunk.id@)
}

/// Above a hunk there is context as long as one of the sources goes on.
proof fn lemma_reach_above(
    hunk_id: Seq<char>,
    first: (u32, u32),
    old_lines: Seq<Seq<char>>,
    new_lines: Seq<Seq<char>>,
    old_offsets: Seq<u32>,
    new_offsets: Seq<u32>,
    d: u32,
)
    requires
        1 <= first.0 <= old_lines.len(),
        1 <= first.1 <= new_lines.len(),
        1 <= d,
    ensures
        ({
            let row = context_model(
                hunk_id,
                "before"@,
                Some(first.0),
                Some(first.1),
                d,
                old_lines,
                new_lines,
                old_offsets,
                new_offsets,
                true,
            );
            &&& row is Some <==> d <= greater_of(first.0 as int, first.1 as int)
            &&& row matches Some(shown) ==> shown.kind == "context"@ && shown.old_line == as_line(
                first.0 - d,
            ) && shown.new_line == as_line(first.1 - d)
        }),
{
}

/// Below a hunk there is context as long as one of the sources goes on.
proof fn lemma_reach_below(
    hunk_id: Seq<char>,
    last: (u32, u32),
    old_lines: Seq<Seq<char>>,
    new_lines: Seq<Seq<char>>,
    old_offsets: Seq<u32>,
    new_offsets: Seq<u32>,
    d: u32,
)
    requires
        1 <= last.0 <= old_lines.len() < u32::MAX,
        1 <= last.1 <= new_lines.len() < u32::MAX,
        1 <= d,
    ensures
        ({
            let row = context_model(
                hunk_id,
                "after"@,
                Some(last.0),
                Some(last.1),
                d,
                old_lines,
                new_lines,
                old_offsets,
                new_offsets,
                false,
            );
            &&& row is Some <==> d <= greater_of(
                old_lines.len() - last.0,
                new_lines.len() - last.1,
            )
            &&& row matches Some(shown) ==> shown.kind == "context"@ && shown.old_line == as_line(
                last.0 + d,
            ) && shown.new_line == as_line(last.1 + d)
        }),
{
}

/// Whether context rows above a hunk lead up to its first lines.
spec fn leads_up(rows: Seq<RowModel>, first: (u32, u32)) -> bool {
    forall|i: int|
        0 <= i < rows.len() ==> {
            let row = #[trigger] rows[i];
            &&& row.kind == "context"@
            &&& row.old_line == as_line(first.0 - rows.len() + i)
            &&& row.new_line == as_line(first.1 - rows.len() + i)
        }
}

/// Whether context rows below a hunk go on behind its last lines.
spec fn goes_on(rows: Seq<RowModel>, last: (u32, u32)) -> bool {
    forall|i: int|
        0 <= i < rows.len() ==> {
            let row = #[trigger] rows[i];
            &&& row.kind == "context"@
            &&& row.old_line == as_line(last.0 + 1 + i)
            &&& row.new_line == as_line(last.1 + 1 + i)
        }
}

proof fn lemma_context_above(
    hunk_id: Seq<char>,
    first: (u32, u32),
    extra: u32,
    old_lines: Seq<Seq<char>>,
    new_lines: Seq<Seq<char>>,
    old_offsets: Seq<u32>,
    new_offsets: Seq<u32>,
)
    requires
        1 <= first.0 <= old_lines.len(),
        1 <= first.1 <= new_lines.len(),
    ensures
        ({
            let rows = context_models(
                hunk_id,
                "before"@,
                Some(first.0),
                Some(first.1),
                extra,
                old_lines,
                new_lines,
                old_offsets,
                new_offsets,
                true,
            );
            let there = greater_of(first.0 as int, first.1 as int);
            &&& rows.len() == if extra <= there {
                extra as int
            } else {
                there
            }
            &&& leads_up(rows, first)
        }),
{
    let there = greater_of(first.0 as int, first.1 as int);
    assert forall|d: u32| 1 <= d implies ((#[trigger] context_model(
        hunk_id,
        "before"@,
        Some(first.0),
        Some(first.1),
        d,
        old_lines,
        new_lines,
        old_offsets,
        new_offsets,
        true,
    )) is Some <==> d <= there) by {
        lemma_reach_above(hunk_id, first, old_lines, new_lines, old_offsets, new_offsets, d);
    }
    lemma_context_has_no_gap(
        hunk_id,
        "before"@,
        Some(first.0),
        Some(first.1),
        extra,
        old_lines,
        new_lines,
        old_offsets,
        new_offsets,
        true,
        there,
    );
    let outward = context_outward(
        hunk_id,
        "before"@,
        Some(first.0),
        Some(first.1),
        extra,
        old_lines,
        new_lines,
        old_offsets,
        new_offsets,
        true,
    );
    let rows = outward.reverse();
    assert forall|i: int| 0 <= i < rows.len() implies ({
        let row = #[trigger] rows[i];
        &&& row.kind == "context"@
        &&& row.old_line == as_line(first.0 - rows.len() + i)
        &&& row.new_line == as_line(first.1 - rows.len() + i)
    }) by {
        let k = outward.len() - 1 - i;
        assert(rows[i] == outward[k]);
        lemma_reach_above(
            hunk_id,
            first,
            old_lines,
            new_lines,
            old_offsets,
            new_offsets,
            (k + 1) as u32,
        );
    }
}

proof fn lemma_context_below(
    hunk_id: Seq<char>,
    last: (u32, u32),
    extra: u32,
    old_lines: Seq<Seq<char>>,
    new_lines: Seq<Seq<char>>,
    old_offsets: Seq<u32>,
    new_offsets: Seq<u32>,
)
    requires
        1 <= last.0 <= old_lines.len() < u32::MAX,
        1 <= last.1 <= new_lines.len() < u32::MAX,
    ensures
        ({
            let rows = context_models(
                hunk_id,
                "after"@,
                Some(last.0),
                Some(last.1),
                extra,
                old_lines,
                new_lines,
                old_offsets,
                new_offsets,
                false,
            );
            let there = greater_of(old_lines.len() - last.0, new_lines.len() - last.1);
            &&& rows.len() == if extra <= there {
                extra as int
            } else {
                there
            }
            &&& goes_on(rows, last)
        }),
{
    let there = greater_of(old_lines.len() - last.0, new_lines.len() - last.1);
    assert forall|d: u32| 1 <= d implies ((#[trigger] context_model(
        hunk_id,
        "after"@,
        Some(last.0),
        Some(last.1),
        d,
        old_lines,
        new_lines,
        old_offsets,
        new_offsets,
        false,
    )) is Some <==> d <= there) by {
        lemma_reach_below(hunk_id, last, old_lines, new_lines, old_offsets, new_offsets, d);
    }
    lemma_context_has_no_gap(
        hunk_id,
        "after"@,
        Some(last.0),
        Some(last.1),
        extra,
        old_lines,
        new_lines,
        old_offsets,
        new_offsets,
        false,
        there,
    );
    let rows = context_outward(
        hunk_id,
        "after"@,
        Some(last.0),
        Some(last.1),
        extra,
        old_lines,
        new_lines,
        old_offsets,
        new_offsets,
        false,
    );
    assert forall|i: int| 0 <= i < rows.len() implies ({
        let row = #[trigger] rows[i];
        &&& row.kind == "context"@
        &&& row.old_line == as_line(last.0 + 1 + i)
        &&& row.new_line == as_line(last.1 + 1 + i)
    }) by {
        lemma_reach_below(
            hunk_id,
            last,
            old_lines,
            new_lines,
            old_offsets,
            new_offsets,
            (i + 1) as u32,
        );
    }
}

proof fn lemma_own_rows_are_shown(
    hunk: ReviewHunk,
    split: bool,
    old_offsets: Seq<u32>,
    new_offsets: Seq<u32>,
)
    ensures
        ({
            let body = body_models(hunk, split, old_offsets, new_offsets);
            &&& body.len() == own_count(hunk, split)
            &&& forall|k: int|
                0 <= k < body.len() ==> shows_own_row(#[trigger] body[k], hunk, split, k)
        }),
{
    let body = body_models(hunk, split, old_offsets, new_offsets);
    assert forall|k: int| 0 <= k < body.len() implies shows_own_row(
        #[trigger] body[k],
        hunk,
        split,
        k,
    ) by {
        if split {
            assert(hunk.split_rows@[k] == hunk.split_rows@[k]);
        } else {
            assert(hunk.unified_rows@[k] == hunk.unified_rows@[k]);
        }
    }
}

proof fn lemma_layout(
    document: ReviewDiffDocument,
    hunk: ReviewHunk,
    split: bool,
    context: u32,
    old_offsets: Seq<u32>,
    new_offsets: Seq<u32>,
    first: (u32, u32),
    last: (u32, u32),
)
    requires
        hunk_is_captured(hunk, document),
        context >= 3,
        first_some(old_lines_of(hunk.unified_rows@)) == Some(first.0),
        first_some(new_lines_of(hunk.unified_rows@)) == Some(first.1),
        last_some(old_lines_of(hunk.unified_rows@)) == Some(last.0),
        last_some(new_lines_of(hunk.unified_rows@)) == Some(last.1),
        1 <= first.0 <= lines_of(document.old.content@).len() < u32::MAX,
        1 <= first.1 <= lines_of(document.new.content@).len() < u32::MAX,
        1 <= last.0 <= lines_of(document.old.content@).len(),
        1 <= last.1 <= lines_of(document.new.content@).len(),
    ensures
        ({
            let above_there = greater_of(first.0 as int, first.1 as int);
            let below_there = greater_of(
                lines_of(document.old.content@).len() - last.0,
                lines_of(document.new.content@).len() - last.1,
            );
            let beyond = context - 3;
            is_laid_out(
                hunk_row_models(
                    hunk,
                    split,
                    context,
                    lines_of(document.old.content@),
                    lines_of(document.new.content@),
                    old_offsets,
                    new_offsets,
                ),
                hunk,
                split,
                if beyond <= above_there {
                    beyond
                } else {
                    above_there
                },
                if beyond <= below_there {
                    beyond
                } else {
                    below_there
                },
                (first.0 as int, first.1 as int),
                (last.0 as int, last.1 as int),
            )
        }),
{
    let old_lines = lines_of(document.old.content@);
    let new_lines = lines_of(document.new.content@);
    let extra = (context - 3) as u32;
    let rows = hunk_row_models(
        hunk,
        split,
        context,
        old_lines,
        new_lines,
        old_offsets,
        new_offsets,
    );
    lemma_context_above(hunk.id@, first, extra, old_lines, new_lines, old_offsets, new_offsets);
    lemma_context_below(hunk.id@, last, extra, old_lines, new_lines, old_offsets, new_offsets);
    lemma_own_rows_are_shown(hunk, split, old_offsets, new_offsets);
    lemma_hunk_rows_fit(document, hunk, split, context, old_offsets, new_offsets);
    let head = seq![crate::canonical::header_model(hunk)];
    let upper = context_models(
        hunk.id@,
        "before"@,
        Some(first.0),
        Some(first.1),
        extra,
        old_lines,
        new_lines,
        old_offsets,
        new_offsets,
        true,
    );
    let body = body_models(hunk, split, old_offsets, new_offsets);
    let lower = context_models(
        hunk.id@,
        "after"@,
        Some(last.0),
        Some(last.1),
        extra,
        old_lines,
        new_lines,
        old_offsets,
        new_offsets,
        false,
    );
    assert(rows == head + upper + body + lower);
    let above = upper.len();
    assert forall|i: int| 0 <= i < upper.len() implies #[trigger] rows[1 + i] == upper[i] by {}
    assert forall|k: int| 0 <= k < body.len() implies #[trigger] rows[1 + above + k] == body[k] by {}
    assert forall|i: int| 0 <= i < lower.len() implies #[trigger] rows[1 + above + body.len() + i]
        == lower[i] by {}
}

/// The location of a hunk points at its header, and what follows up to the
/// next hunk is laid out in reading order: the context asked for above it, its
/// own rows, the context asked for below it. Context goes as far as it is asked
/// for, or to the end of the longer source.
pub proof fn law_hunks_are_laid_out_with_their_context(
    presentation: CachedCanonicalPresentation,
    document: ReviewDiffDocument,
    mode: Seq<char>,
    view: FullFileView,
    state: UiStateModel,
    h: int,
    asked: u32,
    first_rows: (int, int),
    last_rows: (int, int),
)
    requires
        shows_hunks(mode),
        is_canonical(presentation, document, mode, view, state),
        hunks_are_captured(document),
        presentation.rows@.len() <= u32::MAX,
        lines_of(document.old.content@).len() < u32::MAX,
        lines_of(document.new.content@).len() < u32::MAX,
        0 <= h < document.hunks@.len(),
        is_first_cell(document.hunks@[h].unified_rows@, DiffSide::Old, first_rows.0),
        is_first_cell(document.hunks@[h].unified_rows@, DiffSide::New, first_rows.1),
        is_last_cell(document.hunks@[h].unified_rows@, DiffSide::Old, last_rows.0),
        is_last_cell(document.hunks@[h].unified_rows@, DiffSide::New, last_rows.1),
        forall|j: int|
            0 <= j < state.hunk_context_lines.len() && (
            #[trigger] state.hunk_context_lines[j]).hunk_id@ == document.hunks@[h].id@
                ==> state.hunk_context_lines[j].lines == asked,
        asked == 3 || exists|j: int|
            0 <= j < state.hunk_context_lines.len() && (
            #[trigger] state.hunk_context_lines[j]).hunk_id@ == document.hunks@[h].id@,
    ensures
        presentation.hunks@.len() == document.hunks@.len(),
        ({
            let hunk = document.hunks@[h];
            let start = presentation.hunks@[h]@.row_index as int;
            let end = if h + 1 < presentation.hunks@.len() {
                presentation.hunks@[h + 1]@.row_index as int
            } else {
                presentation.rows@.len() as int
            };
            let first_old = hunk.unified_rows@[first_rows.0].old->0.line_number as int;
            let first_new = hunk.unified_rows@[first_rows.1].new->0.line_number as int;
            let last_old = hunk.unified_rows@[last_rows.0].old->0.line_number as int;
            let last_new = hunk.unified_rows@[last_rows.1].new->0.line_number as int;
            let above_there = greater_of(first_old, first_new);
            let below_there = greater_of(
                lines_of(document.old.content@).len() - last_old,
                lines_of(document.new.content@).len() - last_new,
            );
            let beyond = lines_beyond(asked);
            &&& 0 <= start < end <= presentation.rows@.len()
            &&& h == 0 ==> start == 0
            &&& presentation.hunks@[h]@.id == hunk.id@
            &&& is_laid_out(
                row_models(presentation.rows@).subrange(start, end),
                hunk,
                mode == "split"@,
                if beyond <= above_there {
                    beyond
                } else {
                    above_there
                },
                if beyond <= below_there {
                    beyond
                } else {
                    below_there
                },
                (first_old, first_new),
                (last_old, last_new),
            )
        }),
{
    lemma_hunk_modes_are_not_full();
    let split = mode == "split"@;
    let contexts = state.hunk_context_lines;
    let count = document.hunks@.len();
    let hunk = document.hunks@[h];
    let all = rows_of_hunks(document, split, contexts, count);
    let old_lines = lines_of(document.old.content@);
    let new_lines = lines_of(document.new.content@);
    let old_offsets = as_offsets(line_starts(encode_utf8(document.old.content@)));
    let new_offsets = as_offsets(line_starts(encode_utf8(document.new.content@)));
    let rows = hunk.unified_rows@;
    let olds = old_lines_of(rows);
    let news = new_lines_of(rows);
    assert(row_models(presentation.rows@) == all);
    assert(all.len() == presentation.rows@.len());
    lemma_rows_of_hunk(document, split, contexts, h, count);
    assert(hunk_models(presentation.hunks@)[h] == hunk_location_model(
        document,
        split,
        contexts,
        h as nat,
    ));
    assert(presentation.hunks@.len() == hunk_models(presentation.hunks@).len());
    if h + 1 < count {
        lemma_rows_of_hunk(document, split, contexts, h + 1, count);
        assert(hunk_models(presentation.hunks@)[h + 1] == hunk_location_model(
            document,
            split,
            contexts,
            (h + 1) as nat,
        ));
    }
    assert(cell_is_captured(rows[first_rows.0].old, DiffSide::Old, document));
    assert(cell_is_captured(rows[first_rows.1].new, DiffSide::New, document));
    assert(cell_is_captured(rows[last_rows.0].old, DiffSide::Old, document));
    assert(cell_is_captured(rows[last_rows.1].new, DiffSide::New, document));
    assert forall|j: int| 0 <= j < first_rows.0 implies (#[trigger] olds[j]) is None by {
        assert(side_of(rows[j], DiffSide::Old) is None);
    }
    assert forall|j: int| 0 <= j < first_rows.1 implies (#[trigger] news[j]) is None by {
        assert(side_of(rows[j], DiffSide::New) is None);
    }
    assert forall|j: int| last_rows.0 < j < olds.len() implies (#[trigger] olds[j]) is None by {
        assert(side_of(rows[j], DiffSide::Old) is None);
    }
    assert forall|j: int| last_rows.1 < j < news.len() implies (#[trigger] news[j]) is None by {
        assert(side_of(rows[j], DiffSide::New) is None);
    }
    lemma_first_some(olds, first_rows.0);
    lemma_first_some(news, first_rows.1);
    lemma_last_some(olds, last_rows.0);
    lemma_last_some(news, last_rows.1);
    lemma_requested(contexts, hunk.id@, asked);
    let context = context_of(contexts, hunk.id@);
    let extra = (context - 3) as u32;
    assert(extra == lines_beyond(asked));
    let first_old = rows[first_rows.0].old->0.line_number;
    let first_new = rows[first_rows.1].new->0.line_number;
    let last_old = rows[last_rows.0].old->0.line_number;
    let last_new = rows[last_rows.1].new->0.line_number;
    lemma_layout(
        document,
        hunk,
        split,
        context,
        old_offsets,
        new_offsets,
        (first_old, first_new),
        (last_old, last_new),
    );
}

/// Whether a row tells where its lines start just where it has them, as the
/// offsets have it.
spec fn starts_fit_lines(row: RowModel, old_offsets: Seq<u32>, new_offsets: Seq<u32>) -> bool {
    &&& row.old_source_start_byte == match row.old_line {
        Some(line) => Some(offset_of(old_offsets, line)),
        None => None,
    }
    &&& row.new_source_start_byte == match row.new_line {
        Some(line) => Some(offset_of(new_offsets, line)),
        None => None,
    }
}

proof fn lemma_outward_starts(
    hunk_id: Seq<char>,
    phase: Seq<char>,
    old_boundary: Option<u32>,
    new_boundary: Option<u32>,
    extra: u32,
    document: ReviewDiffDocument,
    old_offsets: Seq<u32>,
    new_offsets: Seq<u32>,
    before: bool,
)
    ensures
        ({
            let rows = context_outward(
                hunk_id,
                phase,
                old_boundary,
                new_boundary,
                extra,
                lines_of(document.old.content@),
                lines_of(document.new.content@),
                old_offsets,
                new_offsets,
                before,
            );
            forall|i: int|
                0 <= i < rows.len() ==> starts_fit_lines(
                    #[trigger] rows[i],
                    old_offsets,
                    new_offsets,
                )
        }),
    decreases extra,
{
    if extra > 0 {
        lemma_outward_starts(
            hunk_id,
            phase,
            old_boundary,
            new_boundary,
            (extra - 1) as u32,
            document,
            old_offsets,
            new_offsets,
            before,
        );
        let old_lines = lines_of(document.old.content@);
        let new_lines = lines_of(document.new.content@);
        let rows = context_outward(
            hunk_id,
            phase,
            old_boundary,
            new_boundary,
            extra,
            old_lines,
            new_lines,
            old_offsets,
            new_offsets,
            before,
        );
        let nearer = context_outward(
            hunk_id,
            phase,
            old_boundary,
            new_boundary,
            (extra - 1) as u32,
            old_lines,
            new_lines,
            old_offsets,
            new_offsets,
            before,
        );
        assert forall|i: int| 0 <= i < rows.len() implies starts_fit_lines(
            #[trigger] rows[i],
            old_offsets,
            new_offsets,
        ) by {
            if i < nearer.len() {
                assert(rows[i] == nearer[i]);
            }
        }
    }
}

proof fn lemma_hunk_row_starts(
    document: ReviewDiffDocument,
    hunk: ReviewHunk,
    split: bool,
    context: u32,
    old_offsets: Seq<u32>,
    new_offsets: Seq<u32>,
)
    ensures
        ({
            let rows = hunk_row_models(
                hunk,
                split,
                context,
                lines_of(document.old.content@),
                lines_of(document.new.content@),
                old_offsets,
                new_offsets,
            );
            forall|i: int|
                0 <= i < rows.len() ==> starts_fit_lines(
                    #[trigger] rows[i],
                    old_offsets,
                    new_offsets,
                )
        }),
{
    let olds = old_lines_of(hunk.unified_rows@);
    let news = new_lines_of(hunk.unified_rows@);
    let extra = (context - 3) as u32;
    lemma_outward_starts(
        hunk.id@,
        "before"@,
        first_some(olds),
        first_some(news),
        extra,
        document,
        old_offsets,
        new_offsets,
        true,
    );
    lemma_outward_starts(
        hunk.id@,
        "after"@,
        last_some(olds),
        last_some(news),
        extra,
        document,
        old_offsets,
        new_offsets,
        false,
    );
    let body = body_models(hunk, split, old_offsets, new_offsets);
    assert forall|k: int| 0 <= k < body.len() implies starts_fit_lines(
        #[trigger] body[k],
        old_offsets,
        new_offsets,
    ) by {}
}

/// Whether a line of a source begins at a byte: what stands there and behind it
/// begins with that line.
pub open spec fn line_begins_at(source: Seq<char>, line: u32, byte: u32) -> bool {
    let rest = lines_of(decode_utf8(encode_utf8(source).skip(byte as int)));
    &&& byte <= encode_utf8(source).len()
    &&& rest.len() > 0
    &&& rest[0] == lines_of(source)[line - 1]
}

/// A row of a hunk presentation tells where its lines start in the captured
/// sources, on each side on which it has one.
pub proof fn law_hunk_rows_tell_where_their_lines_start(
    presentation: CachedCanonicalPresentation,
    document: ReviewDiffDocument,
    mode: Seq<char>,
    view: FullFileView,
    state: UiStateModel,
    index: int,
)
    requires
        shows_hunks(mode),
        is_canonical(presentation, document, mode, view, state),
        0 <= index < presentation.rows@.len(),
        encode_utf8(document.old.content@).len() <= u32::MAX,
        encode_utf8(document.new.content@).len() <= u32::MAX,
    ensures
        ({
            let row = presentation.rows@[index]@;
            &&& row.old_source_start_byte is Some <==> row.old_line is Some
            &&& row.new_source_start_byte is Some <==> row.new_line is Some
            &&& row.old_line matches Some(line) ==> 1 <= line <= lines_of(
                document.old.content@,
            ).len() ==> line_begins_at(
                document.old.content@,
                line,
                row.old_source_start_byte->0,
            )
            &&& row.new_line matches Some(line) ==> 1 <= line <= lines_of(
                document.new.content@,
            ).len() ==> line_begins_at(
                document.new.content@,
                line,
                row.new_source_start_byte->0,
            )
        }),
{
    lemma_hunk_modes_are_not_full();
    let split = mode == "split"@;
    let contexts = state.hunk_context_lines;
    let count = document.hunks@.len();
    let all = rows_of_hunks(document, split, contexts, count);
    let old_offsets = as_offsets(line_starts(encode_utf8(document.old.content@)));
    let new_offsets = as_offsets(line_starts(encode_utf8(document.new.content@)));
    assert(row_models(presentation.rows@)[index] == presentation.rows@[index]@);
    let h = lemma_hunk_of_row(document, split, contexts, index, count);
    lemma_rows_of_hunk(document, split, contexts, h, count);
    let own = own_rows(document, split, contexts, h);
    let start = rows_of_hunks(document, split, contexts, h as nat).len();
    let end = rows_of_hunks(document, split, contexts, (h + 1) as nat).len();
    assert(all.subrange(start as int, end as int)[index - start] == all[index]);
    assert(own[index - start] == all[index]);
    lemma_hunk_row_starts(
        document,
        document.hunks@[h],
        split,
        context_of(contexts, document.hunks@[h].id@),
        old_offsets,
        new_offsets,
    );
    let row = presentation.rows@[index]@;
    assert(starts_fit_lines(row, old_offsets, new_offsets));
    if let Some(line) = row.old_line {
        law_text_from_an_offset_begins_with_its_line(document.old.content@, line);
    }
    if let Some(line) = row.new_line {
        law_text_from_an_offset_begins_with_its_line(document.new.content@, line);
    }
}

} // verus!
