//! The full-file presentation: a complete source in which runs of changed
//! lines can be folded away.
use crate::canonical::{first_some, line_or_header, plain_model, plain_row};
use crate::document::{
    cell_line, format_hunk_header, header_chars, line_of, side_chars, side_line_count, side_name,
    side_source, DiffLineKind, DiffSide, FullFileRow, ReviewDiffDocument, ReviewHunk, SplitRow,
    UnifiedRow,
};
use crate::errors::{invalid, DispatchError};
use crate::ids::{id_chars, id_text, ComparisonId, ReviewFileId};
use crate::rows::{
    distance, is_nearest, line_distance, nearest, BlockViewModel, HunkModel, RowModel,
};
use crate::source_lines::{offset_of, source_offset};
use crate::text::{decimal, push_decimal, row_number, text_eq, to_row_number};
use crate::text_set::TextSet;
use crate::views::{DiffRowView, FullFileOmittedBlockView, HunkLocationView};
use vstd::prelude::*;
use vstd::string::*;

verus! {

/// Which source the full-file presentation completes.
#[derive(Clone, Copy, Debug, PartialEq, Eq, Structural)]
pub enum FullFileView {
    Old,
    New,
    Both,
}

/// The name of a full-file view.
pub open spec fn view_chars(view: FullFileView) -> Seq<char> {
    match view {
        FullFileView::Old => "old"@,
        FullFileView::New => "new"@,
        FullFileView::Both => "both"@,
    }
}

impl FullFileView {
    /// The name of the view.
    pub fn name(self) -> (name: &'static str)
        ensures
            name@ == view_chars(self),
    {
        match self {
            FullFileView::Old => "old",
            FullFileView::New => "new",
            FullFileView::Both => "both",
        }
    }

    /// The side whose lines the view counts by.
    pub open spec fn primary(self) -> DiffSide {
        match self {
            FullFileView::Old => DiffSide::Old,
            _ => DiffSide::New,
        }
    }

    /// The side whose lines the view counts by.
    pub fn primary_side(self) -> (side: DiffSide)
        ensures
            side == self.primary(),
    {
        match self {
            FullFileView::Old => DiffSide::Old,
            FullFileView::New | FullFileView::Both => DiffSide::New,
        }
    }
}

/// The view a text names, if it names one.
pub open spec fn named_view(value: Seq<char>) -> Option<FullFileView> {
    if value == "old"@ {
        Some(FullFileView::Old)
    } else if value == "new"@ {
        Some(FullFileView::New)
    } else if value == "both"@ {
        Some(FullFileView::Both)
    } else {
        None
    }
}

/// Reads the name of a full-file view.
pub fn parse_full_file_view(value: &str) -> (result: Result<FullFileView, DispatchError>)
    ensures
        match named_view(value@) {
            Some(view) => result == Ok::<FullFileView, DispatchError>(view),
            None => result matches Err(error) && error.is_invalid(
                "fullFileSide must be old, new, or both"@,
            ),
        },
{
    if text_eq(value, "old") {
        Ok(FullFileView::Old)
    } else if text_eq(value, "new") {
        Ok(FullFileView::New)
    } else if text_eq(value, "both") {
        Ok(FullFileView::Both)
    } else {
        Err(invalid("fullFileSide must be old, new, or both"))
    }
}

/// Reading the name of a view gives the view back.
pub proof fn law_view_names_read_back(view: FullFileView)
    ensures
        named_view(view_chars(view)) == Some(view),
{
    reveal_strlit("old");
    reveal_strlit("new");
    reveal_strlit("both");
    assert("old"@[0] == 'o');
    assert("new"@[0] == 'n');
    assert("both"@[0] == 'b');
}

/// A run of lines that can be folded away.
#[derive(Debug)]
pub struct FullFileOmittedBlock {
    pub id: String,
    pub side: DiffSide,
    pub rows: Vec<FullFileRow>,
}

/// What a foldable run is.
#[verifier::ext_equal]
pub struct BlockModel {
    pub id: Seq<char>,
    pub side: DiffSide,
    pub rows: Seq<FullFileRow>,
}

impl View for FullFileOmittedBlock {
    type V = BlockModel;

    open spec fn view(&self) -> BlockModel {
        BlockModel { id: self.id@, side: self.side, rows: self.rows@ }
    }
}

impl BlockModel {
    /// The first line of the run.
    pub open spec fn first_line(self) -> u32 {
        if self.rows.len() > 0 {
            self.rows[0].line_number
        } else {
            0
        }
    }

    /// The last line of the run.
    pub open spec fn last_line(self) -> u32 {
        if self.rows.len() > 0 {
            self.rows.last().line_number
        } else {
            0
        }
    }
}

/// What the foldable runs of a list are, in order.
pub open spec fn block_models(blocks: Seq<FullFileOmittedBlock>) -> Seq<BlockModel> {
    blocks.map_values(|block: FullFileOmittedBlock| block@)
}

fn copy_rows(rows: &Vec<FullFileRow>, start: usize, end: usize) -> (copy: Vec<FullFileRow>)
    requires
        start <= end <= rows.len(),
    ensures
        copy@ == rows@.subrange(start as int, end as int),
{
    let mut copy: Vec<FullFileRow> = Vec::new();
    let mut i: usize = start;
    while i < end
        invariant
            start <= i <= end <= rows.len(),
            copy@ == rows@.subrange(start as int, i as int),
        decreases end - i,
    {
        copy.push(rows[i].copy());
        i += 1;
        assert(rows@.subrange(start as int, i as int) =~= rows@.subrange(
            start as int,
            i as int - 1,
        ).push(rows@[i as int - 1]));
    }
    copy
}

impl FullFileOmittedBlock {
    /// The first line of the run.
    pub fn start_line(&self) -> (line: u32)
        ensures
            line == self@.first_line(),
    {
        if self.rows.len() > 0 {
            self.rows[0].line_number
        } else {
            0
        }
    }

    /// The last line of the run.
    pub fn end_line(&self) -> (line: u32)
        ensures
            line == self@.last_line(),
    {
        if self.rows.len() > 0 {
            self.rows[self.rows.len() - 1].line_number
        } else {
            0
        }
    }

    /// Copies the run.
    pub fn copy(&self) -> (block: FullFileOmittedBlock)
        ensures
            block@ == self@,
    {
        let rows = copy_rows(&self.rows, 0, self.rows.len());
        assert(rows@ =~= self.rows@);
        FullFileOmittedBlock { id: self.id.clone(), side: self.side, rows }
    }
}

/// Whether a view can fold a row away: the rows of the other source, or, when
/// both sources are shown, the changed rows.
pub open spec fn is_omitted(row: FullFileRow, view: FullFileView) -> bool {
    match view {
        FullFileView::Old => row.side == DiffSide::New,
        FullFileView::New => row.side == DiffSide::Old,
        FullFileView::Both => row.changed,
    }
}

fn row_is_omitted(row: &FullFileRow, view: FullFileView) -> (omitted: bool)
    ensures
        omitted == is_omitted(*row, view),
{
    match view {
        FullFileView::Old => row.side == DiffSide::New,
        FullFileView::New => row.side == DiffSide::Old,
        FullFileView::Both => row.changed,
    }
}

/// Where the run of foldable rows of one side that goes on at `index` ends.
pub open spec fn run_end(
    rows: Seq<FullFileRow>,
    view: FullFileView,
    side: DiffSide,
    index: int,
) -> int
    decreases rows.len() - index,
{
    if index < rows.len() && is_omitted(rows[index], view) && rows[index].side == side {
        run_end(rows, view, side, index + 1)
    } else {
        index
    }
}

/// A run ends no earlier than it goes on, and inside the rows.
pub proof fn lemma_run_end(rows: Seq<FullFileRow>, view: FullFileView, side: DiffSide, index: int)
    requires
        0 <= index <= rows.len(),
    ensures
        index <= run_end(rows, view, side, index) <= rows.len(),
    decreases rows.len() - index,
{
    if index < rows.len() && is_omitted(rows[index], view) && rows[index].side == side {
        lemma_run_end(rows, view, side, index + 1);
    }
}

/// The lasting identity of a foldable run.
pub open spec fn block_id(
    comparison: ComparisonId,
    file: ReviewFileId,
    side: DiffSide,
    first: u32,
    last: u32,
) -> Seq<char> {
    let owner = id_chars(comparison.0) + ":"@ + id_chars(file.0);
    let prefix = match side {
        DiffSide::Old => owner + ":"@,
        DiffSide::New => owner + ":new:"@,
    };
    prefix + decimal(first as nat) + "-"@ + decimal(last as nat)
}

/// The run of the rows `start..end`.
pub open spec fn block_at(
    comparison: ComparisonId,
    file: ReviewFileId,
    rows: Seq<FullFileRow>,
    start: int,
    end: int,
) -> BlockModel {
    BlockModel {
        id: block_id(
            comparison,
            file,
            rows[start].side,
            rows[start].line_number,
            rows[end - 1].line_number,
        ),
        side: rows[start].side,
        rows: rows.subrange(start, end),
    }
}

/// The foldable runs among the rows from `index` on: the longest runs of
/// foldable rows of one side.
pub open spec fn blocks_from(
    comparison: ComparisonId,
    file: ReviewFileId,
    rows: Seq<FullFileRow>,
    view: FullFileView,
    index: int,
) -> Seq<BlockModel>
    decreases rows.len() - index,
{
    if index < 0 || index >= rows.len() {
        Seq::empty()
    } else if !is_omitted(rows[index], view) {
        blocks_from(comparison, file, rows, view, index + 1)
    } else {
        let end = run_end(rows, view, rows[index].side, index + 1);
        proof {
            lemma_run_end(rows, view, rows[index].side, index + 1);
        }
        seq![block_at(comparison, file, rows, index, end)] + blocks_from(
            comparison,
            file,
            rows,
            view,
            end,
        )
    }
}

/// The rows that a view is made of.
pub open spec fn view_rows(document: ReviewDiffDocument, view: FullFileView) -> Seq<FullFileRow> {
    match view {
        FullFileView::Old => document.base_rows@,
        _ => document.current_rows@,
    }
}

/// The foldable runs of a document.
pub open spec fn omitted_blocks(document: ReviewDiffDocument, view: FullFileView) -> Seq<
    BlockModel,
> {
    blocks_from(document.comparison_id, document.file.id, view_rows(document, view), view, 0)
}

fn rows_of_view(document: &ReviewDiffDocument, view: FullFileView) -> (rows: &Vec<FullFileRow>)
    ensures
        rows@ == view_rows(*document, view),
{
    match view {
        FullFileView::Old => &document.base_rows,
        FullFileView::New | FullFileView::Both => &document.current_rows,
    }
}

fn block_id_text(
    document: &ReviewDiffDocument,
    side: DiffSide,
    first: u32,
    last: u32,
) -> (id: String)
    ensures
        id@ == block_id(document.comparison_id, document.file.id, side, first, last),
{
    let mut id = id_text(document.comparison_id.0);
    id.append(":");
    id.append(id_text(document.file.id.0).as_str());
    match side {
        DiffSide::Old => {
            id.append(":");
        },
        DiffSide::New => {
            id.append(":new:");
        },
    }
    push_decimal(&mut id, first as u64);
    id.append("-");
    push_decimal(&mut id, last as u64);
    id
}

/// Finds the foldable runs of a document.
pub fn full_file_omitted_blocks(document: &ReviewDiffDocument, view: FullFileView) -> (blocks: Vec<
    FullFileOmittedBlock,
>)
    ensures
        block_models(blocks@) == omitted_blocks(*document, view),
{
    let rows = rows_of_view(document, view);
    let mut blocks: Vec<FullFileOmittedBlock> = Vec::new();
    let mut index: usize = 0;
    let ghost comparison = document.comparison_id;
    let ghost file = document.file.id;
    let ghost all = omitted_blocks(*document, view);
    assert(block_models(blocks@) =~= Seq::<BlockModel>::empty());
    assert(Seq::<BlockModel>::empty() + all =~= all);
    while index < rows.len()
        invariant
            index <= rows.len(),
            rows@ == view_rows(*document, view),
            comparison == document.comparison_id,
            file == document.file.id,
            all == omitted_blocks(*document, view),
            block_models(blocks@) + blocks_from(comparison, file, rows@, view, index as int) == all,
        decreases rows.len() - index,
    {
        if !row_is_omitted(&rows[index], view) {
            index += 1;
        } else {
            let side = rows[index].side;
            let start: usize = index;
            let ghost end = run_end(rows@, view, side, start + 1);
            index += 1;
            while index < rows.len() && row_is_omitted(&rows[index], view) && rows[index].side
                == side
                invariant
                    start < index <= rows.len(),
                    end == run_end(rows@, view, side, index as int),
                decreases rows.len() - index,
            {
                index += 1;
            }
            assert(end == index);
            let block_rows = copy_rows(rows, start, index);
            let id = block_id_text(
                document,
                side,
                rows[start].line_number,
                rows[index - 1].line_number,
            );
            let block = FullFileOmittedBlock { id, side, rows: block_rows };
            let ghost earlier = block_models(blocks@);
            let ghost model = block@;
            assert(model == block_at(comparison, file, rows@, start as int, index as int));
            let ghost rest = blocks_from(comparison, file, rows@, view, index as int);
            blocks.push(block);
            assert(block_models(blocks@) =~= earlier.push(model));
            assert(earlier + (seq![model] + rest) =~= earlier.push(model) + rest);
        }
    }
    assert(block_models(blocks@) + Seq::<BlockModel>::empty() =~= block_models(blocks@));
    blocks
}

/// A row of the full-file presentation: a source line, or the fold marker of a
/// foldable run with whether the run is unfolded.
#[derive(Debug)]
pub enum FullFileProjectedRow {
    Line(FullFileRow),
    OmittedGate(FullFileOmittedBlock, bool),
}

/// What a row of the full-file presentation is.
pub enum ProjectedModel {
    Line(FullFileRow),
    Gate(BlockModel, bool),
}

impl View for FullFileProjectedRow {
    type V = ProjectedModel;

    open spec fn view(&self) -> ProjectedModel {
        match self {
            FullFileProjectedRow::Line(row) => ProjectedModel::Line(*row),
            FullFileProjectedRow::OmittedGate(block, expanded) => ProjectedModel::Gate(
                block@,
                *expanded,
            ),
        }
    }
}

/// What the rows of a list are, in order.
pub open spec fn projected_models(rows: Seq<FullFileProjectedRow>) -> Seq<ProjectedModel> {
    rows.map_values(|row: FullFileProjectedRow| row@)
}

/// The last run that starts at a line of a side.
pub open spec fn last_starting_at(blocks: Seq<BlockModel>, side: DiffSide, line: u32) -> Option<int>
    decreases blocks.len(),
{
    if blocks.len() == 0 {
        None
    } else if blocks.last().side == side && blocks.last().first_line() == line {
        Some(blocks.len() - 1)
    } else {
        last_starting_at(blocks.drop_last(), side, line)
    }
}

/// Whether a run is unfolded. Additions are unfolded where both sources are
/// shown, unless they were folded; every other run is folded, unless it was
/// unfolded.
pub open spec fn is_unfolded(
    block: BlockModel,
    view: FullFileView,
    expanded: Set<Seq<char>>,
    collapsed: Set<Seq<char>>,
) -> bool {
    if view == FullFileView::Both && block.side == DiffSide::New {
        !collapsed.contains(block.id)
    } else {
        expanded.contains(block.id)
    }
}

/// Rows as lines of the presentation.
pub open spec fn as_lines(rows: Seq<FullFileRow>) -> Seq<ProjectedModel> {
    rows.map_values(|row: FullFileRow| ProjectedModel::Line(row))
}

/// The presentation of the rows from `index` on, where the runs in `used`
/// have been shown already.
///
/// A row that cannot be folded is a line. At the start of a run stands its
/// gate, then its lines if it is unfolded, and the presentation goes on behind
/// the run. Where no run starts, a foldable row is a line as well.
pub open spec fn project_from(
    rows: Seq<FullFileRow>,
    blocks: Seq<BlockModel>,
    view: FullFileView,
    expanded: Set<Seq<char>>,
    collapsed: Set<Seq<char>>,
    used: Set<int>,
    index: int,
) -> Seq<ProjectedModel>
    decreases rows.len() - index,
{
    if index < 0 || index >= rows.len() {
        Seq::empty()
    } else {
        let row = rows[index];
        let found = last_starting_at(blocks, row.side, row.line_number);
        if !is_omitted(row, view) || found is None || used.contains(found->0) {
            seq![ProjectedModel::Line(row)] + project_from(
                rows,
                blocks,
                view,
                expanded,
                collapsed,
                used,
                index + 1,
            )
        } else {
            let block = blocks[found->0];
            let open = is_unfolded(block, view, expanded, collapsed);
            let next = index + block.rows.len();
            let shown = seq![ProjectedModel::Gate(block, open)] + if open {
                as_lines(block.rows)
            } else {
                Seq::empty()
            };
            let rest = if index < next <= rows.len() {
                project_from(
                    rows,
                    blocks,
                    view,
                    expanded,
                    collapsed,
                    used.insert(found->0),
                    next,
                )
            } else {
                Seq::empty()
            };
            shown + rest
        }
    }
}

/// The full-file presentation of a document.
pub open spec fn projection_of(
    document: ReviewDiffDocument,
    view: FullFileView,
    expanded: Set<Seq<char>>,
    collapsed: Set<Seq<char>>,
) -> Seq<ProjectedModel> {
    project_from(
        view_rows(document, view),
        omitted_blocks(document, view),
        view,
        expanded,
        collapsed,
        Set::empty(),
        0,
    )
}

/// Every run holds a row, and starts at a row from `index` on.
proof fn lemma_blocks_from(
    comparison: ComparisonId,
    file: ReviewFileId,
    rows: Seq<FullFileRow>,
    view: FullFileView,
    index: int,
)
    requires
        0 <= index <= rows.len(),
    ensures
        forall|m: int|
            0 <= m < blocks_from(comparison, file, rows, view, index).len() ==> ({
                let block = #[trigger] blocks_from(comparison, file, rows, view, index)[m];
                &&& block.rows.len() > 0
                &&& exists|start: int|
                    index <= start < rows.len() && #[trigger] rows[start] == block.rows[0]
                        && block.side == rows[start].side
            }),
    decreases rows.len() - index,
{
    let blocks = blocks_from(comparison, file, rows, view, index);
    if index < rows.len() {
        if !is_omitted(rows[index], view) {
            lemma_blocks_from(comparison, file, rows, view, index + 1);
        } else {
            let end = run_end(rows, view, rows[index].side, index + 1);
            lemma_run_end(rows, view, rows[index].side, index + 1);
            lemma_blocks_from(comparison, file, rows, view, end);
            let rest = blocks_from(comparison, file, rows, view, end);
            assert forall|m: int| 0 <= m < blocks.len() implies ({
                let block = #[trigger] blocks[m];
                &&& block.rows.len() > 0
                &&& exists|start: int|
                    index <= start < rows.len() && #[trigger] rows[start] == block.rows[0]
                        && block.side == rows[start].side
            }) by {
                if m == 0 {
                    assert(blocks[0] == block_at(comparison, file, rows, index, end));
                    assert(rows[index] == blocks[0].rows[0]);
                } else {
                    assert(blocks[m] == rest[m - 1]);
                    let start = choose|start: int|
                        end <= start < rows.len() && #[trigger] rows[start] == rest[m - 1].rows[0]
                            && rest[m - 1].side == rows[start].side;
                    assert(rows[start] == blocks[m].rows[0]);
                }
            }
        }
    }
}

fn find_last_starting_at(
    blocks: &Vec<FullFileOmittedBlock>,
    side: DiffSide,
    line: u32,
) -> (found: Option<usize>)
    ensures
        match found {
            Some(index) => index < blocks.len() && last_starting_at(
                block_models(blocks@),
                side,
                line,
            ) == Some(index as int),
            None => last_starting_at(block_models(blocks@), side, line) is None,
        },
{
    let mut i: usize = blocks.len();
    assert(block_models(blocks@).take(blocks.len() as int) =~= block_models(blocks@));
    while i > 0
        invariant
            i <= blocks.len(),
            last_starting_at(block_models(blocks@), side, line) == last_starting_at(
                block_models(blocks@).take(i as int),
                side,
                line,
            ),
        decreases i,
    {
        assert(block_models(blocks@).take(i as int).drop_last() =~= block_models(blocks@).take(
            i - 1,
        ));
        i -= 1;
        if blocks[i].side == side && blocks[i].start_line() == line {
            return Some(i);
        }
    }
    None
}

fn append_lines(projection: &mut Vec<FullFileProjectedRow>, rows: &Vec<FullFileRow>)
    ensures
        projected_models(final(projection)@) == projected_models(old(projection)@) + as_lines(
            rows@,
        ),
{
    let ghost start = projected_models(projection@);
    let mut i: usize = 0;
    assert(as_lines(rows@).take(0) =~= Seq::<ProjectedModel>::empty());
    assert(start + Seq::<ProjectedModel>::empty() =~= start);
    while i < rows.len()
        invariant
            i <= rows.len(),
            projected_models(projection@) == start + as_lines(rows@).take(i as int),
        decreases rows.len() - i,
    {
        let ghost before = projected_models(projection@);
        projection.push(FullFileProjectedRow::Line(rows[i].copy()));
        assert(projected_models(projection@) =~= before.push(ProjectedModel::Line(rows@[i as int])));
        assert(start + as_lines(rows@).take(i + 1) =~= (start + as_lines(rows@).take(
            i as int,
        )).push(ProjectedModel::Line(rows@[i as int])));
        i += 1;
    }
    assert(as_lines(rows@).take(rows.len() as int) =~= as_lines(rows@));
}

/// The runs that the flags mark.
spec fn marked(flags: Seq<bool>) -> Set<int> {
    Set::new(|i: int| 0 <= i < flags.len() && flags[i])
}

/// Builds the full-file presentation of a document, and its foldable runs.
pub fn full_file_projection(
    document: &ReviewDiffDocument,
    view: FullFileView,
    expanded_blocks: &TextSet,
    collapsed_addition_blocks: &TextSet,
) -> (result: (Vec<FullFileProjectedRow>, Vec<FullFileOmittedBlock>))
    ensures
        projected_models(result.0@) == projection_of(
            *document,
            view,
            expanded_blocks@,
            collapsed_addition_blocks@,
        ),
        block_models(result.1@) == omitted_blocks(*document, view),
{
    let rows = rows_of_view(document, view);
    let blocks = full_file_omitted_blocks(document, view);
    let ghost models = block_models(blocks@);
    proof {
        lemma_blocks_from(document.comparison_id, document.file.id, rows@, view, 0);
    }
    let mut used: Vec<bool> = Vec::new();
    while used.len() < blocks.len()
        invariant
            used.len() <= blocks.len(),
            forall|i: int| 0 <= i < used.len() ==> !#[trigger] used@[i],
        decreases blocks.len() - used.len(),
    {
        used.push(false);
    }
    assert(marked(used@) =~= Set::<int>::empty());
    let mut projection: Vec<FullFileProjectedRow> = Vec::new();
    let mut index: usize = 0;
    let ghost whole = projection_of(*document, view, expanded_blocks@, collapsed_addition_blocks@);
    assert(projected_models(projection@) =~= Seq::<ProjectedModel>::empty());
    assert(Seq::<ProjectedModel>::empty() + whole =~= whole);
    while index < rows.len()
        invariant
            rows@ == view_rows(*document, view),
            models == block_models(blocks@),
            models == omitted_blocks(*document, view),
            forall|m: int| 0 <= m < models.len() ==> (#[trigger] models[m]).rows.len() > 0,
            used.len() == blocks.len(),
            whole == projection_of(
                *document,
                view,
                expanded_blocks@,
                collapsed_addition_blocks@,
            ),
            projected_models(projection@) + project_from(
                rows@,
                models,
                view,
                expanded_blocks@,
                collapsed_addition_blocks@,
                marked(used@),
                index as int,
            ) == whole,
        decreases rows.len() - index,
    {
        let row = &rows[index];
        let ghost shown = projected_models(projection@);
        let found: Option<usize> = if row_is_omitted(row, view) {
            match find_last_starting_at(&blocks, row.side, row.line_number) {
                Some(position) => if used[position] {
                    None
                } else {
                    Some(position)
                },
                None => None,
            }
        } else {
            None
        };
        match found {
            None => {
                let ghost rest = project_from(
                    rows@,
                    models,
                    view,
                    expanded_blocks@,
                    collapsed_addition_blocks@,
                    marked(used@),
                    index + 1,
                );
                projection.push(FullFileProjectedRow::Line(row.copy()));
                assert(projected_models(projection@) =~= shown.push(ProjectedModel::Line(*row)));
                assert(shown + (seq![ProjectedModel::Line(*row)] + rest) =~= shown.push(
                    ProjectedModel::Line(*row),
                ) + rest);
                index += 1;
            },
            Some(position) => {
                let block = &blocks[position];
                let ghost before = marked(used@);
                assert(models[position as int] == block@);
                let expanded: bool = if view == FullFileView::Both && block.side == DiffSide::New {
                    !collapsed_addition_blocks.contains(block.id.as_str())
                } else {
                    expanded_blocks.contains(block.id.as_str())
                };
                let ghost next = index + block@.rows.len();
                let ghost rest = if next <= rows.len() {
                    project_from(
                        rows@,
                        models,
                        view,
                        expanded_blocks@,
                        collapsed_addition_blocks@,
                        before.insert(position as int),
                        next,
                    )
                } else {
                    Seq::empty()
                };
                let ghost gate = ProjectedModel::Gate(block@, expanded);
                projection.push(FullFileProjectedRow::OmittedGate(block.copy(), expanded));
                assert(projected_models(projection@) =~= shown.push(gate));
                if expanded {
                    append_lines(&mut projection, &block.rows);
                    assert(shown.push(gate) + as_lines(block@.rows) + rest =~= shown + (seq![gate]
                        + as_lines(block@.rows) + rest));
                } else {
                    assert(shown.push(gate) + rest =~= shown + (seq![gate]
                        + Seq::<ProjectedModel>::empty() + rest));
                }
                used.set(position, true);
                assert(marked(used@) =~= before.insert(position as int));
                if block.rows.len() <= rows.len() - index {
                    index += block.rows.len();
                } else {
                    index = rows.len();
                }
            },
        }
    }
    assert(projected_models(projection@) + Seq::<ProjectedModel>::empty() =~= projected_models(
        projection@,
    ));
    (projection, blocks)
}

/// The source rows that a presentation stands for: its lines, and the rows
/// behind every gate that is folded.
pub open spec fn unfolded(rows: Seq<ProjectedModel>) -> Seq<FullFileRow>
    decreases rows.len(),
{
    if rows.len() == 0 {
        Seq::empty()
    } else {
        unfolded(rows.drop_last()) + match rows.last() {
            ProjectedModel::Line(row) => seq![row],
            ProjectedModel::Gate(block, open) => if open {
                Seq::empty()
            } else {
                block.rows
            },
        }
    }
}

proof fn lemma_unfolded_concat(a: Seq<ProjectedModel>, b: Seq<ProjectedModel>)
    ensures
        unfolded(a + b) == unfolded(a) + unfolded(b),
    decreases b.len(),
{
    if b.len() == 0 {
        assert(a + b =~= a);
        assert(unfolded(a) + unfolded(b) =~= unfolded(a));
    } else {
        lemma_unfolded_concat(a, b.drop_last());
        assert((a + b).drop_last() =~= a + b.drop_last());
        assert((a + b).last() == b.last());
        assert(unfolded(a + b) =~= unfolded(a) + unfolded(b));
    }
}

proof fn lemma_unfolded_lines(rows: Seq<FullFileRow>)
    ensures
        unfolded(as_lines(rows)) == rows,
    decreases rows.len(),
{
    if rows.len() > 0 {
        lemma_unfolded_lines(rows.drop_last());
        assert(as_lines(rows).drop_last() =~= as_lines(rows.drop_last()));
    }
    assert(unfolded(as_lines(rows)) =~= rows);
}

/// Whether no two rows of one side have the same line number.
pub open spec fn has_distinct_lines(rows: Seq<FullFileRow>) -> bool {
    forall|i: int, j: int|
        0 <= i < j < rows.len() && (#[trigger] rows[i]).side == (#[trigger] rows[j]).side
            ==> rows[i].line_number != rows[j].line_number
}

/// A run among others that start elsewhere is the last that starts where it
/// does.
proof fn lemma_last_starting_at(blocks: Seq<BlockModel>, k: int)
    requires
        0 <= k < blocks.len(),
        forall|m: int|
            k < m < blocks.len() ==> (#[trigger] blocks[m]).side != blocks[k].side
                || blocks[m].first_line() != blocks[k].first_line(),
    ensures
        last_starting_at(blocks, blocks[k].side, blocks[k].first_line()) == Some(k),
    decreases blocks.len(),
{
    if k < blocks.len() - 1 {
        assert(blocks.drop_last()[k] == blocks[k]);
        lemma_last_starting_at(blocks.drop_last(), k);
    }
}

proof fn lemma_unfolded_gate(block: BlockModel, open: bool)
    ensures
        unfolded(seq![ProjectedModel::Gate(block, open)]) == if open {
            Seq::empty()
        } else {
            block.rows
        },
{
    let gate = seq![ProjectedModel::Gate(block, open)];
    assert(gate.drop_last() =~= Seq::<ProjectedModel>::empty());
    assert(unfolded(Seq::<ProjectedModel>::empty()) =~= Seq::<FullFileRow>::empty());
    assert(unfolded(gate) =~= if open {
        Seq::empty()
    } else {
        block.rows
    });
}

/// At the row at which a run starts, that run is found.
proof fn lemma_run_is_found(
    comparison: ComparisonId,
    file: ReviewFileId,
    rows: Seq<FullFileRow>,
    view: FullFileView,
    shown: Seq<BlockModel>,
    index: int,
)
    requires
        0 <= index < rows.len(),
        has_distinct_lines(rows),
        is_omitted(rows[index], view),
        blocks_from(comparison, file, rows, view, 0) == shown + blocks_from(
            comparison,
            file,
            rows,
            view,
            index,
        ),
    ensures
        ({
            let blocks = blocks_from(comparison, file, rows, view, 0);
            let end = run_end(rows, view, rows[index].side, index + 1);
            let block = block_at(comparison, file, rows, index, end);
            &&& index < end <= rows.len()
            &&& block.rows.len() == end - index
            &&& rows.skip(index) == block.rows + rows.skip(end)
            &&& shown.len() < blocks.len()
            &&& blocks[shown.len() as int] == block
            &&& last_starting_at(blocks, rows[index].side, rows[index].line_number) == Some(
                shown.len() as int,
            )
            &&& blocks == shown.push(block) + blocks_from(comparison, file, rows, view, end)
        }),
{
    let blocks = blocks_from(comparison, file, rows, view, 0);
    let end = run_end(rows, view, rows[index].side, index + 1);
    lemma_run_end(rows, view, rows[index].side, index + 1);
    let block = block_at(comparison, file, rows, index, end);
    let later = blocks_from(comparison, file, rows, view, end);
    let k = shown.len() as int;
    assert(blocks[k] == block);
    lemma_blocks_from(comparison, file, rows, view, end);
    assert forall|m: int| k < m < blocks.len() implies (#[trigger] blocks[m]).side
        != blocks[k].side || blocks[m].first_line() != blocks[k].first_line() by {
        assert(blocks[m] == later[m - k - 1]);
        let start = choose|start: int|
            end <= start < rows.len() && #[trigger] rows[start] == later[m - k - 1].rows[0]
                && later[m - k - 1].side == rows[start].side;
        assert(rows[index].side == rows[start].side ==> rows[index].line_number
            != rows[start].line_number);
    }
    lemma_last_starting_at(blocks, k);
    assert(block.first_line() == rows[index].line_number);
    assert(rows.skip(index) =~= block.rows + rows.skip(end));
    assert(blocks =~= shown.push(block) + later);
}

proof fn lemma_projection_keeps_rows(
    comparison: ComparisonId,
    file: ReviewFileId,
    rows: Seq<FullFileRow>,
    view: FullFileView,
    expanded: Set<Seq<char>>,
    collapsed: Set<Seq<char>>,
    used: Set<int>,
    shown: Seq<BlockModel>,
    index: int,
)
    requires
        0 <= index <= rows.len(),
        has_distinct_lines(rows),
        blocks_from(comparison, file, rows, view, 0) == shown + blocks_from(
            comparison,
            file,
            rows,
            view,
            index,
        ),
        forall|i: int| used.contains(i) ==> 0 <= i < shown.len(),
    ensures
        unfolded(
            project_from(
                rows,
                blocks_from(comparison, file, rows, view, 0),
                view,
                expanded,
                collapsed,
                used,
                index,
            ),
        ) == rows.skip(index),
    decreases rows.len() - index,
{
    let blocks = blocks_from(comparison, file, rows, view, 0);
    let projection = project_from(rows, blocks, view, expanded, collapsed, used, index);
    if index == rows.len() {
        assert(rows.skip(index) =~= Seq::<FullFileRow>::empty());
    } else if !is_omitted(rows[index], view) {
        lemma_projection_keeps_rows(
            comparison,
            file,
            rows,
            view,
            expanded,
            collapsed,
            used,
            shown,
            index + 1,
        );
        let line = seq![ProjectedModel::Line(rows[index])];
        let rest = project_from(rows, blocks, view, expanded, collapsed, used, index + 1);
        lemma_unfolded_concat(line, rest);
        assert(line =~= as_lines(seq![rows[index]]));
        lemma_unfolded_lines(seq![rows[index]]);
        assert(rows.skip(index) =~= seq![rows[index]] + rows.skip(index + 1));
    } else {
        let end = run_end(rows, view, rows[index].side, index + 1);
        let block = block_at(comparison, file, rows, index, end);
        let k = shown.len() as int;
        lemma_run_is_found(comparison, file, rows, view, shown, index);
        assert(!used.contains(k));
        let open = is_unfolded(block, view, expanded, collapsed);
        let rest = project_from(
            rows,
            blocks,
            view,
            expanded,
            collapsed,
            used.insert(k),
            end,
        );
        lemma_projection_keeps_rows(
            comparison,
            file,
            rows,
            view,
            expanded,
            collapsed,
            used.insert(k),
            shown.push(block),
            end,
        );
        let gate = seq![ProjectedModel::Gate(block, open)];
        lemma_unfolded_gate(block, open);
        if open {
            assert(projection == gate + as_lines(block.rows) + rest);
            lemma_unfolded_concat(gate + as_lines(block.rows), rest);
            lemma_unfolded_concat(gate, as_lines(block.rows));
            lemma_unfolded_lines(block.rows);
        } else {
            assert(gate + Seq::<ProjectedModel>::empty() =~= gate);
            assert(projection == gate + rest);
            lemma_unfolded_concat(gate, rest);
        }
        assert(unfolded(projection) =~= rows.skip(index));
    }
}

/// Folding hides lines but loses none: whatever is folded, the lines shown
/// and the lines behind folded gates are the rows of the view, in order.
pub proof fn law_projection_loses_no_line(
    document: ReviewDiffDocument,
    view: FullFileView,
    expanded: Set<Seq<char>>,
    collapsed: Set<Seq<char>>,
)
    requires
        has_distinct_lines(view_rows(document, view)),
    ensures
        unfolded(projection_of(document, view, expanded, collapsed)) == view_rows(document, view),
{
    let rows = view_rows(document, view);
    let blocks = omitted_blocks(document, view);
    assert(blocks =~= Seq::<BlockModel>::empty() + blocks);
    lemma_projection_keeps_rows(
        document.comparison_id,
        document.file.id,
        rows,
        view,
        expanded,
        collapsed,
        Set::empty(),
        Seq::empty(),
        0,
    );
    assert(rows.skip(0) =~= rows);
}

/// Whether a row shows a line of one side.
pub open spec fn shows_line(row: ProjectedModel, side: DiffSide, line: u32) -> bool {
    row matches ProjectedModel::Line(shown) && shown.side == side && shown.line_number == line
}

/// Whether a row is the fold marker of a run that holds a line of one side.
pub open spec fn gate_holds(row: ProjectedModel, side: DiffSide, line: u32) -> bool {
    row matches ProjectedModel::Gate(block, _) && block.side == side && block.first_line() <= line
        <= block.last_line()
}

/// Whether `index` is the first row that shows a line, or, where none does,
/// the first gate behind which it is.
pub open spec fn is_exact_row(
    rows: Seq<ProjectedModel>,
    side: DiffSide,
    line: u32,
    index: int,
) -> bool {
    &&& 0 <= index < rows.len()
    &&& if exists|j: int| 0 <= j < rows.len() && shows_line(#[trigger] rows[j], side, line) {
        &&& shows_line(rows[index], side, line)
        &&& forall|j: int| 0 <= j < index ==> !shows_line(#[trigger] rows[j], side, line)
    } else {
        &&& gate_holds(rows[index], side, line)
        &&& forall|j: int| 0 <= j < index ==> !gate_holds(#[trigger] rows[j], side, line)
    }
}

/// Whether a presentation shows a line or has it behind a gate.
pub open spec fn has_line(rows: Seq<ProjectedModel>, side: DiffSide, line: u32) -> bool {
    exists|j: int|
        0 <= j < rows.len() && (shows_line(#[trigger] rows[j], side, line) || gate_holds(
            rows[j],
            side,
            line,
        ))
}

/// The row that shows a line, or the fold marker behind which it is.
pub fn exact_full_file_row(
    rows: &Vec<FullFileProjectedRow>,
    side: DiffSide,
    line: u32,
) -> (found: Option<usize>)
    ensures
        match found {
            Some(index) => is_exact_row(projected_models(rows@), side, line, index as int),
            None => !has_line(projected_models(rows@), side, line),
        },
{
    let ghost models = projected_models(rows@);
    let mut i: usize = 0;
    while i < rows.len()
        invariant
            i <= rows.len(),
            models == projected_models(rows@),
            forall|j: int| 0 <= j < i ==> !shows_line(#[trigger] models[j], side, line),
        decreases rows.len() - i,
    {
        match &rows[i] {
            FullFileProjectedRow::Line(row) => {
                if row.side == side && row.line_number == line {
                    assert(shows_line(models[i as int], side, line));
                    return Some(i);
                }
            },
            FullFileProjectedRow::OmittedGate(_, _) => {},
        }
        assert(!shows_line(models[i as int], side, line));
        i += 1;
    }
    let mut k: usize = 0;
    while k < rows.len()
        invariant
            k <= rows.len(),
            models == projected_models(rows@),
            forall|j: int| 0 <= j < rows.len() ==> !shows_line(#[trigger] models[j], side, line),
            forall|j: int| 0 <= j < k ==> !gate_holds(#[trigger] models[j], side, line),
        decreases rows.len() - k,
    {
        match &rows[k] {
            FullFileProjectedRow::Line(_) => {},
            FullFileProjectedRow::OmittedGate(block, _) => {
                if side == block.side && line >= block.start_line() && line <= block.end_line() {
                    assert(gate_holds(models[k as int], side, line));
                    return Some(k);
                }
            },
        }
        assert(!gate_holds(models[k as int], side, line));
        k += 1;
    }
    None
}

/// How far a row of the presentation is from a line of one side, if it has to
/// do with that side. A gate is as far as the nearer end of its run.
pub open spec fn projected_distance(row: ProjectedModel, side: DiffSide, line: u32) -> Option<u32> {
    match row {
        ProjectedModel::Line(shown) => if shown.side == side {
            Some(distance(shown.line_number, line))
        } else {
            None
        },
        ProjectedModel::Gate(block, _) => if block.side == side {
            let first = distance(block.first_line(), line);
            let last = distance(block.last_line(), line);
            Some(
                if first <= last {
                    first
                } else {
                    last
                },
            )
        } else {
            None
        },
    }
}

/// How far the rows of the presentation are from a line of one side.
pub open spec fn projected_distances(rows: Seq<ProjectedModel>, side: DiffSide, line: u32) -> Seq<
    Option<u32>,
> {
    rows.map_values(|row: ProjectedModel| projected_distance(row, side, line))
}

/// Whether `index` is the row to go to for a line: the exact one, or else the
/// first of the nearest.
pub open spec fn is_nearest_row(
    rows: Seq<ProjectedModel>,
    side: DiffSide,
    line: u32,
    index: int,
) -> bool {
    if has_line(rows, side, line) {
        is_exact_row(rows, side, line, index)
    } else {
        is_nearest(projected_distances(rows, side, line), index)
    }
}

/// The row to go to for a line of one side.
pub fn nearest_full_file_row(
    rows: &Vec<FullFileProjectedRow>,
    side: DiffSide,
    line: u32,
) -> (index: usize)
    ensures
        is_nearest_row(projected_models(rows@), side, line, index as int),
{
    let ghost models = projected_models(rows@);
    match exact_full_file_row(rows, side, line) {
        Some(index) => {
            proof {
                if exists|j: int| 0 <= j < models.len() && shows_line(#[trigger] models[j], side, line) {
                } else {
                    assert(gate_holds(models[index as int], side, line));
                }
            }
            return index;
        },
        None => {},
    }
    let mut distances: Vec<Option<u32>> = Vec::new();
    let mut i: usize = 0;
    while i < rows.len()
        invariant
            i <= rows.len(),
            models == projected_models(rows@),
            distances@ =~= projected_distances(models, side, line).take(i as int),
        decreases rows.len() - i,
    {
        let entry: Option<u32> = match &rows[i] {
            FullFileProjectedRow::Line(row) => if row.side == side {
                Some(line_distance(row.line_number, line))
            } else {
                None
            },
            FullFileProjectedRow::OmittedGate(block, _) => if side == block.side {
                let first: u32 = line_distance(block.start_line(), line);
                let last: u32 = line_distance(block.end_line(), line);
                Some(
                    if first <= last {
                        first
                    } else {
                        last
                    },
                )
            } else {
                None
            },
        };
        assert(entry == projected_distance(models[i as int], side, line));
        distances.push(entry);
        i += 1;
    }
    assert(distances@ =~= projected_distances(models, side, line));
    nearest(&distances)
}

/// The row to go to for a line is determined.
pub proof fn law_nearest_full_file_row_is_unique(
    rows: Seq<ProjectedModel>,
    side: DiffSide,
    line: u32,
    a: int,
    b: int,
)
    requires
        is_nearest_row(rows, side, line, a),
        is_nearest_row(rows, side, line, b),
    ensures
        a == b,
{
    if has_line(rows, side, line) {
        assert(is_exact_row(rows, side, line, a) && is_exact_row(rows, side, line, b));
    }
}

/// What the presentation shows for a row.
pub open spec fn projected_row_model(
    row: ProjectedModel,
    old_offsets: Seq<u32>,
    new_offsets: Seq<u32>,
) -> RowModel {
    match row {
        ProjectedModel::Line(line) => {
            let kind = if !line.changed {
                "context"@
            } else if line.side == DiffSide::Old {
                "deletion"@
            } else {
                "addition"@
            };
            let plain = plain_model(
                "full:"@ + side_chars(line.side) + ":"@ + decimal(line.line_number as nat),
                kind,
            );
            match line.side {
                DiffSide::Old => RowModel {
                    old_line: Some(line.line_number),
                    old_text: Some(line.text@),
                    text: Some(line.text@),
                    old_source_start_byte: Some(offset_of(old_offsets, line.line_number)),
                    ..plain
                },
                DiffSide::New => RowModel {
                    new_line: Some(line.line_number),
                    new_text: Some(line.text@),
                    text: Some(line.text@),
                    new_source_start_byte: Some(offset_of(new_offsets, line.line_number)),
                    ..plain
                },
            }
        },
        ProjectedModel::Gate(block, open) => {
            let count = row_number(block.rows.len());
            let omission = match block.side {
                DiffSide::Old => "deleted"@,
                DiffSide::New => "added"@,
            };
            let kind = match block.side {
                DiffSide::Old => "deletion_gate"@,
                DiffSide::New => "addition_gate"@,
            };
            let unit = if count == 1 {
                "line"@
            } else {
                "lines"@
            };
            let plain = plain_model("full:"@ + omission + "-gate:"@ + block.id, kind);
            RowModel {
                old_line: if block.side == DiffSide::Old {
                    Some(block.first_line())
                } else {
                    None
                },
                new_line: if block.side == DiffSide::New {
                    Some(block.first_line())
                } else {
                    None
                },
                text: Some(decimal(count as nat) + " "@ + omission + " "@ + unit),
                omitted_block_id: Some(block.id),
                omitted_count: Some(count),
                omitted_end_line: Some(block.last_line()),
                omitted_side: Some(side_chars(block.side)),
                omitted_expanded: Some(open),
                ..plain
            }
        },
    }
}

fn line_row_view(row: &FullFileRow, old_offsets: &Vec<u32>, new_offsets: &Vec<u32>) -> (view:
    DiffRowView)
    ensures
        view@ == projected_row_model(ProjectedModel::Line(*row), old_offsets@, new_offsets@),
{
    let mut id = "full:".to_owned();
    id.append(side_name(row.side));
    id.append(":");
    push_decimal(&mut id, row.line_number as u64);
    let kind: &str = if !row.changed {
        "context"
    } else if row.side == DiffSide::Old {
        "deletion"
    } else {
        "addition"
    };
    let mut view = plain_row(id, kind);
    view.text = Some(row.text.clone());
    match row.side {
        DiffSide::Old => {
            view.old_line = Some(row.line_number);
            view.old_text = Some(row.text.clone());
            view.old_source_start_byte = Some(source_offset(old_offsets, row.line_number));
        },
        DiffSide::New => {
            view.new_line = Some(row.line_number);
            view.new_text = Some(row.text.clone());
            view.new_source_start_byte = Some(source_offset(new_offsets, row.line_number));
        },
    }
    view
}

fn gate_row_view(block: &FullFileOmittedBlock, expanded: bool) -> (view: DiffRowView)
    ensures
        forall|old_offsets: Seq<u32>, new_offsets: Seq<u32>|
            view@ == #[trigger] projected_row_model(
                ProjectedModel::Gate(block@, expanded),
                old_offsets,
                new_offsets,
            ),
{
    let count: u32 = to_row_number(block.rows.len());
    let omission: &str = match block.side {
        DiffSide::Old => "deleted",
        DiffSide::New => "added",
    };
    let kind: &str = match block.side {
        DiffSide::Old => "deletion_gate",
        DiffSide::New => "addition_gate",
    };
    let mut id = "full:".to_owned();
    id.append(omission);
    id.append("-gate:");
    id.append(block.id.as_str());
    let mut text = String::new();
    push_decimal(&mut text, count as u64);
    text.append(" ");
    text.append(omission);
    text.append(" ");
    if count == 1 {
        text.append("line");
    } else {
        text.append("lines");
    }
    let mut view = plain_row(id, kind);
    match block.side {
        DiffSide::Old => {
            view.old_line = Some(block.start_line());
        },
        DiffSide::New => {
            view.new_line = Some(block.start_line());
        },
    }
    assert(Seq::<char>::empty() + decimal(count as nat) =~= decimal(count as nat));
    view.text = Some(text);
    view.omitted_block_id = Some(block.id.clone());
    view.omitted_count = Some(count);
    view.omitted_end_line = Some(block.end_line());
    view.omitted_side = Some(side_name(block.side).to_owned());
    view.omitted_expanded = Some(expanded);
    view
}

/// Builds what the presentation shows for a row.
pub fn full_file_row_view(
    row: &FullFileProjectedRow,
    old_offsets: &Vec<u32>,
    new_offsets: &Vec<u32>,
) -> (view: DiffRowView)
    ensures
        view@ == projected_row_model(row@, old_offsets@, new_offsets@),
{
    match row {
        FullFileProjectedRow::Line(line) => line_row_view(line, old_offsets, new_offsets),
        FullFileProjectedRow::OmittedGate(block, expanded) => {
            let view = gate_row_view(block, *expanded);
            assert(view@ == projected_row_model(
                ProjectedModel::Gate(block@, *expanded),
                old_offsets@,
                new_offsets@,
            ));
            view
        },
    }
}

/// Whether a presentation has the unfolded gate of a run.
pub open spec fn shows_unfolded(rows: Seq<ProjectedModel>, id: Seq<char>) -> bool {
    exists|j: int|
        0 <= j < rows.len() && (#[trigger] rows[j] matches ProjectedModel::Gate(block, open) && open
            && block.id == id)
}

fn has_unfolded_gate(rows: &Vec<FullFileProjectedRow>, id: &str) -> (found: bool)
    ensures
        found == shows_unfolded(projected_models(rows@), id@),
{
    let ghost models = projected_models(rows@);
    let mut i: usize = 0;
    while i < rows.len()
        invariant
            i <= rows.len(),
            models == projected_models(rows@),
            forall|j: int|
                0 <= j < i ==> !(#[trigger] models[j] matches ProjectedModel::Gate(block, open)
                    && open && block.id == id@),
        decreases rows.len() - i,
    {
        assert(models[i as int] == rows@[i as int]@);
        match &rows[i] {
            FullFileProjectedRow::OmittedGate(block, expanded) => {
                if *expanded && text_eq(block.id.as_str(), id) {
                    return true;
                }
            },
            FullFileProjectedRow::Line(_) => {},
        }
        i += 1;
    }
    false
}

/// What is shown of a run beside the presentation. `row_index` is where its
/// first line is found.
pub open spec fn is_block_view(
    view: BlockViewModel,
    block: BlockModel,
    rows: Seq<ProjectedModel>,
) -> bool {
    &&& view.id == block.id
    &&& view.side == side_chars(block.side)
    &&& view.start_line == block.first_line()
    &&& view.end_line == block.last_line()
    &&& view.count == row_number(block.rows.len())
    &&& view.expanded == shows_unfolded(rows, block.id)
    &&& exists|index: int| #[trigger]
        is_nearest_row(rows, block.side, block.first_line(), index) && view.row_index
            == row_number(index as nat)
}

/// Builds what is shown of the runs beside the presentation.
pub fn full_file_omitted_block_views(
    blocks: &Vec<FullFileOmittedBlock>,
    projection: &Vec<FullFileProjectedRow>,
) -> (views: Vec<FullFileOmittedBlockView>)
    ensures
        views.len() == blocks.len(),
        forall|i: int|
            0 <= i < blocks.len() ==> is_block_view(
                (#[trigger] views@[i])@,
                blocks@[i]@,
                projected_models(projection@),
            ),
{
    let mut views: Vec<FullFileOmittedBlockView> = Vec::new();
    let mut i: usize = 0;
    while i < blocks.len()
        invariant
            i <= blocks.len(),
            views.len() == i,
            forall|j: int|
                0 <= j < i ==> is_block_view(
                    (#[trigger] views@[j])@,
                    blocks@[j]@,
                    projected_models(projection@),
                ),
        decreases blocks.len() - i,
    {
        let block = &blocks[i];
        let index: usize = nearest_full_file_row(projection, block.side, block.start_line());
        let view = FullFileOmittedBlockView {
            id: block.id.clone(),
            side: side_name(block.side).to_owned(),
            start_line: block.start_line(),
            end_line: block.end_line(),
            count: to_row_number(block.rows.len()),
            expanded: has_unfolded_gate(projection, block.id.as_str()),
            row_index: to_row_number(index),
        };
        assert(is_nearest_row(
            projected_models(projection@),
            block@.side,
            block@.first_line(),
            index as int,
        ));
        assert(is_block_view(view@, block@, projected_models(projection@)));
        views.push(view);
        i += 1;
    }
    views
}

/// The line a row changes on the old side.
pub open spec fn changed_old(row: UnifiedRow) -> Option<u32> {
    if row.kind == DiffLineKind::Context {
        None
    } else {
        cell_line(row.old)
    }
}

/// The line a row changes on the new side.
pub open spec fn changed_new(row: UnifiedRow) -> Option<u32> {
    if row.kind == DiffLineKind::Context {
        None
    } else {
        cell_line(row.new)
    }
}

/// The lines that rows change on the old side.
pub open spec fn changed_olds(rows: Seq<UnifiedRow>) -> Seq<Option<u32>> {
    rows.map_values(|row: UnifiedRow| changed_old(row))
}

/// The lines that rows change on the new side.
pub open spec fn changed_news(rows: Seq<UnifiedRow>) -> Seq<Option<u32>> {
    rows.map_values(|row: UnifiedRow| changed_new(row))
}

/// The first line that rows change, on the old side where a row changes both.
pub open spec fn first_change(rows: Seq<UnifiedRow>) -> Option<(DiffSide, u32)>
    decreases rows.len(),
{
    if rows.len() == 0 {
        None
    } else {
        let earlier = first_change(rows.drop_last());
        if earlier is Some {
            earlier
        } else if changed_old(rows.last()) is Some {
            Some((DiffSide::Old, changed_old(rows.last())->0))
        } else if changed_new(rows.last()) is Some {
            Some((DiffSide::New, changed_new(rows.last())->0))
        } else {
            None
        }
    }
}

/// The line of a hunk that its location points at: its first change, or else
/// the line its header names, at least the first.
pub open spec fn hunk_target(hunk: ReviewHunk, side: DiffSide) -> (DiffSide, u32) {
    match first_change(hunk.unified_rows@) {
        Some(change) => change,
        None => {
            let start = match side {
                DiffSide::Old => hunk.header.old_start,
                DiffSide::New => hunk.header.new_start,
            };
            (
                side,
                if start > 1 {
                    start
                } else {
                    1
                },
            )
        },
    }
}

/// Whether a location is that of a hunk in the full-file presentation.
pub open spec fn is_full_file_location(
    location: HunkModel,
    hunk: ReviewHunk,
    side: DiffSide,
    rows: Seq<ProjectedModel>,
) -> bool {
    let target = hunk_target(hunk, side);
    &&& location.id == hunk.id@
    &&& location.old_line == line_or_header(
        first_some(changed_olds(hunk.unified_rows@)),
        hunk.header.old_start,
        hunk.header.old_count,
    )
    &&& location.new_line == line_or_header(
        first_some(changed_news(hunk.unified_rows@)),
        hunk.header.new_start,
        hunk.header.new_count,
    )
    &&& location.header == header_chars(hunk.header)
    &&& location.collapsed_context_lines is None
    &&& exists|index: int| #[trigger]
        is_nearest_row(rows, target.0, target.1, index) && location.row_index == row_number(
            index as nat,
        )
}

fn changes_of(hunk: &ReviewHunk) -> (changes: (Option<u32>, Option<u32>, Option<(DiffSide, u32)>))
    ensures
        changes.0 == first_some(changed_olds(hunk.unified_rows@)),
        changes.1 == first_some(changed_news(hunk.unified_rows@)),
        changes.2 == first_change(hunk.unified_rows@),
{
    let rows = &hunk.unified_rows;
    let mut first_old: Option<u32> = None;
    let mut first_new: Option<u32> = None;
    let mut first: Option<(DiffSide, u32)> = None;
    let ghost olds = changed_olds(rows@);
    let ghost news = changed_news(rows@);
    let mut i: usize = 0;
    while i < rows.len()
        invariant
            i <= rows.len(),
            olds == changed_olds(rows@),
            news == changed_news(rows@),
            first_old == first_some(olds.take(i as int)),
            first_new == first_some(news.take(i as int)),
            first == first_change(rows@.take(i as int)),
        decreases rows.len() - i,
    {
        let row = &rows[i];
        assert(olds.take(i + 1).drop_last() =~= olds.take(i as int));
        assert(news.take(i + 1).drop_last() =~= news.take(i as int));
        assert(rows@.take(i + 1).drop_last() =~= rows@.take(i as int));
        let context: bool = row.kind == DiffLineKind::Context;
        let old: Option<u32> = if context {
            None
        } else {
            line_of(&row.old)
        };
        let new: Option<u32> = if context {
            None
        } else {
            line_of(&row.new)
        };
        if first_old.is_none() {
            first_old = old;
        }
        if first_new.is_none() {
            first_new = new;
        }
        if first.is_none() {
            first = match (old, new) {
                (Some(line), _) => Some((DiffSide::Old, line)),
                (None, Some(line)) => Some((DiffSide::New, line)),
                (None, None) => None,
            };
        }
        i += 1;
    }
    assert(olds.take(rows.len() as int) =~= olds);
    assert(news.take(rows.len() as int) =~= news);
    assert(rows@.take(rows.len() as int) =~= rows@);
    (first_old, first_new, first)
}

/// Builds the locations of the hunks in the full-file presentation.
pub fn full_file_hunk_locations(
    document: &ReviewDiffDocument,
    side: DiffSide,
    rows: &Vec<FullFileProjectedRow>,
) -> (locations: Vec<HunkLocationView>)
    ensures
        locations.len() == document.hunks.len(),
        forall|i: int|
            0 <= i < locations.len() ==> is_full_file_location(
                (#[trigger] locations@[i])@,
                document.hunks@[i],
                side,
                projected_models(rows@),
            ),
{
    let mut locations: Vec<HunkLocationView> = Vec::new();
    let mut i: usize = 0;
    while i < document.hunks.len()
        invariant
            i <= document.hunks.len(),
            locations.len() == i,
            forall|j: int|
                0 <= j < i ==> is_full_file_location(
                    (#[trigger] locations@[j])@,
                    document.hunks@[j],
                    side,
                    projected_models(rows@),
                ),
        decreases document.hunks.len() - i,
    {
        let hunk = &document.hunks[i];
        let (first_old, first_new, first) = changes_of(hunk);
        let (target_side, target_line) = match first {
            Some(change) => change,
            None => {
                let start: u32 = match side {
                    DiffSide::Old => hunk.header.old_start,
                    DiffSide::New => hunk.header.new_start,
                };
                (
                    side,
                    if start > 1 {
                        start
                    } else {
                        1
                    },
                )
            },
        };
        let index: usize = nearest_full_file_row(rows, target_side, target_line);
        let location = HunkLocationView {
            id: hunk.id.clone(),
            row_index: to_row_number(index),
            old_line: if first_old.is_some() {
                first_old
            } else if hunk.header.old_count > 0 {
                Some(hunk.header.old_start)
            } else {
                None
            },
            new_line: if first_new.is_some() {
                first_new
            } else if hunk.header.new_count > 0 {
                Some(hunk.header.new_start)
            } else {
                None
            },
            header: format_hunk_header(hunk),
            collapsed_context_lines: None,
        };
        assert(is_nearest_row(
            projected_models(rows@),
            hunk_target(*hunk, side).0,
            hunk_target(*hunk, side).1,
            index as int,
        ));
        assert(is_full_file_location(location@, *hunk, side, projected_models(rows@)));
        locations.push(location);
        i += 1;
    }
    locations
}

/// The identities of all runs that any view of a document can fold.
pub open spec fn block_ids(document: ReviewDiffDocument) -> Set<Seq<char>> {
    Set::new(
        |id: Seq<char>|
            is_block_of(document, FullFileView::Old, id) || is_block_of(
                document,
                FullFileView::New,
                id,
            ) || is_block_of(document, FullFileView::Both, id),
    )
}

/// Whether `id` names a run that a view of a document can fold.
pub open spec fn is_block_of(document: ReviewDiffDocument, view: FullFileView, id: Seq<char>) -> bool {
    exists|i: int|
        0 <= i < omitted_blocks(document, view).len() && (#[trigger] omitted_blocks(
            document,
            view,
        )[i]).id == id
}

/// The identities of all runs that any view of the documents can fold.
pub open spec fn all_block_ids(documents: Seq<ReviewDiffDocument>) -> Set<Seq<char>> {
    Set::new(
        |id: Seq<char>|
            exists|i: int|
                0 <= i < documents.len() && block_ids(#[trigger] documents[i]).contains(id),
    )
}

fn add_block_ids(ids: &mut TextSet, document: &ReviewDiffDocument, view: FullFileView)
    requires
        old(ids).wf(),
    ensures
        final(ids).wf(),
        forall|id: Seq<char>| #[trigger]
            final(ids)@.contains(id) <==> old(ids)@.contains(id) || is_block_of(
                *document,
                view,
                id,
            ),
{
    let blocks = full_file_omitted_blocks(document, view);
    let ghost models = omitted_blocks(*document, view);
    let mut i: usize = 0;
    while i < blocks.len()
        invariant
            i <= blocks.len(),
            ids.wf(),
            models == block_models(blocks@),
            forall|id: Seq<char>|
                ids@.contains(id) <==> old(ids)@.contains(id) || exists|j: int|
                    0 <= j < i && (#[trigger] models[j]).id == id,
        decreases blocks.len() - i,
    {
        let ghost before = ids@;
        let ghost added = blocks@[i as int].id@;
        let _ = ids.insert(blocks[i].id.clone());
        assert(models[i as int].id == added);
        assert forall|id: Seq<char>| ids@.contains(id) <==> old(ids)@.contains(id) || exists|j: int|
            0 <= j < i + 1 && (#[trigger] models[j]).id == id by {
            if before.contains(id) && !old(ids)@.contains(id) {
                let j = choose|j: int| 0 <= j < i && (#[trigger] models[j]).id == id;
                assert(models[j].id == id);
            }
        }
        i += 1;
    }
}

/// Collects the identities of all runs that any view of the documents can
/// fold.
pub fn valid_full_file_deletion_block_ids(documents: &Vec<ReviewDiffDocument>) -> (ids: TextSet)
    ensures
        ids.wf(),
        ids@ == all_block_ids(documents@),
{
    let mut ids = TextSet::new();
    let mut i: usize = 0;
    while i < documents.len()
        invariant
            i <= documents.len(),
            ids.wf(),
            forall|id: Seq<char>|
                ids@.contains(id) <==> exists|j: int|
                    0 <= j < i && block_ids(#[trigger] documents@[j]).contains(id),
        decreases documents.len() - i,
    {
        let ghost before = ids@;
        let ghost document = documents@[i as int];
        add_block_ids(&mut ids, &documents[i], FullFileView::Old);
        add_block_ids(&mut ids, &documents[i], FullFileView::New);
        add_block_ids(&mut ids, &documents[i], FullFileView::Both);
        assert(forall|id: Seq<char>| #[trigger]
            ids@.contains(id) <==> before.contains(id) || block_ids(document).contains(id));
        assert forall|id: Seq<char>| ids@.contains(id) implies exists|j: int|
            0 <= j < i + 1 && block_ids(#[trigger] documents@[j]).contains(id) by {
            if before.contains(id) {
                let j = choose|j: int|
                    0 <= j < i && block_ids(#[trigger] documents@[j]).contains(id);
                assert(block_ids(documents@[j]).contains(id));
            } else {
                assert(block_ids(documents@[i as int]).contains(id));
            }
        }
        assert forall|id: Seq<char>|
            (exists|j: int|
                0 <= j < i + 1 && block_ids(#[trigger] documents@[j]).contains(
                    id,
                )) implies ids@.contains(id) by {
            let j = choose|j: int|
                0 <= j < i + 1 && block_ids(#[trigger] documents@[j]).contains(id);
            if j < i {
                assert(before.contains(id));
            } else {
                assert(documents@[j] == document);
            }
        }
        i += 1;
    }
    assert(ids@ =~= all_block_ids(documents@));
    ids
}

/// Line pairs of the two sources, seen from one of them.
pub open spec fn row_pair(row: SplitRow, source: DiffSide) -> Option<(u32, u32)> {
    if row.old is Some && row.new is Some {
        Some(
            match source {
                DiffSide::Old => (row.old->0.line_number, row.new->0.line_number),
                DiffSide::New => (row.new->0.line_number, row.old->0.line_number),
            },
        )
    } else {
        None
    }
}

/// The line pairs of the rows that show both sources.
pub open spec fn row_pairs(rows: Seq<SplitRow>, source: DiffSide) -> Seq<(u32, u32)>
    decreases rows.len(),
{
    if rows.len() == 0 {
        Seq::empty()
    } else {
        let earlier = row_pairs(rows.drop_last(), source);
        match row_pair(rows.last(), source) {
            Some(pair) => earlier.push(pair),
            None => earlier,
        }
    }
}

/// The line pairs of the first `count` hunks.
pub open spec fn hunk_pairs(hunks: Seq<ReviewHunk>, source: DiffSide, count: nat) -> Seq<(u32, u32)>
    decreases count,
{
    if count == 0 {
        Seq::empty()
    } else {
        hunk_pairs(hunks, source, (count - 1) as nat) + row_pairs(
            hunks[count - 1].split_rows@,
            source,
        )
    }
}

/// One more, at most the largest number.
pub open spec fn one_more(value: u32) -> u32 {
    if value < u32::MAX {
        (value + 1) as u32
    } else {
        u32::MAX
    }
}

/// Everything that is known to correspond: the pairs of the hunks, and what
/// stands before and behind both sources.
pub open spec fn known_pairs(document: ReviewDiffDocument, source: DiffSide, target: DiffSide) -> Seq<
    (u32, u32),
> {
    hunk_pairs(document.hunks@, source, document.hunks@.len()) + seq![
        (0u32, 0u32),
        (
            one_more(side_source(document, source).line_count),
            one_more(side_source(document, target).line_count),
        ),
    ]
}

/// Whether pair `a` comes before `b` by its first line, then by its second.
pub open spec fn pair_before(a: (u32, u32), b: (u32, u32)) -> bool {
    a.0 < b.0 || (a.0 == b.0 && a.1 < b.1)
}

/// The least line that is known to correspond to `line`.
pub open spec fn exact_target(pairs: Seq<(u32, u32)>, line: u32) -> Option<u32>
    decreases pairs.len(),
{
    if pairs.len() == 0 {
        None
    } else {
        let earlier = exact_target(pairs.drop_last(), line);
        let pair = pairs.last();
        if pair.0 == line && (earlier is None || pair.1 < earlier->0) {
            Some(pair.1)
        } else {
            earlier
        }
    }
}

/// The last known pair before `line`.
pub open spec fn pair_below(pairs: Seq<(u32, u32)>, line: u32) -> Option<(u32, u32)>
    decreases pairs.len(),
{
    if pairs.len() == 0 {
        None
    } else {
        let earlier = pair_below(pairs.drop_last(), line);
        let pair = pairs.last();
        if pair.0 < line && (earlier is None || pair_before(earlier->0, pair)) {
            Some(pair)
        } else {
            earlier
        }
    }
}

/// The first known pair behind `line`.
pub open spec fn pair_above(pairs: Seq<(u32, u32)>, line: u32) -> Option<(u32, u32)>
    decreases pairs.len(),
{
    if pairs.len() == 0 {
        None
    } else {
        let earlier = pair_above(pairs.drop_last(), line);
        let pair = pairs.last();
        if pair.0 > line && (earlier is None || pair_before(pair, earlier->0)) {
            Some(pair)
        } else {
            earlier
        }
    }
}

/// A line brought inside the lines of a source that has some.
pub open spec fn inside(line: int, count: u32) -> u32 {
    if line < 1 {
        1
    } else if line > count {
        count
    } else {
        line as u32
    }
}

/// The line of one source that corresponds to a line of the other: a known
/// correspondence, or else as many lines behind the last known pair before it
/// as it is, but not behind the next known pair.
pub open spec fn aligned(
    document: ReviewDiffDocument,
    source: DiffSide,
    line: u32,
    target: DiffSide,
) -> u32 {
    let count = side_source(document, target).line_count;
    let pairs = known_pairs(document, source, target);
    if source == target {
        line
    } else if count == 0 {
        0
    } else if exact_target(pairs, line) is Some {
        inside(exact_target(pairs, line)->0 as int, count)
    } else {
        let below = match pair_below(pairs, line) {
            Some(pair) => pair,
            None => (0u32, 0u32),
        };
        let limit: int = match pair_above(pairs, line) {
            Some(pair) => pair.1 as int,
            None => one_more(count) as int,
        };
        let moved = below.1 + (line - below.0);
        inside(
            if moved <= limit {
                moved
            } else {
                limit
            },
            count,
        )
    }
}

fn append_row_pairs(pairs: &mut Vec<(u32, u32)>, rows: &Vec<SplitRow>, source: DiffSide)
    ensures
        final(pairs)@ == old(pairs)@ + row_pairs(rows@, source),
{
    let ghost start = pairs@;
    let mut i: usize = 0;
    assert(start + row_pairs(rows@.take(0), source) =~= start);
    while i < rows.len()
        invariant
            i <= rows.len(),
            pairs@ == start + row_pairs(rows@.take(i as int), source),
        decreases rows.len() - i,
    {
        let row = &rows[i];
        assert(rows@.take(i + 1).drop_last() =~= rows@.take(i as int));
        match (&row.old, &row.new) {
            (Some(old), Some(new)) => {
                let pair: (u32, u32) = match source {
                    DiffSide::Old => (old.line_number, new.line_number),
                    DiffSide::New => (new.line_number, old.line_number),
                };
                pairs.push(pair);
            },
            _ => {},
        }
        assert(pairs@ =~= start + row_pairs(rows@.take(i + 1), source));
        i += 1;
    }
    assert(rows@.take(rows.len() as int) =~= rows@);
}

/// The line of one source that corresponds to a line of the other.
pub fn aligned_source_line(
    document: &ReviewDiffDocument,
    source_side: DiffSide,
    source_line: u32,
    target_side: DiffSide,
) -> (line: u32)
    ensures
        line == aligned(*document, source_side, source_line, target_side),
{
    if source_side == target_side {
        return source_line;
    }
    let source_count: u32 = side_line_count(document, source_side);
    let target_count: u32 = side_line_count(document, target_side);
    if target_count == 0 {
        return 0;
    }
    let mut pairs: Vec<(u32, u32)> = Vec::new();
    let mut i: usize = 0;
    while i < document.hunks.len()
        invariant
            i <= document.hunks.len(),
            pairs@ == hunk_pairs(document.hunks@, source_side, i as nat),
        decreases document.hunks.len() - i,
    {
        append_row_pairs(&mut pairs, &document.hunks[i].split_rows, source_side);
        i += 1;
    }
    pairs.push((0, 0));
    pairs.push((source_count.saturating_add(1), target_count.saturating_add(1)));
    assert(pairs@ =~= known_pairs(*document, source_side, target_side));
    let mut exact: Option<u32> = None;
    let mut below: Option<(u32, u32)> = None;
    let mut above: Option<(u32, u32)> = None;
    let mut k: usize = 0;
    while k < pairs.len()
        invariant
            k <= pairs.len(),
            exact == exact_target(pairs@.take(k as int), source_line),
            below == pair_below(pairs@.take(k as int), source_line),
            above == pair_above(pairs@.take(k as int), source_line),
            below is Some ==> (below->0).0 < source_line,
        decreases pairs.len() - k,
    {
        let pair: (u32, u32) = pairs[k];
        assert(pairs@.take(k + 1).drop_last() =~= pairs@.take(k as int));
        if pair.0 == source_line {
            let better: bool = match exact {
                Some(target) => pair.1 < target,
                None => true,
            };
            if better {
                exact = Some(pair.1);
            }
        } else if pair.0 < source_line {
            let better: bool = match below {
                Some(other) => other.0 < pair.0 || (other.0 == pair.0 && other.1 < pair.1),
                None => true,
            };
            if better {
                below = Some(pair);
            }
        } else {
            let better: bool = match above {
                Some(other) => pair.0 < other.0 || (pair.0 == other.0 && pair.1 < other.1),
                None => true,
            };
            if better {
                above = Some(pair);
            }
        }
        k += 1;
    }
    assert(pairs@.take(pairs.len() as int) =~= pairs@);
    let mapped: u64 = match exact {
        Some(target) => target as u64,
        None => {
            let start: (u32, u32) = match below {
                Some(pair) => pair,
                None => (0, 0),
            };
            let limit: u64 = match above {
                Some(pair) => pair.1 as u64,
                None => target_count.saturating_add(1) as u64,
            };
            let moved: u64 = start.1 as u64 + (source_line - start.0) as u64;
            if moved <= limit {
                moved
            } else {
                limit
            }
        },
    };
    if mapped < 1 {
        1
    } else if mapped > target_count as u64 {
        target_count
    } else {
        mapped as u32
    }
}

/// A corresponding line is a line of the target source, which is not empty.
pub proof fn law_aligned_line_is_in_target(
    document: ReviewDiffDocument,
    source: DiffSide,
    line: u32,
    target: DiffSide,
)
    requires
        source != target,
        side_source(document, target).line_count > 0,
    ensures
        1 <= aligned(document, source, line, target) <= side_source(document, target).line_count,
{
}

} // verus!
