//! Structural diffs: their windows, their stand-ins and the order of the work
//! behind them.
use crate::annotations::Annotation;
use crate::cache::{within_bounds, without, EntryModel};
use crate::document::{DiffSide, ReviewDiffDocument, ReviewFileStatus};
use crate::full_file::FullFileView;
use crate::presentation::{
    annotated_window, copy_hunks, marked_rows, window_end, window_start,
    CachedCanonicalPresentation, PresentationRequest, MAX_WINDOW_ROWS,
};
use crate::presentation_cache::{
    structural_cache_key, structural_key_chars, PresentationCache, MAX_STRUCTURAL_ENTRIES,
};
use crate::rows::{
    bounded_window, distances_to, is_nearest, line_distance, min_of, nearest, row_models,
};
use crate::source_lines::{byte_to_utf16_index, utf16_index};
use crate::text::{at_most, opt_text, row_number, take_chars, to_row_number};
use crate::views::{
    DifftasticAlignmentView, DifftasticCellView, DifftasticChunkView, DifftasticFallbackView,
    DifftasticPresentationView, DifftasticRowView, DifftasticSpanView, PresentationWindow,
};
use std::sync::Arc;
use vstd::prelude::*;
use vstd::string::*;

verus! {

/// What a structural diff says of a file as a whole.
#[derive(Clone, Copy, Debug, PartialEq, Eq, Structural)]
pub enum DifftasticFileStatus {
    Unchanged,
    Changed,
    Created,
    Deleted,
}

/// How a structural diff is laid out.
#[derive(Clone, Copy, Debug, PartialEq, Eq, Structural)]
pub enum DifftasticDisplay {
    Inline,
    SideBySide,
}

/// What kind of token a changed span is.
#[derive(Clone, Copy, Debug, PartialEq, Eq, Structural)]
pub enum DifftasticHighlight {
    Delimiter,
    Normal,
    StringLiteral,
    Type,
    Comment,
    Keyword,
    TreeSitterError,
}

/// A changed span of a cell, in bytes.
#[derive(Clone, Copy, Debug, PartialEq, Eq, Structural)]
pub struct DifftasticSpan {
    pub start_byte: u32,
    pub end_byte: u32,
    pub highlight: DifftasticHighlight,
}

/// One side of a structural row.
#[derive(Debug)]
pub struct DifftasticCell {
    pub line_number: u32,
    pub text: String,
    pub changed_spans: Vec<DifftasticSpan>,
}

/// One structural row.
#[derive(Debug)]
pub struct DifftasticRow {
    pub old: Option<DifftasticCell>,
    pub new: Option<DifftasticCell>,
}

/// Structural rows that belong together.
#[derive(Debug)]
pub struct DifftasticChunk {
    pub rows: Vec<DifftasticRow>,
}

/// Which lines of the two sides stand next to each other.
#[derive(Clone, Copy, Debug, PartialEq, Eq, Structural)]
pub struct DifftasticAlignment {
    pub old_line_number: Option<u32>,
    pub new_line_number: Option<u32>,
}

/// A structural diff of a file.
#[derive(Debug)]
pub struct DifftasticPresentation {
    pub status: DifftasticFileStatus,
    pub display: DifftasticDisplay,
    pub chunks: Vec<DifftasticChunk>,
    pub alignment: Vec<DifftasticAlignment>,
}

/// What a shown span says.
pub struct SpanModel {
    pub start: u32,
    pub end: u32,
    pub highlight: Seq<char>,
}

/// What a shown cell says.
pub struct StructuralCellModel {
    pub line_number: u32,
    pub text: Seq<char>,
    pub changed_spans: Seq<SpanModel>,
}

/// What a shown structural row says.
pub struct StructuralRowModel {
    pub old_cell: Option<StructuralCellModel>,
    pub new_cell: Option<StructuralCellModel>,
}

impl View for DifftasticSpanView {
    type V = SpanModel;

    open spec fn view(&self) -> SpanModel {
        SpanModel { start: self.start, end: self.end, highlight: self.highlight@ }
    }
}

/// What the shown spans of a list say, in order.
pub open spec fn span_models(spans: Seq<DifftasticSpanView>) -> Seq<SpanModel> {
    spans.map_values(|span: DifftasticSpanView| span@)
}

impl View for DifftasticCellView {
    type V = StructuralCellModel;

    open spec fn view(&self) -> StructuralCellModel {
        StructuralCellModel {
            line_number: self.line_number,
            text: self.text@,
            changed_spans: span_models(self.changed_spans@),
        }
    }
}

impl View for DifftasticRowView {
    type V = StructuralRowModel;

    open spec fn view(&self) -> StructuralRowModel {
        StructuralRowModel {
            old_cell: match self.old {
                Some(cell) => Some(cell@),
                None => None,
            },
            new_cell: match self.new {
                Some(cell) => Some(cell@),
                None => None,
            },
        }
    }
}

/// What the shown structural rows of a list say, in order.
pub open spec fn structural_models(rows: Seq<DifftasticRowView>) -> Seq<StructuralRowModel> {
    rows.map_values(|row: DifftasticRowView| row@)
}

/// The name of a file status.
pub open spec fn status_chars(status: DifftasticFileStatus) -> Seq<char> {
    match status {
        DifftasticFileStatus::Unchanged => "unchanged"@,
        DifftasticFileStatus::Changed => "changed"@,
        DifftasticFileStatus::Created => "created"@,
        DifftasticFileStatus::Deleted => "deleted"@,
    }
}

/// The name of a layout.
pub open spec fn display_chars(display: DifftasticDisplay) -> Seq<char> {
    match display {
        DifftasticDisplay::Inline => "inline"@,
        DifftasticDisplay::SideBySide => "side_by_side"@,
    }
}

/// The name of a kind of token.
pub open spec fn highlight_chars(highlight: DifftasticHighlight) -> Seq<char> {
    match highlight {
        DifftasticHighlight::Delimiter => "delimiter"@,
        DifftasticHighlight::Normal => "normal"@,
        DifftasticHighlight::StringLiteral => "string"@,
        DifftasticHighlight::Type => "type"@,
        DifftasticHighlight::Comment => "comment"@,
        DifftasticHighlight::Keyword => "keyword"@,
        DifftasticHighlight::TreeSitterError => "tree_sitter_error"@,
    }
}

fn status_name(status: DifftasticFileStatus) -> (name: &'static str)
    ensures
        name@ == status_chars(status),
{
    match status {
        DifftasticFileStatus::Unchanged => "unchanged",
        DifftasticFileStatus::Changed => "changed",
        DifftasticFileStatus::Created => "created",
        DifftasticFileStatus::Deleted => "deleted",
    }
}

fn display_name(display: DifftasticDisplay) -> (name: &'static str)
    ensures
        name@ == display_chars(display),
{
    match display {
        DifftasticDisplay::Inline => "inline",
        DifftasticDisplay::SideBySide => "side_by_side",
    }
}

fn highlight_name(highlight: DifftasticHighlight) -> (name: &'static str)
    ensures
        name@ == highlight_chars(highlight),
{
    match highlight {
        DifftasticHighlight::Delimiter => "delimiter",
        DifftasticHighlight::Normal => "normal",
        DifftasticHighlight::StringLiteral => "string",
        DifftasticHighlight::Type => "type",
        DifftasticHighlight::Comment => "comment",
        DifftasticHighlight::Keyword => "keyword",
        DifftasticHighlight::TreeSitterError => "tree_sitter_error",
    }
}

/// What is shown of a span of a text: nothing where it does not start and end
/// between characters of the text, or is empty.
pub open spec fn shown_span(text: Seq<char>, span: DifftasticSpan) -> Option<SpanModel> {
    match (utf16_index(text, span.start_byte), utf16_index(text, span.end_byte)) {
        (Some(start), Some(end)) => if end > start {
            Some(SpanModel { start, end, highlight: highlight_chars(span.highlight) })
        } else {
            None
        },
        _ => None,
    }
}

/// What is shown of the spans of a text.
pub open spec fn shown_spans(text: Seq<char>, spans: Seq<DifftasticSpan>) -> Seq<SpanModel>
    decreases spans.len(),
{
    if spans.len() == 0 {
        Seq::empty()
    } else {
        let before = shown_spans(text, spans.drop_last());
        match shown_span(text, spans.last()) {
            Some(span) => before.push(span),
            None => before,
        }
    }
}

/// What is shown of a cell.
pub open spec fn shown_cell(cell: DifftasticCell) -> StructuralCellModel {
    StructuralCellModel {
        line_number: cell.line_number,
        text: cell.text@,
        changed_spans: shown_spans(cell.text@, cell.changed_spans@),
    }
}

/// What is shown of a structural row.
pub open spec fn shown_structural_row(row: DifftasticRow) -> StructuralRowModel {
    StructuralRowModel {
        old_cell: match row.old {
            Some(cell) => Some(shown_cell(cell)),
            None => None,
        },
        new_cell: match row.new {
            Some(cell) => Some(shown_cell(cell)),
            None => None,
        },
    }
}

fn difftastic_cell_view(cell: &DifftasticCell) -> (view: DifftasticCellView)
    ensures
        view@ == shown_cell(*cell),
{
    let mut changed_spans: Vec<DifftasticSpanView> = Vec::new();
    let ghost spans = cell.changed_spans@;
    let mut i: usize = 0;
    assert(spans.take(0) =~= Seq::<DifftasticSpan>::empty());
    assert(span_models(changed_spans@) =~= Seq::<SpanModel>::empty());
    while i < cell.changed_spans.len()
        invariant
            i <= cell.changed_spans.len(),
            spans == cell.changed_spans@,
            span_models(changed_spans@) == shown_spans(cell.text@, spans.take(i as int)),
        decreases cell.changed_spans.len() - i,
    {
        let span: DifftasticSpan = cell.changed_spans[i];
        assert(spans.take(i + 1).drop_last() =~= spans.take(i as int));
        let start: Option<u32> = byte_to_utf16_index(cell.text.as_str(), span.start_byte);
        let end: Option<u32> = byte_to_utf16_index(cell.text.as_str(), span.end_byte);
        match (start, end) {
            (Some(start), Some(end)) => {
                if end > start {
                    let ghost before = span_models(changed_spans@);
                    let shown = DifftasticSpanView {
                        start,
                        end,
                        highlight: highlight_name(span.highlight).to_owned(),
                    };
                    let ghost model = shown@;
                    changed_spans.push(shown);
                    assert(span_models(changed_spans@) =~= before.push(model));
                }
            },
            _ => {},
        }
        i += 1;
    }
    assert(spans.take(spans.len() as int) =~= spans);
    DifftasticCellView { line_number: cell.line_number, text: cell.text.clone(), changed_spans }
}

fn difftastic_row_view(row: &DifftasticRow) -> (view: DifftasticRowView)
    ensures
        view@ == shown_structural_row(*row),
{
    DifftasticRowView {
        old: match &row.old {
            Some(cell) => Some(difftastic_cell_view(cell)),
            None => None,
        },
        new: match &row.new {
            Some(cell) => Some(difftastic_cell_view(cell)),
            None => None,
        },
    }
}

/// The rows of all chunks, in order.
pub open spec fn flattened(chunks: Seq<DifftasticChunk>) -> Seq<DifftasticRow>
    decreases chunks.len(),
{
    if chunks.len() == 0 {
        Seq::empty()
    } else {
        flattened(chunks.drop_last()) + chunks.last().rows@
    }
}

/// How many rows all chunks have fits a machine word.
pub open spec fn rows_fit(presentation: DifftasticPresentation) -> bool {
    flattened(presentation.chunks@).len() <= usize::MAX
}

proof fn lemma_flattened_prefix(chunks: Seq<DifftasticChunk>, count: int)
    requires
        0 <= count <= chunks.len(),
    ensures
        flattened(chunks.take(count)).len() <= flattened(chunks).len(),
        flattened(chunks).take(flattened(chunks.take(count)).len() as int) == flattened(
            chunks.take(count),
        ),
    decreases chunks.len() - count,
{
    if count < chunks.len() {
        lemma_flattened_prefix(chunks, count + 1);
        assert(chunks.take(count + 1).drop_last() =~= chunks.take(count));
        let shorter = flattened(chunks.take(count));
        let longer = flattened(chunks.take(count + 1));
        assert(longer.take(shorter.len() as int) =~= shorter);
        assert(flattened(chunks).take(shorter.len() as int) =~= longer.take(shorter.len() as int));
    } else {
        assert(chunks.take(count) =~= chunks);
        assert(flattened(chunks).take(flattened(chunks).len() as int) =~= flattened(chunks));
    }
}

proof fn lemma_flattened_row(chunks: Seq<DifftasticChunk>, chunk: int, row: int)
    requires
        0 <= chunk < chunks.len(),
        0 <= row < chunks[chunk].rows@.len(),
    ensures
        flattened(chunks.take(chunk)).len() + row < flattened(chunks).len(),
        flattened(chunks)[flattened(chunks.take(chunk)).len() + row] == chunks[chunk].rows@[row],
{
    lemma_flattened_prefix(chunks, chunk + 1);
    assert(chunks.take(chunk + 1).drop_last() =~= chunks.take(chunk));
    let position = flattened(chunks.take(chunk)).len() + row;
    assert(flattened(chunks.take(chunk + 1))[position] == chunks[chunk].rows@[row]);
    assert(flattened(chunks).take(flattened(chunks.take(chunk + 1)).len() as int)[position]
        == flattened(chunks)[position]);
}

/// How many rows a structural diff has.
pub fn structural_row_count(presentation: &DifftasticPresentation) -> (count: usize)
    requires
        rows_fit(*presentation),
    ensures
        count == flattened(presentation.chunks@).len(),
{
    let mut count: usize = 0;
    let mut i: usize = 0;
    let ghost chunks = presentation.chunks@;
    assert(chunks.take(0) =~= Seq::<DifftasticChunk>::empty());
    while i < presentation.chunks.len()
        invariant
            i <= presentation.chunks.len(),
            chunks == presentation.chunks@,
            rows_fit(*presentation),
            count == flattened(chunks.take(i as int)).len(),
        decreases presentation.chunks.len() - i,
    {
        proof {
            assert(chunks.take(i + 1).drop_last() =~= chunks.take(i as int));
            lemma_flattened_prefix(chunks, i + 1);
        }
        count += presentation.chunks[i].rows.len();
        i += 1;
    }
    assert(chunks.take(chunks.len() as int) =~= chunks);
    count
}

/// The items of a list from `start` up to `end`, as far as there are any.
pub open spec fn part<A>(list: Seq<A>, start: int, end: int) -> Seq<A> {
    if start < end && start < list.len() {
        list.subrange(start, min_of(end, list.len() as int))
    } else {
        Seq::empty()
    }
}

proof fn lemma_part_of_prefix<A>(list: Seq<A>, count: int, start: int, end: int)
    requires
        0 <= count < list.len(),
        0 <= start,
    ensures
        part(list.take(count + 1), start, end) == if start <= count < end {
            part(list.take(count), start, end).push(list[count])
        } else {
            part(list.take(count), start, end)
        },
{
    let shorter = part(list.take(count), start, end);
    let longer = part(list.take(count + 1), start, end);
    if start <= count < end {
        assert(longer =~= shorter.push(list[count]));
    } else {
        assert(longer =~= shorter);
    }
}

fn shown_rows(presentation: &DifftasticPresentation, start: usize, end: usize) -> (shown: Vec<
    DifftasticRowView,
>)
    requires
        rows_fit(*presentation),
    ensures
        structural_models(shown@) == part(flattened(presentation.chunks@), start as int, end as int).map_values(
            |row: DifftasticRow| shown_structural_row(row),
        ),
{
    let ghost chunks = presentation.chunks@;
    let ghost flat = flattened(chunks);
    let ghost shows = |row: DifftasticRow| shown_structural_row(row);
    let mut shown: Vec<DifftasticRowView> = Vec::new();
    let mut position: usize = 0;
    let mut c: usize = 0;
    assert(chunks.take(0) =~= Seq::<DifftasticChunk>::empty());
    assert(structural_models(shown@) =~= part(flat.take(0), start as int, end as int).map_values(
        shows,
    ));
    while c < presentation.chunks.len()
        invariant
            c <= presentation.chunks.len(),
            chunks == presentation.chunks@,
            flat == flattened(chunks),
            flat.len() <= usize::MAX,
            shows == (|row: DifftasticRow| shown_structural_row(row)),
            position == flattened(chunks.take(c as int)).len(),
            structural_models(shown@) == part(
                flat.take(position as int),
                start as int,
                end as int,
            ).map_values(shows),
        decreases presentation.chunks.len() - c,
    {
        let chunk = &presentation.chunks[c];
        let mut r: usize = 0;
        while r < chunk.rows.len()
            invariant
                c < presentation.chunks.len(),
                r <= chunk.rows.len(),
                chunks == presentation.chunks@,
                *chunk == chunks[c as int],
                flat == flattened(chunks),
                flat.len() <= usize::MAX,
                shows == (|row: DifftasticRow| shown_structural_row(row)),
                position == flattened(chunks.take(c as int)).len() + r,
                structural_models(shown@) == part(
                    flat.take(position as int),
                    start as int,
                    end as int,
                ).map_values(shows),
            decreases chunk.rows.len() - r,
        {
            proof {
                lemma_flattened_row(chunks, c as int, r as int);
                lemma_part_of_prefix(flat, position as int, start as int, end as int);
            }
            if start <= position && position < end {
                let ghost before = structural_models(shown@);
                let ghost earlier = part(flat.take(position as int), start as int, end as int);
                let view = difftastic_row_view(&chunk.rows[r]);
                let ghost model = view@;
                shown.push(view);
                assert(structural_models(shown@) =~= before.push(model));
                assert(earlier.push(flat[position as int]).map_values(shows)
                    =~= earlier.map_values(shows).push(model));
            }
            position += 1;
            r += 1;
        }
        assert(chunks.take(c + 1).drop_last() =~= chunks.take(c as int));
        c += 1;
    }
    assert(chunks.take(chunks.len() as int) =~= chunks);
    assert(flat.take(flat.len() as int) =~= flat);
    shown
}

fn shown_alignment(alignment: &Vec<DifftasticAlignment>, start: usize, end: usize) -> (shown: Vec<
    DifftasticAlignmentView,
>)
    ensures
        shown@ == part(alignment@, start as int, end as int).map_values(
            |pair: DifftasticAlignment| shown_pair(pair),
        ),
{
    let ghost shows = |pair: DifftasticAlignment| shown_pair(pair);
    let mut shown: Vec<DifftasticAlignmentView> = Vec::new();
    let mut i: usize = 0;
    assert(shown@ =~= part(alignment@.take(0), start as int, end as int).map_values(shows));
    while i < alignment.len()
        invariant
            i <= alignment.len(),
            shows == (|pair: DifftasticAlignment| shown_pair(pair)),
            shown@ == part(alignment@.take(i as int), start as int, end as int).map_values(shows),
        decreases alignment.len() - i,
    {
        let pair: DifftasticAlignment = alignment[i];
        proof {
            lemma_part_of_prefix(alignment@, i as int, start as int, end as int);
        }
        if start <= i && i < end {
            let ghost earlier = part(alignment@.take(i as int), start as int, end as int);
            let ghost before = shown@;
            shown.push(
                DifftasticAlignmentView {
                    old_line: pair.old_line_number,
                    new_line: pair.new_line_number,
                },
            );
            assert(shown@ =~= earlier.push(pair).map_values(shows));
        }
        i += 1;
    }
    assert(alignment@.take(alignment.len() as int) =~= alignment@);
    shown
}

/// What is shown of a pair of lines.
pub open spec fn shown_pair(pair: DifftasticAlignment) -> DifftasticAlignmentView {
    DifftasticAlignmentView { old_line: pair.old_line_number, new_line: pair.new_line_number }
}

/// Whether a view shows the rows `start..end` of a structural diff.
pub open spec fn is_structural_view(
    view: DifftasticPresentationView,
    presentation: DifftasticPresentation,
    start: int,
    end: int,
) -> bool {
    let rows = part(flattened(presentation.chunks@), start, end);
    &&& view.status@ == status_chars(presentation.status)
    &&& view.display@ == display_chars(presentation.display)
    &&& view.start_row == row_number(start as nat)
    &&& view.total_rows == row_number(flattened(presentation.chunks@).len())
    &&& if rows.len() == 0 {
        view.chunks@.len() == 0
    } else {
        view.chunks@.len() == 1 && structural_models(view.chunks@[0].rows@) == rows.map_values(
            |row: DifftasticRow| shown_structural_row(row),
        )
    }
    &&& view.alignment@ == part(presentation.alignment@, start, end).map_values(
        |pair: DifftasticAlignment| shown_pair(pair),
    )
}

/// Shows the rows `start..end` of a structural diff.
pub fn difftastic_view(
    presentation: &DifftasticPresentation,
    start: usize,
    end: usize,
    fallback: Option<DifftasticFallbackView>,
) -> (view: DifftasticPresentationView)
    requires
        rows_fit(*presentation),
    ensures
        is_structural_view(view, *presentation, start as int, end as int),
        view.fallback == fallback,
{
    let rows = shown_rows(presentation, start, end);
    assert(structural_models(rows@).len() == rows@.len());
    let mut chunks: Vec<DifftasticChunkView> = Vec::new();
    if rows.len() > 0 {
        chunks.push(DifftasticChunkView { rows });
    }
    DifftasticPresentationView {
        status: status_name(presentation.status).to_owned(),
        display: display_name(presentation.display).to_owned(),
        start_row: to_row_number(start),
        total_rows: to_row_number(structural_row_count(presentation)),
        chunks,
        alignment: shown_alignment(&presentation.alignment, start, end),
        fallback,
    }
}

/// The lines of one side of an alignment.
pub open spec fn aligned_lines(alignment: Seq<DifftasticAlignment>, side: DiffSide) -> Seq<
    Option<u32>,
> {
    alignment.map_values(
        |pair: DifftasticAlignment|
            match side {
                DiffSide::Old => pair.old_line_number,
                DiffSide::New => pair.new_line_number,
            },
    )
}

/// The structural row that shows a line of one side, or else the one nearest
/// to it; the earlier of two equally near rows.
pub fn nearest_difftastic_row(
    presentation: &DifftasticPresentation,
    side: DiffSide,
    line: u32,
) -> (index: usize)
    ensures
        is_nearest(
            distances_to(aligned_lines(presentation.alignment@, side), line),
            index as int,
        ),
{
    let ghost wanted = distances_to(aligned_lines(presentation.alignment@, side), line);
    let mut distances: Vec<Option<u32>> = Vec::new();
    let mut i: usize = 0;
    while i < presentation.alignment.len()
        invariant
            i <= presentation.alignment.len(),
            wanted == distances_to(aligned_lines(presentation.alignment@, side), line),
            distances@ =~= wanted.take(i as int),
        decreases presentation.alignment.len() - i,
    {
        let pair: DifftasticAlignment = presentation.alignment[i];
        let candidate: Option<u32> = match side {
            DiffSide::Old => pair.old_line_number,
            DiffSide::New => pair.new_line_number,
        };
        let entry: Option<u32> = match candidate {
            Some(number) => Some(line_distance(number, line)),
            None => None,
        };
        distances.push(entry);
        i += 1;
    }
    assert(distances@ =~= wanted);
    nearest(&distances)
}

/// Whether a window shows the part of a structural diff that a request asks
/// for.
pub open spec fn is_structural_window(
    window: PresentationWindow,
    request: PresentationRequest,
    presentation: DifftasticPresentation,
) -> bool {
    let total = flattened(presentation.chunks@).len();
    let start = window_start(request, total);
    let end = window_end(request, total, MAX_WINDOW_ROWS as nat);
    &&& window.generation == request.generation
    &&& window.mode@ == "difftastic"@
    &&& window.file_id@ == request.file_id@
    &&& window.start_row == row_number(start as nat)
    &&& window.total_rows == row_number(total)
    &&& window.rows@.len() == 0
    &&& window.hunks@.len() == 0
    &&& window.omitted_blocks@.len() == 0
    &&& window.old_tokens@.len() == 0
    &&& window.new_tokens@.len() == 0
    &&& window.highlight_status@ == "disabled"@
    &&& opt_text(window.highlight_reason) == Some("Difftastic owns structural token spans"@)
    &&& window.difftastic matches Some(view) && {
        &&& is_structural_view(view, presentation, start, end)
        &&& view.fallback is None
    }
}

/// Builds the window that a request asks for out of a structural diff.
pub fn structural_window(request: &PresentationRequest, presentation: &DifftasticPresentation) -> (window:
    PresentationWindow)
    requires
        rows_fit(*presentation),
    ensures
        is_structural_window(window, *request, *presentation),
{
    let total: usize = structural_row_count(presentation);
    let (start, end) = bounded_window(request.start_row, request.end_row, total, MAX_WINDOW_ROWS);
    PresentationWindow {
        generation: request.generation,
        mode: "difftastic".to_owned(),
        file_id: request.file_id.clone(),
        start_row: to_row_number(start),
        total_rows: to_row_number(total),
        rows: Vec::new(),
        hunks: Vec::new(),
        omitted_blocks: Vec::new(),
        old_tokens: Vec::new(),
        new_tokens: Vec::new(),
        highlight_status: "disabled".to_owned(),
        highlight_reason: Some("Difftastic owns structural token spans".to_owned()),
        difftastic: Some(difftastic_view(presentation, start, end, None)),
    }
}

/// What a stand-in says of a file as a whole.
pub open spec fn stand_in_status(status: ReviewFileStatus) -> Seq<char> {
    match status {
        ReviewFileStatus::Added => "created"@,
        ReviewFileStatus::Deleted => "deleted"@,
        _ => "changed"@,
    }
}

/// What a stand-in says of a file as a whole.
pub fn difftastic_file_status(document: &ReviewDiffDocument) -> (name: &'static str)
    ensures
        name@ == stand_in_status(document.file.status),
{
    match document.file.status {
        ReviewFileStatus::Added => "created",
        ReviewFileStatus::Deleted => "deleted",
        _ => "changed",
    }
}

/// How many characters of the reason a stand-in tells.
pub const MAX_FALLBACK_DETAIL: usize = 1000;

/// Whether a window shows canonical rows in place of a structural diff.
pub open spec fn is_fallback_window(
    window: PresentationWindow,
    request: PresentationRequest,
    document: ReviewDiffDocument,
    canonical: CachedCanonicalPresentation,
    annotations: Seq<Annotation>,
    detail: Seq<char>,
) -> bool {
    let total = canonical.rows@.len();
    let start = window_start(request, total);
    let end = window_end(request, total, MAX_WINDOW_ROWS as nat);
    &&& window.generation == request.generation
    &&& window.mode@ == "difftastic"@
    &&& window.file_id@ == request.file_id@
    &&& window.start_row == row_number(start as nat)
    &&& window.total_rows == row_number(total)
    &&& row_models(window.rows@) == marked_rows(
        row_models(canonical.rows@).subrange(start, end),
        annotations,
        document,
    )
    &&& window.hunks@ == canonical.hunks@
    &&& window.omitted_blocks@.len() == 0
    &&& window.old_tokens@.len() == 0
    &&& window.new_tokens@.len() == 0
    &&& window.highlight_status@ == "disabled"@
    &&& opt_text(window.highlight_reason) == Some(
        "Difftastic unavailable; canonical rows returned"@,
    )
    &&& window.difftastic matches Some(view) && {
        &&& view.status@ == stand_in_status(document.file.status)
        &&& view.display@ == "side_by_side"@
        &&& view.start_row == row_number(start as nat)
        &&& view.total_rows == row_number(total)
        &&& view.chunks@.len() == 0
        &&& view.alignment@.len() == 0
        &&& view.fallback matches Some(fallback) && {
            &&& fallback.reason@ == "canonical_fallback"@
            &&& opt_text(fallback.detail) == Some(at_most(detail, MAX_FALLBACK_DETAIL as nat))
        }
    }
}

/// Builds the window that stands in for a structural diff.
pub fn fallback_window(
    request: &PresentationRequest,
    document: &ReviewDiffDocument,
    canonical: &CachedCanonicalPresentation,
    annotations: &Vec<Annotation>,
    detail: &str,
) -> (window: PresentationWindow)
    ensures
        is_fallback_window(window, *request, *document, *canonical, annotations@, detail@),
{
    let total: usize = canonical.rows.len();
    let (start, end) = bounded_window(request.start_row, request.end_row, total, MAX_WINDOW_ROWS);
    let rows = annotated_window(&canonical.rows, start, end, annotations, document);
    PresentationWindow {
        generation: request.generation,
        mode: "difftastic".to_owned(),
        file_id: request.file_id.clone(),
        start_row: to_row_number(start),
        total_rows: to_row_number(total),
        rows,
        hunks: copy_hunks(&canonical.hunks),
        omitted_blocks: Vec::new(),
        old_tokens: Vec::new(),
        new_tokens: Vec::new(),
        highlight_status: "disabled".to_owned(),
        highlight_reason: Some("Difftastic unavailable; canonical rows returned".to_owned()),
        difftastic: Some(
            DifftasticPresentationView {
                status: difftastic_file_status(document).to_owned(),
                display: "side_by_side".to_owned(),
                start_row: to_row_number(start),
                total_rows: to_row_number(total),
                chunks: Vec::new(),
                alignment: Vec::new(),
                fallback: Some(
                    DifftasticFallbackView {
                        reason: "canonical_fallback".to_owned(),
                        detail: Some(take_chars(detail, MAX_FALLBACK_DETAIL)),
                    },
                ),
            },
        ),
    }
}

/// The view under which the canonical rows of a stand-in are kept.
pub open spec fn stand_in_view(requested: FullFileView) -> FullFileView {
    if requested == FullFileView::Old {
        FullFileView::Old
    } else {
        FullFileView::New
    }
}

/// The view under which the canonical rows of a stand-in are kept: that of
/// the side that the requested view shows first.
pub fn fallback_view(requested: FullFileView) -> (view: FullFileView)
    ensures
        view == stand_in_view(requested),
{
    match requested.primary_side() {
        DiffSide::Old => FullFileView::Old,
        DiffSide::New => FullFileView::New,
    }
}

/// Answers a request with a structural diff, and keeps the diff.
pub fn show_structural<D>(
    cache: &mut PresentationCache<D, Arc<DifftasticPresentation>>,
    request: &PresentationRequest,
    document: &ReviewDiffDocument,
    theme: &str,
    structural: Arc<DifftasticPresentation>,
) -> (window: PresentationWindow)
    requires
        old(cache).wf(),
        rows_fit(*structural),
    ensures
        is_structural_window(window, *request, *structural),
        final(cache).wf(),
        final(cache).documents == old(cache).documents,
        final(cache).canonical == old(cache).canonical,
        final(cache).verified_sidecars == old(cache).verified_sidecars,
        final(cache).structural@ == within_bounds(
            without(old(cache).structural@, structural_key_chars(*document, theme@)).push(
                EntryModel {
                    key: structural_key_chars(*document, theme@),
                    cost: 1,
                    value: structural,
                },
            ),
            MAX_STRUCTURAL_ENTRIES as nat,
            MAX_STRUCTURAL_ENTRIES as nat,
        ),
{
    let window = structural_window(request, &structural);
    cache.structural.insert(structural_cache_key(document, theme), 1, structural);
    window
}

/// What happened on the way to a structural diff.
#[derive(Clone, Copy, Debug, PartialEq, Eq, Structural)]
pub enum StructuralEvent {
    /// A window was asked for.
    Requested,
    /// A kept diff was found.
    Cached,
    /// No diff is kept.
    NotCached,
    /// The program that computes diffs is not there.
    SidecarUnavailable,
    /// The program that computes diffs is there.
    SidecarReady,
    /// No worker may be used.
    PermitRefused,
    /// A worker may be used; the version of the program is known or not.
    PermitGranted { verified: bool },
    /// The program has another version than it should.
    VersionRefused,
    /// The program has the version that it should.
    VersionConfirmed,
    /// A diff was computed.
    Rendered,
    /// No diff could be computed.
    RenderFellBack,
}

/// What to do next on the way to a structural diff.
#[derive(Clone, Copy, Debug, PartialEq, Eq, Structural)]
pub enum StructuralStep {
    /// Look for a kept diff.
    LookUp,
    /// Look for the program that computes diffs.
    LocateSidecar,
    /// Wait for a worker.
    TakePermit,
    /// Ask the program for its version.
    VerifyVersion,
    /// Compute the diff.
    Render,
    /// Remember the program's version, then compute the diff.
    RememberAndRender,
    /// Answer with the diff, and keep it.
    ShowStructural,
    /// Answer with canonical rows.
    ShowFallback,
    /// Answer that a newer request superseded this one.
    Cancel,
}

/// What follows an event. `cancelled` says whether the job was cancelled, and
/// `current` whether it still is the newest of its file.
pub open spec fn structural_step(event: StructuralEvent, cancelled: bool, current: bool) -> StructuralStep {
    match event {
        StructuralEvent::Requested => if cancelled {
            StructuralStep::Cancel
        } else {
            StructuralStep::LookUp
        },
        StructuralEvent::NotCached => StructuralStep::LocateSidecar,
        StructuralEvent::SidecarUnavailable => StructuralStep::ShowFallback,
        StructuralEvent::SidecarReady => StructuralStep::TakePermit,
        StructuralEvent::PermitRefused => StructuralStep::Cancel,
        StructuralEvent::PermitGranted { verified } => if verified {
            StructuralStep::Render
        } else {
            StructuralStep::VerifyVersion
        },
        StructuralEvent::VersionConfirmed => StructuralStep::RememberAndRender,
        StructuralEvent::VersionRefused | StructuralEvent::RenderFellBack => if cancelled {
            StructuralStep::Cancel
        } else {
            StructuralStep::ShowFallback
        },
        StructuralEvent::Cached | StructuralEvent::Rendered => if cancelled || !current {
            StructuralStep::Cancel
        } else {
            StructuralStep::ShowStructural
        },
    }
}

/// Decides what follows an event.
pub fn next_structural_step(event: StructuralEvent, cancelled: bool, current: bool) -> (step:
    StructuralStep)
    ensures
        step == structural_step(event, cancelled, current),
{
    match event {
        StructuralEvent::Requested => if cancelled {
            StructuralStep::Cancel
        } else {
            StructuralStep::LookUp
        },
        StructuralEvent::NotCached => StructuralStep::LocateSidecar,
        StructuralEvent::SidecarUnavailable => StructuralStep::ShowFallback,
        StructuralEvent::SidecarReady => StructuralStep::TakePermit,
        StructuralEvent::PermitRefused => StructuralStep::Cancel,
        StructuralEvent::PermitGranted { verified } => if verified {
            StructuralStep::Render
        } else {
            StructuralStep::VerifyVersion
        },
        StructuralEvent::VersionConfirmed => StructuralStep::RememberAndRender,
        StructuralEvent::VersionRefused | StructuralEvent::RenderFellBack => if cancelled {
            StructuralStep::Cancel
        } else {
            StructuralStep::ShowFallback
        },
        StructuralEvent::Cached | StructuralEvent::Rendered => if cancelled || !current {
            StructuralStep::Cancel
        } else {
            StructuralStep::ShowStructural
        },
    }
}

/// A structural diff is shown only to a job that was not cancelled and is
/// still the newest of its file, and only where the diff was kept or has just
/// been computed.
pub proof fn law_only_current_jobs_see_structural_rows(
    event: StructuralEvent,
    cancelled: bool,
    current: bool,
)
    requires
        structural_step(event, cancelled, current) == StructuralStep::ShowStructural,
    ensures
        !cancelled,
        current,
        event == StructuralEvent::Cached || event == StructuralEvent::Rendered,
{
}

/// A diff is computed only by a worker that may run, with a program whose
/// version was confirmed, now or before.
pub proof fn law_only_verified_sidecars_render(
    event: StructuralEvent,
    cancelled: bool,
    current: bool,
)
    requires
        structural_step(event, cancelled, current) == StructuralStep::Render || structural_step(
            event,
            cancelled,
            current,
        ) == StructuralStep::RememberAndRender,
    ensures
        event == (StructuralEvent::PermitGranted { verified: true }) || event
            == StructuralEvent::VersionConfirmed,
{
}

/// A structural diff that was just shown is found when the same sources are
/// asked for again in the same theme.
pub proof fn law_shown_structural_diff_is_kept(
    kept: Seq<EntryModel<Arc<DifftasticPresentation>>>,
    key: Seq<char>,
    structural: Arc<DifftasticPresentation>,
)
    ensures
        crate::cache::lookup(
            within_bounds(
                without(kept, key).push(EntryModel { key, cost: 1, value: structural }),
                MAX_STRUCTURAL_ENTRIES as nat,
                MAX_STRUCTURAL_ENTRIES as nat,
            ),
            key,
        ) == Some(EntryModel { key, cost: 1, value: structural }),
{
    crate::cache::law_inserted_value_is_found(
        kept,
        EntryModel { key, cost: 1, value: structural },
        MAX_STRUCTURAL_ENTRIES as nat,
        MAX_STRUCTURAL_ENTRIES as nat,
    );
}

} // verus!
