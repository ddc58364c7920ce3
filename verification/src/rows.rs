//! Diff rows: their meaning, windows over them and lookups among them.
use crate::document::DiffSide;
use crate::errors::{invalid, DispatchError};
use crate::text::{copy_opt, opt_text, row_number, text_eq, to_row_number};
use crate::views::{DiffRowView, FullFileOmittedBlockView, HunkLocationView};
use vstd::prelude::*;
use vstd::string::*;
use vstd::utf8::*;

verus! {

/// What a diff row says.
pub struct RowModel {
    pub id: Seq<char>,
    pub kind: Seq<char>,
    pub hunk_id: Option<Seq<char>>,
    pub old_line: Option<u32>,
    pub new_line: Option<u32>,
    pub old_text: Option<Seq<char>>,
    pub new_text: Option<Seq<char>>,
    pub text: Option<Seq<char>>,
    pub hunk: Option<Seq<char>>,
    pub has_annotation: bool,
    pub old_source_start_byte: Option<u32>,
    pub new_source_start_byte: Option<u32>,
    pub omitted_block_id: Option<Seq<char>>,
    pub omitted_count: Option<u32>,
    pub omitted_end_line: Option<u32>,
    pub omitted_side: Option<Seq<char>>,
    pub omitted_expanded: Option<bool>,
}

impl View for DiffRowView {
    type V = RowModel;

    open spec fn view(&self) -> RowModel {
        RowModel {
            id: self.id@,
            kind: self.kind@,
            hunk_id: opt_text(self.hunk_id),
            old_line: self.old_line,
            new_line: self.new_line,
            old_text: opt_text(self.old_text),
            new_text: opt_text(self.new_text),
            text: opt_text(self.text),
            hunk: opt_text(self.hunk),
            has_annotation: self.has_annotation,
            old_source_start_byte: self.old_source_start_byte,
            new_source_start_byte: self.new_source_start_byte,
            omitted_block_id: opt_text(self.omitted_block_id),
            omitted_count: self.omitted_count,
            omitted_end_line: self.omitted_end_line,
            omitted_side: opt_text(self.omitted_side),
            omitted_expanded: self.omitted_expanded,
        }
    }
}

/// What the rows of a list say, in order.
pub open spec fn row_models(rows: Seq<DiffRowView>) -> Seq<RowModel> {
    rows.map_values(|row: DiffRowView| row@)
}

impl DiffRowView {
    /// Copies the row.
    pub fn copy(&self) -> (row: DiffRowView)
        ensures
            row == *self,
    {
        DiffRowView {
            id: self.id.clone(),
            kind: self.kind.clone(),
            hunk_id: copy_opt(&self.hunk_id),
            old_line: self.old_line,
            new_line: self.new_line,
            old_text: copy_opt(&self.old_text),
            new_text: copy_opt(&self.new_text),
            text: copy_opt(&self.text),
            hunk: copy_opt(&self.hunk),
            has_annotation: self.has_annotation,
            old_source_start_byte: self.old_source_start_byte,
            new_source_start_byte: self.new_source_start_byte,
            omitted_block_id: copy_opt(&self.omitted_block_id),
            omitted_count: self.omitted_count,
            omitted_end_line: self.omitted_end_line,
            omitted_side: copy_opt(&self.omitted_side),
            omitted_expanded: self.omitted_expanded,
        }
    }
}

/// What a hunk location says.
pub struct HunkModel {
    pub id: Seq<char>,
    pub row_index: u32,
    pub old_line: Option<u32>,
    pub new_line: Option<u32>,
    pub header: Seq<char>,
    pub collapsed_context_lines: Option<u32>,
}

impl View for HunkLocationView {
    type V = HunkModel;

    open spec fn view(&self) -> HunkModel {
        HunkModel {
            id: self.id@,
            row_index: self.row_index,
            old_line: self.old_line,
            new_line: self.new_line,
            header: self.header@,
            collapsed_context_lines: self.collapsed_context_lines,
        }
    }
}

/// What the hunk locations of a list say, in order.
pub open spec fn hunk_models(hunks: Seq<HunkLocationView>) -> Seq<HunkModel> {
    hunks.map_values(|hunk: HunkLocationView| hunk@)
}

impl HunkLocationView {
    /// Copies the location.
    pub fn copy(&self) -> (hunk: HunkLocationView)
        ensures
            hunk == *self,
    {
        HunkLocationView {
            id: self.id.clone(),
            row_index: self.row_index,
            old_line: self.old_line,
            new_line: self.new_line,
            header: self.header.clone(),
            collapsed_context_lines: self.collapsed_context_lines,
        }
    }
}

/// What a foldable block says.
pub struct BlockViewModel {
    pub id: Seq<char>,
    pub side: Seq<char>,
    pub start_line: u32,
    pub end_line: u32,
    pub count: u32,
    pub expanded: bool,
    pub row_index: u32,
}

impl View for FullFileOmittedBlockView {
    type V = BlockViewModel;

    open spec fn view(&self) -> BlockViewModel {
        BlockViewModel {
            id: self.id@,
            side: self.side@,
            start_line: self.start_line,
            end_line: self.end_line,
            count: self.count,
            expanded: self.expanded,
            row_index: self.row_index,
        }
    }
}

impl FullFileOmittedBlockView {
    /// Copies the block.
    pub fn copy(&self) -> (block: FullFileOmittedBlockView)
        ensures
            block == *self,
    {
        FullFileOmittedBlockView {
            id: self.id.clone(),
            side: self.side.clone(),
            start_line: self.start_line,
            end_line: self.end_line,
            count: self.count,
            expanded: self.expanded,
            row_index: self.row_index,
        }
    }
}

/// Whether a text names a diff mode.
pub open spec fn is_diff_mode(value: Seq<char>) -> bool {
    value == "unified"@ || value == "split"@ || value == "full"@ || value == "difftastic"@
}

/// Accepts the name of a diff mode, unchanged.
pub fn validate_diff_mode(value: &str) -> (result: Result<&str, DispatchError>)
    ensures
        if is_diff_mode(value@) {
            result matches Ok(mode) && mode@ == value@
        } else {
            result matches Err(error) && error.is_invalid("unsupported diff mode"@)
        },
{
    if text_eq(value, "unified") || text_eq(value, "split") || text_eq(value, "full") || text_eq(
        value,
        "difftastic",
    ) {
        Ok(value)
    } else {
        Err(invalid("unsupported diff mode"))
    }
}

/// The smaller of two numbers.
pub open spec fn min_of(a: int, b: int) -> int {
    if a <= b {
        a
    } else {
        b
    }
}

/// The part of `total` rows that a request for the rows `start..end` gets: it
/// begins where it asks to, ends where it asks to, but stays inside the rows
/// and holds no more than `max_rows` of them.
pub fn bounded_window(start: u32, end: u32, total: usize, max_rows: usize) -> (window: (
    usize,
    usize,
))
    ensures
        window.0 == min_of(start as int, total as int),
        end <= window.0 ==> window.1 == window.0,
        end > window.0 ==> window.1 == min_of(
            min_of(end as int, total as int),
            window.0 + max_rows,
        ),
        window.0 <= window.1 <= total,
        window.1 - window.0 <= max_rows,
{
    let first: usize = if (start as usize) < total {
        start as usize
    } else {
        total
    };
    let mut last: usize = if (end as usize) > first {
        end as usize
    } else {
        first
    };
    if last > total {
        last = total;
    }
    if last - first > max_rows {
        last = first + max_rows;
    }
    (first, last)
}

/// How far two line numbers are apart.
pub open spec fn distance(a: u32, b: u32) -> u32 {
    if a <= b {
        (b - a) as u32
    } else {
        (a - b) as u32
    }
}

/// How far two line numbers are apart.
pub fn line_distance(a: u32, b: u32) -> (d: u32)
    ensures
        d == distance(a, b),
{
    if a <= b {
        b - a
    } else {
        a - b
    }
}

/// Whether some entry has a distance.
pub open spec fn has_candidate(distances: Seq<Option<u32>>) -> bool {
    exists|i: int| 0 <= i < distances.len() && #[trigger] distances[i] is Some
}

/// Whether `index` is the first of the entries with the least distance, or
/// zero where no entry has one.
pub open spec fn is_nearest(distances: Seq<Option<u32>>, index: int) -> bool {
    if has_candidate(distances) {
        &&& 0 <= index < distances.len()
        &&& distances[index] is Some
        &&& forall|j: int|
            0 <= j < distances.len() && (#[trigger] distances[j]) is Some ==> distances[index]->0
                <= distances[j]->0
        &&& forall|j: int|
            0 <= j < index && (#[trigger] distances[j]) is Some ==> distances[index]->0
                < distances[j]->0
    } else {
        index == 0
    }
}

/// No two indices are nearest.
pub proof fn law_nearest_is_unique(distances: Seq<Option<u32>>, a: int, b: int)
    requires
        is_nearest(distances, a),
        is_nearest(distances, b),
    ensures
        a == b,
{
}

/// Finds the first entry with the least distance; zero where there is none.
pub fn nearest(distances: &Vec<Option<u32>>) -> (index: usize)
    ensures
        is_nearest(distances@, index as int),
{
    let mut best: usize = 0;
    let mut found: bool = false;
    let mut i: usize = 0;
    while i < distances.len()
        invariant
            i <= distances.len(),
            found <==> has_candidate(distances@.take(i as int)),
            is_nearest(distances@.take(i as int), best as int),
            !found ==> best == 0,
            found ==> best < i,
        decreases distances.len() - i,
    {
        let ghost before = distances@.take(i as int);
        let ghost after = distances@.take(i + 1);
        assert(forall|j: int| 0 <= j < i ==> before[j] == after[j]);
        match distances[i] {
            Some(d) => {
                assert(after[i as int] is Some);
                let better: bool = if found {
                    match distances[best] {
                        Some(least) => d < least,
                        None => false,
                    }
                } else {
                    true
                };
                if better {
                    best = i;
                }
                found = true;
            },
            None => {
                proof {
                    if found {
                        let w = choose|w: int|
                            0 <= w < before.len() && #[trigger] before[w] is Some;
                        assert(after[w] is Some);
                    }
                }
            },
        }
        i += 1;
    }
    assert(distances@.take(distances.len() as int) =~= distances@);
    best
}

/// The line a row shows on one side.
pub open spec fn row_line(row: DiffRowView, side: DiffSide) -> Option<u32> {
    match side {
        DiffSide::Old => row.old_line,
        DiffSide::New => row.new_line,
    }
}

/// How far each of some lines is from `line`.
pub open spec fn distances_to(lines: Seq<Option<u32>>, line: u32) -> Seq<Option<u32>> {
    lines.map_values(
        |candidate: Option<u32>|
            match candidate {
                Some(number) => Some(distance(number, line)),
                None => None,
            },
    )
}

/// The lines that rows show on one side.
pub open spec fn row_lines(rows: Seq<DiffRowView>, side: DiffSide) -> Seq<Option<u32>> {
    rows.map_values(|row: DiffRowView| row_line(row, side))
}

/// The row that shows a line of one side, or else the one nearest to it; the
/// earlier of two equally near rows.
pub fn nearest_canonical_row(rows: &Vec<DiffRowView>, side: DiffSide, line: u32) -> (index: usize)
    ensures
        is_nearest(distances_to(row_lines(rows@, side), line), index as int),
{
    let mut distances: Vec<Option<u32>> = Vec::new();
    let mut i: usize = 0;
    while i < rows.len()
        invariant
            i <= rows.len(),
            distances@ =~= distances_to(row_lines(rows@, side), line).take(i as int),
        decreases rows.len() - i,
    {
        let candidate: Option<u32> = match side {
            DiffSide::Old => rows[i].old_line,
            DiffSide::New => rows[i].new_line,
        };
        let entry: Option<u32> = match candidate {
            Some(number) => Some(line_distance(number, line)),
            None => None,
        };
        distances.push(entry);
        i += 1;
    }
    assert(distances@ =~= distances_to(row_lines(rows@, side), line));
    nearest(&distances)
}

/// An exact row for a line, where there is one, is what the nearest row shows.
pub proof fn law_nearest_row_is_exact_where_possible(
    rows: Seq<DiffRowView>,
    side: DiffSide,
    line: u32,
    index: int,
)
    requires
        is_nearest(distances_to(row_lines(rows, side), line), index),
        exists|i: int| 0 <= i < rows.len() && row_line(#[trigger] rows[i], side) == Some(line),
    ensures
        0 <= index < rows.len(),
        row_line(rows[index], side) == Some(line),
        forall|j: int| 0 <= j < index ==> row_line(#[trigger] rows[j], side) != Some(line),
{
    let distances = distances_to(row_lines(rows, side), line);
    let i = choose|i: int|
        0 <= i < rows.len() && row_line(#[trigger] rows[i], side) == Some(line);
    assert(distances[i] == Some(0u32));
    assert(forall|j: int|
        0 <= j < rows.len() && row_line(#[trigger] rows[j], side) == Some(line) ==> distances[j]
            == Some(0u32));
}

/// The bytes one side of a row covers: where it starts, and how many.
pub open spec fn row_span(row: RowModel, side: DiffSide) -> Option<(u32, u32)> {
    let offset = match side {
        DiffSide::Old => row.old_source_start_byte,
        DiffSide::New => row.new_source_start_byte,
    };
    let own = match side {
        DiffSide::Old => row.old_text,
        DiffSide::New => row.new_text,
    };
    let text = if own is Some {
        own
    } else {
        row.text
    };
    if offset is Some && text is Some {
        let length = row_number(encode_utf8(text->0).len());
        let end = if offset->0 + length <= u32::MAX {
            (offset->0 + length) as u32
        } else {
            u32::MAX
        };
        Some((offset->0, end))
    } else {
        None
    }
}

/// The least start and the greatest end among the rows that cover bytes.
pub open spec fn span_of_rows(rows: Seq<RowModel>, side: DiffSide) -> (u32, u32)
    decreases rows.len(),
{
    if rows.len() == 0 {
        (u32::MAX, 0u32)
    } else {
        let (start, end) = span_of_rows(rows.drop_last(), side);
        match row_span(rows.last(), side) {
            Some((from, to)) => (
                if from < start {
                    from
                } else {
                    start
                },
                if to > end {
                    to
                } else {
                    end
                },
            ),
            None => (start, end),
        }
    }
}

/// The source bytes that the rows cover on one side.
pub fn row_byte_range(rows: &Vec<DiffRowView>, side: DiffSide) -> (range: Option<(u32, u32)>)
    ensures
        ({
            let span = span_of_rows(row_models(rows@), side);
            range == if span.0 != u32::MAX {
                Some(span)
            } else {
                None
            }
        }),
{
    let mut start: u32 = u32::MAX;
    let mut end: u32 = 0;
    let mut i: usize = 0;
    assert(row_models(rows@).take(0) =~= Seq::<RowModel>::empty());
    while i < rows.len()
        invariant
            i <= rows.len(),
            (start, end) == span_of_rows(row_models(rows@).take(i as int), side),
        decreases rows.len() - i,
    {
        let row = &rows[i];
        assert(row_models(rows@).take(i + 1).drop_last() =~= row_models(rows@).take(i as int));
        assert(row_models(rows@).take(i + 1).last() == row@);
        let offset: Option<u32> = match side {
            DiffSide::Old => row.old_source_start_byte,
            DiffSide::New => row.new_source_start_byte,
        };
        let own = match side {
            DiffSide::Old => &row.old_text,
            DiffSide::New => &row.new_text,
        };
        let text = if own.is_some() {
            own
        } else {
            &row.text
        };
        match (offset, text) {
            (Some(from), Some(text)) => {
                let length: u32 = to_row_number(text.as_str().as_bytes().len());
                let to: u32 = if length <= u32::MAX - from {
                    from + length
                } else {
                    u32::MAX
                };
                if from < start {
                    start = from;
                }
                if to > end {
                    end = to;
                }
            },
            _ => {},
        }
        i += 1;
    }
    assert(row_models(rows@).take(rows.len() as int) =~= row_models(rows@));
    if start != u32::MAX {
        Some((start, end))
    } else {
        None
    }
}

} // verus!
