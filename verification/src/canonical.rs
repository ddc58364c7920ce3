//! Unified and side-by-side presentations of a captured document.
use crate::document::{
    cell_chars, cell_line, format_hunk_header, header_chars, line_of, row_kind, row_kind_chars,
    text_of, DiffCell, ReviewDiffDocument, ReviewHunk, SplitRow, UnifiedRow,
};
use crate::rows::{hunk_models, row_models, HunkModel, RowModel};
use crate::source_lines::{
    as_offsets, line_starts, lines_inclusive, offset_of, source_line_offsets, source_offset,
};
use crate::text::{decimal, opt_text, push_decimal, row_number, text_eq, texts, to_row_number};
use crate::views::{DiffRowView, HunkLocationView};
use vstd::prelude::*;
use vstd::string::*;
use vstd::utf8::*;

verus! {

/// A line without its line ending: a newline, or a carriage return and a
/// newline. A carriage return that no newline follows stays.
pub open spec fn without_ending(line: Seq<char>) -> Seq<char> {
    if line.len() > 0 && line.last() == '\n' {
        let body = line.drop_last();
        if body.len() > 0 && body.last() == '\r' {
            body.drop_last()
        } else {
            body
        }
    } else {
        line
    }
}

/// The lines of a source, without their endings.
pub open spec fn lines_of(source: Seq<char>) -> Seq<Seq<char>> {
    lines_inclusive(source).map_values(|line: Seq<char>| without_ending(line))
}

proof fn lemma_last_line(source: Seq<char>)
    requires
        source.len() > 0,
    ensures
        lines_inclusive(source).len() > 0,
        lines_inclusive(source).last().len() > 0,
        lines_inclusive(source).last().last() == source.last(),
    decreases source.len(),
{
    if source.len() > 1 {
        lemma_last_line(source.drop_last());
    }
}

/// What is held back of an unfinished line: a carriage return at its end.
spec fn held_back(line: Seq<char>, pending: bool) -> Seq<char> {
    if pending {
        line.push('\r')
    } else {
        line
    }
}

/// Splits a source into its lines, without their endings.
pub fn split_lines(source: &str) -> (lines: Vec<String>)
    ensures
        texts(lines@) == lines_of(source@),
{
    let mut lines: Vec<String> = Vec::new();
    let mut current = String::new();
    let mut pending: bool = false;
    let mut open: bool = false;
    let ghost chars = source@;
    assert(chars.take(0) =~= Seq::<char>::empty());
    assert(texts(lines@) =~= lines_of(chars.take(0)));
    for c in iter: source.chars()
        invariant
            iter.seq() == chars,
            open <==> (iter.index() > 0 && chars[iter.index() - 1] != '\n'),
            !open ==> (texts(lines@) == lines_of(chars.take(iter.index() as int)) && current@.len()
                == 0 && !pending),
            open ==> ({
                let all = lines_inclusive(chars.take(iter.index() as int));
                &&& all.len() > 0
                &&& texts(lines@) == all.drop_last().map_values(
                    |line: Seq<char>| without_ending(line),
                )
                &&& all.last() == held_back(current@, pending)
                &&& !pending ==> current@.len() > 0 && current@.last() != '\r'
            }),
    {
        let ghost done = chars.take(iter.index() as int);
        let ghost next = chars.take(iter.index() as int + 1);
        let ghost before = lines_inclusive(done);
        let ghost after = lines_inclusive(next);
        let ghost line_before = current@;
        let ghost pending_before = pending;
        let ghost lines_before = texts(lines@);
        proof {
            assert(next.drop_last() =~= done);
            assert(next.last() == c);
            if iter.index() > 0 {
                lemma_last_line(done);
                assert(next[next.len() - 2] == chars[iter.index() - 1]);
            }
            lemma_last_line(next);
        }
        let ghost grown = if open {
            before.last().push(c)
        } else {
            seq![c]
        };
        assert(after.last() == grown);
        assert(after.drop_last() =~= if open {
            before.drop_last()
        } else {
            before
        });
        assert(lines_before == after.drop_last().map_values(
            |line: Seq<char>| without_ending(line),
        ));
        if c == '\n' {
            let ghost finished = current@;
            proof {
                assert(grown.drop_last() =~= held_back(line_before, pending));
                if pending {
                    assert(grown.drop_last().drop_last() =~= line_before);
                } else if line_before.len() > 0 {
                    assert(grown.drop_last().last() == line_before.last());
                }
            }
            assert(without_ending(grown) == finished);
            lines.push(current);
            current = String::new();
            pending = false;
            open = false;
            assert(texts(lines@) =~= lines_before.push(finished));
            assert(lines_of(next) =~= lines_before.push(finished));
        } else {
            if pending {
                current.push('\r');
                pending = false;
            }
            if c == '\r' {
                pending = true;
            } else {
                current.push(c);
            }
            open = true;
            assert(held_back(current@, pending) =~= grown);
        }
    }
    assert(chars.take(chars.len() as int) =~= chars);
    if open {
        if pending {
            current.push('\r');
        }
        let ghost earlier = texts(lines@);
        let ghost last = current@;
        proof {
            lemma_last_line(chars);
        }
        lines.push(current);
        assert(texts(lines@) =~= earlier.push(last));
        assert(lines_of(chars) =~= earlier.push(last));
    }
    lines
}

/// A row that says nothing but its identity and kind.
pub open spec fn plain_model(id: Seq<char>, kind: Seq<char>) -> RowModel {
    RowModel {
        id,
        kind,
        hunk_id: None,
        old_line: None,
        new_line: None,
        old_text: None,
        new_text: None,
        text: None,
        hunk: None,
        has_annotation: false,
        old_source_start_byte: None,
        new_source_start_byte: None,
        omitted_block_id: None,
        omitted_count: None,
        omitted_end_line: None,
        omitted_side: None,
        omitted_expanded: None,
    }
}

/// Builds a row that says nothing but its identity and kind.
pub fn plain_row(id: String, kind: &str) -> (row: DiffRowView)
    ensures
        row@ == plain_model(id@, kind@),
{
    DiffRowView {
        id,
        kind: kind.to_owned(),
        hunk_id: None,
        old_line: None,
        new_line: None,
        old_text: None,
        new_text: None,
        text: None,
        hunk: None,
        has_annotation: false,
        old_source_start_byte: None,
        new_source_start_byte: None,
        omitted_block_id: None,
        omitted_count: None,
        omitted_end_line: None,
        omitted_side: None,
        omitted_expanded: None,
    }
}

/// The source offset of an optional line.
pub open spec fn line_offset(offsets: Seq<u32>, line: Option<u32>) -> Option<u32> {
    match line {
        Some(number) => Some(offset_of(offsets, number)),
        None => None,
    }
}

/// The source offset of an optional line.
fn offset_of_line(offsets: &Vec<u32>, line: Option<u32>) -> (offset: Option<u32>)
    ensures
        offset == line_offset(offsets@, line),
{
    match line {
        Some(number) => Some(source_offset(offsets, number)),
        None => None,
    }
}

/// The row that shows the cells of both sides.
pub open spec fn cells_model(
    id: Seq<char>,
    kind: Seq<char>,
    hunk_id: Seq<char>,
    old: Option<DiffCell>,
    new: Option<DiffCell>,
    old_offsets: Seq<u32>,
    new_offsets: Seq<u32>,
) -> RowModel {
    RowModel {
        hunk_id: Some(hunk_id),
        old_line: cell_line(old),
        new_line: cell_line(new),
        old_text: cell_chars(old),
        new_text: cell_chars(new),
        old_source_start_byte: line_offset(old_offsets, cell_line(old)),
        new_source_start_byte: line_offset(new_offsets, cell_line(new)),
        ..plain_model(id, kind)
    }
}

/// Builds the row that shows the cells of both sides.
pub fn diff_row_from_cells(
    id: String,
    kind: &str,
    hunk_id: &str,
    old: &Option<DiffCell>,
    new: &Option<DiffCell>,
    old_offsets: &Vec<u32>,
    new_offsets: &Vec<u32>,
) -> (row: DiffRowView)
    ensures
        row@ == cells_model(id@, kind@, hunk_id@, *old, *new, old_offsets@, new_offsets@),
{
    let mut row = plain_row(id, kind);
    row.hunk_id = Some(hunk_id.to_owned());
    row.old_line = line_of(old);
    row.new_line = line_of(new);
    row.old_text = text_of(old);
    row.new_text = text_of(new);
    row.old_source_start_byte = offset_of_line(old_offsets, line_of(old));
    row.new_source_start_byte = offset_of_line(new_offsets, line_of(new));
    row
}

/// The row that heads a hunk.
pub open spec fn header_model(hunk: ReviewHunk) -> RowModel {
    RowModel {
        hunk_id: Some(hunk.id@),
        hunk: Some(header_chars(hunk.header)),
        ..plain_model("header:"@ + hunk.id@, "header"@)
    }
}

/// Builds the row that heads a hunk.
pub fn header_row(hunk: &ReviewHunk) -> (row: DiffRowView)
    ensures
        row@ == header_model(*hunk),
{
    let mut id = "header:".to_owned();
    id.append(hunk.id.as_str());
    let mut row = plain_row(id, "header");
    row.hunk_id = Some(hunk.id.clone());
    row.hunk = Some(format_hunk_header(hunk));
    row
}

/// The first value that is there.
pub open spec fn first_some(values: Seq<Option<u32>>) -> Option<u32>
    decreases values.len(),
{
    if values.len() == 0 {
        None
    } else {
        let earlier = first_some(values.drop_last());
        if earlier is Some {
            earlier
        } else {
            values.last()
        }
    }
}

/// The last value that is there.
pub open spec fn last_some(values: Seq<Option<u32>>) -> Option<u32>
    decreases values.len(),
{
    if values.len() == 0 {
        None
    } else if values.last() is Some {
        values.last()
    } else {
        last_some(values.drop_last())
    }
}

/// The old lines of unified rows.
pub open spec fn old_lines_of(rows: Seq<UnifiedRow>) -> Seq<Option<u32>> {
    rows.map_values(|row: UnifiedRow| cell_line(row.old))
}

/// The new lines of unified rows.
pub open spec fn new_lines_of(rows: Seq<UnifiedRow>) -> Seq<Option<u32>> {
    rows.map_values(|row: UnifiedRow| cell_line(row.new))
}

/// The first and last line that a hunk shows of the old source, and the first
/// and last one of the new source.
pub fn hunk_line_bounds(hunk: &ReviewHunk) -> (bounds: (
    Option<u32>,
    Option<u32>,
    Option<u32>,
    Option<u32>,
))
    ensures
        bounds.0 == first_some(old_lines_of(hunk.unified_rows@)),
        bounds.1 == last_some(old_lines_of(hunk.unified_rows@)),
        bounds.2 == first_some(new_lines_of(hunk.unified_rows@)),
        bounds.3 == last_some(new_lines_of(hunk.unified_rows@)),
{
    let rows = &hunk.unified_rows;
    let mut first_old: Option<u32> = None;
    let mut last_old: Option<u32> = None;
    let mut first_new: Option<u32> = None;
    let mut last_new: Option<u32> = None;
    let ghost olds = old_lines_of(rows@);
    let ghost news = new_lines_of(rows@);
    let mut i: usize = 0;
    while i < rows.len()
        invariant
            i <= rows.len(),
            olds == old_lines_of(rows@),
            news == new_lines_of(rows@),
            first_old == first_some(olds.take(i as int)),
            last_old == last_some(olds.take(i as int)),
            first_new == first_some(news.take(i as int)),
            last_new == last_some(news.take(i as int)),
        decreases rows.len() - i,
    {
        let row = &rows[i];
        assert(olds.take(i + 1).drop_last() =~= olds.take(i as int));
        assert(news.take(i + 1).drop_last() =~= news.take(i as int));
        match &row.old {
            Some(old) => {
                if first_old.is_none() {
                    first_old = Some(old.line_number);
                }
                last_old = Some(old.line_number);
            },
            None => {},
        }
        match &row.new {
            Some(new) => {
                if first_new.is_none() {
                    first_new = Some(new.line_number);
                }
                last_new = Some(new.line_number);
            },
            None => {},
        }
        i += 1;
    }
    assert(olds.take(rows.len() as int) =~= olds);
    assert(news.take(rows.len() as int) =~= news);
    (first_old, last_old, first_new, last_new)
}

/// The line `offset` lines before or behind a boundary, if there is such a
/// number. Without a boundary the first line stands in for it.
pub open spec fn context_line(boundary: Option<u32>, offset: u32, before: bool) -> Option<u32> {
    let from: u32 = match boundary {
        Some(line) => line,
        None => 1,
    };
    if before {
        if offset <= from {
            Some((from - offset) as u32)
        } else {
            None
        }
    } else if from + offset <= u32::MAX {
        Some((from + offset) as u32)
    } else {
        None
    }
}

/// The source text that context shows for a line: the line itself; the first
/// line for line number zero.
pub open spec fn context_text(lines: Seq<Seq<char>>, line: Option<u32>) -> Option<Seq<char>> {
    match line {
        Some(number) => {
            let index: int = if number == 0 {
                0
            } else {
                number - 1
            };
            if index < lines.len() {
                Some(lines[index])
            } else {
                None
            }
        },
        None => None,
    }
}

/// Zero where there is no line.
pub open spec fn line_or_zero(line: Option<u32>) -> nat {
    match line {
        Some(number) => number as nat,
        None => 0,
    }
}

/// The extra context row `offset` lines away from a hunk, if either source
/// reaches that far.
pub open spec fn context_model(
    hunk_id: Seq<char>,
    phase: Seq<char>,
    old_boundary: Option<u32>,
    new_boundary: Option<u32>,
    offset: u32,
    old_lines: Seq<Seq<char>>,
    new_lines: Seq<Seq<char>>,
    old_offsets: Seq<u32>,
    new_offsets: Seq<u32>,
    before: bool,
) -> Option<RowModel> {
    let old_line = context_line(old_boundary, offset, before);
    let new_line = context_line(new_boundary, offset, before);
    let old_text = context_text(old_lines, old_line);
    let new_text = context_text(new_lines, new_line);
    if old_text is None && new_text is None {
        None
    } else {
        Some(
            RowModel {
                hunk_id: Some(hunk_id),
                old_line,
                new_line,
                old_text,
                new_text,
                old_source_start_byte: line_offset(old_offsets, old_line),
                new_source_start_byte: line_offset(new_offsets, new_line),
                ..plain_model(
                    "expanded:"@ + hunk_id + ":"@ + phase + ":"@ + decimal(line_or_zero(old_line))
                        + ":"@ + decimal(line_or_zero(new_line)),
                    "context"@,
                )
            },
        )
    }
}

/// The extra context rows up to `extra` lines away, nearest first.
pub open spec fn context_outward(
    hunk_id: Seq<char>,
    phase: Seq<char>,
    old_boundary: Option<u32>,
    new_boundary: Option<u32>,
    extra: u32,
    old_lines: Seq<Seq<char>>,
    new_lines: Seq<Seq<char>>,
    old_offsets: Seq<u32>,
    new_offsets: Seq<u32>,
    before: bool,
) -> Seq<RowModel>
    decreases extra,
{
    if extra == 0 {
        Seq::empty()
    } else {
        let nearer = context_outward(
            hunk_id,
            phase,
            old_boundary,
            new_boundary,
            (extra - 1) as u32,
            old_lines,
            new_lines,
            old_offsets,
            new_offsets,
            before,
        );
        match context_model(
            hunk_id,
            phase,
            old_boundary,
            new_boundary,
            extra,
            old_lines,
            new_lines,
            old_offsets,
            new_offsets,
            before,
        ) {
            Some(row) => nearer.push(row),
            None => nearer,
        }
    }
}

/// The extra context rows in reading order.
pub open spec fn context_models(
    hunk_id: Seq<char>,
    phase: Seq<char>,
    old_boundary: Option<u32>,
    new_boundary: Option<u32>,
    extra: u32,
    old_lines: Seq<Seq<char>>,
    new_lines: Seq<Seq<char>>,
    old_offsets: Seq<u32>,
    new_offsets: Seq<u32>,
    before: bool,
) -> Seq<RowModel> {
    let outward = context_outward(
        hunk_id,
        phase,
        old_boundary,
        new_boundary,
        extra,
        old_lines,
        new_lines,
        old_offsets,
        new_offsets,
        before,
    );
    if before {
        outward.reverse()
    } else {
        outward
    }
}

fn step_line(boundary: Option<u32>, offset: u32, before: bool) -> (line: Option<u32>)
    ensures
        line == context_line(boundary, offset, before),
{
    let from: u32 = match boundary {
        Some(line) => line,
        None => 1,
    };
    if before {
        from.checked_sub(offset)
    } else {
        from.checked_add(offset)
    }
}

fn line_text(lines: &Vec<String>, line: Option<u32>) -> (text: Option<String>)
    ensures
        opt_text(text) == context_text(texts(lines@), line),
{
    match line {
        Some(number) => {
            let index: usize = if number == 0 {
                0
            } else {
                (number - 1) as usize
            };
            if index < lines.len() {
                Some(lines[index].clone())
            } else {
                None
            }
        },
        None => None,
    }
}

fn reversed(rows: Vec<DiffRowView>) -> (result: Vec<DiffRowView>)
    ensures
        row_models(result@) == row_models(rows@).reverse(),
{
    let mut result: Vec<DiffRowView> = Vec::new();
    let mut i: usize = rows.len();
    while i > 0
        invariant
            i <= rows.len(),
            result.len() == rows.len() - i,
            forall|k: int|
                0 <= k < result.len() ==> #[trigger] result@[k] == rows@[rows.len() - 1 - k],
        decreases i,
    {
        i -= 1;
        result.push(rows[i].copy());
    }
    assert(row_models(result@) =~= row_models(rows@).reverse());
    result
}

/// Builds the context rows that the user asked for beyond those of a hunk.
pub fn expanded_context_rows(
    hunk_id: &str,
    phase: &str,
    old_boundary: Option<u32>,
    new_boundary: Option<u32>,
    extra: u32,
    old_lines: &Vec<String>,
    new_lines: &Vec<String>,
    old_offsets: &Vec<u32>,
    new_offsets: &Vec<u32>,
    before: bool,
) -> (rows: Vec<DiffRowView>)
    ensures
        row_models(rows@) == context_models(
            hunk_id@,
            phase@,
            old_boundary,
            new_boundary,
            extra,
            texts(old_lines@),
            texts(new_lines@),
            old_offsets@,
            new_offsets@,
            before,
        ),
{
    let mut result: Vec<DiffRowView> = Vec::new();
    let mut offset: u32 = 0;
    assert(row_models(result@) =~= Seq::<RowModel>::empty());
    while offset < extra
        invariant
            offset <= extra,
            row_models(result@) == context_outward(
                hunk_id@,
                phase@,
                old_boundary,
                new_boundary,
                offset,
                texts(old_lines@),
                texts(new_lines@),
                old_offsets@,
                new_offsets@,
                before,
            ),
        decreases extra - offset,
    {
        offset += 1;
        let old_line: Option<u32> = step_line(old_boundary, offset, before);
        let new_line: Option<u32> = step_line(new_boundary, offset, before);
        let old_text = line_text(old_lines, old_line);
        let new_text = line_text(new_lines, new_line);
        if old_text.is_some() || new_text.is_some() {
            let mut id = "expanded:".to_owned();
            id.append(hunk_id);
            id.append(":");
            id.append(phase);
            id.append(":");
            push_decimal(
                &mut id,
                match old_line {
                    Some(number) => number as u64,
                    None => 0,
                },
            );
            id.append(":");
            push_decimal(
                &mut id,
                match new_line {
                    Some(number) => number as u64,
                    None => 0,
                },
            );
            let mut row = plain_row(id, "context");
            row.hunk_id = Some(hunk_id.to_owned());
            row.old_line = old_line;
            row.new_line = new_line;
            row.old_text = old_text;
            row.new_text = new_text;
            row.old_source_start_byte = offset_of_line(old_offsets, old_line);
            row.new_source_start_byte = offset_of_line(new_offsets, new_line);
            let ghost earlier = row_models(result@);
            let ghost model = row@;
            result.push(row);
            assert(row_models(result@) =~= earlier.push(model));
        }
    }
    if before {
        reversed(result)
    } else {
        result
    }
}

/// How much context the user asked for around one hunk.
#[derive(Debug)]
pub struct HunkContext {
    pub hunk_id: String,
    pub lines: u32,
}

/// The context asked for around a hunk, if any was.
pub open spec fn requested_context(contexts: Seq<HunkContext>, hunk_id: Seq<char>) -> Option<u32>
    decreases contexts.len(),
{
    if contexts.len() == 0 {
        None
    } else {
        let earlier = requested_context(contexts.drop_last(), hunk_id);
        if earlier is None && contexts.last().hunk_id@ == hunk_id {
            Some(contexts.last().lines)
        } else {
            earlier
        }
    }
}

/// A context size within the bounds that a presentation shows.
pub open spec fn bounded_context(lines: u32) -> u32 {
    if lines < 3 {
        3
    } else if lines > 1200 {
        1200
    } else {
        lines
    }
}

/// The context shown around a hunk: three lines unless more was asked for.
pub open spec fn context_of(contexts: Seq<HunkContext>, hunk_id: Seq<char>) -> u32 {
    match requested_context(contexts, hunk_id) {
        Some(lines) => bounded_context(lines),
        None => 3,
    }
}

/// Brings a context size within the bounds that a presentation shows.
pub fn clamp_context(lines: u32) -> (bounded: u32)
    ensures
        bounded == bounded_context(lines),
{
    if lines < 3 {
        3
    } else if lines > 1200 {
        1200
    } else {
        lines
    }
}

/// Looks the context shown around a hunk up.
pub fn hunk_context(contexts: &Vec<HunkContext>, hunk_id: &str) -> (lines: u32)
    ensures
        lines == context_of(contexts@, hunk_id@),
{
    let mut found: Option<u32> = None;
    let mut i: usize = 0;
    while i < contexts.len()
        invariant
            i <= contexts.len(),
            found == requested_context(contexts@.take(i as int), hunk_id@),
        decreases contexts.len() - i,
    {
        assert(contexts@.take(i + 1).drop_last() =~= contexts@.take(i as int));
        if found.is_none() && text_eq(contexts[i].hunk_id.as_str(), hunk_id) {
            found = Some(contexts[i].lines);
        }
        i += 1;
    }
    assert(contexts@.take(contexts.len() as int) =~= contexts@);
    match found {
        Some(lines) => clamp_context(lines),
        None => 3,
    }
}

/// The kind of a side-by-side row: what is missing decides.
pub open spec fn split_kind(row: SplitRow) -> Seq<char> {
    if row.old is None && row.new is Some {
        "addition"@
    } else if row.old is Some && row.new is None {
        "deletion"@
    } else {
        "context"@
    }
}

/// The rows between the context of a hunk.
pub open spec fn body_models(
    hunk: ReviewHunk,
    split: bool,
    old_offsets: Seq<u32>,
    new_offsets: Seq<u32>,
) -> Seq<RowModel> {
    if split {
        hunk.split_rows@.map_values(
            |row: SplitRow|
                cells_model(
                    row.id@,
                    split_kind(row),
                    hunk.id@,
                    row.old,
                    row.new,
                    old_offsets,
                    new_offsets,
                ),
        )
    } else {
        hunk.unified_rows@.map_values(
            |row: UnifiedRow|
                cells_model(
                    row.id@,
                    row_kind_chars(row.kind),
                    hunk.id@,
                    row.old,
                    row.new,
                    old_offsets,
                    new_offsets,
                ),
        )
    }
}

/// All rows of a hunk: its header, the context asked for above it, its own
/// rows and the context asked for below it.
pub open spec fn hunk_row_models(
    hunk: ReviewHunk,
    split: bool,
    context: u32,
    old_lines: Seq<Seq<char>>,
    new_lines: Seq<Seq<char>>,
    old_offsets: Seq<u32>,
    new_offsets: Seq<u32>,
) -> Seq<RowModel> {
    let olds = old_lines_of(hunk.unified_rows@);
    let news = new_lines_of(hunk.unified_rows@);
    let extra = (context - 3) as u32;
    seq![header_model(hunk)] + context_models(
        hunk.id@,
        "before"@,
        first_some(olds),
        first_some(news),
        extra,
        old_lines,
        new_lines,
        old_offsets,
        new_offsets,
        true,
    ) + body_models(hunk, split, old_offsets, new_offsets) + context_models(
        hunk.id@,
        "after"@,
        last_some(olds),
        last_some(news),
        extra,
        old_lines,
        new_lines,
        old_offsets,
        new_offsets,
        false,
    )
}

/// The rows of the first `count` hunks of a document.
pub open spec fn rows_of_hunks(
    document: ReviewDiffDocument,
    split: bool,
    contexts: Seq<HunkContext>,
    count: nat,
) -> Seq<RowModel>
    decreases count,
{
    if count == 0 {
        Seq::empty()
    } else {
        let hunk = document.hunks@[count - 1];
        rows_of_hunks(document, split, contexts, (count - 1) as nat) + hunk_row_models(
            hunk,
            split,
            context_of(contexts, hunk.id@),
            lines_of(document.old.content@),
            lines_of(document.new.content@),
            as_offsets(line_starts(encode_utf8(document.old.content@))),
            as_offsets(line_starts(encode_utf8(document.new.content@))),
        )
    }
}

/// The first changed line of a side, or else where its header starts.
pub open spec fn line_or_header(line: Option<u32>, start: u32, count: u32) -> Option<u32> {
    if line is Some {
        line
    } else if count > 0 {
        Some(start)
    } else {
        None
    }
}

/// Where the hunk with number `index` stands among the rows.
pub open spec fn hunk_location_model(
    document: ReviewDiffDocument,
    split: bool,
    contexts: Seq<HunkContext>,
    index: nat,
) -> HunkModel {
    let hunk = document.hunks@[index as int];
    HunkModel {
        id: hunk.id@,
        row_index: row_number(rows_of_hunks(document, split, contexts, index).len()),
        old_line: line_or_header(
            first_some(old_lines_of(hunk.unified_rows@)),
            hunk.header.old_start,
            hunk.header.old_count,
        ),
        new_line: line_or_header(
            first_some(new_lines_of(hunk.unified_rows@)),
            hunk.header.new_start,
            hunk.header.new_count,
        ),
        header: header_chars(hunk.header),
        collapsed_context_lines: Some(context_of(contexts, hunk.id@)),
    }
}

fn or_header(line: Option<u32>, start: u32, count: u32) -> (result: Option<u32>)
    ensures
        result == line_or_header(line, start, count),
{
    if line.is_some() {
        line
    } else if count > 0 {
        Some(start)
    } else {
        None
    }
}

fn body_rows(
    hunk: &ReviewHunk,
    split: bool,
    old_offsets: &Vec<u32>,
    new_offsets: &Vec<u32>,
) -> (rows: Vec<DiffRowView>)
    ensures
        row_models(rows@) == body_models(*hunk, split, old_offsets@, new_offsets@),
{
    let mut rows: Vec<DiffRowView> = Vec::new();
    let ghost models = body_models(*hunk, split, old_offsets@, new_offsets@);
    let mut i: usize = 0;
    if split {
        while i < hunk.split_rows.len()
            invariant
                i <= hunk.split_rows.len(),
                models == body_models(*hunk, true, old_offsets@, new_offsets@),
                row_models(rows@) =~= models.take(i as int),
            decreases hunk.split_rows.len() - i,
        {
            let row = &hunk.split_rows[i];
            let kind: &str = if row.old.is_none() && row.new.is_some() {
                "addition"
            } else if row.old.is_some() && row.new.is_none() {
                "deletion"
            } else {
                "context"
            };
            let built = diff_row_from_cells(
                row.id.clone(),
                kind,
                hunk.id.as_str(),
                &row.old,
                &row.new,
                old_offsets,
                new_offsets,
            );
            assert(built@ == models[i as int]);
            let ghost earlier = row_models(rows@);
            let ghost model = built@;
            rows.push(built);
            assert(row_models(rows@) =~= earlier.push(model));
            i += 1;
        }
    } else {
        while i < hunk.unified_rows.len()
            invariant
                i <= hunk.unified_rows.len(),
                models == body_models(*hunk, false, old_offsets@, new_offsets@),
                row_models(rows@) =~= models.take(i as int),
            decreases hunk.unified_rows.len() - i,
        {
            let row = &hunk.unified_rows[i];
            let built = diff_row_from_cells(
                row.id.clone(),
                row_kind(row.kind),
                hunk.id.as_str(),
                &row.old,
                &row.new,
                old_offsets,
                new_offsets,
            );
            assert(built@ == models[i as int]);
            let ghost earlier = row_models(rows@);
            let ghost model = built@;
            rows.push(built);
            assert(row_models(rows@) =~= earlier.push(model));
            i += 1;
        }
    }
    assert(row_models(rows@) =~= models);
    rows
}

/// Appends rows to rows.
fn append_rows(rows: &mut Vec<DiffRowView>, mut more: Vec<DiffRowView>)
    ensures
        row_models(final(rows)@) == row_models(old(rows)@) + row_models(more@),
{
    let ghost added = more@;
    rows.append(&mut more);
    assert(row_models(rows@) =~= row_models(old(rows)@) + row_models(added));
}

fn hunk_rows(
    hunk: &ReviewHunk,
    split: bool,
    context: u32,
    old_lines: &Vec<String>,
    new_lines: &Vec<String>,
    old_offsets: &Vec<u32>,
    new_offsets: &Vec<u32>,
) -> (rows: Vec<DiffRowView>)
    requires
        context >= 3,
    ensures
        row_models(rows@) == hunk_row_models(
            *hunk,
            split,
            context,
            texts(old_lines@),
            texts(new_lines@),
            old_offsets@,
            new_offsets@,
        ),
{
    let (first_old, last_old, first_new, last_new) = hunk_line_bounds(hunk);
    let extra: u32 = context - 3;
    let above = expanded_context_rows(
        hunk.id.as_str(),
        "before",
        first_old,
        first_new,
        extra,
        old_lines,
        new_lines,
        old_offsets,
        new_offsets,
        true,
    );
    let body = body_rows(hunk, split, old_offsets, new_offsets);
    let below = expanded_context_rows(
        hunk.id.as_str(),
        "after",
        last_old,
        last_new,
        extra,
        old_lines,
        new_lines,
        old_offsets,
        new_offsets,
        false,
    );
    let mut rows: Vec<DiffRowView> = Vec::new();
    rows.push(header_row(hunk));
    assert(row_models(rows@) =~= seq![header_model(*hunk)]);
    append_rows(&mut rows, above);
    append_rows(&mut rows, body);
    append_rows(&mut rows, below);
    rows
}

fn hunk_location(hunk: &ReviewHunk, row_index: usize, context: u32) -> (location: HunkLocationView)
    ensures
        location@ == (HunkModel {
            id: hunk.id@,
            row_index: row_number(row_index as nat),
            old_line: line_or_header(
                first_some(old_lines_of(hunk.unified_rows@)),
                hunk.header.old_start,
                hunk.header.old_count,
            ),
            new_line: line_or_header(
                first_some(new_lines_of(hunk.unified_rows@)),
                hunk.header.new_start,
                hunk.header.new_count,
            ),
            header: header_chars(hunk.header),
            collapsed_context_lines: Some(context),
        }),
{
    let (first_old, _, first_new, _) = hunk_line_bounds(hunk);
    HunkLocationView {
        id: hunk.id.clone(),
        row_index: to_row_number(row_index),
        old_line: or_header(first_old, hunk.header.old_start, hunk.header.old_count),
        new_line: or_header(first_new, hunk.header.new_start, hunk.header.new_count),
        header: format_hunk_header(hunk),
        collapsed_context_lines: Some(context),
    }
}

/// Builds the rows and hunk locations of the unified or, where `split` says
/// so, the side-by-side presentation of a document.
pub fn hunk_presentation(
    document: &ReviewDiffDocument,
    split: bool,
    contexts: &Vec<HunkContext>,
) -> (presentation: (Vec<DiffRowView>, Vec<HunkLocationView>))
    ensures
        row_models(presentation.0@) == rows_of_hunks(
            *document,
            split,
            contexts@,
            document.hunks@.len(),
        ),
        hunk_models(presentation.1@) == Seq::new(
            document.hunks@.len(),
            |i: int| hunk_location_model(*document, split, contexts@, i as nat),
        ),
{
    let old_offsets = source_line_offsets(document.old.content.as_str());
    let new_offsets = source_line_offsets(document.new.content.as_str());
    let old_lines = split_lines(document.old.content.as_str());
    let new_lines = split_lines(document.new.content.as_str());
    let mut rows: Vec<DiffRowView> = Vec::new();
    let mut hunks: Vec<HunkLocationView> = Vec::new();
    let ghost locations = Seq::new(
        document.hunks@.len(),
        |i: int| hunk_location_model(*document, split, contexts@, i as nat),
    );
    let mut i: usize = 0;
    assert(row_models(rows@) =~= Seq::<RowModel>::empty());
    while i < document.hunks.len()
        invariant
            i <= document.hunks.len(),
            old_offsets@ == as_offsets(line_starts(encode_utf8(document.old.content@))),
            new_offsets@ == as_offsets(line_starts(encode_utf8(document.new.content@))),
            texts(old_lines@) == lines_of(document.old.content@),
            texts(new_lines@) == lines_of(document.new.content@),
            row_models(rows@) == rows_of_hunks(*document, split, contexts@, i as nat),
            locations == Seq::new(
                document.hunks@.len(),
                |i: int| hunk_location_model(*document, split, contexts@, i as nat),
            ),
            hunk_models(hunks@) =~= locations.take(i as int),
        decreases document.hunks.len() - i,
    {
        let hunk = &document.hunks[i];
        let context: u32 = hunk_context(contexts, hunk.id.as_str());
        let ghost earlier = row_models(rows@);
        assert(rows.len() == earlier.len());
        let location = hunk_location(hunk, rows.len(), context);
        assert(location@ == locations[i as int]);
        let ghost placed = hunk_models(hunks@);
        let ghost place = location@;
        hunks.push(location);
        assert(hunk_models(hunks@) =~= placed.push(place));
        let more = hunk_rows(
            hunk,
            split,
            context,
            &old_lines,
            &new_lines,
            &old_offsets,
            &new_offsets,
        );
        append_rows(&mut rows, more);
        i += 1;
    }
    assert(hunk_models(hunks@) =~= locations);
    (rows, hunks)
}

} // verus!
