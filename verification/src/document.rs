//! Captured diff documents: a file, its two sources and their hunks.
use crate::errors::{invalid, DispatchError};
use crate::ids::{ComparisonId, ReviewFileId};
use crate::text::{decimal, opt_text, push_decimal, text_eq};
use vstd::prelude::*;
use vstd::string::*;

verus! {

/// One side of a comparison.
#[derive(Clone, Copy, Debug, PartialEq, Eq, Structural)]
pub enum DiffSide {
    Old,
    New,
}

/// What a unified diff row shows.
#[derive(Clone, Copy, Debug, PartialEq, Eq, Structural)]
pub enum DiffLineKind {
    Context,
    Addition,
    Removal,
}

/// How a file changed.
#[derive(Clone, Copy, Debug, PartialEq, Eq, Structural)]
pub enum ReviewFileStatus {
    Added,
    Modified,
    Deleted,
    Renamed,
    Copied,
    Binary,
    ModeChanged,
    TypeChanged,
    Submodule,
    LfsPointer,
}

/// One line on one side of a diff row.
#[derive(Debug)]
pub struct DiffCell {
    pub side: DiffSide,
    pub line_number: u32,
    pub text: String,
}

/// A row of the unified form of a hunk.
#[derive(Debug)]
pub struct UnifiedRow {
    pub id: String,
    pub kind: DiffLineKind,
    pub old: Option<DiffCell>,
    pub new: Option<DiffCell>,
}

/// A row of the side-by-side form of a hunk.
#[derive(Debug)]
pub struct SplitRow {
    pub id: String,
    pub old: Option<DiffCell>,
    pub new: Option<DiffCell>,
}

/// Where a hunk stands in both sources.
#[derive(Debug)]
pub struct HunkHeader {
    pub old_start: u32,
    pub old_count: u32,
    pub new_start: u32,
    pub new_count: u32,
    pub context: Option<String>,
}

/// A run of changes with its context.
#[derive(Debug)]
pub struct ReviewHunk {
    pub id: String,
    pub header: HunkHeader,
    pub unified_rows: Vec<UnifiedRow>,
    pub split_rows: Vec<SplitRow>,
}

/// A file under review.
#[derive(Debug)]
pub struct ReviewFile {
    pub id: ReviewFileId,
    pub path: String,
    pub old_path: Option<String>,
    pub status: ReviewFileStatus,
}

/// The captured text of one side of a file.
#[derive(Debug)]
pub struct SourceSnapshot {
    pub content: String,
    pub line_count: u32,
    pub fingerprint: String,
}

/// One line of the full-file form of a document.
#[derive(Debug)]
pub struct FullFileRow {
    pub side: DiffSide,
    pub line_number: u32,
    pub text: String,
    pub changed: bool,
}

/// A captured file comparison.
///
/// `base_rows` is the complete old source with the additions in place,
/// `current_rows` the complete new source with the deletions in place.
#[derive(Debug)]
pub struct ReviewDiffDocument {
    pub comparison_id: ComparisonId,
    pub file: ReviewFile,
    pub old: SourceSnapshot,
    pub new: SourceSnapshot,
    pub hunks: Vec<ReviewHunk>,
    pub changed_old_lines: Vec<u32>,
    pub changed_new_lines: Vec<u32>,
    pub base_rows: Vec<FullFileRow>,
    pub current_rows: Vec<FullFileRow>,
}

impl FullFileRow {
    /// Copies the row.
    pub fn copy(&self) -> (row: FullFileRow)
        ensures
            row == *self,
    {
        FullFileRow {
            side: self.side,
            line_number: self.line_number,
            text: self.text.clone(),
            changed: self.changed,
        }
    }
}

/// The name of a side.
pub open spec fn side_chars(side: DiffSide) -> Seq<char> {
    match side {
        DiffSide::Old => "old"@,
        DiffSide::New => "new"@,
    }
}

/// The name of a side.
pub fn side_name(side: DiffSide) -> (name: &'static str)
    ensures
        name@ == side_chars(side),
{
    match side {
        DiffSide::Old => "old",
        DiffSide::New => "new",
    }
}

/// Names of distinct sides differ.
pub proof fn lemma_side_names_differ()
    ensures
        "old"@ != "new"@,
{
    reveal_strlit("old");
    reveal_strlit("new");
    assert("old"@[0] == 'o');
    assert("new"@[0] == 'n');
}

/// Reads the name of a side.
pub fn parse_side(value: &str) -> (result: Result<DiffSide, DispatchError>)
    ensures
        value@ == "old"@ ==> result == Ok::<DiffSide, DispatchError>(DiffSide::Old),
        value@ == "new"@ ==> result == Ok::<DiffSide, DispatchError>(DiffSide::New),
        value@ != "old"@ && value@ != "new"@ ==> (result matches Err(error) && error.is_invalid(
            "annotation side must be old or new"@,
        )),
{
    proof {
        lemma_side_names_differ();
    }
    if text_eq(value, "old") {
        Ok(DiffSide::Old)
    } else if text_eq(value, "new") {
        Ok(DiffSide::New)
    } else {
        Err(invalid("annotation side must be old or new"))
    }
}

/// The name of a row kind.
pub open spec fn row_kind_chars(kind: DiffLineKind) -> Seq<char> {
    match kind {
        DiffLineKind::Context => "context"@,
        DiffLineKind::Addition => "addition"@,
        DiffLineKind::Removal => "deletion"@,
    }
}

/// The name of a row kind.
pub fn row_kind(kind: DiffLineKind) -> (name: &'static str)
    ensures
        name@ == row_kind_chars(kind),
{
    match kind {
        DiffLineKind::Context => "context",
        DiffLineKind::Addition => "addition",
        DiffLineKind::Removal => "deletion",
    }
}

/// The header line of a hunk.
pub open spec fn header_chars(header: HunkHeader) -> Seq<char> {
    let ranges = "@@ -"@ + decimal(header.old_start as nat) + ","@ + decimal(
        header.old_count as nat,
    ) + " +"@ + decimal(header.new_start as nat) + ","@ + decimal(header.new_count as nat) + " @@"@;
    match header.context {
        Some(context) => ranges + " "@ + context@,
        None => ranges,
    }
}

/// Renders the header line of a hunk.
pub fn format_hunk_header(hunk: &ReviewHunk) -> (text: String)
    ensures
        text@ == header_chars(hunk.header),
{
    let mut text = "@@ -".to_owned();
    push_decimal(&mut text, hunk.header.old_start as u64);
    text.append(",");
    push_decimal(&mut text, hunk.header.old_count as u64);
    text.append(" +");
    push_decimal(&mut text, hunk.header.new_start as u64);
    text.append(",");
    push_decimal(&mut text, hunk.header.new_count as u64);
    text.append(" @@");
    match &hunk.header.context {
        Some(context) => {
            text.append(" ");
            text.append(context.as_str());
        },
        None => {},
    }
    text
}

/// The line a cell stands for, if there is a cell.
pub open spec fn cell_line(cell: Option<DiffCell>) -> Option<u32> {
    match cell {
        Some(cell) => Some(cell.line_number),
        None => None,
    }
}

/// The text of a cell, if there is a cell.
pub open spec fn cell_chars(cell: Option<DiffCell>) -> Option<Seq<char>> {
    match cell {
        Some(cell) => Some(cell.text@),
        None => None,
    }
}

/// The line a cell stands for, if there is a cell.
pub fn line_of(cell: &Option<DiffCell>) -> (line: Option<u32>)
    ensures
        line == cell_line(*cell),
{
    match cell {
        Some(cell) => Some(cell.line_number),
        None => None,
    }
}

/// Copies the text of a cell, if there is a cell.
pub fn text_of(cell: &Option<DiffCell>) -> (text: Option<String>)
    ensures
        opt_text(text) == cell_chars(*cell),
{
    match cell {
        Some(cell) => Some(cell.text.clone()),
        None => None,
    }
}

/// The cell a row shows on one side.
pub open spec fn side_cell(row: UnifiedRow, side: DiffSide) -> Option<DiffCell> {
    match side {
        DiffSide::Old => row.old,
        DiffSide::New => row.new,
    }
}

/// The source of one side.
pub open spec fn side_source(document: ReviewDiffDocument, side: DiffSide) -> SourceSnapshot {
    match side {
        DiffSide::Old => document.old,
        DiffSide::New => document.new,
    }
}

/// How many lines the source of one side has.
pub fn side_line_count(document: &ReviewDiffDocument, side: DiffSide) -> (count: u32)
    ensures
        count == side_source(*document, side).line_count,
{
    match side {
        DiffSide::Old => document.old.line_count,
        DiffSide::New => document.new.line_count,
    }
}

/// The source text of one side.
pub fn side_content(document: &ReviewDiffDocument, side: DiffSide) -> (content: &String)
    ensures
        *content == side_source(*document, side).content,
{
    match side {
        DiffSide::Old => &document.old.content,
        DiffSide::New => &document.new.content,
    }
}

} // verus!
