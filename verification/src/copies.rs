//! What the user copies out of a captured file.
use crate::document::{
    format_hunk_header, header_chars, parse_side, side_cell, side_content, side_source,
    DiffLineKind, DiffSide, ReviewDiffDocument, ReviewFileStatus, ReviewHunk, UnifiedRow,
};
use crate::annotations::named_side;
use crate::errors::{invalid, not_found, DispatchError};
use crate::source_lines::{
    github_path, law_line_ranges_cut_whole_lines, line_starts, lines_inclusive, numbered,
    numbered_source, path_bytes, range_of_lines, slice_bytes, source_line_range,
};
use crate::text::{decimal, push_decimal, text_eq};
use crate::views::CopyReviewItemRequest;
use vstd::prelude::*;
use vstd::string::*;
use vstd::utf8::*;

verus! {

/// The sign that a patch puts before a row.
pub open spec fn row_sign(kind: DiffLineKind) -> char {
    match kind {
        DiffLineKind::Context => ' ',
        DiffLineKind::Addition => '+',
        DiffLineKind::Removal => '-',
    }
}

/// The text that a patch shows of a row: that of the new side where there is
/// one.
pub open spec fn row_text(row: UnifiedRow) -> Seq<char> {
    if row.new is Some {
        row.new->0.text@
    } else if row.old is Some {
        row.old->0.text@
    } else {
        Seq::empty()
    }
}

/// The patch lines of rows.
pub open spec fn row_lines_text(rows: Seq<UnifiedRow>) -> Seq<char>
    decreases rows.len(),
{
    if rows.len() == 0 {
        Seq::empty()
    } else {
        row_lines_text(rows.drop_last()) + seq![row_sign(rows.last().kind)] + row_text(rows.last())
            + seq!['\n']
    }
}

/// The patch text of a hunk.
pub open spec fn hunk_text(hunk: ReviewHunk) -> Seq<char> {
    header_chars(hunk.header) + seq!['\n'] + row_lines_text(hunk.unified_rows@)
}

fn sign_of(kind: DiffLineKind) -> (sign: char)
    ensures
        sign == row_sign(kind),
{
    match kind {
        DiffLineKind::Context => ' ',
        DiffLineKind::Addition => '+',
        DiffLineKind::Removal => '-',
    }
}

fn append_hunk(output: &mut String, hunk: &ReviewHunk)
    ensures
        final(output)@ == old(output)@ + hunk_text(*hunk),
{
    let ghost start = output@;
    output.append(format_hunk_header(hunk).as_str());
    output.push('\n');
    let ghost headed = start + header_chars(hunk.header) + seq!['\n'];
    assert(output@ =~= headed);
    let rows = &hunk.unified_rows;
    let mut i: usize = 0;
    assert(headed + row_lines_text(rows@.take(0)) =~= headed);
    while i < rows.len()
        invariant
            i <= rows.len(),
            output@ == headed + row_lines_text(rows@.take(i as int)),
        decreases rows.len() - i,
    {
        let row = &rows[i];
        let ghost before = row_lines_text(rows@.take(i as int));
        assert(rows@.take(i + 1).drop_last() =~= rows@.take(i as int));
        output.push(sign_of(row.kind));
        match (&row.new, &row.old) {
            (Some(cell), _) => {
                output.append(cell.text.as_str());
            },
            (None, Some(cell)) => {
                output.append(cell.text.as_str());
            },
            (None, None) => {},
        }
        output.push('\n');
        assert(output@ =~= headed + (before + seq![row_sign(row.kind)] + row_text(*row) + seq![
            '\n',
        ]));
        i += 1;
    }
    assert(rows@.take(rows.len() as int) =~= rows@);
    assert(output@ =~= start + hunk_text(*hunk));
}

/// Whether a hunk shows a line of one side.
pub open spec fn hunk_shows(hunk: ReviewHunk, side: DiffSide, line: u32) -> bool {
    exists|i: int|
        0 <= i < hunk.unified_rows@.len() && (side_cell(
            #[trigger] hunk.unified_rows@[i],
            side,
        ) matches Some(cell) && cell.line_number == line)
}

fn shows(hunk: &ReviewHunk, side: DiffSide, line: u32) -> (found: bool)
    ensures
        found == hunk_shows(*hunk, side, line),
{
    let mut i: usize = 0;
    while i < hunk.unified_rows.len()
        invariant
            i <= hunk.unified_rows.len(),
            forall|j: int|
                0 <= j < i ==> !(side_cell(#[trigger] hunk.unified_rows@[j], side) matches Some(
                    cell,
                ) && cell.line_number == line),
        decreases hunk.unified_rows.len() - i,
    {
        let cell = match side {
            DiffSide::Old => &hunk.unified_rows[i].old,
            DiffSide::New => &hunk.unified_rows[i].new,
        };
        match cell {
            Some(cell) => {
                if cell.line_number == line {
                    assert(side_cell(hunk.unified_rows@[i as int], side) matches Some(found)
                        && found.line_number == line);
                    return true;
                }
            },
            None => {},
        }
        i += 1;
    }
    false
}

/// Whether `index` is the first hunk that shows a line of one side.
pub open spec fn is_hunk_at(
    hunks: Seq<ReviewHunk>,
    side: DiffSide,
    line: u32,
    index: int,
) -> bool {
    &&& 0 <= index < hunks.len()
    &&& hunk_shows(hunks[index], side, line)
    &&& forall|j: int| 0 <= j < index ==> !hunk_shows(#[trigger] hunks[j], side, line)
}

/// The first line where no line is given.
pub open spec fn line_or_first(line: Option<u32>) -> u32 {
    match line {
        Some(number) => number,
        None => 1,
    }
}

/// Whether a result is the patch text of the first hunk that shows a line of
/// one side, or says that there is none. Without a line the first is meant.
pub open spec fn is_hunk_copy(
    result: Result<String, DispatchError>,
    document: ReviewDiffDocument,
    side: DiffSide,
    line: Option<u32>,
) -> bool {
    let wanted = line_or_first(line);
    match result {
        Ok(text) => exists|index: int| #[trigger]
            is_hunk_at(document.hunks@, side, wanted, index) && text@ == hunk_text(
                document.hunks@[index],
            ),
        Err(error) => {
            &&& error.is_not_found("no immutable hunk at the requested line"@)
            &&& forall|j: int|
                0 <= j < document.hunks@.len() ==> !hunk_shows(
                    #[trigger] document.hunks@[j],
                    side,
                    wanted,
                )
        },
    }
}

/// The patch text of the first hunk that shows a line of one side.
pub fn canonical_hunk_text(
    document: &ReviewDiffDocument,
    side: DiffSide,
    line: Option<u32>,
) -> (result: Result<String, DispatchError>)
    ensures
        is_hunk_copy(result, *document, side, line),
{
    let wanted: u32 = match line {
        Some(number) => number,
        None => 1,
    };
    let mut i: usize = 0;
    while i < document.hunks.len()
        invariant
            i <= document.hunks.len(),
            wanted == line_or_first(line),
            forall|j: int|
                0 <= j < i ==> !hunk_shows(#[trigger] document.hunks@[j], side, wanted),
        decreases document.hunks.len() - i,
    {
        if shows(&document.hunks[i], side, wanted) {
            let mut output = String::new();
            append_hunk(&mut output, &document.hunks[i]);
            assert(output@ =~= hunk_text(document.hunks@[i as int]));
            assert(is_hunk_at(document.hunks@, side, line_or_first(line), i as int));
            return Ok(output);
        }
        i += 1;
    }
    Err(not_found("no immutable hunk at the requested line"))
}

/// The path of a file before the change.
pub open spec fn old_path_chars(document: ReviewDiffDocument) -> Seq<char> {
    match document.file.old_path {
        Some(path) => path@,
        None => document.file.path@,
    }
}

fn old_path(document: &ReviewDiffDocument) -> (path: &String)
    ensures
        path@ == old_path_chars(*document),
{
    match &document.file.old_path {
        Some(path) => path,
        None => &document.file.path,
    }
}

/// The lines that open the patch of a file.
pub open spec fn patch_heading(document: ReviewDiffDocument) -> Seq<char> {
    let old = old_path_chars(document);
    let new = document.file.path@;
    "diff --git a/"@ + old + " b/"@ + new + "\n--- a/"@ + old + "\n+++ b/"@ + new + "\n"@
}

/// The patch text of hunks.
pub open spec fn hunk_texts(hunks: Seq<ReviewHunk>) -> Seq<char>
    decreases hunks.len(),
{
    if hunks.len() == 0 {
        Seq::empty()
    } else {
        hunk_texts(hunks.drop_last()) + hunk_text(hunks.last())
    }
}

/// The patch of a captured file.
pub fn canonical_patch_text(document: &ReviewDiffDocument) -> (text: String)
    ensures
        text@ == patch_heading(*document) + hunk_texts(document.hunks@),
{
    let old = old_path(document).as_str();
    let new = document.file.path.as_str();
    let mut output = "diff --git a/".to_owned();
    output.append(old);
    output.append(" b/");
    output.append(new);
    output.append("\n--- a/");
    output.append(old);
    output.append("\n+++ b/");
    output.append(new);
    output.append("\n");
    let ghost heading = patch_heading(*document);
    assert(output@ == heading);
    let mut i: usize = 0;
    assert(heading + hunk_texts(document.hunks@.take(0)) =~= heading);
    while i < document.hunks.len()
        invariant
            i <= document.hunks.len(),
            output@ == heading + hunk_texts(document.hunks@.take(i as int)),
        decreases document.hunks.len() - i,
    {
        let ghost before = hunk_texts(document.hunks@.take(i as int));
        assert(document.hunks@.take(i + 1).drop_last() =~= document.hunks@.take(i as int));
        append_hunk(&mut output, &document.hunks[i]);
        assert(output@ =~= heading + (before + hunk_text(document.hunks@[i as int])));
        i += 1;
    }
    assert(document.hunks@.take(document.hunks.len() as int) =~= document.hunks@);
    output
}

/// What can be copied out of a file.
#[derive(Clone, Copy, Debug, PartialEq, Eq, Structural)]
pub enum CopyKind {
    Path,
    Patch,
    Source,
    NumberedSource,
    Hunk,
    Permalink,
}

/// What a text asks to copy.
pub open spec fn named_copy_kind(value: Seq<char>) -> Option<CopyKind> {
    if value == "path"@ {
        Some(CopyKind::Path)
    } else if value == "patch"@ {
        Some(CopyKind::Patch)
    } else if value == "source"@ {
        Some(CopyKind::Source)
    } else if value == "source_with_line_numbers"@ {
        Some(CopyKind::NumberedSource)
    } else if value == "hunk"@ {
        Some(CopyKind::Hunk)
    } else if value == "provider_permalink"@ {
        Some(CopyKind::Permalink)
    } else {
        None
    }
}

fn parse_copy_kind(value: &str) -> (kind: Option<CopyKind>)
    ensures
        kind == named_copy_kind(value@),
{
    if text_eq(value, "path") {
        Some(CopyKind::Path)
    } else if text_eq(value, "patch") {
        Some(CopyKind::Patch)
    } else if text_eq(value, "source") {
        Some(CopyKind::Source)
    } else if text_eq(value, "source_with_line_numbers") {
        Some(CopyKind::NumberedSource)
    } else if text_eq(value, "hunk") {
        Some(CopyKind::Hunk)
    } else if text_eq(value, "provider_permalink") {
        Some(CopyKind::Permalink)
    } else {
        None
    }
}

/// The hosted repository and revisions that a permalink points into.
#[derive(Debug)]
pub struct ProviderRevision {
    pub owner: String,
    pub repository: String,
    pub merge_base_sha: String,
    pub head_sha: Option<String>,
}

/// The address of a file, or of a line of it, at the captured revision of one
/// side.
pub open spec fn permalink(
    provider: ProviderRevision,
    document: ReviewDiffDocument,
    side: DiffSide,
    line: Option<u32>,
) -> Seq<char> {
    let revision = match (side, provider.head_sha) {
        (DiffSide::New, Some(sha)) => sha@,
        _ => provider.merge_base_sha@,
    };
    let path = match side {
        DiffSide::Old => old_path_chars(document),
        DiffSide::New => document.file.path@,
    };
    let file = "https://github.com/"@ + provider.owner@ + "/"@ + provider.repository@ + "/blob/"@
        + revision + "/"@ + path_bytes(encode_utf8(path));
    match line {
        Some(number) => file + "#L"@ + decimal(number as nat),
        None => file,
    }
}

/// Builds the address of a file at the captured revision of one side.
pub fn provider_permalink(
    provider: &ProviderRevision,
    document: &ReviewDiffDocument,
    side: DiffSide,
    line: Option<u32>,
) -> (link: String)
    ensures
        link@ == permalink(*provider, *document, side, line),
{
    let mut link = "https://github.com/".to_owned();
    link.append(provider.owner.as_str());
    link.append("/");
    link.append(provider.repository.as_str());
    link.append("/blob/");
    match (side, &provider.head_sha) {
        (DiffSide::New, Some(sha)) => {
            link.append(sha.as_str());
        },
        _ => {
            link.append(provider.merge_base_sha.as_str());
        },
    }
    link.append("/");
    let path = match side {
        DiffSide::Old => old_path(document),
        DiffSide::New => &document.file.path,
    };
    link.append(github_path(path.as_str()).as_str());
    match line {
        Some(number) => {
            link.append("#L");
            push_decimal(&mut link, number as u64);
        },
        None => {},
    }
    link
}

/// The side that a copy is taken from: the one asked for, or else the old one
/// of a deleted file and the new one of any other.
pub open spec fn copy_side(side: Option<String>, document: ReviewDiffDocument) -> Option<DiffSide> {
    match side {
        Some(name) => named_side(name@),
        None => Some(
            if document.file.status == ReviewFileStatus::Deleted {
                DiffSide::Old
            } else {
                DiffSide::New
            },
        ),
    }
}

/// The lines `first..=last` of a source.
pub open spec fn source_between(source: Seq<char>, first: u32, last: u32) -> Seq<char> {
    let (start, end) = range_of_lines(encode_utf8(source), first, last);
    decode_utf8(encode_utf8(source).subrange(start, end))
}

/// Why a range of lines cannot be copied out of a source that is not empty;
/// `None` where it can.
pub open spec fn range_problem(source: Seq<char>, first: u32, last: u32) -> Option<Seq<char>> {
    if first == 0 || last < first {
        Some("source line range is invalid"@)
    } else if first > line_starts(encode_utf8(source)).len() {
        Some("source line is outside captured snapshot"@)
    } else {
        None
    }
}

/// Whether a result is a copy of lines of a source, numbered where
/// `with_numbers` says so, or says why there is none.
pub open spec fn is_source_copy(
    result: Result<String, DispatchError>,
    source: Seq<char>,
    start_line: Option<u32>,
    end_line: Option<u32>,
    with_numbers: bool,
) -> bool {
    let first: u32 = match start_line {
        Some(line) => line,
        None => 1,
    };
    let last: u32 = match end_line {
        Some(line) => line,
        None => first,
    };
    if source.len() == 0 {
        result matches Ok(text) && text@ == Seq::<char>::empty()
    } else {
        match range_problem(source, first, last) {
            Some(text) => result matches Err(error) && error.is_invalid(text),
            None => result matches Ok(text) && text@ == if with_numbers {
                numbered(lines_inclusive(source_between(source, first, last)), first)
            } else {
                source_between(source, first, last)
            },
        }
    }
}

fn copy_source(
    source: &str,
    start_line: Option<u32>,
    end_line: Option<u32>,
    with_numbers: bool,
) -> (result: Result<String, DispatchError>)
    requires
        encode_utf8(source@).len() <= u32::MAX,
    ensures
        is_source_copy(result, source@, start_line, end_line, with_numbers),
{
    let first: u32 = match start_line {
        Some(line) => line,
        None => 1,
    };
    let range = match source_line_range(source, start_line, end_line) {
        Ok(range) => range,
        Err(error) => {
            return Err(error);
        },
    };
    if source.is_empty() {
        return Ok(String::new());
    }
    proof {
        let last: u32 = match end_line {
            Some(line) => line,
            None => first,
        };
        lemma_encoding_not_empty(source@);
        law_line_ranges_cut_whole_lines(source@, first, last);
    }
    if with_numbers {
        Ok(numbered_source(source, range, first))
    } else {
        Ok(slice_bytes(source, range.start, range.end).to_owned())
    }
}

proof fn lemma_encoding_not_empty(text: Seq<char>)
    requires
        text.len() > 0,
    ensures
        encode_utf8(text).len() > 0,
{
    encode_utf8_decode_utf8(text);
    if encode_utf8(text).len() == 0 {
        assert(decode_utf8(encode_utf8(text)).len() == 0);
    }
}

/// The source that a request asks to cut lines out of, if it asks for that.
pub open spec fn cut_source(
    request: CopyReviewItemRequest,
    document: ReviewDiffDocument,
) -> Option<Seq<char>> {
    match (named_copy_kind(request.kind@), copy_side(request.side, document)) {
        (Some(CopyKind::Source), Some(side)) | (Some(CopyKind::NumberedSource), Some(side)) => Some(
            side_source(document, side).content@,
        ),
        _ => None,
    }
}

/// Copies what a request asks for out of a captured file of the active
/// review. `provider` is where the file is hosted, if it is.
pub fn copy_review_item(
    request: &CopyReviewItemRequest,
    document: &ReviewDiffDocument,
    provider: Option<&ProviderRevision>,
) -> (result: Result<String, DispatchError>)
    requires
        cut_source(*request, *document) matches Some(source) ==> encode_utf8(source).len()
            <= u32::MAX,
    ensures
        match named_copy_kind(request.kind@) {
            None => result matches Err(error) && error.is_invalid("unsupported copy kind"@),
            Some(CopyKind::Path) => result matches Ok(text) && text@ == document.file.path@,
            Some(CopyKind::Patch) => result matches Ok(text) && text@ == patch_heading(*document)
                + hunk_texts(document.hunks@),
            Some(kind) => match copy_side(request.side, *document) {
                None => result matches Err(error) && error.is_invalid(
                    "annotation side must be old or new"@,
                ),
                Some(side) => match kind {
                    CopyKind::Permalink => match provider {
                        None => result matches Err(error) && error.is_invalid(
                            "provider permalinks are available only for GitHub PR review workspaces"@,
                        ),
                        Some(host) => result matches Ok(text) && text@ == permalink(
                            *host,
                            *document,
                            side,
                            request.start_line,
                        ),
                    },
                    CopyKind::Hunk => is_hunk_copy(result, *document, side, request.start_line),
                    _ => is_source_copy(
                        result,
                        side_source(*document, side).content@,
                        request.start_line,
                        request.end_line,
                        kind == CopyKind::NumberedSource,
                    ),
                },
            },
        },
{
    let kind = match parse_copy_kind(request.kind.as_str()) {
        Some(kind) => kind,
        None => {
            return Err(invalid("unsupported copy kind"));
        },
    };
    if kind == CopyKind::Path {
        return Ok(document.file.path.clone());
    }
    if kind == CopyKind::Patch {
        return Ok(canonical_patch_text(document));
    }
    proof {
        crate::document::lemma_side_names_differ();
    }
    let side = match &request.side {
        Some(name) => match parse_side(name.as_str()) {
            Ok(side) => side,
            Err(error) => {
                return Err(error);
            },
        },
        None => if document.file.status == ReviewFileStatus::Deleted {
            DiffSide::Old
        } else {
            DiffSide::New
        },
    };
    if kind == CopyKind::Permalink {
        return match provider {
            Some(host) => Ok(provider_permalink(host, document, side, request.start_line)),
            None => Err(
                invalid(
                    "provider permalinks are available only for GitHub PR review workspaces",
                ),
            ),
        };
    }
    if kind == CopyKind::Hunk {
        return canonical_hunk_text(document, side, request.start_line);
    }
    copy_source(
        side_content(document, side).as_str(),
        request.start_line,
        request.end_line,
        kind == CopyKind::NumberedSource,
    )
}

} // verus!
