//! How hunks read as patch text, in prompts and in copies, and what copies hold
//! of a source.
use crate::annotations::Annotation;
use crate::copies::{
    canonical_hunk_text, canonical_patch_text, copy_review_item, hunk_shows, hunk_text, hunk_texts,
    is_hunk_at, row_lines_text, source_between, ProviderRevision,
};
use crate::document::{
    header_chars, DiffCell, DiffLineKind, DiffSide, ReviewDiffDocument, ReviewFileStatus,
    ReviewHunk, UnifiedRow,
};
use crate::errors::DispatchError;
use crate::line_texts::{
    joined, law_line_ranges_hold_their_lines, lemma_cut_behind_lines, lemma_lines_of_first_lines,
};
use crate::prompt::{
    cell_within, hunk_for_annotation, hunk_touches, prompt_lines, prompt_row_text, touching_hunk,
};
use crate::source_lines::{
    law_lines_match_line_starts, line_behind, lines_inclusive, numbered, path_bytes,
};
use crate::text::{decimal, opt_text};
use crate::views::CopyReviewItemRequest;
use vstd::prelude::*;
use vstd::string::*;
use vstd::utf8::*;

verus! {

/// Whether a row shows what its kind says: a removal the old line, an addition
/// the new one, context the same line on both sides.
pub open spec fn row_is_in_order(row: UnifiedRow) -> bool {
    match row.kind {
        DiffLineKind::Context => row.old is Some && row.new is Some && row.old->0.text@
            == row.new->0.text@,
        DiffLineKind::Addition => row.old is None && row.new is Some,
        DiffLineKind::Removal => row.old is Some && row.new is None,
    }
}

/// Whether every row of a hunk shows what its kind says.
pub open spec fn hunk_is_in_order(hunk: ReviewHunk) -> bool {
    forall|k: int|
        0 <= k < hunk.unified_rows@.len() ==> row_is_in_order(#[trigger] hunk.unified_rows@[k])
}

/// The patch line of a row.
pub open spec fn patch_line(row: UnifiedRow) -> Seq<char> {
    match row.kind {
        DiffLineKind::Context => seq![' '] + row.new->0.text@ + seq!['\n'],
        DiffLineKind::Addition => seq!['+'] + row.new->0.text@ + seq!['\n'],
        DiffLineKind::Removal => seq!['-'] + row.old->0.text@ + seq!['\n'],
    }
}

/// The patch lines of rows, one for each.
pub open spec fn patch_lines(rows: Seq<UnifiedRow>) -> Seq<Seq<char>> {
    Seq::new(rows.len(), |k: int| patch_line(rows[k]))
}

/// A hunk as a patch shows it: its header, and one line for each of its rows.
pub open spec fn patch_of(hunk: ReviewHunk) -> Seq<char> {
    header_chars(hunk.header) + seq!['\n'] + joined(patch_lines(hunk.unified_rows@))
}

proof fn lemma_prompt_lines(rows: Seq<UnifiedRow>)
    requires
        forall|k: int| 0 <= k < rows.len() ==> row_is_in_order(#[trigger] rows[k]),
    ensures
        prompt_lines(rows) == Some(joined(patch_lines(rows))),
        row_lines_text(rows) == joined(patch_lines(rows)),
    decreases rows.len(),
{
    if rows.len() > 0 {
        let before = rows.drop_last();
        assert forall|k: int| 0 <= k < before.len() implies row_is_in_order(
            #[trigger] before[k],
        ) by {
            assert(before[k] == rows[k]);
        }
        lemma_prompt_lines(before);
        assert(patch_lines(rows).drop_last() =~= patch_lines(before));
        assert(row_is_in_order(rows[rows.len() - 1]));
        let earlier = joined(patch_lines(before));
        let last = rows.last();
        assert(patch_lines(rows).last() == patch_line(last));
        assert(joined(patch_lines(rows)) == earlier + patch_line(last));
        let text = prompt_row_text(last)->0;
        assert(earlier + seq![crate::copies::row_sign(last.kind)] + text + seq!['\n'] =~= earlier
            + patch_line(last));
        assert(earlier + seq![crate::copies::row_sign(last.kind)] + crate::copies::row_text(last)
            + seq!['\n'] =~= earlier + patch_line(last));
    }
}

/// Whether a cell shows a line of a range on a side.
pub open spec fn cell_is_between(cell: Option<DiffCell>, side: DiffSide, first: u32, last: u32) -> bool {
    cell matches Some(shown) && shown.side == side && first <= shown.line_number <= last
}

/// Whether a hunk shows a line of a range on a side.
pub open spec fn hunk_is_between(hunk: ReviewHunk, side: DiffSide, first: u32, last: u32) -> bool {
    exists|k: int|
        0 <= k < hunk.unified_rows@.len() && (cell_is_between(
            (#[trigger] hunk.unified_rows@[k]).old,
            side,
            first,
            last,
        ) || cell_is_between(hunk.unified_rows@[k].new, side, first, last))
}

proof fn lemma_touching(hunk: ReviewHunk, side: DiffSide, first: u32, last: u32)
    ensures
        hunk_touches(hunk, side, first, last) == hunk_is_between(hunk, side, first, last),
{
    if hunk_touches(hunk, side, first, last) {
        let k = choose|k: int|
            #![trigger hunk.unified_rows@[k]]
            0 <= k < hunk.unified_rows@.len() && (cell_within(
                hunk.unified_rows@[k].old,
                side,
                first,
                last,
            ) || cell_within(hunk.unified_rows@[k].new, side, first, last));
        assert(cell_is_between(hunk.unified_rows@[k].old, side, first, last) || cell_is_between(
            hunk.unified_rows@[k].new,
            side,
            first,
            last,
        ));
    }
    if hunk_is_between(hunk, side, first, last) {
        let k = choose|k: int|
            0 <= k < hunk.unified_rows@.len() && (cell_is_between(
                (#[trigger] hunk.unified_rows@[k]).old,
                side,
                first,
                last,
            ) || cell_is_between(hunk.unified_rows@[k].new, side, first, last));
        assert(cell_within(hunk.unified_rows@[k].old, side, first, last) || cell_within(
            hunk.unified_rows@[k].new,
            side,
            first,
            last,
        ));
    }
}

proof fn lemma_first_touching(
    hunks: Seq<ReviewHunk>,
    side: DiffSide,
    first: u32,
    last: u32,
    h: int,
)
    requires
        0 <= h < hunks.len(),
        hunk_is_between(hunks[h], side, first, last),
        forall|j: int| 0 <= j < h ==> !hunk_is_between(#[trigger] hunks[j], side, first, last),
    ensures
        touching_hunk(hunks, side, first, last) == Some(hunks[h]),
    decreases h,
{
    lemma_touching(hunks[0], side, first, last);
    if h > 0 {
        let rest = hunks.drop_first();
        assert(rest[h - 1] == hunks[h]);
        assert forall|j: int| 0 <= j < h - 1 implies !hunk_is_between(
            #[trigger] rest[j],
            side,
            first,
            last,
        ) by {
            assert(rest[j] == hunks[j + 1]);
        }
        lemma_first_touching(rest, side, first, last, h - 1);
    }
}

/// A prompt shows with an annotation the first hunk that shows one of its lines,
/// as a patch: after the header one line for each row, in order, with the sign
/// of its kind and its whole text.
pub proof fn law_prompts_show_every_row_of_the_hunk(
    annotation: Annotation,
    document: ReviewDiffDocument,
    text: Option<String>,
    h: int,
)
    requires
        call_ensures(hunk_for_annotation, (&annotation, &document), text),
        annotation.anchor is Some,
        annotation.anchor->0.side is Some,
        annotation.anchor->0.start_line is Some,
        annotation.anchor->0.end_line is Some,
        0 <= h < document.hunks@.len(),
        hunk_is_between(
            document.hunks@[h],
            annotation.anchor->0.side->0,
            annotation.anchor->0.start_line->0,
            annotation.anchor->0.end_line->0,
        ),
        forall|j: int|
            0 <= j < h ==> !hunk_is_between(
                #[trigger] document.hunks@[j],
                annotation.anchor->0.side->0,
                annotation.anchor->0.start_line->0,
                annotation.anchor->0.end_line->0,
            ),
        hunk_is_in_order(document.hunks@[h]),
    ensures
        text matches Some(shown) && shown@ == patch_of(document.hunks@[h]),
{
    let anchor = annotation.anchor->0;
    lemma_first_touching(
        document.hunks@,
        anchor.side->0,
        anchor.start_line->0,
        anchor.end_line->0,
        h,
    );
    lemma_prompt_lines(document.hunks@[h].unified_rows@);
    assert(opt_text(text) is Some);
}

/// How many newlines a text has.
pub open spec fn newlines(text: Seq<char>) -> nat
    decreases text.len(),
{
    if text.len() == 0 {
        0
    } else {
        newlines(text.drop_last()) + if text.last() == '\n' {
            1nat
        } else {
            0
        }
    }
}

proof fn lemma_newlines_concat(a: Seq<char>, b: Seq<char>)
    ensures
        newlines(a + b) == newlines(a) + newlines(b),
    decreases b.len(),
{
    if b.len() == 0 {
        assert(a + b =~= a);
    } else {
        assert((a + b).drop_last() =~= a + b.drop_last());
        lemma_newlines_concat(a, b.drop_last());
    }
}

proof fn lemma_one_char(c: char)
    ensures
        newlines(seq![c]) == if c == '\n' {
            1nat
        } else {
            0
        },
{
    assert(seq![c].drop_last() =~= Seq::<char>::empty());
    assert(newlines(seq![c].drop_last()) == 0);
}

/// Whether no text of a row has a newline in it.
pub open spec fn row_has_no_newline(row: UnifiedRow) -> bool {
    &&& row.old matches Some(cell) ==> newlines(cell.text@) == 0
    &&& row.new matches Some(cell) ==> newlines(cell.text@) == 0
}

/// As a patch a hunk has a line for its header and one for each row.
pub proof fn law_patches_have_a_line_for_each_row(rows: Seq<UnifiedRow>)
    requires
        forall|k: int|
            0 <= k < rows.len() ==> row_is_in_order(#[trigger] rows[k]) && row_has_no_newline(
                rows[k],
            ),
    ensures
        newlines(joined(patch_lines(rows))) == rows.len(),
    decreases rows.len(),
{
    if rows.len() > 0 {
        let before = rows.drop_last();
        assert forall|k: int| 0 <= k < before.len() implies row_is_in_order(#[trigger] before[k])
            && row_has_no_newline(before[k]) by {
            assert(before[k] == rows[k]);
        }
        law_patches_have_a_line_for_each_row(before);
        assert(patch_lines(rows).drop_last() =~= patch_lines(before));
        let last = rows[rows.len() - 1];
        let text = if last.kind == DiffLineKind::Removal {
            last.old->0.text@
        } else {
            last.new->0.text@
        };
        let sign = crate::copies::row_sign(last.kind);
        assert(patch_line(last) == seq![sign] + text + seq!['\n']);
        lemma_newlines_concat(joined(patch_lines(before)), patch_line(last));
        lemma_newlines_concat(seq![sign] + text, seq!['\n']);
        lemma_newlines_concat(seq![sign], text);
        lemma_one_char(sign);
        lemma_one_char('\n');
    }
}

/// Whether a hunk shows a line of a side.
pub open spec fn shows_line_of(hunk: ReviewHunk, side: DiffSide, line: u32) -> bool {
    exists|k: int|
        0 <= k < hunk.unified_rows@.len() && (match side {
            DiffSide::Old => (#[trigger] hunk.unified_rows@[k]).old,
            DiffSide::New => hunk.unified_rows@[k].new,
        } matches Some(cell) && cell.line_number == line)
}

proof fn lemma_shows(hunk: ReviewHunk, side: DiffSide, line: u32)
    ensures
        hunk_shows(hunk, side, line) == shows_line_of(hunk, side, line),
{
}

/// Copying a hunk gives the first hunk that shows the line, with every row of
/// it; where no hunk does, nothing is copied.
pub proof fn law_copied_hunks_have_every_row(
    document: ReviewDiffDocument,
    side: DiffSide,
    line: u32,
    result: Result<String, DispatchError>,
    h: int,
)
    requires
        call_ensures(canonical_hunk_text, (&document, side, Some(line)), result),
        0 <= h < document.hunks@.len(),
        shows_line_of(document.hunks@[h], side, line),
        forall|j: int|
            0 <= j < h ==> !shows_line_of(#[trigger] document.hunks@[j], side, line),
        hunk_is_in_order(document.hunks@[h]),
    ensures
        result matches Ok(text) && text@ == patch_of(document.hunks@[h]),
{
    lemma_shows(document.hunks@[h], side, line);
    lemma_prompt_lines(document.hunks@[h].unified_rows@);
    if result is Ok {
        let index = choose|index: int| #[trigger]
            is_hunk_at(document.hunks@, side, line, index) && result->Ok_0@ == hunk_text(
                document.hunks@[index],
            );
        lemma_shows(document.hunks@[index], side, line);
        if index < h {
            assert(!shows_line_of(document.hunks@[index], side, line));
        } else if h < index {
            assert(!hunk_shows(document.hunks@[h], side, line));
        }
    } else {
        assert(!hunk_shows(document.hunks@[h], side, line));
    }
}

/// The patch texts of hunks.
pub open spec fn patches_of(hunks: Seq<ReviewHunk>) -> Seq<Seq<char>> {
    Seq::new(hunks.len(), |h: int| patch_of(hunks[h]))
}

proof fn lemma_patches(hunks: Seq<ReviewHunk>)
    requires
        forall|h: int| 0 <= h < hunks.len() ==> hunk_is_in_order(#[trigger] hunks[h]),
    ensures
        hunk_texts(hunks) == joined(patches_of(hunks)),
    decreases hunks.len(),
{
    if hunks.len() > 0 {
        let before = hunks.drop_last();
        assert forall|h: int| 0 <= h < before.len() implies hunk_is_in_order(
            #[trigger] before[h],
        ) by {
            assert(before[h] == hunks[h]);
        }
        lemma_patches(before);
        assert(patches_of(hunks).drop_last() =~= patches_of(before));
        assert(hunk_is_in_order(hunks[hunks.len() - 1]));
        lemma_prompt_lines(hunks.last().unified_rows@);
    }
}

/// The patch of a file names its path before and after the change, and has
/// every hunk with every row, in order.
pub proof fn law_patches_have_every_hunk(document: ReviewDiffDocument, text: String)
    requires
        call_ensures(canonical_patch_text, (&document,), text),
        forall|h: int|
            0 <= h < document.hunks@.len() ==> hunk_is_in_order(#[trigger] document.hunks@[h]),
    ensures
        ({
            let new = document.file.path@;
            let old = match document.file.old_path {
                Some(path) => path@,
                None => new,
            };
            text@ == "diff --git a/"@ + old + " b/"@ + new + "\n--- a/"@ + old + "\n+++ b/"@ + new
                + "\n"@ + joined(patches_of(document.hunks@))
        }),
{
    lemma_patches(document.hunks@);
}


/// A line behind its number and a tab.
pub open spec fn line_with_number(line: Seq<char>, number: int) -> Seq<char> {
    decimal(number as nat) + seq!['\t'] + line
}

/// Some lines, each behind its number and a tab.
pub open spec fn lines_with_numbers(lines: Seq<Seq<char>>, first: int) -> Seq<Seq<char>> {
    Seq::new(lines.len(), |k: int| line_with_number(lines[k], first + k))
}

proof fn lemma_numbered(lines: Seq<Seq<char>>, first: u32)
    requires
        first + lines.len() <= u32::MAX + 1,
    ensures
        numbered(lines, first) == joined(lines_with_numbers(lines, first as int)),
    decreases lines.len(),
{
    let all = lines_with_numbers(lines, first as int);
    if lines.len() > 0 {
        lemma_numbered(lines.drop_last(), first);
        assert(all.drop_last() =~= lines_with_numbers(lines.drop_last(), first as int));
        assert(line_behind(first, (lines.len() - 1) as nat) == first + lines.len() - 1);
        assert(all.last() == line_with_number(lines.last(), first + lines.len() - 1));
        assert(numbered(lines, first) =~= joined(all));
    }
}

pub proof fn lemma_lines_between(text: Seq<char>, first: u32, last: u32)
    requires
        encode_utf8(text).len() <= u32::MAX,
        1 <= first <= last <= lines_inclusive(text).len(),
    ensures
        source_between(text, first, last) == joined(
            lines_inclusive(text).subrange(first - 1, last as int),
        ),
        lines_inclusive(source_between(text, first, last)) == lines_inclusive(text).subrange(
            first - 1,
            last as int,
        ),
{
    let lines = lines_inclusive(text);
    law_line_ranges_hold_their_lines(text, first, last);
    let tail = lines.skip(first - 1);
    lemma_cut_behind_lines(text, first - 1);
    lemma_lines_of_first_lines(joined(tail), last - first + 1);
    assert(tail.take(last - first + 1) =~= lines.subrange(first - 1, last as int));
}

/// The source that a copy takes from: that of the side that was named, and
/// where none was named the old one of a deleted file and the new one of any
/// other.
pub open spec fn copied_source(
    request: CopyReviewItemRequest,
    document: ReviewDiffDocument,
) -> Seq<char> {
    if request.side is Some && request.side->0@ == "old"@ {
        document.old.content@
    } else if request.side is Some {
        document.new.content@
    } else if document.file.status == ReviewFileStatus::Deleted {
        document.old.content@
    } else {
        document.new.content@
    }
}

proof fn lemma_copy_names_differ()
    ensures
        "old"@ != "new"@,
        "source"@ != "path"@,
        "source"@ != "patch"@,
        "source"@ != "source_with_line_numbers"@,
        "source_with_line_numbers"@ != "path"@,
        "source_with_line_numbers"@ != "patch"@,
        "hunk"@ != "path"@,
        "hunk"@ != "patch"@,
        "hunk"@ != "source"@,
        "hunk"@ != "source_with_line_numbers"@,
        "provider_permalink"@ != "path"@,
        "provider_permalink"@ != "patch"@,
        "provider_permalink"@ != "source"@,
        "provider_permalink"@ != "source_with_line_numbers"@,
        "provider_permalink"@ != "hunk"@,
        "patch"@ != "path"@,
{
    reveal_strlit("old");
    reveal_strlit("new");
    reveal_strlit("source");
    reveal_strlit("path");
    reveal_strlit("patch");
    reveal_strlit("source_with_line_numbers");
    reveal_strlit("hunk");
    reveal_strlit("provider_permalink");
    assert("old"@[0] == 'o');
    assert("new"@[0] == 'n');
    assert("source"@.len() == 6);
    assert("path"@.len() == 4);
    assert("patch"@.len() == 5);
    assert("source_with_line_numbers"@.len() == 24);
    assert("hunk"@.len() == 4);
    assert("hunk"@[0] == 'h');
    assert("path"@[0] == 'p');
    assert("provider_permalink"@.len() == 18);
}

/// Whether a copy is asked from a side that there is.
pub open spec fn names_no_other_side(request: CopyReviewItemRequest) -> bool {
    request.side matches Some(side) ==> side@ == "old"@ || side@ == "new"@
}

/// A copy of source lines holds exactly the lines that were asked for, line
/// ends and all, from the side that was named; with numbers, each of them
/// stands behind its own.
pub proof fn law_copies_hold_the_lines_asked_for(
    request: CopyReviewItemRequest,
    document: ReviewDiffDocument,
    provider: Option<&ProviderRevision>,
    result: Result<String, DispatchError>,
    first: u32,
    last: u32,
)
    requires
        call_ensures(copy_review_item, (&request, &document, provider), result),
        names_no_other_side(request),
        encode_utf8(copied_source(request, document)).len() <= u32::MAX,
        request.start_line == Some(first),
        request.end_line == Some(last),
        1 <= first <= last <= lines_inclusive(copied_source(request, document)).len(),
    ensures
        ({
            let lines = lines_inclusive(copied_source(request, document)).subrange(
                first - 1,
                last as int,
            );
            &&& request.kind@ == "source"@ ==> (result matches Ok(text) && text@ == joined(lines))
            &&& request.kind@ == "source_with_line_numbers"@ ==> (result matches Ok(text) && text@
                == joined(lines_with_numbers(lines, first as int)))
        }),
{
    lemma_copy_names_differ();
    let source = copied_source(request, document);
    let lines = lines_inclusive(source).subrange(first - 1, last as int);
    if source.len() == 0 {
        assert(lines_inclusive(source).len() == 0);
    }
    law_lines_match_line_starts(source);
    lemma_lines_between(source, first, last);
    lemma_numbered(lines, first);
}

/// Without an end, a copy holds the one line that was asked for, and without a
/// start the first one. A range that begins at no line, ends before it begins
/// or lies behind the last line is refused.
pub proof fn law_copies_refuse_lines_that_are_not_there(
    request: CopyReviewItemRequest,
    document: ReviewDiffDocument,
    provider: Option<&ProviderRevision>,
    result: Result<String, DispatchError>,
)
    requires
        call_ensures(copy_review_item, (&request, &document, provider), result),
        names_no_other_side(request),
        request.kind@ == "source"@,
        encode_utf8(copied_source(request, document)).len() <= u32::MAX,
        copied_source(request, document).len() > 0,
    ensures
        request.start_line == Some(0u32) ==> result is Err,
        request.start_line matches Some(first) ==> request.end_line matches Some(last) ==> last
            < first ==> result is Err,
        request.start_line matches Some(first) ==> first > lines_inclusive(
            copied_source(request, document),
        ).len() ==> result is Err,
        request.start_line is None && request.end_line is None ==> (result matches Ok(text) && text@
            == lines_inclusive(copied_source(request, document))[0]),
        request.start_line matches Some(first) ==> request.end_line is None ==> 1 <= first
            <= lines_inclusive(copied_source(request, document)).len() ==> (result matches Ok(text)
            && text@ == lines_inclusive(copied_source(request, document))[first - 1]),
{
    lemma_copy_names_differ();
    let source = copied_source(request, document);
    let lines = lines_inclusive(source);
    law_lines_match_line_starts(source);
    lemma_a_line_is_there(source);
    let first: u32 = match request.start_line {
        Some(line) => line,
        None => 1,
    };
    if request.end_line is None && 1 <= first <= lines.len() {
        lemma_lines_between(source, first, first);
        let one = lines.subrange(first - 1, first as int);
        assert(one =~= seq![lines[first - 1]]);
        assert(one.drop_last() =~= Seq::<Seq<char>>::empty());
        assert(joined(one.drop_last()) =~= Seq::<char>::empty());
        assert(joined(one) =~= lines[first - 1]);
    }
}

proof fn lemma_a_line_is_there(text: Seq<char>)
    requires
        text.len() > 0,
    ensures
        lines_inclusive(text).len() > 0,
    decreases text.len(),
{
    if text.len() > 1 {
        lemma_a_line_is_there(text.drop_last());
    }
}

/// Which side a copy is taken from does not depend on whether the side was
/// named: without a name it is the old one of a deleted file and the new one of
/// any other.
pub proof fn law_unnamed_sides_are_those_that_exist(
    unnamed: CopyReviewItemRequest,
    named: CopyReviewItemRequest,
    document: ReviewDiffDocument,
    provider: ProviderRevision,
    result: Result<String, DispatchError>,
    other: Result<String, DispatchError>,
)
    requires
        unnamed.side is None,
        named.side matches Some(side) && side@ == (if document.file.status
            == ReviewFileStatus::Deleted {
            "old"@
        } else {
            "new"@
        }),
        named.kind@ == unnamed.kind@,
        named.start_line == unnamed.start_line,
        named.end_line == unnamed.end_line,
        unnamed.kind@ == "source"@ || unnamed.kind@ == "source_with_line_numbers"@ || unnamed.kind@
            == "provider_permalink"@,
        call_ensures(copy_review_item, (&unnamed, &document, Some(&provider)), result),
        call_ensures(copy_review_item, (&named, &document, Some(&provider)), other),
    ensures
        result is Ok <==> other is Ok,
        result matches Ok(text) ==> other matches Ok(same) && text@ == same@,
{
    lemma_copy_names_differ();
}

/// A link of the provider leads to the file as it was captured: on the old side
/// to its former path at the commit that the change starts from, on the new
/// side to its path at the head where there is one, and to the line that was
/// asked for. Only a review of a pull request has one.
pub proof fn law_links_lead_to_the_captured_file(
    request: CopyReviewItemRequest,
    document: ReviewDiffDocument,
    provider: Option<&ProviderRevision>,
    result: Result<String, DispatchError>,
    line: u32,
)
    requires
        call_ensures(copy_review_item, (&request, &document, provider), result),
        request.kind@ == "provider_permalink"@,
        request.start_line == Some(line),
        request.side is Some,
        names_no_other_side(request),
    ensures
        result is Ok <==> provider is Some,
        provider matches Some(host) ==> {
            let site = "https://github.com/"@ + host.owner@ + "/"@ + host.repository@ + "/blob/"@;
            let former = match document.file.old_path {
                Some(path) => path@,
                None => document.file.path@,
            };
            let place = "#L"@ + decimal(line as nat);
            &&& request.side->0@ == "old"@ ==> result->Ok_0@ == site + host.merge_base_sha@ + "/"@
                + path_bytes(encode_utf8(former)) + place
            &&& request.side->0@ == "new"@ ==> {
                &&& host.head_sha matches Some(head) ==> result->Ok_0@ == site + head@ + "/"@
                    + path_bytes(encode_utf8(document.file.path@)) + place
                &&& host.head_sha is None ==> result->Ok_0@ == site + host.merge_base_sha@ + "/"@
                    + path_bytes(encode_utf8(document.file.path@)) + place
            }
        },
{
    lemma_copy_names_differ();
    if let Some(host) = provider {
        let site = "https://github.com/"@ + host.owner@ + "/"@ + host.repository@ + "/blob/"@;
        let place = "#L"@ + decimal(line as nat);
        let former = match document.file.old_path {
            Some(path) => path@,
            None => document.file.path@,
        };
        if request.side->0@ == "old"@ {
            assert(result->Ok_0@ =~= site + host.merge_base_sha@ + "/"@ + path_bytes(
                encode_utf8(former),
            ) + place);
        } else if host.head_sha is Some {
            assert(result->Ok_0@ =~= site + host.head_sha->0@ + "/"@ + path_bytes(
                encode_utf8(document.file.path@),
            ) + place);
        } else {
            assert(result->Ok_0@ =~= site + host.merge_base_sha@ + "/"@ + path_bytes(
                encode_utf8(document.file.path@),
            ) + place);
        }
    }
}

/// A copy of the path is the path of the file, and a copy of the patch is the
/// patch that the file has on its own.
pub proof fn law_copied_paths_and_patches_are_those_of_the_file(
    request: CopyReviewItemRequest,
    document: ReviewDiffDocument,
    provider: Option<&ProviderRevision>,
    result: Result<String, DispatchError>,
    patch: String,
)
    requires
        call_ensures(copy_review_item, (&request, &document, provider), result),
        call_ensures(canonical_patch_text, (&document,), patch),
    ensures
        request.kind@ == "path"@ ==> (result matches Ok(text) && text@ == document.file.path@),
        request.kind@ == "patch"@ ==> (result matches Ok(text) && text@ == patch@),
{
    lemma_copy_names_differ();
}

} // verus!
