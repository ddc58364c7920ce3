//! What a window shows of a presentation: which rows, which annotations and
//! which highlighted tokens; and how the lines of both sources correspond.
use crate::annotation_places::{is_marked_deleted, names_line};
use crate::annotations::Annotation;
use crate::document::{side_source, DiffSide, ReviewDiffDocument, SplitRow};
use crate::full_file::{
    aligned_source_line, exact_target, hunk_pairs, known_pairs, pair_above, pair_before, pair_below,
    row_pair, row_pairs,
};
use crate::presentation::{
    bytes_of_rows, canonical_window, highlight_summary, token_models, tokens_within, window_end,
    window_start, CachedCanonicalPresentation, HighlightResult, HighlightToken, PresentationRequest,
};
use crate::rows::{row_models, row_span, span_of_rows, RowModel};
use crate::text::opt_text;
use crate::views::PresentationWindow;
use vstd::prelude::*;
use vstd::string::*;
use vstd::utf8::*;

verus! {

/// The smaller of two numbers.
pub open spec fn lesser_of(a: int, b: int) -> int {
    if a <= b {
        a
    } else {
        b
    }
}

/// Whether two rows say the same but for whether they are annotated.
pub open spec fn same_row(a: RowModel, b: RowModel) -> bool {
    a == (RowModel { has_annotation: a.has_annotation, ..b })
}

/// A window shows the rows that it is asked for, in order and as they are: from
/// the first one asked for up to the last one, as far as there are rows, and no
/// more than 2048. It says where it starts and how many rows there are.
pub proof fn law_windows_show_the_rows_asked_for(
    request: PresentationRequest,
    document: ReviewDiffDocument,
    presentation: CachedCanonicalPresentation,
    annotations: Vec<Annotation>,
    old_side: HighlightResult,
    new_side: HighlightResult,
    window: PresentationWindow,
)
    requires
        call_ensures(
            canonical_window,
            (&request, &document, &presentation, &annotations, &old_side, &new_side),
            window,
        ),
        presentation.rows@.len() <= u32::MAX,
    ensures
        ({
            let total = presentation.rows@.len() as int;
            let start = lesser_of(request.start_row as int, total);
            let end = lesser_of(request.end_row as int, total);
            &&& window.start_row == start
            &&& window.total_rows == total
            &&& window.rows@.len() == if end <= start {
                0
            } else {
                lesser_of(end - start, 2048)
            }
            &&& forall|k: int|
                0 <= k < window.rows@.len() ==> same_row(
                    (#[trigger] window.rows@[k])@,
                    presentation.rows@[start + k]@,
                )
            &&& window.hunks@ == presentation.hunks@
            &&& window.omitted_blocks@ == presentation.omitted_blocks@
            &&& window.generation == request.generation
            &&& window.file_id@ == request.file_id@
            &&& window.mode@ == request.mode@
        }),
{
    let total = presentation.rows@.len();
    let start = window_start(request, total);
    let end = window_end(request, total, 2048);
    let models = row_models(window.rows@);
    assert(models.len() == window.rows@.len());
    assert forall|k: int| 0 <= k < window.rows@.len() implies same_row(
        (#[trigger] window.rows@[k])@,
        presentation.rows@[start + k]@,
    ) by {
        assert(models[k] == window.rows@[k]@);
        assert(row_models(presentation.rows@)[start + k] == presentation.rows@[start + k]@);
    }
}

/// A row of a window is marked where an annotation that was not deleted names
/// a line that the row stands for: the line that it shows, or any line behind
/// the fold that it marks.
pub proof fn law_annotated_rows_are_marked(
    request: PresentationRequest,
    document: ReviewDiffDocument,
    presentation: CachedCanonicalPresentation,
    annotations: Vec<Annotation>,
    old_side: HighlightResult,
    new_side: HighlightResult,
    window: PresentationWindow,
    k: int,
    index: int,
    side: DiffSide,
    line: int,
)
    requires
        call_ensures(
            canonical_window,
            (&request, &document, &presentation, &annotations, &old_side, &new_side),
            window,
        ),
        0 <= k < window.rows@.len(),
        0 <= index < annotations@.len(),
        !is_marked_deleted(annotations@[index]),
        names_line(annotations@[index], document, side, line),
        ({
            let row = window.rows@[k]@;
            let first = match side {
                DiffSide::Old => row.old_line,
                DiffSide::New => row.new_line,
            };
            &&& first is Some
            &&& first->0 <= line
            &&& match row.omitted_end_line {
                Some(end) => line <= end,
                None => line == first->0,
            }
        }),
    ensures
        window.rows@[k]@.has_annotation,
{
    let models = row_models(window.rows@);
    assert(models[k] == window.rows@[k]@);
    let row = window.rows@[k]@;
    assert(!crate::annotations::soft_deleted(annotations@[index]));
    let first = match side {
        DiffSide::Old => row.old_line->0,
        DiffSide::New => row.new_line->0,
    };
    let end = match row.omitted_end_line {
        Some(end) => end,
        None => first,
    };
    assert(crate::annotations::covers(annotations@[index], document, side, first, end));
}

/// Without annotations no row is marked.
pub proof fn law_no_row_is_marked_without_annotations(
    request: PresentationRequest,
    document: ReviewDiffDocument,
    presentation: CachedCanonicalPresentation,
    annotations: Vec<Annotation>,
    old_side: HighlightResult,
    new_side: HighlightResult,
    window: PresentationWindow,
    k: int,
)
    requires
        call_ensures(
            canonical_window,
            (&request, &document, &presentation, &annotations, &old_side, &new_side),
            window,
        ),
        0 <= k < window.rows@.len(),
        forall|i: int| 0 <= i < annotations@.len() ==> is_marked_deleted(#[trigger] annotations@[i]),
    ensures
        !window.rows@[k]@.has_annotation,
{
    let models = row_models(window.rows@);
    assert(models[k] == window.rows@[k]@);
    assert forall|i: int| 0 <= i < annotations@.len() implies crate::annotations::soft_deleted(
        #[trigger] annotations@[i],
    ) by {
        assert(is_marked_deleted(annotations@[i]));
        let j = choose|j: int|
            0 <= j < annotations@[i].labels@.len() && #[trigger] annotations@[i].labels@[j]@
                == "localreview:deleted"@;
        assert(annotations@[i].labels@[j]@ == crate::annotations::deleted_label());
    }
}

/// The bytes of a side that a row shows: from where its line starts to where
/// its text ends.
pub open spec fn shows_byte(row: RowModel, side: DiffSide, byte: int) -> bool {
    let (start, text) = match side {
        DiffSide::Old => (row.old_source_start_byte, row.old_text),
        DiffSide::New => (row.new_source_start_byte, row.new_text),
    };
    start is Some && text is Some && start->0 <= byte < start->0 + encode_utf8(text->0).len()
}

proof fn lemma_span_holds(rows: Seq<RowModel>, side: DiffSide, k: int)
    requires
        0 <= k < rows.len(),
    ensures
        row_span(rows[k], side) matches Some(span) ==> span_of_rows(rows, side).0 <= span.0
            && span.1 <= span_of_rows(rows, side).1,
    decreases rows.len(),
{
    if k < rows.len() - 1 {
        lemma_span_holds(rows.drop_last(), side, k);
    }
}

proof fn lemma_tokens_are_there(
    tokens: Seq<HighlightToken>,
    side: DiffSide,
    range: Option<(u32, u32)>,
    t: int,
)
    requires
        0 <= t < tokens.len(),
        tokens[t].side == side,
        range is Some,
        tokens[t].end_byte > (range->0).0,
        tokens[t].start_byte < (range->0).1,
    ensures
        exists|j: int|
            0 <= j < tokens_within(tokens, side, range).len() && (#[trigger] tokens_within(
                tokens,
                side,
                range,
            )[j]).start_byte == tokens[t].start_byte && tokens_within(
                tokens,
                side,
                range,
            )[j].end_byte == tokens[t].end_byte && tokens_within(tokens, side, range)[j].class
                == crate::presentation::class_chars(tokens[t].class),
    decreases tokens.len(),
{
    let earlier = tokens_within(tokens.drop_last(), side, range);
    let all = tokens_within(tokens, side, range);
    if t == tokens.len() - 1 {
        assert(all[all.len() - 1].start_byte == tokens[t].start_byte);
    } else {
        lemma_tokens_are_there(tokens.drop_last(), side, range, t);
        let j = choose|j: int|
            0 <= j < earlier.len() && (#[trigger] earlier[j]).start_byte == tokens[t].start_byte
                && earlier[j].end_byte == tokens[t].end_byte && earlier[j].class
                == crate::presentation::class_chars(tokens[t].class);
        assert(all[j] == earlier[j]);
    }
}

/// Whether tokens hold one with these bytes and this class.
pub open spec fn has_token(
    tokens: Seq<crate::views::SyntaxTokenView>,
    token: HighlightToken,
) -> bool {
    exists|j: int|
        0 <= j < tokens.len() && (#[trigger] tokens[j]).start_byte == token.start_byte
            && tokens[j].end_byte == token.end_byte && tokens[j].class@
            == crate::presentation::class_chars(token.class)
}

/// A highlighted token of a side is in the window where a row of the window
/// shows one of its bytes.
pub proof fn law_tokens_of_shown_text_are_there(
    request: PresentationRequest,
    document: ReviewDiffDocument,
    presentation: CachedCanonicalPresentation,
    annotations: Vec<Annotation>,
    old_side: HighlightResult,
    new_side: HighlightResult,
    window: PresentationWindow,
    k: int,
    side: DiffSide,
    t: int,
    byte: int,
)
    requires
        call_ensures(
            canonical_window,
            (&request, &document, &presentation, &annotations, &old_side, &new_side),
            window,
        ),
        0 <= k < window.rows@.len(),
        shows_byte(window.rows@[k]@, side, byte),
        byte < u32::MAX,
        ({
            let tokens = match side {
                DiffSide::Old => old_side.tokens@,
                DiffSide::New => new_side.tokens@,
            };
            &&& 0 <= t < tokens.len()
            &&& tokens[t].side == side
            &&& tokens[t].start_byte <= byte < tokens[t].end_byte
        }),
    ensures
        match side {
            DiffSide::Old => has_token(window.old_tokens@, old_side.tokens@[t]),
            DiffSide::New => has_token(window.new_tokens@, new_side.tokens@[t]),
        },
{
    let models = row_models(window.rows@);
    assert(models[k] == window.rows@[k]@);
    lemma_span_holds(models, side, k);
    let span = row_span(models[k], side)->0;
    let tokens = match side {
        DiffSide::Old => old_side.tokens@,
        DiffSide::New => new_side.tokens@,
    };
    let range = bytes_of_rows(models, side);
    assert(span.0 <= byte < span.1);
    assert(range is Some);
    lemma_tokens_are_there(tokens, side, range, t);
    let shown = match side {
        DiffSide::Old => window.old_tokens@,
        DiffSide::New => window.new_tokens@,
    };
    let within = tokens_within(tokens, side, range);
    let j = choose|j: int|
        0 <= j < within.len() && (#[trigger] within[j]).start_byte == tokens[t].start_byte
            && within[j].end_byte == tokens[t].end_byte && within[j].class
            == crate::presentation::class_chars(tokens[t].class);
    assert(token_models(shown)[j] == shown[j]@);
    assert(shown[j].start_byte == tokens[t].start_byte);
}

/// Text is told to be highlighted where both sides are; else the window tells
/// how each side went.
pub proof fn law_plain_text_is_told_with_its_reason(
    request: PresentationRequest,
    document: ReviewDiffDocument,
    presentation: CachedCanonicalPresentation,
    annotations: Vec<Annotation>,
    old_side: HighlightResult,
    new_side: HighlightResult,
    window: PresentationWindow,
)
    requires
        call_ensures(
            canonical_window,
            (&request, &document, &presentation, &annotations, &old_side, &new_side),
            window,
        ),
    ensures
        window.highlight_status@ == "highlighted"@ <==> old_side.highlighted
            && new_side.highlighted,
        window.highlight_reason is None <==> old_side.highlighted && new_side.highlighted,
        window.highlight_reason matches Some(reason) ==> reason@ == "old="@ + old_side.status@
            + "; new="@ + new_side.status@,
{
    reveal_strlit("highlighted");
    reveal_strlit("plain_text");
    assert("highlighted"@[0] == 'h');
    assert("plain_text"@[0] == 'p');
    assert(opt_text(window.highlight_reason) == highlight_summary(old_side, new_side).1);
}

/// Whether some row of some hunk shows two lines side by side.
pub open spec fn shows_pair(document: ReviewDiffDocument, old_line: u32, new_line: u32) -> bool {
    exists|h: int, k: int|
        #![trigger document.hunks@[h].split_rows@[k]]
        0 <= h < document.hunks@.len() && 0 <= k < document.hunks@[h].split_rows@.len()
            && document.hunks@[h].split_rows@[k].old is Some
            && document.hunks@[h].split_rows@[k].new is Some
            && document.hunks@[h].split_rows@[k].old->0.line_number == old_line
            && document.hunks@[h].split_rows@[k].new->0.line_number == new_line
}

/// A pair of lines as seen from a side.
pub open spec fn seen_from(side: DiffSide, old_line: u32, new_line: u32) -> (u32, u32) {
    match side {
        DiffSide::Old => (old_line, new_line),
        DiffSide::New => (new_line, old_line),
    }
}

proof fn lemma_row_pairs(rows: Seq<SplitRow>, source: DiffSide, k: int)
    requires
        0 <= k < rows.len(),
        row_pair(rows[k], source) is Some,
    ensures
        row_pairs(rows, source).contains(row_pair(rows[k], source)->0),
    decreases rows.len(),
{
    let earlier = row_pairs(rows.drop_last(), source);
    let all = row_pairs(rows, source);
    let pair = row_pair(rows[k], source)->0;
    if k == rows.len() - 1 {
        assert(all[all.len() - 1] == pair);
    } else {
        lemma_row_pairs(rows.drop_last(), source, k);
        let j = choose|j: int| 0 <= j < earlier.len() && earlier[j] == pair;
        assert(all[j] == pair);
    }
}

proof fn lemma_pairs_of_rows(rows: Seq<SplitRow>, source: DiffSide, j: int)
    requires
        0 <= j < row_pairs(rows, source).len(),
    ensures
        exists|k: int|
            0 <= k < rows.len() && row_pair(#[trigger] rows[k], source) == Some(
                row_pairs(rows, source)[j],
            ),
    decreases rows.len(),
{
    let earlier = row_pairs(rows.drop_last(), source);
    let all = row_pairs(rows, source);
    if j < earlier.len() {
        lemma_pairs_of_rows(rows.drop_last(), source, j);
        let k = choose|k: int|
            0 <= k < rows.drop_last().len() && row_pair(
                #[trigger] rows.drop_last()[k],
                source,
            ) == Some(earlier[j]);
        assert(rows[k] == rows.drop_last()[k]);
    } else {
        assert(rows[rows.len() - 1] == rows.last());
    }
}

proof fn lemma_hunk_pairs(document: ReviewDiffDocument, source: DiffSide, count: nat, h: int, k: int)
    requires
        0 <= h < count <= document.hunks@.len(),
        0 <= k < document.hunks@[h].split_rows@.len(),
        row_pair(document.hunks@[h].split_rows@[k], source) is Some,
    ensures
        hunk_pairs(document.hunks@, source, count).contains(
            row_pair(document.hunks@[h].split_rows@[k], source)->0,
        ),
    decreases count,
{
    let earlier = hunk_pairs(document.hunks@, source, (count - 1) as nat);
    let own = row_pairs(document.hunks@[count - 1].split_rows@, source);
    let all = hunk_pairs(document.hunks@, source, count);
    let pair = row_pair(document.hunks@[h].split_rows@[k], source)->0;
    assert(all == earlier + own);
    if h == count - 1 {
        lemma_row_pairs(document.hunks@[h].split_rows@, source, k);
        let j = choose|j: int| 0 <= j < own.len() && own[j] == pair;
        assert(all[earlier.len() + j] == pair);
    } else {
        lemma_hunk_pairs(document, source, (count - 1) as nat, h, k);
        let j = choose|j: int| 0 <= j < earlier.len() && earlier[j] == pair;
        assert(all[j] == pair);
    }
}

proof fn lemma_pairs_of_hunks(document: ReviewDiffDocument, source: DiffSide, count: nat, j: int)
    requires
        count <= document.hunks@.len(),
        0 <= j < hunk_pairs(document.hunks@, source, count).len(),
    ensures
        exists|a: u32, b: u32| #[trigger]
            seen_from(source, a, b) == hunk_pairs(document.hunks@, source, count)[j] && shows_pair(
                document,
                a,
                b,
            ),
    decreases count,
{
    let earlier = hunk_pairs(document.hunks@, source, (count - 1) as nat);
    let all = hunk_pairs(document.hunks@, source, count);
    if j < earlier.len() {
        lemma_pairs_of_hunks(document, source, (count - 1) as nat, j);
        assert(all[j] == earlier[j]);
    } else {
        let rows = document.hunks@[count - 1].split_rows@;
        lemma_pairs_of_rows(rows, source, j - earlier.len());
        let k = choose|k: int|
            0 <= k < rows.len() && row_pair(#[trigger] rows[k], source) == Some(
                row_pairs(rows, source)[j - earlier.len()],
            );
        let a = rows[k].old->0.line_number;
        let b = rows[k].new->0.line_number;
        assert(document.hunks@[count - 1].split_rows@[k] == rows[k]);
        assert(seen_from(source, a, b) == all[j]);
        assert(shows_pair(document, a, b));
    }
}

proof fn lemma_exact_target(pairs: Seq<(u32, u32)>, line: u32, target: u32)
    requires
        pairs.contains((line, target)),
        forall|j: int| 0 <= j < pairs.len() && (#[trigger] pairs[j]).0 == line ==> pairs[j].1 == target,
    ensures
        exact_target(pairs, line) == Some(target),
    decreases pairs.len(),
{
    let j = choose|j: int| 0 <= j < pairs.len() && pairs[j] == (line, target);
    let shorter = pairs.drop_last();
    assert forall|i: int| 0 <= i < shorter.len() && (#[trigger] shorter[i]).0 == line implies shorter[i].1
        == target by {
        assert(pairs[i] == shorter[i]);
    }
    if j < shorter.len() {
        assert(shorter[j] == (line, target));
        lemma_exact_target(shorter, line, target);
    } else {
        lemma_target_is_some_pair(shorter, line);
        if exact_target(shorter, line) is Some {
            let i = choose|i: int|
                0 <= i < shorter.len() && (#[trigger] shorter[i]).0 == line && shorter[i].1
                    == exact_target(shorter, line)->0;
            assert(shorter[i].1 == target);
        }
    }
}

proof fn lemma_target_is_some_pair(pairs: Seq<(u32, u32)>, line: u32)
    ensures
        exact_target(pairs, line) matches Some(target) ==> exists|j: int|
            0 <= j < pairs.len() && (#[trigger] pairs[j]).0 == line && pairs[j].1 == target,
    decreases pairs.len(),
{
    if pairs.len() > 0 && exact_target(pairs, line) is Some {
        let shorter = pairs.drop_last();
        lemma_target_is_some_pair(shorter, line);
        let target = exact_target(pairs, line)->0;
        if pairs.last().0 == line && pairs.last().1 == target {
            assert(pairs[pairs.len() - 1].0 == line);
        } else {
            let j = choose|j: int|
                0 <= j < shorter.len() && (#[trigger] shorter[j]).0 == line && shorter[j].1
                    == target;
            assert(pairs[j] == shorter[j]);
        }
    }
}

/// Two lines that stand side by side in a hunk correspond to each other, seen
/// from either side, as long as neither stands beside another line too.
pub proof fn law_lines_side_by_side_correspond(
    document: ReviewDiffDocument,
    old_line: u32,
    new_line: u32,
    source: DiffSide,
    target: DiffSide,
    line: u32,
)
    requires
        source != target,
        shows_pair(document, old_line, new_line),
        1 <= old_line <= document.old.line_count < u32::MAX,
        1 <= new_line <= document.new.line_count < u32::MAX,
        forall|a: u32, b: u32|
            #[trigger] shows_pair(document, a, b) && (a == old_line || b == new_line) ==> a
                == old_line && b == new_line,
        call_ensures(
            aligned_source_line,
            (&document, source, seen_from(source, old_line, new_line).0, target),
            line,
        ),
    ensures
        line == seen_from(source, old_line, new_line).1,
{
    let (from, to) = seen_from(source, old_line, new_line);
    let pairs = known_pairs(document, source, target);
    let hunks = hunk_pairs(document.hunks@, source, document.hunks@.len());
    let (h, k) = choose|h: int, k: int|
        #![trigger document.hunks@[h].split_rows@[k]]
        0 <= h < document.hunks@.len() && 0 <= k < document.hunks@[h].split_rows@.len()
            && document.hunks@[h].split_rows@[k].old is Some
            && document.hunks@[h].split_rows@[k].new is Some
            && document.hunks@[h].split_rows@[k].old->0.line_number == old_line
            && document.hunks@[h].split_rows@[k].new->0.line_number == new_line;
    assert(row_pair(document.hunks@[h].split_rows@[k], source) == Some((from, to)));
    lemma_hunk_pairs(document, source, document.hunks@.len(), h, k);
    let j = choose|j: int| 0 <= j < hunks.len() && hunks[j] == (from, to);
    assert(pairs[j] == (from, to));
    assert forall|i: int| 0 <= i < pairs.len() && (#[trigger] pairs[i]).0 == from implies pairs[i].1
        == to by {
        if i < hunks.len() {
            assert(pairs[i] == hunks[i]);
            lemma_pairs_of_hunks(document, source, document.hunks@.len(), i);
            let (a, b) = choose|a: u32, b: u32| #[trigger]
                seen_from(source, a, b) == hunks[i] && shows_pair(document, a, b);
            assert(shows_pair(document, a, b));
        } else if i == hunks.len() {
            assert(pairs[i].0 == 0);
        } else {
            assert(pairs[i].0 == side_source(document, source).line_count + 1);
        }
    }
    lemma_exact_target(pairs, from, to);
}

proof fn lemma_pair_below(pairs: Seq<(u32, u32)>, line: u32)
    ensures
        match pair_below(pairs, line) {
            Some(best) => pairs.contains(best) && best.0 < line && forall|j: int|
                0 <= j < pairs.len() && (#[trigger] pairs[j]).0 < line ==> !pair_before(
                    best,
                    pairs[j],
                ),
            None => forall|j: int| 0 <= j < pairs.len() ==> (#[trigger] pairs[j]).0 >= line,
        },
    decreases pairs.len(),
{
    if pairs.len() > 0 {
        let shorter = pairs.drop_last();
        lemma_pair_below(shorter, line);
        assert forall|j: int| 0 <= j < shorter.len() implies shorter[j] == #[trigger] pairs[j] by {}
        assert(pairs[pairs.len() - 1] == pairs.last());
        if pair_below(shorter, line) is Some {
            let best = pair_below(shorter, line)->0;
            let j = choose|j: int| 0 <= j < shorter.len() && shorter[j] == best;
            assert(pairs[j] == best);
        }
    }
}

proof fn lemma_pair_above(pairs: Seq<(u32, u32)>, line: u32)
    ensures
        match pair_above(pairs, line) {
            Some(best) => pairs.contains(best) && best.0 > line,
            None => forall|j: int| 0 <= j < pairs.len() ==> (#[trigger] pairs[j]).0 <= line,
        },
    decreases pairs.len(),
{
    if pairs.len() > 0 {
        let shorter = pairs.drop_last();
        lemma_pair_above(shorter, line);
        assert forall|j: int| 0 <= j < shorter.len() implies shorter[j] == #[trigger] pairs[j] by {}
        assert(pairs[pairs.len() - 1] == pairs.last());
        if pair_above(shorter, line) is Some {
            let best = pair_above(shorter, line)->0;
            let j = choose|j: int| 0 <= j < shorter.len() && shorter[j] == best;
            assert(pairs[j] == best);
        }
    }
}

/// A line that stands next to none corresponds to the line at the same distance
/// from the last pair above it, or from the beginning, as long as the next pair
/// below leaves room for it.
pub proof fn law_lines_between_pairs_keep_their_distance(
    document: ReviewDiffDocument,
    source: DiffSide,
    target: DiffSide,
    asked: u32,
    line: u32,
    above: (u32, u32),
)
    requires
        source != target,
        call_ensures(aligned_source_line, (&document, source, asked, target), line),
        1 <= asked <= side_source(document, source).line_count < u32::MAX,
        side_source(document, target).line_count < u32::MAX,
        above == (0u32, 0u32) || exists|a: u32, b: u32|
            #[trigger] shows_pair(document, a, b) && seen_from(source, a, b) == above,
        above.0 < asked,
        forall|a: u32, b: u32| #[trigger]
            shows_pair(document, a, b) ==> {
                let pair = seen_from(source, a, b);
                &&& pair.0 != asked
                &&& pair.0 < asked ==> pair.0 < above.0 || (pair.0 == above.0 && pair.1 <= above.1)
                &&& pair.0 > asked ==> pair.1 >= above.1 + (asked - above.0)
            },
        above.1 + (asked - above.0) <= side_source(document, target).line_count,
    ensures
        line == above.1 + (asked - above.0),
{
    let pairs = known_pairs(document, source, target);
    let hunks = hunk_pairs(document.hunks@, source, document.hunks@.len());
    let n = hunks.len() as int;
    assert(pairs[n] == (0u32, 0u32));
    assert(pairs[n + 1].0 == side_source(document, source).line_count + 1);
    assert(pairs[n + 1].1 == side_source(document, target).line_count + 1);
    assert(pairs.contains(above)) by {
        if above == (0u32, 0u32) {
            assert(pairs[n] == above);
        } else {
            let (a, b) = choose|a: u32, b: u32|
                #[trigger] shows_pair(document, a, b) && seen_from(source, a, b) == above;
            let (h, k) = choose|h: int, k: int|
                #![trigger document.hunks@[h].split_rows@[k]]
                0 <= h < document.hunks@.len() && 0 <= k < document.hunks@[h].split_rows@.len()
                    && document.hunks@[h].split_rows@[k].old is Some
                    && document.hunks@[h].split_rows@[k].new is Some
                    && document.hunks@[h].split_rows@[k].old->0.line_number == a
                    && document.hunks@[h].split_rows@[k].new->0.line_number == b;
            lemma_hunk_pairs(document, source, document.hunks@.len(), h, k);
            let j = choose|j: int| 0 <= j < hunks.len() && hunks[j] == above;
            assert(pairs[j] == above);
        }
    }
    assert forall|j: int| 0 <= j < pairs.len() implies {
        let pair = #[trigger] pairs[j];
        &&& pair.0 != asked
        &&& pair.0 < asked ==> pair == above || !pair_before(above, pair)
        &&& pair.0 > asked ==> pair.1 >= above.1 + (asked - above.0)
    } by {
        if j < n {
            lemma_pairs_of_hunks(document, source, document.hunks@.len(), j);
            let (a, b) = choose|a: u32, b: u32| #[trigger]
                seen_from(source, a, b) == hunks[j] && shows_pair(document, a, b);
            assert(shows_pair(document, a, b));
            assert(pairs[j] == hunks[j]);
        }
    }
    lemma_target_is_some_pair(pairs, asked);
    lemma_pair_below(pairs, asked);
    lemma_pair_above(pairs, asked);
    let at = choose|j: int| 0 <= j < pairs.len() && pairs[j] == above;
    let best = pair_below(pairs, asked)->0;
    assert(pairs[at].0 < asked);
    assert(!pair_before(best, pairs[at]));
    let where_best = choose|j: int| 0 <= j < pairs.len() && pairs[j] == best;
    assert(pairs[where_best].0 < asked);
    assert(best == above);
    assert(pairs[n + 1].0 > asked);
    let next = pair_above(pairs, asked)->0;
    let where_next = choose|j: int| 0 <= j < pairs.len() && pairs[j] == next;
    assert(pairs[where_next].1 >= above.1 + (asked - above.0));
}

} // verus!
