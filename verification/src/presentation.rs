//! Windows over the presentation of a captured document.
use crate::annotations::{annotation_overlaps, any_covers, Annotation};
use crate::canonical::{
    cells_model, diff_row_from_cells, header_model, header_row, hunk_location_model,
    hunk_presentation, rows_of_hunks, split_kind,
};
use crate::document::{
    row_kind, row_kind_chars, side_chars, side_content, side_name, side_source, DiffCell, DiffSide,
    ReviewDiffDocument, ReviewFileStatus, ReviewHunk, SplitRow, UnifiedRow,
};
use crate::errors::{invalid, DispatchError};
use crate::full_file::{
    aligned, aligned_source_line, block_models, exact_full_file_row, full_file_hunk_locations,
    full_file_omitted_block_views, full_file_projection, full_file_row_view, has_line,
    is_block_view, is_exact_row, is_full_file_location, is_nearest_row, named_view,
    nearest_full_file_row, omitted_blocks, parse_full_file_view, projected_models,
    projected_row_model, projection_of, FullFileView, ProjectedModel,
};
use crate::ids::{parse_comparison_id, parse_review_file_id, parsed_id, ComparisonId, ReviewFileId};
use crate::rows::{
    bounded_window, distances_to, hunk_models, is_diff_mode, is_nearest, min_of,
    nearest_canonical_row, row_byte_range, row_lines, row_models, span_of_rows, validate_diff_mode,
    RowModel,
};
use crate::source_lines::{
    as_offsets, law_line_ranges_cut_whole_lines, law_lines_match_line_starts, line_starts,
    slice_bytes, source_line_offsets, source_line_range, token_overlaps,
};
use crate::text::{opt_text, row_number, text_eq, texts, to_row_number};
use crate::ui_state::{
    blank_state, blocks_problem, check_blocks, set_or, ReviewUiState, UiStateModel,
};
use crate::views::{
    CapturedSourceRange, DiffRowView, FullFileOmittedBlockView, HunkLocationView,
    PresentationLocation, PresentationWindow, SyntaxTokenView,
};
use vstd::prelude::*;
use vstd::string::*;
use vstd::utf8::*;

verus! {

/// A complete presentation of a document.
#[derive(Debug)]
pub struct CachedCanonicalPresentation {
    pub rows: Vec<DiffRowView>,
    pub hunks: Vec<HunkLocationView>,
    pub omitted_blocks: Vec<FullFileOmittedBlockView>,
}

/// The view in which a file is shown in full: the old source of a deleted
/// file, else the requested view.
pub open spec fn shown_view(document: ReviewDiffDocument, requested: FullFileView) -> FullFileView {
    if document.file.status == ReviewFileStatus::Deleted {
        FullFileView::Old
    } else {
        requested
    }
}

/// The view in which a file is shown in full.
pub fn effective_view(document: &ReviewDiffDocument, requested: FullFileView) -> (view: FullFileView)
    ensures
        view == shown_view(*document, requested),
{
    if document.file.status == ReviewFileStatus::Deleted {
        FullFileView::Old
    } else {
        requested
    }
}

/// Whether a presentation is the unified or side-by-side one of a document.
pub open spec fn is_hunk_presentation(
    presentation: CachedCanonicalPresentation,
    document: ReviewDiffDocument,
    split: bool,
    state: UiStateModel,
) -> bool {
    let count = document.hunks@.len();
    &&& row_models(presentation.rows@) == rows_of_hunks(
        document,
        split,
        state.hunk_context_lines,
        count,
    )
    &&& hunk_models(presentation.hunks@) == Seq::new(
        count,
        |i: int| hunk_location_model(document, split, state.hunk_context_lines, i as nat),
    )
    &&& presentation.omitted_blocks@.len() == 0
}

/// The rows of the full-file presentation of a document.
pub open spec fn full_file_models(
    document: ReviewDiffDocument,
    view: FullFileView,
    state: UiStateModel,
) -> Seq<ProjectedModel> {
    projection_of(
        document,
        view,
        state.expanded_full_file_deletion_blocks,
        state.collapsed_full_file_addition_blocks,
    )
}

/// What the full-file presentation shows, row by row.
pub open spec fn full_file_row_models(
    document: ReviewDiffDocument,
    projection: Seq<ProjectedModel>,
) -> Seq<RowModel> {
    projection.map_values(
        |row: ProjectedModel|
            projected_row_model(
                row,
                as_offsets(line_starts(encode_utf8(document.old.content@))),
                as_offsets(line_starts(encode_utf8(document.new.content@))),
            ),
    )
}

/// Whether a presentation is the full-file one of a document.
pub open spec fn is_full_file_presentation(
    presentation: CachedCanonicalPresentation,
    document: ReviewDiffDocument,
    view: FullFileView,
    state: UiStateModel,
) -> bool {
    let projection = full_file_models(document, view, state);
    let blocks = omitted_blocks(document, view);
    &&& row_models(presentation.rows@) == full_file_row_models(document, projection)
    &&& presentation.hunks@.len() == document.hunks@.len()
    &&& forall|i: int|
        0 <= i < presentation.hunks@.len() ==> is_full_file_location(
            (#[trigger] presentation.hunks@[i])@,
            document.hunks@[i],
            view.primary(),
            projection,
        )
    &&& presentation.omitted_blocks@.len() == blocks.len()
    &&& forall|i: int|
        0 <= i < blocks.len() ==> is_block_view(
            (#[trigger] presentation.omitted_blocks@[i])@,
            blocks[i],
            projection,
        )
}

/// Whether a presentation is that of a document in a mode.
pub open spec fn is_canonical(
    presentation: CachedCanonicalPresentation,
    document: ReviewDiffDocument,
    mode: Seq<char>,
    view: FullFileView,
    state: UiStateModel,
) -> bool {
    if mode == "full"@ {
        is_full_file_presentation(presentation, document, shown_view(document, view), state)
    } else {
        is_hunk_presentation(presentation, document, mode == "split"@, state)
    }
}

proof fn lemma_mode_names_differ()
    ensures
        "unified"@ != "split"@,
        "unified"@ != "full"@,
        "split"@ != "full"@,
        "difftastic"@ != "unified"@,
        "difftastic"@ != "split"@,
        "difftastic"@ != "full"@,
{
    reveal_strlit("unified");
    reveal_strlit("split");
    reveal_strlit("full");
    reveal_strlit("difftastic");
    assert("unified"@[0] == 'u');
    assert("split"@[0] == 's');
    assert("full"@[0] == 'f');
    assert("difftastic"@[0] == 'd');
}

fn full_file_presentation(
    document: &ReviewDiffDocument,
    view: FullFileView,
    state: &ReviewUiState,
) -> (presentation: CachedCanonicalPresentation)
    ensures
        is_full_file_presentation(presentation, *document, view, state@),
{
    let old_offsets = source_line_offsets(document.old.content.as_str());
    let new_offsets = source_line_offsets(document.new.content.as_str());
    let (projection, blocks) = full_file_projection(
        document,
        view,
        &state.expanded_full_file_deletion_blocks,
        &state.collapsed_full_file_addition_blocks,
    );
    let ghost models = full_file_models(*document, view, state@);
    let ghost shown = full_file_row_models(*document, models);
    let mut rows: Vec<DiffRowView> = Vec::new();
    let mut i: usize = 0;
    while i < projection.len()
        invariant
            i <= projection.len(),
            models == projected_models(projection@),
            shown == full_file_row_models(*document, models),
            old_offsets@ == as_offsets(line_starts(encode_utf8(document.old.content@))),
            new_offsets@ == as_offsets(line_starts(encode_utf8(document.new.content@))),
            row_models(rows@) =~= shown.take(i as int),
        decreases projection.len() - i,
    {
        let row = full_file_row_view(&projection[i], &old_offsets, &new_offsets);
        assert(row@ == shown[i as int]);
        let ghost before = row_models(rows@);
        let ghost model = row@;
        rows.push(row);
        assert(row_models(rows@) =~= before.push(model));
        i += 1;
    }
    assert(row_models(rows@) =~= shown);
    let hunks = full_file_hunk_locations(document, view.primary_side(), &projection);
    let omitted = full_file_omitted_block_views(&blocks, &projection);
    assert(forall|j: int| 0 <= j < blocks.len() ==> block_models(blocks@)[j] == blocks@[j]@);
    CachedCanonicalPresentation { rows, hunks, omitted_blocks: omitted }
}

/// Builds the complete presentation of a document in a mode.
pub fn build_canonical_presentation(
    document: &ReviewDiffDocument,
    mode: &str,
    full_file_view: FullFileView,
    state: &ReviewUiState,
) -> (result: Result<CachedCanonicalPresentation, DispatchError>)
    ensures
        if mode@ == "unified"@ || mode@ == "split"@ || mode@ == "full"@ {
            result matches Ok(presentation) && is_canonical(
                presentation,
                *document,
                mode@,
                full_file_view,
                state@,
            )
        } else {
            result matches Err(error) && error.is_invalid("unsupported canonical diff mode"@)
        },
{
    proof {
        lemma_mode_names_differ();
    }
    if text_eq(mode, "unified") || text_eq(mode, "split") {
        let split: bool = text_eq(mode, "split");
        let (rows, hunks) = hunk_presentation(document, split, &state.hunk_context_lines);
        Ok(CachedCanonicalPresentation { rows, hunks, omitted_blocks: Vec::new() })
    } else if text_eq(mode, "full") {
        let view = effective_view(document, full_file_view);
        Ok(full_file_presentation(document, view, state))
    } else {
        Err(invalid("unsupported canonical diff mode"))
    }
}

/// The last line that a row stands for, where it shows one line of a side.
pub open spec fn covered_end(row: RowModel, line: u32) -> u32 {
    match row.omitted_end_line {
        Some(end) => end,
        None => line,
    }
}

/// Whether an annotation is about the lines that a row stands for.
pub open spec fn row_is_annotated(
    row: RowModel,
    annotations: Seq<Annotation>,
    document: ReviewDiffDocument,
) -> bool {
    ||| (row.old_line matches Some(line) && any_covers(
        annotations,
        document,
        DiffSide::Old,
        line,
        covered_end(row, line),
    ))
    ||| (row.new_line matches Some(line) && any_covers(
        annotations,
        document,
        DiffSide::New,
        line,
        covered_end(row, line),
    ))
}

/// A row with whether it is annotated.
pub open spec fn marked_row(
    row: RowModel,
    annotations: Seq<Annotation>,
    document: ReviewDiffDocument,
) -> RowModel {
    RowModel { has_annotation: row_is_annotated(row, annotations, document), ..row }
}

/// Rows with whether they are annotated.
pub open spec fn marked_rows(
    rows: Seq<RowModel>,
    annotations: Seq<Annotation>,
    document: ReviewDiffDocument,
) -> Seq<RowModel> {
    rows.map_values(|row: RowModel| marked_row(row, annotations, document))
}

fn row_annotated(
    row: &DiffRowView,
    annotations: &Vec<Annotation>,
    document: &ReviewDiffDocument,
) -> (annotated: bool)
    ensures
        annotated == row_is_annotated(row@, annotations@, *document),
{
    let on_old: bool = match row.old_line {
        Some(line) => annotation_overlaps(
            annotations,
            document,
            DiffSide::Old,
            line,
            match row.omitted_end_line {
                Some(end) => end,
                None => line,
            },
        ),
        None => false,
    };
    let on_new: bool = match row.new_line {
        Some(line) => annotation_overlaps(
            annotations,
            document,
            DiffSide::New,
            line,
            match row.omitted_end_line {
                Some(end) => end,
                None => line,
            },
        ),
        None => false,
    };
    on_old || on_new
}

/// Copies the rows `start..end`, with whether they are annotated.
pub fn annotated_window(
    rows: &Vec<DiffRowView>,
    start: usize,
    end: usize,
    annotations: &Vec<Annotation>,
    document: &ReviewDiffDocument,
) -> (window: Vec<DiffRowView>)
    requires
        start <= end <= rows.len(),
    ensures
        row_models(window@) == marked_rows(
            row_models(rows@).subrange(start as int, end as int),
            annotations@,
            *document,
        ),
{
    let mut window: Vec<DiffRowView> = Vec::new();
    let ghost wanted = marked_rows(
        row_models(rows@).subrange(start as int, end as int),
        annotations@,
        *document,
    );
    let mut i: usize = start;
    while i < end
        invariant
            start <= i <= end <= rows.len(),
            wanted == marked_rows(
                row_models(rows@).subrange(start as int, end as int),
                annotations@,
                *document,
            ),
            row_models(window@) =~= wanted.take(i - start),
        decreases end - i,
    {
        let mut row = rows[i].copy();
        row.has_annotation = row_annotated(&rows[i], annotations, document);
        assert(row@ == wanted[i - start]);
        let ghost before = row_models(window@);
        let ghost model = row@;
        window.push(row);
        assert(row_models(window@) =~= before.push(model));
        i += 1;
    }
    assert(row_models(window@) =~= wanted);
    window
}

/// How a token is shown.
#[derive(Clone, Copy, Debug, PartialEq, Eq, Structural)]
pub enum SyntaxClass {
    Attribute,
    Boolean,
    Comment,
    Constant,
    Constructor,
    Embedded,
    Escape,
    Function,
    Keyword,
    Markup,
    Module,
    Number,
    Operator,
    Property,
    Punctuation,
    StringLiteral,
    Tag,
    TypeName,
    Variable,
}

/// The name of a token class.
pub open spec fn class_chars(class: SyntaxClass) -> Seq<char> {
    match class {
        SyntaxClass::Attribute => "attribute"@,
        SyntaxClass::Boolean => "boolean"@,
        SyntaxClass::Comment => "comment"@,
        SyntaxClass::Constant => "constant"@,
        SyntaxClass::Constructor => "constructor"@,
        SyntaxClass::Embedded => "embedded"@,
        SyntaxClass::Escape => "escape"@,
        SyntaxClass::Function => "function"@,
        SyntaxClass::Keyword => "keyword"@,
        SyntaxClass::Markup => "markup"@,
        SyntaxClass::Module => "module"@,
        SyntaxClass::Number => "number"@,
        SyntaxClass::Operator => "operator"@,
        SyntaxClass::Property => "property"@,
        SyntaxClass::Punctuation => "punctuation"@,
        SyntaxClass::StringLiteral => "string"@,
        SyntaxClass::Tag => "tag"@,
        SyntaxClass::TypeName => "type"@,
        SyntaxClass::Variable => "variable"@,
    }
}

/// The name of a token class.
pub fn syntax_class_name(class: SyntaxClass) -> (name: &'static str)
    ensures
        name@ == class_chars(class),
{
    match class {
        SyntaxClass::Attribute => "attribute",
        SyntaxClass::Boolean => "boolean",
        SyntaxClass::Comment => "comment",
        SyntaxClass::Constant => "constant",
        SyntaxClass::Constructor => "constructor",
        SyntaxClass::Embedded => "embedded",
        SyntaxClass::Escape => "escape",
        SyntaxClass::Function => "function",
        SyntaxClass::Keyword => "keyword",
        SyntaxClass::Markup => "markup",
        SyntaxClass::Module => "module",
        SyntaxClass::Number => "number",
        SyntaxClass::Operator => "operator",
        SyntaxClass::Property => "property",
        SyntaxClass::Punctuation => "punctuation",
        SyntaxClass::StringLiteral => "string",
        SyntaxClass::Tag => "tag",
        SyntaxClass::TypeName => "type",
        SyntaxClass::Variable => "variable",
    }
}

/// A highlighted token of a source.
#[derive(Clone, Copy, Debug, PartialEq, Eq, Structural)]
pub struct HighlightToken {
    pub side: DiffSide,
    pub start_byte: u32,
    pub end_byte: u32,
    pub class: SyntaxClass,
}

/// What a shown token says.
pub struct TokenModel {
    pub start_byte: u32,
    pub end_byte: u32,
    pub class: Seq<char>,
}

impl View for SyntaxTokenView {
    type V = TokenModel;

    open spec fn view(&self) -> TokenModel {
        TokenModel { start_byte: self.start_byte, end_byte: self.end_byte, class: self.class@ }
    }
}

/// What the tokens of a list say, in order.
pub open spec fn token_models(tokens: Seq<SyntaxTokenView>) -> Seq<TokenModel> {
    tokens.map_values(|token: SyntaxTokenView| token@)
}

/// The tokens of one side that meet a byte range, in order.
pub open spec fn tokens_within(
    tokens: Seq<HighlightToken>,
    side: DiffSide,
    range: Option<(u32, u32)>,
) -> Seq<TokenModel>
    decreases tokens.len(),
{
    if tokens.len() == 0 {
        Seq::empty()
    } else {
        let earlier = tokens_within(tokens.drop_last(), side, range);
        let token = tokens.last();
        if token.side == side && (range matches Some(bounds) && token.end_byte > bounds.0
            && token.start_byte < bounds.1) {
            earlier.push(
                TokenModel {
                    start_byte: token.start_byte,
                    end_byte: token.end_byte,
                    class: class_chars(token.class),
                },
            )
        } else {
            earlier
        }
    }
}

/// The source bytes that rows cover on one side.
pub open spec fn bytes_of_rows(rows: Seq<RowModel>, side: DiffSide) -> Option<(u32, u32)> {
    let span = span_of_rows(rows, side);
    if span.0 != u32::MAX {
        Some(span)
    } else {
        None
    }
}

/// Picks the tokens of one side that some rows show.
pub fn visible_tokens(tokens: &Vec<HighlightToken>, rows: &Vec<DiffRowView>, side: DiffSide) -> (visible:
    Vec<SyntaxTokenView>)
    ensures
        token_models(visible@) == tokens_within(
            tokens@,
            side,
            bytes_of_rows(row_models(rows@), side),
        ),
{
    let range: Option<(u32, u32)> = row_byte_range(rows, side);
    let mut visible: Vec<SyntaxTokenView> = Vec::new();
    let mut i: usize = 0;
    assert(token_models(visible@) =~= Seq::<TokenModel>::empty());
    while i < tokens.len()
        invariant
            i <= tokens.len(),
            token_models(visible@) == tokens_within(tokens@.take(i as int), side, range),
        decreases tokens.len() - i,
    {
        let token: HighlightToken = tokens[i];
        assert(tokens@.take(i + 1).drop_last() =~= tokens@.take(i as int));
        if token.side == side && token_overlaps(token.start_byte, token.end_byte, range) {
            let shown = SyntaxTokenView {
                start_byte: token.start_byte,
                end_byte: token.end_byte,
                class: syntax_class_name(token.class).to_owned(),
            };
            let ghost before = token_models(visible@);
            let ghost model = shown@;
            visible.push(shown);
            assert(token_models(visible@) =~= before.push(model));
        }
        i += 1;
    }
    assert(tokens@.take(tokens.len() as int) =~= tokens@);
    visible
}

/// What came of highlighting one side: its tokens, and how it went.
#[derive(Debug)]
pub struct HighlightResult {
    pub tokens: Vec<HighlightToken>,
    pub highlighted: bool,
    pub status: String,
}

/// How highlighting both sides went, and why not all of it.
pub open spec fn highlight_summary(old_side: HighlightResult, new_side: HighlightResult) -> (
    Seq<char>,
    Option<Seq<char>>,
) {
    if old_side.highlighted && new_side.highlighted {
        ("highlighted"@, None)
    } else {
        (
            "plain_text"@,
            Some("old="@ + old_side.status@ + "; new="@ + new_side.status@),
        )
    }
}

fn summarize_highlight(old_side: &HighlightResult, new_side: &HighlightResult) -> (summary: (
    String,
    Option<String>,
))
    ensures
        (summary.0@, opt_text(summary.1)) == highlight_summary(*old_side, *new_side),
{
    if old_side.highlighted && new_side.highlighted {
        ("highlighted".to_owned(), None)
    } else {
        let mut reason = "old=".to_owned();
        reason.append(old_side.status.as_str());
        reason.append("; new=");
        reason.append(new_side.status.as_str());
        ("plain_text".to_owned(), Some(reason))
    }
}

/// A request for a window. Of the split ratio it is only told whether the
/// given number is acceptable.
#[derive(Debug)]
pub struct PresentationRequest {
    pub file_id: String,
    pub comparison_id: Option<String>,
    pub mode: String,
    pub start_row: u32,
    pub end_row: u32,
    pub generation: u64,
    pub full_file_side: Option<String>,
    pub split_ratio_accepted: Option<bool>,
    pub ephemeral_expanded_full_file_deletion_blocks: Option<Vec<String>>,
    pub ephemeral_collapsed_full_file_addition_blocks: Option<Vec<String>>,
}

/// What a request asks for.
#[derive(Clone, Copy, Debug, PartialEq, Eq, Structural)]
pub struct PresentationTarget {
    pub file_id: ReviewFileId,
    pub comparison_id: Option<ComparisonId>,
    pub view: FullFileView,
}

/// Why a request is refused before its file is looked up; `None` where it is
/// not.
pub open spec fn request_problem(request: PresentationRequest) -> Option<Seq<char>> {
    if parsed_id(request.file_id@) is None {
        Some("presentation fileId is invalid"@)
    } else if request.comparison_id matches Some(value) && parsed_id(value@) is None {
        Some("presentation comparisonId is invalid"@)
    } else if !is_diff_mode(request.mode@) {
        Some("unsupported diff mode"@)
    } else if request.full_file_side matches Some(value) && named_view(value@) is None {
        Some("fullFileSide must be old, new, or both"@)
    } else if request.split_ratio_accepted == Some(false) {
        Some("split ratio must be between 0.25 and 0.75"@)
    } else {
        None
    }
}

/// The view that a request names; both sources where it names none.
pub open spec fn requested_view(side: Option<String>) -> FullFileView {
    match side {
        Some(value) => match named_view(value@) {
            Some(view) => view,
            None => FullFileView::Both,
        },
        None => FullFileView::Both,
    }
}

/// Checks a request, and tells what it asks for.
pub fn check_presentation_request(request: &PresentationRequest) -> (result: Result<
    PresentationTarget,
    DispatchError,
>)
    ensures
        match request_problem(*request) {
            Some(text) => result matches Err(error) && error.is_invalid(text),
            None => result matches Ok(target) && {
                &&& Some(target.file_id.0) == parsed_id(request.file_id@)
                &&& target.comparison_id == (match request.comparison_id {
                    Some(value) => Some(ComparisonId(parsed_id(value@)->0)),
                    None => None,
                })
                &&& target.view == requested_view(request.full_file_side)
            },
        },
{
    let file_id = match parse_review_file_id(request.file_id.as_str()) {
        Some(file_id) => file_id,
        None => {
            return Err(invalid("presentation fileId is invalid"));
        },
    };
    let comparison_id = match &request.comparison_id {
        Some(value) => match parse_comparison_id(value.as_str()) {
            Some(id) => Some(id),
            None => {
                return Err(invalid("presentation comparisonId is invalid"));
            },
        },
        None => None,
    };
    match validate_diff_mode(request.mode.as_str()) {
        Ok(_) => {},
        Err(error) => {
            return Err(error);
        },
    }
    let view = match &request.full_file_side {
        Some(value) => match parse_full_file_view(value.as_str()) {
            Ok(view) => view,
            Err(error) => {
                return Err(error);
            },
        },
        None => FullFileView::Both,
    };
    match request.split_ratio_accepted {
        Some(accepted) => {
            if !accepted {
                return Err(invalid("split ratio must be between 0.25 and 0.75"));
            }
        },
        None => {},
    }
    Ok(PresentationTarget { file_id, comparison_id, view })
}

/// Why the blocks that a request names are refused; `None` where they are not.
pub open spec fn ephemeral_problem(
    request: PresentationRequest,
    documents: Seq<ReviewDiffDocument>,
) -> Option<Seq<char>> {
    match blocks_problem(
        request.ephemeral_expanded_full_file_deletion_blocks,
        documents,
        "ephemeralExpandedFullFileDeletionBlocks may contain at most 10000 values"@,
        "ephemeralExpandedFullFileDeletionBlocks contains a stale or foreign block"@,
    ) {
        Some(text) => Some(text),
        None => blocks_problem(
            request.ephemeral_collapsed_full_file_addition_blocks,
            documents,
            "ephemeralCollapsedFullFileAdditionBlocks may contain at most 10000 values"@,
            "ephemeralCollapsedFullFileAdditionBlocks contains a stale or foreign block"@,
        ),
    }
}

/// What is shown of a remembered state when a request names its own blocks.
pub open spec fn with_ephemeral(state: UiStateModel, request: PresentationRequest) -> UiStateModel {
    UiStateModel {
        expanded_full_file_deletion_blocks: set_or(
            request.ephemeral_expanded_full_file_deletion_blocks,
            state.expanded_full_file_deletion_blocks,
        ),
        collapsed_full_file_addition_blocks: set_or(
            request.ephemeral_collapsed_full_file_addition_blocks,
            state.collapsed_full_file_addition_blocks,
        ),
        ..state
    }
}

/// The state with which a request is shown: its own blocks stand in for the
/// remembered ones. Nothing of that is remembered.
pub fn ephemeral_state(
    state: ReviewUiState,
    request: &PresentationRequest,
    documents: &Vec<ReviewDiffDocument>,
) -> (result: Result<ReviewUiState, DispatchError>)
    requires
        state.wf(),
    ensures
        match ephemeral_problem(*request, documents@) {
            Some(text) => result matches Err(error) && error.is_invalid(text),
            None => result matches Ok(shown) && shown.wf() && shown@ == with_ephemeral(
                state@,
                *request,
            ),
        },
{
    let mut shown = state;
    match check_blocks(
        &request.ephemeral_expanded_full_file_deletion_blocks,
        documents,
        "ephemeralExpandedFullFileDeletionBlocks may contain at most 10000 values",
        "ephemeralExpandedFullFileDeletionBlocks contains a stale or foreign block",
    ) {
        Ok(Some(set)) => {
            shown.expanded_full_file_deletion_blocks = set;
        },
        Ok(None) => {},
        Err(error) => {
            return Err(error);
        },
    }
    match check_blocks(
        &request.ephemeral_collapsed_full_file_addition_blocks,
        documents,
        "ephemeralCollapsedFullFileAdditionBlocks may contain at most 10000 values",
        "ephemeralCollapsedFullFileAdditionBlocks contains a stale or foreign block",
    ) {
        Ok(Some(set)) => {
            shown.collapsed_full_file_addition_blocks = set;
        },
        Ok(None) => {},
        Err(error) => {
            return Err(error);
        },
    }
    Ok(shown)
}

/// How many rows a window holds at most.
pub const MAX_WINDOW_ROWS: usize = 2048;

/// Where a window over `total` rows starts.
pub open spec fn window_start(request: PresentationRequest, total: nat) -> int {
    min_of(request.start_row as int, total as int)
}

/// Where a window over `total` rows ends.
pub open spec fn window_end(request: PresentationRequest, total: nat, limit: nat) -> int {
    let start = window_start(request, total);
    if request.end_row <= start {
        start
    } else {
        min_of(min_of(request.end_row as int, total as int), start + limit)
    }
}

/// Copies hunk locations.
pub fn copy_hunks(hunks: &Vec<HunkLocationView>) -> (copy: Vec<HunkLocationView>)
    ensures
        copy@ == hunks@,
{
    let mut copy: Vec<HunkLocationView> = Vec::new();
    let mut i: usize = 0;
    while i < hunks.len()
        invariant
            i <= hunks.len(),
            copy@ =~= hunks@.take(i as int),
        decreases hunks.len() - i,
    {
        copy.push(hunks[i].copy());
        i += 1;
    }
    assert(copy@ =~= hunks@);
    copy
}

/// Copies foldable blocks.
pub fn copy_blocks(blocks: &Vec<FullFileOmittedBlockView>) -> (copy: Vec<FullFileOmittedBlockView>)
    ensures
        copy@ == blocks@,
{
    let mut copy: Vec<FullFileOmittedBlockView> = Vec::new();
    let mut i: usize = 0;
    while i < blocks.len()
        invariant
            i <= blocks.len(),
            copy@ =~= blocks@.take(i as int),
        decreases blocks.len() - i,
    {
        copy.push(blocks[i].copy());
        i += 1;
    }
    assert(copy@ =~= blocks@);
    copy
}

/// Whether a window shows the part of a presentation that a request asks for,
/// with annotations marked and the tokens of the shown rows.
pub open spec fn is_canonical_window(
    window: PresentationWindow,
    request: PresentationRequest,
    document: ReviewDiffDocument,
    presentation: CachedCanonicalPresentation,
    annotations: Seq<Annotation>,
    old_side: HighlightResult,
    new_side: HighlightResult,
) -> bool {
    let total = presentation.rows@.len();
    let start = window_start(request, total);
    let end = window_end(request, total, MAX_WINDOW_ROWS as nat);
    let rows = marked_rows(
        row_models(presentation.rows@).subrange(start, end),
        annotations,
        document,
    );
    let summary = highlight_summary(old_side, new_side);
    &&& window.generation == request.generation
    &&& window.mode@ == request.mode@
    &&& window.file_id@ == request.file_id@
    &&& window.start_row == row_number(start as nat)
    &&& window.total_rows == row_number(total)
    &&& row_models(window.rows@) == rows
    &&& window.hunks@ == presentation.hunks@
    &&& window.omitted_blocks@ == presentation.omitted_blocks@
    &&& token_models(window.old_tokens@) == tokens_within(
        old_side.tokens@,
        DiffSide::Old,
        bytes_of_rows(rows, DiffSide::Old),
    )
    &&& token_models(window.new_tokens@) == tokens_within(
        new_side.tokens@,
        DiffSide::New,
        bytes_of_rows(rows, DiffSide::New),
    )
    &&& window.highlight_status@ == summary.0
    &&& opt_text(window.highlight_reason) == summary.1
    &&& window.difftastic is None
}

/// Highlighting changes no row: whatever the highlighter found, the same
/// request shows the same rows, hunks and blocks at the same place.
pub proof fn law_highlighting_changes_no_row(
    plain: PresentationWindow,
    coloured: PresentationWindow,
    request: PresentationRequest,
    document: ReviewDiffDocument,
    presentation: CachedCanonicalPresentation,
    annotations: Seq<Annotation>,
    without: (HighlightResult, HighlightResult),
    with: (HighlightResult, HighlightResult),
)
    requires
        is_canonical_window(
            plain,
            request,
            document,
            presentation,
            annotations,
            without.0,
            without.1,
        ),
        is_canonical_window(
            coloured,
            request,
            document,
            presentation,
            annotations,
            with.0,
            with.1,
        ),
    ensures
        row_models(plain.rows@) == row_models(coloured.rows@),
        plain.hunks@ == coloured.hunks@,
        plain.omitted_blocks@ == coloured.omitted_blocks@,
        plain.start_row == coloured.start_row,
        plain.total_rows == coloured.total_rows,
{
}

/// Windows that follow each other show every row between them once and in
/// order, as long as neither asks for more than a window may hold.
pub proof fn law_windows_join(
    upper: PresentationWindow,
    lower: PresentationWindow,
    requests: (PresentationRequest, PresentationRequest),
    document: ReviewDiffDocument,
    presentation: CachedCanonicalPresentation,
    annotations: Seq<Annotation>,
    old_side: HighlightResult,
    new_side: HighlightResult,
)
    requires
        is_canonical_window(
            upper,
            requests.0,
            document,
            presentation,
            annotations,
            old_side,
            new_side,
        ),
        is_canonical_window(
            lower,
            requests.1,
            document,
            presentation,
            annotations,
            old_side,
            new_side,
        ),
        requests.0.start_row <= requests.0.end_row,
        requests.0.end_row == requests.1.start_row,
        requests.1.start_row <= requests.1.end_row <= presentation.rows@.len(),
        requests.0.end_row - requests.0.start_row <= MAX_WINDOW_ROWS,
        requests.1.end_row - requests.1.start_row <= MAX_WINDOW_ROWS,
    ensures
        row_models(upper.rows@) + row_models(lower.rows@) == marked_rows(
            row_models(presentation.rows@).subrange(
                requests.0.start_row as int,
                requests.1.end_row as int,
            ),
            annotations,
            document,
        ),
{
    let all = row_models(presentation.rows@);
    let first = requests.0.start_row as int;
    let middle = requests.0.end_row as int;
    let last = requests.1.end_row as int;
    assert(all.subrange(first, middle) + all.subrange(middle, last) =~= all.subrange(first, last));
    assert(marked_rows(all.subrange(first, middle), annotations, document) + marked_rows(
        all.subrange(middle, last),
        annotations,
        document,
    ) =~= marked_rows(all.subrange(first, last), annotations, document));
}

/// Builds the window that a request asks for out of the unified, side-by-side
/// or full-file presentation of a document.
pub fn canonical_window(
    request: &PresentationRequest,
    document: &ReviewDiffDocument,
    presentation: &CachedCanonicalPresentation,
    annotations: &Vec<Annotation>,
    old_side: &HighlightResult,
    new_side: &HighlightResult,
) -> (window: PresentationWindow)
    ensures
        is_canonical_window(
            window,
            *request,
            *document,
            *presentation,
            annotations@,
            *old_side,
            *new_side,
        ),
        window.rows@.len() <= MAX_WINDOW_ROWS,
{
    let total: usize = presentation.rows.len();
    let (start, end) = bounded_window(request.start_row, request.end_row, total, MAX_WINDOW_ROWS);
    let rows = annotated_window(&presentation.rows, start, end, annotations, document);
    assert(row_models(rows@).len() == rows@.len());
    let old_tokens = visible_tokens(&old_side.tokens, &rows, DiffSide::Old);
    let new_tokens = visible_tokens(&new_side.tokens, &rows, DiffSide::New);
    let (highlight_status, highlight_reason) = summarize_highlight(old_side, new_side);
    PresentationWindow {
        generation: request.generation,
        mode: request.mode.clone(),
        file_id: request.file_id.clone(),
        start_row: to_row_number(start),
        total_rows: to_row_number(total),
        rows,
        hunks: copy_hunks(&presentation.hunks),
        omitted_blocks: copy_blocks(&presentation.omitted_blocks),
        old_tokens,
        new_tokens,
        highlight_status,
        highlight_reason,
        difftastic: None,
    }
}

/// Refuses a line that a side of a document does not have.
pub fn check_source_line(document: &ReviewDiffDocument, side: DiffSide, line: u32) -> (result: Result<
    (),
    DispatchError,
>)
    ensures
        if line == 0 {
            result matches Err(error) && error.is_invalid("source line must be positive"@)
        } else if line > side_source(*document, side).line_count {
            result matches Err(error) && error.is_invalid(
                "source line is outside the captured snapshot"@,
            )
        } else {
            result == Ok::<(), DispatchError>(())
        },
{
    if line == 0 {
        return Err(invalid("source line must be positive"));
    }
    if line > crate::document::side_line_count(document, side) {
        return Err(invalid("source line is outside the captured snapshot"));
    }
    Ok(())
}

/// Whether `index` is the row of the full-file presentation to go to for a
/// line: the row that shows it or the fold marker behind which it is, or else the row
/// nearest to the corresponding line of the side that the view counts by.
pub open spec fn is_full_file_target(
    index: int,
    document: ReviewDiffDocument,
    view: FullFileView,
    state: UiStateModel,
    side: DiffSide,
    line: u32,
) -> bool {
    let rows = full_file_models(document, view, state);
    if has_line(rows, side, line) {
        is_exact_row(rows, side, line, index)
    } else {
        is_nearest_row(rows, view.primary(), aligned(document, side, line, view.primary()), index)
    }
}

/// Whether an answer says where a line is in the complete full-file
/// presentation that is remembered of a document.
pub open spec fn is_full_file_answer(
    result: Result<PresentationLocation, DispatchError>,
    document: ReviewDiffDocument,
    state: ReviewUiState,
    side: DiffSide,
    line: u32,
) -> bool {
    if document.file.status != ReviewFileStatus::Deleted && (state.full_file_side matches Some(
        value,
    ) && named_view(value@) is None) {
        result matches Err(error) && error.is_invalid("fullFileSide must be old, new, or both"@)
    } else {
        result matches Ok(location) && location.side@ == side_chars(side) && location.line == line
            && exists|index: int| #[trigger]
            is_full_file_target(
                index,
                document,
                shown_view(document, requested_view(state.full_file_side)),
                state@,
                side,
                line,
            ) && location.row_index == row_number(index as nat)
    }
}

/// Finds a line in the complete full-file presentation that is remembered of
/// a document.
pub fn full_file_location(
    document: &ReviewDiffDocument,
    state: &ReviewUiState,
    side: DiffSide,
    line: u32,
) -> (result: Result<PresentationLocation, DispatchError>)
    ensures
        is_full_file_answer(result, *document, *state, side, line),
{
    let requested = if document.file.status == ReviewFileStatus::Deleted {
        FullFileView::Old
    } else {
        match &state.full_file_side {
            Some(value) => match parse_full_file_view(value.as_str()) {
                Ok(view) => view,
                Err(error) => {
                    return Err(error);
                },
            },
            None => FullFileView::Both,
        }
    };
    let view = effective_view(document, requested);
    let (projection, _) = full_file_projection(
        document,
        view,
        &state.expanded_full_file_deletion_blocks,
        &state.collapsed_full_file_addition_blocks,
    );
    let ghost rows = full_file_models(*document, view, state@);
    let index: usize = match exact_full_file_row(&projection, side, line) {
        Some(index) => {
            proof {
                if exists|j: int|
                    0 <= j < rows.len() && crate::full_file::shows_line(
                        #[trigger] rows[j],
                        side,
                        line,
                    ) {
                } else {
                    assert(crate::full_file::gate_holds(rows[index as int], side, line));
                }
                assert(has_line(rows, side, line));
            }
            index
        },
        None => {
            let target = view.primary_side();
            let other: u32 = aligned_source_line(document, side, line, target);
            nearest_full_file_row(&projection, target, other)
        },
    };
    assert(is_full_file_target(
        index as int,
        *document,
        shown_view(*document, requested_view(state.full_file_side)),
        state@,
        side,
        line,
    ));
    Ok(
        PresentationLocation {
            row_index: to_row_number(index),
            side: side_name(side).to_owned(),
            line,
        },
    )
}

/// Whether a location is that of the row that shows a line, or of the one
/// nearest to it, where `lines` are the lines that the rows show.
pub open spec fn is_nearest_location(
    location: PresentationLocation,
    lines: Seq<Option<u32>>,
    side: DiffSide,
    line: u32,
) -> bool {
    &&& location.side@ == side_chars(side)
    &&& location.line == line
    &&& exists|index: int| #[trigger]
        is_nearest(distances_to(lines, line), index) && location.row_index == row_number(
            index as nat,
        )
}

/// Finds a line in the complete unified or side-by-side presentation of a
/// document.
pub fn hunk_row_location(
    presentation: &CachedCanonicalPresentation,
    side: DiffSide,
    line: u32,
) -> (location: PresentationLocation)
    ensures
        is_nearest_location(location, row_lines(presentation.rows@, side), side, line),
{
    let index: usize = nearest_canonical_row(&presentation.rows, side, line);
    PresentationLocation {
        row_index: to_row_number(index),
        side: side_name(side).to_owned(),
        line,
    }
}

/// Refuses lines that cannot be a range.
pub fn check_line_range(start_line: u32, end_line: u32) -> (result: Result<(), DispatchError>)
    ensures
        if start_line == 0 || end_line < start_line {
            result matches Err(error) && error.is_invalid("source line range is invalid"@)
        } else {
            result == Ok::<(), DispatchError>(())
        },
{
    if start_line == 0 || end_line < start_line {
        Err(invalid("source line range is invalid"))
    } else {
        Ok(())
    }
}

/// Cuts a range of lines out of one side of a captured document. A range that
/// goes beyond the source yields nothing, and says so.
pub fn captured_source_range(
    document: &ReviewDiffDocument,
    side: DiffSide,
    start_line: u32,
    end_line: u32,
) -> (result: Result<CapturedSourceRange, DispatchError>)
    requires
        1 <= start_line <= end_line <= crate::canonical::lines_of(
            side_source(*document, side).content@,
        ).len() ==> encode_utf8(side_source(*document, side).content@).len() <= u32::MAX,
    ensures
        ({
            let source = side_source(*document, side).content@;
            if start_line == 0 || end_line < start_line {
                result matches Err(error) && error.is_invalid("source line range is invalid"@)
            } else if end_line > crate::canonical::lines_of(source).len() {
                result matches Ok(range) && range.text@ == Seq::<char>::empty() && !range.complete
            } else {
                result matches Ok(range) && range.complete && range.text@
                    == crate::copies::source_between(source, start_line, end_line)
            }
        }),
{
    match check_line_range(start_line, end_line) {
        Ok(_) => {},
        Err(error) => {
            return Err(error);
        },
    }
    let source = side_content(document, side).as_str();
    let lines = crate::canonical::split_lines(source);
    assert(lines.len() == texts(lines@).len());
    if end_line as usize > lines.len() {
        return Ok(CapturedSourceRange { text: String::new(), complete: false });
    }
    proof {
        assert(source@.len() > 0);
        law_lines_match_line_starts(source@);
    }
    let range = match source_line_range(source, Some(start_line), Some(end_line)) {
        Ok(range) => range,
        Err(error) => {
            return Err(error);
        },
    };
    proof {
        encode_utf8_decode_utf8(source@);
        if encode_utf8(source@).len() == 0 {
            assert(decode_utf8(encode_utf8(source@)).len() == 0);
        }
        law_line_ranges_cut_whole_lines(source@, start_line, end_line);
    }
    Ok(
        CapturedSourceRange {
            text: slice_bytes(source, range.start, range.end).to_owned(),
            complete: true,
        },
    )
}

/// A row of the plain list of a document: the cells of both sides, without
/// their place in the sources, and whether they are annotated.
pub open spec fn listed_row(
    id: Seq<char>,
    kind: Seq<char>,
    hunk_id: Seq<char>,
    old_cell: Option<DiffCell>,
    new_cell: Option<DiffCell>,
    annotations: Seq<Annotation>,
    document: ReviewDiffDocument,
) -> RowModel {
    marked_row(
        RowModel {
            old_source_start_byte: None,
            new_source_start_byte: None,
            ..cells_model(id, kind, hunk_id, old_cell, new_cell, Seq::empty(), Seq::empty())
        },
        annotations,
        document,
    )
}

/// The rows of a hunk in the plain list of a document.
pub open spec fn listed_hunk(
    hunk: ReviewHunk,
    split: bool,
    annotations: Seq<Annotation>,
    document: ReviewDiffDocument,
) -> Seq<RowModel> {
    seq![header_model(hunk)] + if split {
        hunk.split_rows@.map_values(
            |row: SplitRow|
                listed_row(
                    row.id@,
                    split_kind(row),
                    hunk.id@,
                    row.old,
                    row.new,
                    annotations,
                    document,
                ),
        )
    } else {
        hunk.unified_rows@.map_values(
            |row: UnifiedRow|
                listed_row(
                    row.id@,
                    row_kind_chars(row.kind),
                    hunk.id@,
                    row.old,
                    row.new,
                    annotations,
                    document,
                ),
        )
    }
}

/// The rows of the first `count` hunks in the plain list of a document.
pub open spec fn listed_hunks(
    document: ReviewDiffDocument,
    split: bool,
    annotations: Seq<Annotation>,
    count: nat,
) -> Seq<RowModel>
    decreases count,
{
    if count == 0 {
        Seq::empty()
    } else {
        listed_hunks(document, split, annotations, (count - 1) as nat) + listed_hunk(
            document.hunks@[count - 1],
            split,
            annotations,
            document,
        )
    }
}

fn listed_row_view(
    id: &String,
    kind: &str,
    hunk_id: &String,
    old_cell: &Option<DiffCell>,
    new_cell: &Option<DiffCell>,
    annotations: &Vec<Annotation>,
    document: &ReviewDiffDocument,
) -> (row: DiffRowView)
    ensures
        row@ == listed_row(
            id@,
            kind@,
            hunk_id@,
            *old_cell,
            *new_cell,
            annotations@,
            *document,
        ),
{
    let none: Vec<u32> = Vec::new();
    let mut row = diff_row_from_cells(
        id.clone(),
        kind,
        hunk_id.as_str(),
        old_cell,
        new_cell,
        &none,
        &none,
    );
    assert(none@ =~= Seq::<u32>::empty());
    row.old_source_start_byte = None;
    row.new_source_start_byte = None;
    let annotated: bool = row_annotated(&row, annotations, document);
    row.has_annotation = annotated;
    row
}

fn listed_hunk_rows(
    hunk: &ReviewHunk,
    split: bool,
    annotations: &Vec<Annotation>,
    document: &ReviewDiffDocument,
) -> (rows: Vec<DiffRowView>)
    ensures
        row_models(rows@) == listed_hunk(*hunk, split, annotations@, *document),
{
    let ghost wanted = listed_hunk(*hunk, split, annotations@, *document);
    let mut rows: Vec<DiffRowView> = Vec::new();
    rows.push(header_row(hunk));
    assert(row_models(rows@) =~= wanted.take(1));
    let mut i: usize = 0;
    if split {
        while i < hunk.split_rows.len()
            invariant
                i <= hunk.split_rows.len(),
                wanted == listed_hunk(*hunk, true, annotations@, *document),
                row_models(rows@) == wanted.take(i + 1),
            decreases hunk.split_rows.len() - i,
        {
            let row = &hunk.split_rows[i];
            let kind: &str = if row.old.is_none() && row.new.is_some() {
                "addition"
            } else if row.old.is_some() && row.new.is_none() {
                "deletion"
            } else {
                "context"
            };
            let view = listed_row_view(
                &row.id,
                kind,
                &hunk.id,
                &row.old,
                &row.new,
                annotations,
                document,
            );
            assert(view@ == wanted[i + 1]);
            let ghost before = row_models(rows@);
            let ghost model = view@;
            rows.push(view);
            assert(row_models(rows@) =~= before.push(model));
            assert(wanted.take(i + 2) =~= wanted.take(i + 1).push(wanted[i + 1]));
            i += 1;
        }
    } else {
        while i < hunk.unified_rows.len()
            invariant
                i <= hunk.unified_rows.len(),
                wanted == listed_hunk(*hunk, false, annotations@, *document),
                row_models(rows@) == wanted.take(i + 1),
            decreases hunk.unified_rows.len() - i,
        {
            let row = &hunk.unified_rows[i];
            let view = listed_row_view(
                &row.id,
                row_kind(row.kind),
                &hunk.id,
                &row.old,
                &row.new,
                annotations,
                document,
            );
            assert(view@ == wanted[i + 1]);
            let ghost before = row_models(rows@);
            let ghost model = view@;
            rows.push(view);
            assert(row_models(rows@) =~= before.push(model));
            assert(wanted.take(i + 2) =~= wanted.take(i + 1).push(wanted[i + 1]));
            i += 1;
        }
    }
    assert(wanted.take(wanted.len() as int) =~= wanted);
    rows
}

fn listed_document_rows(
    document: &ReviewDiffDocument,
    split: bool,
    annotations: &Vec<Annotation>,
) -> (rows: Vec<DiffRowView>)
    ensures
        row_models(rows@) == listed_hunks(
            *document,
            split,
            annotations@,
            document.hunks@.len(),
        ),
{
    let mut rows: Vec<DiffRowView> = Vec::new();
    let mut i: usize = 0;
    assert(row_models(rows@) =~= Seq::<RowModel>::empty());
    while i < document.hunks.len()
        invariant
            i <= document.hunks.len(),
            row_models(rows@) == listed_hunks(*document, split, annotations@, i as nat),
        decreases document.hunks.len() - i,
    {
        let mut more = listed_hunk_rows(&document.hunks[i], split, annotations, document);
        let ghost before = row_models(rows@);
        let ghost added = row_models(more@);
        rows.append(&mut more);
        assert(row_models(rows@) =~= before + added);
        i += 1;
    }
    rows
}

/// All rows of a document in a mode: its hunks without extra context, or the
/// whole file with additions unfolded and deletions folded.
pub fn document_rows(document: &ReviewDiffDocument, mode: &str, annotations: &Vec<Annotation>) -> (result:
    Result<Vec<DiffRowView>, DispatchError>)
    ensures
        if mode@ == "unified"@ || mode@ == "difftastic"@ || mode@ == "split"@ {
            result matches Ok(rows) && row_models(rows@) == listed_hunks(
                *document,
                mode@ == "split"@,
                annotations@,
                document.hunks@.len(),
            )
        } else if mode@ == "full"@ {
            result matches Ok(rows) && row_models(rows@) == marked_rows(
                full_file_row_models(
                    *document,
                    full_file_models(
                        *document,
                        shown_view(*document, FullFileView::Both),
                        blank_state(),
                    ),
                ),
                annotations@,
                *document,
            )
        } else {
            result matches Err(error) && error.is_invalid("unsupported diff mode"@)
        },
{
    proof {
        lemma_mode_names_differ();
    }
    if text_eq(mode, "unified") || text_eq(mode, "difftastic") {
        Ok(listed_document_rows(document, false, annotations))
    } else if text_eq(mode, "split") {
        Ok(listed_document_rows(document, true, annotations))
    } else if text_eq(mode, "full") {
        let view = effective_view(document, FullFileView::Both);
        let whole = full_file_presentation(document, view, &ReviewUiState::default());
        let rows = annotated_window(&whole.rows, 0, whole.rows.len(), annotations, document);
        assert(row_models(whole.rows@).subrange(0, whole.rows@.len() as int) =~= row_models(
            whole.rows@,
        ));
        Ok(rows)
    } else {
        Err(invalid("unsupported diff mode"))
    }
}

} // verus!
