//! Prompts made of annotations: what goes into them and how they are kept.
use crate::annotations::{annotation_matches_file, is_about, Annotation};
use crate::copies::row_sign;
use crate::document::{
    format_hunk_header, header_chars, DiffCell, DiffLineKind, DiffSide, ReviewDiffDocument,
    ReviewHunk, UnifiedRow,
};
use crate::errors::{invalid, DispatchError};
use crate::ids::{
    id_chars, id_text, parse_annotation_id, parsed_id, AnnotationId, AnnotationSetId,
    PromptExportId, RepositoryId, ReviewSessionId, WorkspaceId,
};
use crate::repositories::{Repository, RepositoryComparison};
use crate::sessions::{ensure_prompt_session_workspace, AnnotationSet, ReviewSession};
use crate::text::{opt_text, text_eq, texts};
use crate::time::Timestamp;
use crate::views::{PromptExportSaveFormat, PromptInput, PromptPreview};
use vstd::prelude::*;
use vstd::string::*;
use vstd::utf8::*;

verus! {

/// Which annotations go into a prompt.
#[derive(Debug)]
pub enum PromptScope {
    AllActionable,
    AllQuestions,
    CommentsAndQuestions,
    Selected(Vec<AnnotationId>),
    FocusedQuestion(AnnotationId),
}

/// What a scope says.
pub enum ScopeModel {
    AllActionable,
    AllQuestions,
    CommentsAndQuestions,
    Selected(Seq<AnnotationId>),
    FocusedQuestion(AnnotationId),
}

impl View for PromptScope {
    type V = ScopeModel;

    open spec fn view(&self) -> ScopeModel {
        match self {
            PromptScope::AllActionable => ScopeModel::AllActionable,
            PromptScope::AllQuestions => ScopeModel::AllQuestions,
            PromptScope::CommentsAndQuestions => ScopeModel::CommentsAndQuestions,
            PromptScope::Selected(ids) => ScopeModel::Selected(ids@),
            PromptScope::FocusedQuestion(id) => ScopeModel::FocusedQuestion(*id),
        }
    }
}

impl PromptScope {
    /// Copies the scope.
    pub fn copy(&self) -> (scope: PromptScope)
        ensures
            scope@ == self@,
    {
        match self {
            PromptScope::AllActionable => PromptScope::AllActionable,
            PromptScope::AllQuestions => PromptScope::AllQuestions,
            PromptScope::CommentsAndQuestions => PromptScope::CommentsAndQuestions,
            PromptScope::Selected(ids) => {
                let mut copied: Vec<AnnotationId> = Vec::new();
                while copied.len() < ids.len()
                    invariant
                        copied.len() <= ids.len(),
                        copied@ =~= ids@.take(copied.len() as int),
                    decreases ids.len() - copied.len(),
                {
                    let next: usize = copied.len();
                    copied.push(ids[next]);
                }
                assert(copied@ =~= ids@);
                PromptScope::Selected(copied)
            },
            PromptScope::FocusedQuestion(id) => PromptScope::FocusedQuestion(*id),
        }
    }
}

/// What a scope and a selection mean, or why they mean nothing.
pub open spec fn named_scope(scope: Seq<char>, selected: Seq<AnnotationId>) -> Result<
    ScopeModel,
    Seq<char>,
> {
    if scope == "feedback"@ {
        Ok(ScopeModel::AllActionable)
    } else if scope == "questions"@ {
        Ok(ScopeModel::AllQuestions)
    } else if scope == "all"@ {
        Ok(ScopeModel::CommentsAndQuestions)
    } else if scope == "selected"@ {
        Ok(ScopeModel::Selected(selected))
    } else if scope == "focused_question"@ {
        if selected.len() == 1 {
            Ok(ScopeModel::FocusedQuestion(selected[0]))
        } else {
            Err("focused_question requires exactly one annotation id"@)
        }
    } else {
        Err("unsupported prompt scope"@)
    }
}

/// Reads a scope.
pub fn prompt_scope(scope: &str, selected: Vec<AnnotationId>) -> (result: Result<
    PromptScope,
    DispatchError,
>)
    ensures
        match named_scope(scope@, selected@) {
            Ok(model) => result matches Ok(found) && found@ == model,
            Err(problem) => result matches Err(error) && error.is_invalid(problem),
        },
{
    if text_eq(scope, "feedback") {
        Ok(PromptScope::AllActionable)
    } else if text_eq(scope, "questions") {
        Ok(PromptScope::AllQuestions)
    } else if text_eq(scope, "all") {
        Ok(PromptScope::CommentsAndQuestions)
    } else if text_eq(scope, "selected") {
        Ok(PromptScope::Selected(selected))
    } else if text_eq(scope, "focused_question") {
        if selected.len() == 1 {
            Ok(PromptScope::FocusedQuestion(selected[0]))
        } else {
            Err(invalid("focused_question requires exactly one annotation id"))
        }
    } else {
        Err(invalid("unsupported prompt scope"))
    }
}

/// How a prompt writes paths.
#[derive(Clone, Copy, Debug, PartialEq, Eq, Structural)]
pub enum PromptPathStyle {
    Portable,
    Qualified,
    Absolute,
}

/// How a prompt writes paths, by name or, without one, by an older choice;
/// `None` where the name is not known.
pub open spec fn named_path_style(style: Option<Seq<char>>, portable: Option<bool>) -> Option<
    PromptPathStyle,
> {
    match style {
        Some(name) => if name == "portable"@ {
            Some(PromptPathStyle::Portable)
        } else if name == "qualified"@ {
            Some(PromptPathStyle::Qualified)
        } else if name == "absolute"@ {
            Some(PromptPathStyle::Absolute)
        } else {
            None
        },
        None => Some(
            match portable {
                Some(true) => PromptPathStyle::Portable,
                Some(false) => PromptPathStyle::Qualified,
                None => PromptPathStyle::Absolute,
            },
        ),
    }
}

/// Reads how a prompt writes paths.
pub fn prompt_path_style(path_style: Option<&str>, legacy_portable: Option<bool>) -> (result: Result<
    PromptPathStyle,
    DispatchError,
>)
    ensures
        match named_path_style(
            match path_style {
                Some(name) => Some(name@),
                None => None,
            },
            legacy_portable,
        ) {
            Some(style) => result == Ok::<PromptPathStyle, DispatchError>(style),
            None => result matches Err(error) && error.is_invalid(
                "prompt path style must be portable, qualified, or absolute"@,
            ),
        },
{
    match path_style {
        Some(name) => {
            if text_eq(name, "portable") {
                Ok(PromptPathStyle::Portable)
            } else if text_eq(name, "qualified") {
                Ok(PromptPathStyle::Qualified)
            } else if text_eq(name, "absolute") {
                Ok(PromptPathStyle::Absolute)
            } else {
                Err(invalid("prompt path style must be portable, qualified, or absolute"))
            }
        },
        None => Ok(
            match legacy_portable {
                Some(true) => PromptPathStyle::Portable,
                Some(false) => PromptPathStyle::Qualified,
                None => PromptPathStyle::Absolute,
            },
        ),
    }
}

/// The first text of a list that is no id.
pub open spec fn first_bad_id(ids: Seq<String>) -> Option<Seq<char>>
    decreases ids.len(),
{
    if ids.len() == 0 {
        None
    } else {
        let before = first_bad_id(ids.drop_last());
        if before is Some {
            before
        } else if parsed_id(ids.last()@) is None {
            Some(ids.last()@)
        } else {
            None
        }
    }
}

proof fn lemma_bad_id_stays(ids: Seq<String>, count: int)
    requires
        0 <= count <= ids.len(),
        first_bad_id(ids.take(count)) is Some,
    ensures
        first_bad_id(ids) == first_bad_id(ids.take(count)),
    decreases ids.len() - count,
{
    if count < ids.len() {
        assert(ids.take(count + 1).drop_last() =~= ids.take(count));
        lemma_bad_id_stays(ids, count + 1);
    } else {
        assert(ids.take(count) =~= ids);
    }
}

/// The ids that texts read as.
pub open spec fn read_ids(ids: Seq<String>) -> Seq<AnnotationId> {
    ids.map_values(|id: String| AnnotationId(parsed_id(id@)->0))
}

/// Reads a list of annotation ids.
pub fn parse_annotation_ids(ids: &Vec<String>) -> (result: Result<Vec<AnnotationId>, DispatchError>)
    ensures
        match first_bad_id(ids@) {
            Some(text) => result matches Err(error) && error.is_invalid(
                "annotation id is invalid: "@ + text,
            ),
            None => result matches Ok(found) && found@ == read_ids(ids@),
        },
{
    let mut found: Vec<AnnotationId> = Vec::new();
    assert(ids@.take(0) =~= Seq::<String>::empty());
    while found.len() < ids.len()
        invariant
            found.len() <= ids.len(),
            first_bad_id(ids@.take(found.len() as int)) is None,
            found@ =~= read_ids(ids@).take(found.len() as int),
        decreases ids.len() - found.len(),
    {
        let next: usize = found.len();
        assert(ids@.take(next + 1).drop_last() =~= ids@.take(next as int));
        match parse_annotation_id(ids[next].as_str()) {
            Some(id) => {
                found.push(id);
            },
            None => {
                proof {
                    lemma_bad_id_stays(ids@, next + 1);
                }
                let mut text = "annotation id is invalid: ".to_owned();
                text.append(ids[next].as_str());
                return Err(DispatchError::Invalid(text));
            },
        }
    }
    assert(ids@.take(ids.len() as int) =~= ids@);
    assert(found@ =~= read_ids(ids@));
    Ok(found)
}

/// Whether some annotation has an id.
pub open spec fn has_annotation_id(annotations: Seq<Annotation>, id: AnnotationId) -> bool {
    exists|i: int| 0 <= i < annotations.len() && (#[trigger] annotations[i]).id == id
}

/// The annotations that a scope names one by one.
pub open spec fn named_ids(scope: ScopeModel) -> Seq<AnnotationId> {
    match scope {
        ScopeModel::Selected(ids) => ids,
        ScopeModel::FocusedQuestion(id) => seq![id],
        _ => Seq::empty(),
    }
}

/// Whether every annotation that a scope names is there.
pub open spec fn scope_is_known(scope: ScopeModel, annotations: Seq<Annotation>) -> bool {
    forall|i: int|
        0 <= i < named_ids(scope).len() ==> has_annotation_id(
            annotations,
            #[trigger] named_ids(scope)[i],
        )
}

fn knows_id(annotations: &Vec<Annotation>, id: AnnotationId) -> (known: bool)
    ensures
        known == has_annotation_id(annotations@, id),
{
    let mut i: usize = 0;
    while i < annotations.len()
        invariant
            i <= annotations.len(),
            forall|j: int| 0 <= j < i ==> (#[trigger] annotations@[j]).id != id,
        decreases annotations.len() - i,
    {
        if annotations[i].id == id {
            return true;
        }
        i += 1;
    }
    false
}

fn knows_scope(scope: &PromptScope, annotations: &Vec<Annotation>) -> (known: bool)
    ensures
        known == scope_is_known(scope@, annotations@),
{
    match scope {
        PromptScope::Selected(ids) => {
            let mut i: usize = 0;
            while i < ids.len()
                invariant
                    i <= ids.len(),
                    scope@ == ScopeModel::Selected(ids@),
                    forall|j: int|
                        0 <= j < i ==> has_annotation_id(annotations@, #[trigger] ids@[j]),
                decreases ids.len() - i,
            {
                if !knows_id(annotations, ids[i]) {
                    assert(!has_annotation_id(annotations@, named_ids(scope@)[i as int]));
                    return false;
                }
                i += 1;
            }
            true
        },
        PromptScope::FocusedQuestion(id) => {
            assert(named_ids(scope@)[0] == *id);
            knows_id(annotations, *id)
        },
        _ => true,
    }
}

/// A prompt that can be rendered: what goes into it, and how.
#[derive(Debug)]
pub struct PreparedPrompt {
    pub scope: PromptScope,
    pub path_style: PromptPathStyle,
    pub include_diff_hunks: bool,
    pub include_git_state: bool,
}

/// The scope of a prompt: the one that is on record, or else the one that is
/// asked for.
pub open spec fn effective_scope(stored: Option<PromptScope>, asked: ScopeModel) -> ScopeModel {
    match stored {
        Some(scope) => scope@,
        None => asked,
    }
}

/// Why a prompt is refused.
pub open spec fn prompt_problem(
    input: PromptInput,
    stored: Option<PromptScope>,
    annotations: Seq<Annotation>,
) -> Option<Seq<char>> {
    match first_bad_id(input.annotation_ids@) {
        Some(text) => Some("annotation id is invalid: "@ + text),
        None => match named_scope(input.scope@, read_ids(input.annotation_ids@)) {
            Err(problem) => Some(problem),
            Ok(asked) => if !scope_is_known(effective_scope(stored, asked), annotations) {
                Some("selected annotation does not belong to this prompt source"@)
            } else if named_path_style(opt_text(input.path_style), input.portable) is None {
                Some("prompt path style must be portable, qualified, or absolute"@)
            } else {
                None
            },
        },
    }
}

/// Works out what goes into a prompt. `stored` is the scope that is on record,
/// if there is one.
pub fn prepare_prompt(
    input: &PromptInput,
    stored: Option<PromptScope>,
    annotations: &Vec<Annotation>,
) -> (result: Result<PreparedPrompt, DispatchError>)
    ensures
        match prompt_problem(*input, stored, annotations@) {
            Some(problem) => result matches Err(error) && error.is_invalid(problem),
            None => result matches Ok(prepared) && {
                &&& prepared.scope@ == effective_scope(
                    stored,
                    named_scope(input.scope@, read_ids(input.annotation_ids@))->Ok_0,
                )
                &&& Some(prepared.path_style) == named_path_style(
                    opt_text(input.path_style),
                    input.portable,
                )
                &&& prepared.include_diff_hunks == (input.include_diff_hunks == Some(true))
                &&& prepared.include_git_state == (input.include_git_state == Some(true))
            },
        },
{
    let selected = match parse_annotation_ids(&input.annotation_ids) {
        Ok(selected) => selected,
        Err(error) => {
            return Err(error);
        },
    };
    let asked = match prompt_scope(input.scope.as_str(), selected) {
        Ok(asked) => asked,
        Err(error) => {
            return Err(error);
        },
    };
    let scope = match stored {
        Some(scope) => scope,
        None => asked,
    };
    if !knows_scope(&scope, annotations) {
        return Err(invalid("selected annotation does not belong to this prompt source"));
    }
    let style: Option<&str> = match &input.path_style {
        Some(name) => Some(name.as_str()),
        None => None,
    };
    let path_style = match prompt_path_style(style, input.portable) {
        Ok(path_style) => path_style,
        Err(error) => {
            return Err(error);
        },
    };
    let include_diff_hunks: bool = match input.include_diff_hunks {
        Some(choice) => choice,
        None => false,
    };
    let include_git_state: bool = match input.include_git_state {
        Some(choice) => choice,
        None => false,
    };
    Ok(PreparedPrompt { scope, path_style, include_diff_hunks, include_git_state })
}

/// Whether a cell shows a line of a range on one side.
pub open spec fn cell_within(cell: Option<DiffCell>, side: DiffSide, start: u32, end: u32) -> bool {
    cell matches Some(shown) && shown.side == side && start <= shown.line_number <= end
}

/// Whether a hunk shows a line of a range on one side.
pub open spec fn hunk_touches(hunk: ReviewHunk, side: DiffSide, start: u32, end: u32) -> bool {
    exists|i: int|
        #![trigger hunk.unified_rows@[i]]
        0 <= i < hunk.unified_rows@.len() && (cell_within(
            hunk.unified_rows@[i].old,
            side,
            start,
            end,
        ) || cell_within(hunk.unified_rows@[i].new, side, start, end))
}

/// The first hunk that shows a line of a range on one side.
pub open spec fn touching_hunk(hunks: Seq<ReviewHunk>, side: DiffSide, start: u32, end: u32) -> Option<
    ReviewHunk,
>
    decreases hunks.len(),
{
    if hunks.len() == 0 {
        None
    } else if hunk_touches(hunks[0], side, start, end) {
        Some(hunks[0])
    } else {
        touching_hunk(hunks.drop_first(), side, start, end)
    }
}

/// The text that a prompt shows of a row: that of the side that its kind is
/// about, and of a context row that of the new side where there is one.
pub open spec fn prompt_row_text(row: UnifiedRow) -> Option<Seq<char>> {
    match row.kind {
        DiffLineKind::Context => match row.new {
            Some(cell) => Some(cell.text@),
            None => match row.old {
                Some(cell) => Some(cell.text@),
                None => None,
            },
        },
        DiffLineKind::Addition => match row.new {
            Some(cell) => Some(cell.text@),
            None => None,
        },
        DiffLineKind::Removal => match row.old {
            Some(cell) => Some(cell.text@),
            None => None,
        },
    }
}

/// The lines that a prompt shows of rows; `None` where a row has no text.
pub open spec fn prompt_lines(rows: Seq<UnifiedRow>) -> Option<Seq<char>>
    decreases rows.len(),
{
    if rows.len() == 0 {
        Some(Seq::empty())
    } else {
        match (prompt_lines(rows.drop_last()), prompt_row_text(rows.last())) {
            (Some(before), Some(text)) => Some(
                before + seq![row_sign(rows.last().kind)] + text + seq!['\n'],
            ),
            _ => None,
        }
    }
}

/// The hunk that a prompt shows with an annotation.
pub open spec fn relevant_hunk(annotation: Annotation, document: ReviewDiffDocument) -> Option<Seq<char>> {
    match annotation.anchor {
        Some(anchor) => match (anchor.side, anchor.start_line, anchor.end_line) {
            (Some(side), Some(start), Some(end)) => match touching_hunk(
                document.hunks@,
                side,
                start,
                end,
            ) {
                Some(hunk) => match prompt_lines(hunk.unified_rows@) {
                    Some(lines) => Some(header_chars(hunk.header) + seq!['\n'] + lines),
                    None => None,
                },
                None => None,
            },
            _ => None,
        },
        None => None,
    }
}

fn is_within(cell: &Option<DiffCell>, side: DiffSide, start: u32, end: u32) -> (within: bool)
    ensures
        within == cell_within(*cell, side, start, end),
{
    match cell {
        Some(shown) => shown.side == side && start <= shown.line_number && shown.line_number <= end,
        None => false,
    }
}

fn touches(hunk: &ReviewHunk, side: DiffSide, start: u32, end: u32) -> (found: bool)
    ensures
        found == hunk_touches(*hunk, side, start, end),
{
    let mut i: usize = 0;
    while i < hunk.unified_rows.len()
        invariant
            i <= hunk.unified_rows.len(),
            forall|j: int|
                #![trigger hunk.unified_rows@[j]]
                0 <= j < i ==> !cell_within(hunk.unified_rows@[j].old, side, start, end)
                    && !cell_within(hunk.unified_rows@[j].new, side, start, end),
        decreases hunk.unified_rows.len() - i,
    {
        let row = &hunk.unified_rows[i];
        if is_within(&row.old, side, start, end) || is_within(&row.new, side, start, end) {
            assert(cell_within(hunk.unified_rows@[i as int].old, side, start, end) || cell_within(
                hunk.unified_rows@[i as int].new,
                side,
                start,
                end,
            ));
            return true;
        }
        i += 1;
    }
    false
}

fn shown_text(row: &UnifiedRow) -> (text: Option<&str>)
    ensures
        match text {
            Some(shown) => prompt_row_text(*row) == Some(shown@),
            None => prompt_row_text(*row) is None,
        },
{
    match row.kind {
        DiffLineKind::Context => match &row.new {
            Some(cell) => Some(cell.text.as_str()),
            None => match &row.old {
                Some(cell) => Some(cell.text.as_str()),
                None => None,
            },
        },
        DiffLineKind::Addition => match &row.new {
            Some(cell) => Some(cell.text.as_str()),
            None => None,
        },
        DiffLineKind::Removal => match &row.old {
            Some(cell) => Some(cell.text.as_str()),
            None => None,
        },
    }
}

proof fn lemma_no_lines_stays(rows: Seq<UnifiedRow>, count: int)
    requires
        0 <= count <= rows.len(),
        prompt_lines(rows.take(count)) is None,
    ensures
        prompt_lines(rows) is None,
    decreases rows.len() - count,
{
    if count < rows.len() {
        assert(rows.take(count + 1).drop_last() =~= rows.take(count));
        lemma_no_lines_stays(rows, count + 1);
    } else {
        assert(rows.take(count) =~= rows);
    }
}

fn render_hunk(hunk: &ReviewHunk) -> (text: Option<String>)
    ensures
        opt_text(text) == match prompt_lines(hunk.unified_rows@) {
            Some(lines) => Some(header_chars(hunk.header) + seq!['\n'] + lines),
            None => None,
        },
{
    let ghost rows = hunk.unified_rows@;
    let mut output = format_hunk_header(hunk);
    output.push('\n');
    let ghost headed = header_chars(hunk.header) + seq!['\n'];
    assert(output@ =~= headed);
    assert(rows.take(0) =~= Seq::<UnifiedRow>::empty());
    assert(headed + Seq::<char>::empty() =~= headed);
    let mut i: usize = 0;
    while i < hunk.unified_rows.len()
        invariant
            i <= hunk.unified_rows.len(),
            rows == hunk.unified_rows@,
            prompt_lines(rows.take(i as int)) matches Some(lines) && output@ == headed + lines,
        decreases hunk.unified_rows.len() - i,
    {
        let row = &hunk.unified_rows[i];
        assert(rows.take(i + 1).drop_last() =~= rows.take(i as int));
        assert(rows.take(i + 1).last() == *row);
        let ghost before = prompt_lines(rows.take(i as int))->0;
        match shown_text(row) {
            Some(text) => {
                output.push(
                    match row.kind {
                        DiffLineKind::Context => ' ',
                        DiffLineKind::Addition => '+',
                        DiffLineKind::Removal => '-',
                    },
                );
                output.append(text);
                output.push('\n');
                assert(output@ =~= headed + (before + seq![row_sign(row.kind)] + text@ + seq![
                    '\n',
                ]));
            },
            None => {
                proof {
                    lemma_no_lines_stays(rows, i + 1);
                }
                return None;
            },
        }
        i += 1;
    }
    assert(rows.take(rows.len() as int) =~= rows);
    Some(output)
}

/// Renders the hunk that a prompt shows with an annotation.
pub fn hunk_for_annotation(annotation: &Annotation, document: &ReviewDiffDocument) -> (text: Option<
    String,
>)
    ensures
        opt_text(text) == relevant_hunk(*annotation, *document),
{
    let anchor = match &annotation.anchor {
        Some(anchor) => anchor,
        None => {
            return None;
        },
    };
    let (side, start, end): (DiffSide, u32, u32) = match (
        anchor.side,
        anchor.start_line,
        anchor.end_line,
    ) {
        (Some(side), Some(start), Some(end)) => (side, start, end),
        _ => {
            return None;
        },
    };
    let ghost hunks = document.hunks@;
    let mut i: usize = 0;
    assert(hunks.skip(0) =~= hunks);
    while i < document.hunks.len()
        invariant
            i <= document.hunks.len(),
            hunks == document.hunks@,
            annotation.anchor == Some(*anchor),
            anchor.side == Some(side),
            anchor.start_line == Some(start),
            anchor.end_line == Some(end),
            touching_hunk(hunks, side, start, end) == touching_hunk(
                hunks.skip(i as int),
                side,
                start,
                end,
            ),
        decreases document.hunks.len() - i,
    {
        assert(hunks.skip(i as int)[0] == hunks[i as int]);
        assert(hunks.skip(i as int).drop_first() =~= hunks.skip(i + 1));
        if touches(&document.hunks[i], side, start, end) {
            return render_hunk(&document.hunks[i]);
        }
        i += 1;
    }
    None
}

/// What a prompt says around an annotation: the repository and the comparison
/// that it belongs to, by position, and the hunk that it is about.
#[derive(Debug)]
pub struct PromptContext {
    pub repository: usize,
    pub comparison: usize,
    pub relevant_hunk: Option<String>,
}

/// The position of the first repository with an id.
pub open spec fn repository_position(repositories: Seq<Repository>, id: RepositoryId) -> Option<int>
    decreases repositories.len(),
{
    if repositories.len() == 0 {
        None
    } else {
        let before = repository_position(repositories.drop_last(), id);
        if before is Some {
            before
        } else if repositories.last().id == id {
            Some(repositories.len() - 1)
        } else {
            None
        }
    }
}

/// The position of the latest comparison of a repository.
pub open spec fn comparison_position(comparisons: Seq<RepositoryComparison>, id: RepositoryId) -> Option<
    int,
>
    decreases comparisons.len(),
{
    if comparisons.len() == 0 {
        None
    } else if comparisons.last().repository_id == id {
        Some(comparisons.len() - 1)
    } else {
        comparison_position(comparisons.drop_last(), id)
    }
}

/// The first document that an annotation is about.
pub open spec fn document_of(annotation: Annotation, documents: Seq<ReviewDiffDocument>) -> Option<
    ReviewDiffDocument,
>
    decreases documents.len(),
{
    if documents.len() == 0 {
        None
    } else if is_about(annotation, documents[0]) {
        Some(documents[0])
    } else {
        document_of(annotation, documents.drop_first())
    }
}

/// Whether a context is that of an annotation. One that is about no place, or
/// about a place of no known repository and comparison, has none.
pub open spec fn is_context(
    context: Option<PromptContext>,
    annotation: Annotation,
    repositories: Seq<Repository>,
    comparisons: Seq<RepositoryComparison>,
    documents: Seq<ReviewDiffDocument>,
) -> bool {
    match annotation.anchor {
        Some(anchor) => match (
            repository_position(repositories, anchor.repository_id),
            comparison_position(comparisons, anchor.repository_id),
        ) {
            (Some(repository), Some(comparison)) => context matches Some(found) && {
                &&& found.repository == repository
                &&& found.comparison == comparison
                &&& opt_text(found.relevant_hunk) == match document_of(annotation, documents) {
                    Some(document) => relevant_hunk(annotation, document),
                    None => None,
                }
            },
            _ => context is None,
        },
        None => context is None,
    }
}

fn find_repository(repositories: &Vec<Repository>, id: RepositoryId) -> (found: Option<usize>)
    ensures
        match repository_position(repositories@, id) {
            Some(position) => found matches Some(place) && place == position,
            None => found is None,
        },
{
    let mut found: Option<usize> = None;
    let mut i: usize = 0;
    assert(repositories@.take(0) =~= Seq::<Repository>::empty());
    while i < repositories.len()
        invariant
            i <= repositories.len(),
            match repository_position(repositories@.take(i as int), id) {
                Some(position) => found matches Some(place) && place == position,
                None => found is None,
            },
        decreases repositories.len() - i,
    {
        assert(repositories@.take(i + 1).drop_last() =~= repositories@.take(i as int));
        if found.is_none() && repositories[i].id == id {
            found = Some(i);
        }
        i += 1;
    }
    assert(repositories@.take(repositories.len() as int) =~= repositories@);
    found
}

pub(crate) fn find_comparison(comparisons: &Vec<RepositoryComparison>, id: RepositoryId) -> (found: Option<usize>)
    ensures
        match comparison_position(comparisons@, id) {
            Some(position) => found matches Some(place) && place == position,
            None => found is None,
        },
{
    let mut i: usize = comparisons.len();
    assert(comparisons@.take(comparisons.len() as int) =~= comparisons@);
    while i > 0
        invariant
            i <= comparisons.len(),
            comparison_position(comparisons@, id) == comparison_position(
                comparisons@.take(i as int),
                id,
            ),
        decreases i,
    {
        assert(comparisons@.take(i as int).drop_last() =~= comparisons@.take(i - 1));
        if comparisons[i - 1].repository_id == id {
            return Some(i - 1);
        }
        i -= 1;
    }
    None
}

/// Finds what a prompt says around an annotation.
pub fn prompt_context(
    annotation: &Annotation,
    repositories: &Vec<Repository>,
    comparisons: &Vec<RepositoryComparison>,
    documents: &Vec<ReviewDiffDocument>,
) -> (context: Option<PromptContext>)
    ensures
        is_context(context, *annotation, repositories@, comparisons@, documents@),
{
    let repository_id: RepositoryId = match &annotation.anchor {
        Some(anchor) => anchor.repository_id,
        None => {
            return None;
        },
    };
    let repository: usize = match find_repository(repositories, repository_id) {
        Some(place) => place,
        None => {
            return None;
        },
    };
    let comparison: usize = match find_comparison(comparisons, repository_id) {
        Some(place) => place,
        None => {
            return None;
        },
    };
    let mut i: usize = 0;
    assert(documents@.skip(0) =~= documents@);
    while i < documents.len()
        invariant
            i <= documents.len(),
            annotation.anchor matches Some(anchor) && anchor.repository_id == repository_id,
            repository_position(repositories@, repository_id) == Some(repository as int),
            comparison_position(comparisons@, repository_id) == Some(comparison as int),
            document_of(*annotation, documents@) == document_of(
                *annotation,
                documents@.skip(i as int),
            ),
        decreases documents.len() - i,
    {
        assert(documents@.skip(i as int)[0] == documents@[i as int]);
        assert(documents@.skip(i as int).drop_first() =~= documents@.skip(i + 1));
        if annotation_matches_file(annotation, &documents[i]) {
            return Some(
                PromptContext {
                    repository,
                    comparison,
                    relevant_hunk: hunk_for_annotation(annotation, &documents[i]),
                },
            );
        }
        i += 1;
    }
    Some(PromptContext { repository, comparison, relevant_hunk: None })
}

/// Finds what a prompt says around each of its annotations.
pub fn prompt_contexts(
    annotations: &Vec<Annotation>,
    repositories: &Vec<Repository>,
    comparisons: &Vec<RepositoryComparison>,
    documents: &Vec<ReviewDiffDocument>,
) -> (contexts: Vec<Option<PromptContext>>)
    ensures
        contexts@.len() == annotations@.len(),
        forall|i: int|
            0 <= i < contexts@.len() ==> is_context(
                #[trigger] contexts@[i],
                annotations@[i],
                repositories@,
                comparisons@,
                documents@,
            ),
{
    let mut contexts: Vec<Option<PromptContext>> = Vec::new();
    let mut i: usize = 0;
    while i < annotations.len()
        invariant
            i <= annotations.len(),
            contexts@.len() == i,
            forall|j: int|
                0 <= j < i ==> is_context(
                    #[trigger] contexts@[j],
                    annotations@[j],
                    repositories@,
                    comparisons@,
                    documents@,
                ),
        decreases annotations.len() - i,
    {
        contexts.push(prompt_context(&annotations[i], repositories, comparisons, documents));
        i += 1;
    }
    contexts
}

/// A prompt on record. One that was made before prompts were kept word for
/// word has no text.
#[derive(Debug)]
pub struct PromptExportRecord {
    pub id: PromptExportId,
    pub review_session_id: ReviewSessionId,
    pub annotation_set_id: AnnotationSetId,
    pub annotation_set_ids: Vec<AnnotationSetId>,
    pub annotation_ids: Vec<AnnotationId>,
    pub scope: PromptScope,
    pub title: Option<String>,
    pub rendered_markdown: Option<String>,
    pub annotation_count: Option<usize>,
    pub estimated_tokens: Option<usize>,
    pub template_version: u32,
    pub created_at: Timestamp,
}

/// The sets of annotations that a prompt was made of.
pub open spec fn source_sets(record: PromptExportRecord) -> Seq<AnnotationSetId> {
    if record.annotation_set_ids@.len() == 0 {
        seq![record.annotation_set_id]
    } else {
        record.annotation_set_ids@
    }
}

/// The sets of annotations that a prompt was made of.
pub fn export_annotation_set_ids(record: &PromptExportRecord) -> (ids: Vec<AnnotationSetId>)
    ensures
        ids@ == source_sets(*record),
{
    let mut ids: Vec<AnnotationSetId> = Vec::new();
    if record.annotation_set_ids.len() == 0 {
        ids.push(record.annotation_set_id);
        assert(ids@ =~= seq![record.annotation_set_id]);
        return ids;
    }
    while ids.len() < record.annotation_set_ids.len()
        invariant
            ids.len() <= record.annotation_set_ids.len(),
            ids@ =~= record.annotation_set_ids@.take(ids.len() as int),
        decreases record.annotation_set_ids.len() - ids.len(),
    {
        ids.push(record.annotation_set_ids[ids.len()]);
    }
    assert(ids@ =~= record.annotation_set_ids@);
    ids
}

/// A quarter of a number, rounded up.
pub open spec fn quarter(length: nat) -> nat {
    if length % 4 == 0 {
        length / 4
    } else {
        length / 4 + 1
    }
}

fn quarter_of(length: usize) -> (count: usize)
    ensures
        count == quarter(length as nat),
{
    if length % 4 == 0 {
        length / 4
    } else {
        length / 4 + 1
    }
}

/// The title of a prompt: its own, or else that of its scope.
pub open spec fn title_of(record: PromptExportRecord, scope_title: Seq<char>) -> Seq<char> {
    match record.title {
        Some(title) => title@,
        None => scope_title,
    }
}

/// How many tokens a prompt has: as many as are on record, or else a quarter
/// of its bytes.
pub open spec fn tokens_of(record: PromptExportRecord, markdown: Seq<char>) -> nat {
    match record.estimated_tokens {
        Some(count) => count as nat,
        None => quarter(encode_utf8(markdown).len()),
    }
}

fn record_title(record: &PromptExportRecord, scope_title: &str) -> (title: String)
    ensures
        title@ == title_of(*record, scope_title@),
{
    match &record.title {
        Some(title) => title.clone(),
        None => scope_title.to_owned(),
    }
}

fn record_tokens(record: &PromptExportRecord, markdown: &str) -> (count: usize)
    ensures
        count == tokens_of(*record, markdown@),
{
    match record.estimated_tokens {
        Some(count) => count,
        None => quarter_of(markdown.as_bytes().len()),
    }
}

/// Shows a prompt that was just rendered. `scope_title` is the title of its
/// scope, and `annotation_count` says how many annotations went into it.
pub fn prompt_preview(
    record: &PromptExportRecord,
    scope_title: &str,
    markdown: String,
    annotation_count: usize,
) -> (preview: PromptPreview)
    ensures
        preview.export_id@ == id_chars(record.id.0),
        preview.title@ == title_of(*record, scope_title@),
        preview.content@ == markdown@,
        preview.annotation_count == match record.annotation_count {
            Some(count) => count,
            None => annotation_count,
        },
        preview.estimated_tokens == tokens_of(*record, markdown@),
{
    let count: usize = match record.annotation_count {
        Some(count) => count,
        None => annotation_count,
    };
    PromptPreview {
        export_id: id_text(record.id.0),
        title: record_title(record, scope_title),
        annotation_count: count,
        estimated_tokens: record_tokens(record, markdown.as_str()),
        content: markdown,
    }
}

/// Whether a preview shows a prompt word for word as it is on record.
pub open spec fn shows_record(preview: PromptPreview, record: PromptExportRecord, scope_title: Seq<char>) -> bool {
    &&& record.rendered_markdown matches Some(markdown) && preview.content@ == markdown@
        && preview.estimated_tokens == tokens_of(record, markdown@)
    &&& preview.export_id@ == id_chars(record.id.0)
    &&& preview.title@ == title_of(record, scope_title)
    &&& preview.annotation_count == match record.annotation_count {
        Some(count) => count as nat,
        None => record.annotation_ids@.len(),
    }
}

/// Shows a prompt that is on record word for word.
pub fn prompt_preview_from_record(record: &PromptExportRecord, scope_title: &str) -> (preview:
    PromptPreview)
    requires
        record.rendered_markdown is Some,
    ensures
        shows_record(preview, *record, scope_title@),
{
    let content = match &record.rendered_markdown {
        Some(markdown) => markdown.clone(),
        None => String::new(),
    };
    let count: usize = match record.annotation_count {
        Some(count) => count,
        None => record.annotation_ids.len(),
    };
    PromptPreview {
        export_id: id_text(record.id.0),
        title: record_title(record, scope_title),
        annotation_count: count,
        estimated_tokens: record_tokens(record, content.as_str()),
        content,
    }
}

/// The position of the set with an id.
pub open spec fn set_position(sets: Seq<AnnotationSet>, id: AnnotationSetId) -> Option<int>
    decreases sets.len(),
{
    if sets.len() == 0 {
        None
    } else {
        let before = set_position(sets.drop_last(), id);
        if before is Some {
            before
        } else if sets.last().id == id {
            Some(sets.len() - 1)
        } else {
            None
        }
    }
}

/// Whether an id is that of a set on record that belongs to a review round.
pub open spec fn is_set_of(
    sets: Seq<AnnotationSet>,
    id: AnnotationSetId,
    session: ReviewSessionId,
) -> bool {
    exists|i: int|
        0 <= i < sets.len() && (#[trigger] sets[i]).id == id && sets[i].review_session_id
            == session
}

proof fn lemma_set_is_found(sets: Seq<AnnotationSet>, id: AnnotationSetId)
    ensures
        set_position(sets, id) matches Some(position) ==> 0 <= position < sets.len()
            && sets[position].id == id,
    decreases sets.len(),
{
    if sets.len() > 0 {
        lemma_set_is_found(sets.drop_last(), id);
    }
}

/// The sets that some ids name, each once, for a review round; or what is
/// wrong with them.
pub enum SetChoice {
    Chosen(Seq<AnnotationSetId>),
    Missing(AnnotationSetId),
    Foreign,
}

/// Goes through some ids of sets.
pub open spec fn choose_sets(ids: Seq<AnnotationSetId>, sets: Seq<AnnotationSet>, session: ReviewSessionId) -> SetChoice
    decreases ids.len(),
{
    if ids.len() == 0 {
        SetChoice::Chosen(Seq::empty())
    } else {
        match choose_sets(ids.drop_last(), sets, session) {
            SetChoice::Chosen(chosen) => if chosen.contains(ids.last()) {
                SetChoice::Chosen(chosen)
            } else {
                match set_position(sets, ids.last()) {
                    None => SetChoice::Missing(ids.last()),
                    Some(position) => if sets[position].review_session_id != session {
                        SetChoice::Foreign
                    } else {
                        SetChoice::Chosen(chosen.push(ids.last()))
                    },
                }
            },
            problem => problem,
        }
    }
}

proof fn lemma_set_problem_stays(
    ids: Seq<AnnotationSetId>,
    sets: Seq<AnnotationSet>,
    session: ReviewSessionId,
    count: int,
)
    requires
        0 <= count <= ids.len(),
        choose_sets(ids.take(count), sets, session) !is Chosen,
    ensures
        choose_sets(ids, sets, session) == choose_sets(ids.take(count), sets, session),
    decreases ids.len() - count,
{
    if count < ids.len() {
        assert(ids.take(count + 1).drop_last() =~= ids.take(count));
        lemma_set_problem_stays(ids, sets, session, count + 1);
    } else {
        assert(ids.take(count) =~= ids);
    }
}

fn find_set(sets: &Vec<AnnotationSet>, id: AnnotationSetId) -> (found: Option<usize>)
    ensures
        match set_position(sets@, id) {
            Some(position) => found matches Some(place) && place == position && place < sets.len(),
            None => found is None,
        },
{
    let mut found: Option<usize> = None;
    let mut i: usize = 0;
    assert(sets@.take(0) =~= Seq::<AnnotationSet>::empty());
    while i < sets.len()
        invariant
            i <= sets.len(),
            match set_position(sets@.take(i as int), id) {
                Some(position) => found matches Some(place) && place == position && place < i,
                None => found is None,
            },
        decreases sets.len() - i,
    {
        assert(sets@.take(i + 1).drop_last() =~= sets@.take(i as int));
        if found.is_none() && sets[i].id == id {
            found = Some(i);
        }
        i += 1;
    }
    assert(sets@.take(sets.len() as int) =~= sets@);
    found
}

fn holds_set(ids: &Vec<AnnotationSetId>, id: AnnotationSetId) -> (found: bool)
    ensures
        found == ids@.contains(id),
{
    let mut i: usize = 0;
    while i < ids.len()
        invariant
            i <= ids.len(),
            forall|j: int| 0 <= j < i ==> #[trigger] ids@[j] != id,
        decreases ids.len() - i,
    {
        if ids[i] == id {
            assert(ids@[i as int] == id);
            return true;
        }
        i += 1;
    }
    false
}

/// Whether a result is what becomes of the ids of sets.
pub open spec fn is_set_choice(
    result: Result<Vec<AnnotationSetId>, DispatchError>,
    ids: Seq<AnnotationSetId>,
    sets: Seq<AnnotationSet>,
    session: ReviewSessionId,
) -> bool {
    if ids.len() == 0 {
        result matches Err(error) && error.is_invalid("prompt export has no source annotation set"@)
    } else {
        match choose_sets(ids, sets, session) {
            SetChoice::Chosen(chosen) => result matches Ok(found) && found@ == chosen,
            SetChoice::Missing(id) => result matches Err(error) && error.is_not_found(
                id_chars(id.0),
            ),
            SetChoice::Foreign => result matches Err(error) && error.is_invalid(
                "prompt annotation set does not belong to its review"@,
            ),
        }
    }
}

/// Picks the sets that a prompt was made of out of those that are on record.
pub fn prompt_sets_for_session(
    session: ReviewSessionId,
    set_ids: &Vec<AnnotationSetId>,
    sets: &Vec<AnnotationSet>,
) -> (result: Result<Vec<AnnotationSetId>, DispatchError>)
    ensures
        is_set_choice(result, set_ids@, sets@, session),
{
    if set_ids.len() == 0 {
        return Err(invalid("prompt export has no source annotation set"));
    }
    let mut chosen: Vec<AnnotationSetId> = Vec::new();
    let mut i: usize = 0;
    assert(set_ids@.take(0) =~= Seq::<AnnotationSetId>::empty());
    while i < set_ids.len()
        invariant
            0 < set_ids.len(),
            i <= set_ids.len(),
            choose_sets(set_ids@.take(i as int), sets@, session) == SetChoice::Chosen(chosen@),
        decreases set_ids.len() - i,
    {
        let id: AnnotationSetId = set_ids[i];
        assert(set_ids@.take(i + 1).drop_last() =~= set_ids@.take(i as int));
        assert(set_ids@.take(i + 1).last() == id);
        if !holds_set(&chosen, id) {
            match find_set(sets, id) {
                None => {
                    proof {
                        lemma_set_problem_stays(set_ids@, sets@, session, i + 1);
                    }
                    return Err(DispatchError::NotFound(id_text(id.0)));
                },
                Some(place) => {
                    if sets[place].review_session_id != session {
                        proof {
                            lemma_set_problem_stays(set_ids@, sets@, session, i + 1);
                        }
                        return Err(invalid("prompt annotation set does not belong to its review"));
                    }
                    chosen.push(id);
                },
            }
        }
        i += 1;
    }
    assert(set_ids@.take(set_ids.len() as int) =~= set_ids@);
    Ok(chosen)
}

/// What was found of the source that a prompt is asked to be made of.
#[derive(Debug)]
pub enum PromptFindings {
    /// The active review and its set of annotations.
    Current { session: Option<ReviewSession>, set: Option<AnnotationSet> },
    /// A set of annotations and the review round that it belongs to.
    Checkpoint { id: AnnotationSetId, set: Option<AnnotationSet>, session: Option<ReviewSession> },
    /// A review round and its sets of annotations.
    Review {
        id: ReviewSessionId,
        session: Option<ReviewSession>,
        sets: Vec<AnnotationSet>,
    },
    /// A prompt on record, the review round that it belongs to, and the sets
    /// of annotations that are on record.
    Export {
        id: PromptExportId,
        record: Option<PromptExportRecord>,
        session: Option<ReviewSession>,
        sets: Vec<AnnotationSet>,
        scope_title: String,
    },
}

/// What a prompt is made of.
#[derive(Debug)]
pub enum PromptSource {
    /// Nothing new: it is on record word for word.
    Stored(PromptPreview),
    /// Sets of annotations of a review round, in the scope that is on record,
    /// if there is one.
    Fresh {
        session: ReviewSessionId,
        sets: Vec<AnnotationSetId>,
        scope: Option<PromptScope>,
    },
}

/// The ids of some sets.
pub open spec fn set_ids_of(sets: Seq<AnnotationSet>) -> Seq<AnnotationSetId> {
    sets.map_values(|set: AnnotationSet| set.id)
}

/// Whether the ids of sets of a review round are what a prompt is made of.
pub open spec fn is_fresh_source(
    source: PromptSource,
    session: ReviewSession,
    sets: Seq<AnnotationSetId>,
    scope: Option<PromptScope>,
) -> bool {
    source matches PromptSource::Fresh { session: id, sets: ids, scope: kept } && {
        &&& id == session.id
        &&& ids@ == sets
        &&& kept == scope
    }
}

/// Whether a result is what a prompt is made of, or why there is none.
pub open spec fn is_prompt_source(
    result: Result<PromptSource, DispatchError>,
    workspace_id: WorkspaceId,
    findings: PromptFindings,
) -> bool {
    match findings {
        PromptFindings::Current { session, set } => match (session, set) {
            (None, _) => result matches Err(error) && error.is_invalid(
                "workspace has no active review"@,
            ),
            (Some(_), None) => result matches Err(error) && error.is_invalid(
                "active review has no annotation set"@,
            ),
            (Some(found), Some(active)) => result matches Ok(source) && is_fresh_source(
                source,
                found,
                seq![active.id],
                None,
            ),
        },
        PromptFindings::Checkpoint { id, set, session } => match (set, session) {
            (None, _) => result matches Err(error) && error.is_not_found(id_chars(id.0)),
            (Some(found), None) => result matches Err(error) && error.is_not_found(
                id_chars(found.review_session_id.0),
            ),
            (Some(found), Some(owner)) => if owner.workspace_id != workspace_id {
                result matches Err(error) && error.is_not_found(id_chars(owner.id.0))
            } else {
                result matches Ok(source) && is_fresh_source(source, owner, seq![found.id], None)
            },
        },
        PromptFindings::Review { id, session, sets } => match session {
            None => result matches Err(error) && error.is_not_found(id_chars(id.0)),
            Some(owner) => if owner.workspace_id != workspace_id {
                result matches Err(error) && error.is_not_found(id_chars(owner.id.0))
            } else if sets@.len() == 0 {
                result matches Err(error) && error.is_invalid(
                    "review has no recoverable annotation sets"@,
                )
            } else {
                result matches Ok(source) && is_fresh_source(
                    source,
                    owner,
                    set_ids_of(sets@),
                    None,
                )
            },
        },
        PromptFindings::Export { id, record, session, sets, scope_title } => match (record, session) {
            (None, _) => result matches Err(error) && error.is_not_found(id_chars(id.0)),
            (Some(found), None) => result matches Err(error) && error.is_not_found(
                id_chars(found.review_session_id.0),
            ),
            (Some(found), Some(owner)) => if owner.workspace_id != workspace_id {
                result matches Err(error) && error.is_not_found(id_chars(owner.id.0))
            } else {
                match choose_sets(source_sets(found), sets@, owner.id) {
                    SetChoice::Missing(missing) => result matches Err(error) && error.is_not_found(
                        id_chars(missing.0),
                    ),
                    SetChoice::Foreign => result matches Err(error) && error.is_invalid(
                        "prompt annotation set does not belong to its review"@,
                    ),
                    SetChoice::Chosen(chosen) => if found.rendered_markdown is Some {
                        result matches Ok(PromptSource::Stored(preview)) && shows_record(
                            preview,
                            found,
                            scope_title@,
                        )
                    } else {
                        result matches Ok(source) && is_fresh_source(
                            source,
                            owner,
                            chosen,
                            Some(found.scope),
                        )
                    },
                }
            },
        },
    }
}

fn ids_of(sets: &Vec<AnnotationSet>) -> (ids: Vec<AnnotationSetId>)
    ensures
        ids@ == set_ids_of(sets@),
{
    let mut ids: Vec<AnnotationSetId> = Vec::new();
    while ids.len() < sets.len()
        invariant
            ids.len() <= sets.len(),
            ids@ =~= set_ids_of(sets@).take(ids.len() as int),
        decreases sets.len() - ids.len(),
    {
        ids.push(sets[ids.len()].id);
    }
    assert(ids@ =~= set_ids_of(sets@));
    ids
}

fn one_set(id: AnnotationSetId) -> (ids: Vec<AnnotationSetId>)
    ensures
        ids@ == seq![id],
{
    let mut ids: Vec<AnnotationSetId> = Vec::new();
    ids.push(id);
    assert(ids@ =~= seq![id]);
    ids
}

/// Works out what a prompt is made of. A prompt that is on record word for
/// word is never rendered again.
pub fn resolve_prompt_source(workspace_id: WorkspaceId, findings: PromptFindings) -> (result: Result<
    PromptSource,
    DispatchError,
>)
    ensures
        is_prompt_source(result, workspace_id, findings),
{
    match findings {
        PromptFindings::Current { session, set } => {
            let found = match session {
                Some(found) => found,
                None => {
                    return Err(invalid("workspace has no active review"));
                },
            };
            match set {
                Some(active) => Ok(
                    PromptSource::Fresh {
                        session: found.id,
                        sets: one_set(active.id),
                        scope: None,
                    },
                ),
                None => Err(invalid("active review has no annotation set")),
            }
        },
        PromptFindings::Checkpoint { id, set, session } => {
            let found = match set {
                Some(found) => found,
                None => {
                    return Err(DispatchError::NotFound(id_text(id.0)));
                },
            };
            let owner = match session {
                Some(owner) => owner,
                None => {
                    return Err(DispatchError::NotFound(id_text(found.review_session_id.0)));
                },
            };
            match ensure_prompt_session_workspace(&owner, workspace_id) {
                Ok(_) => Ok(
                    PromptSource::Fresh { session: owner.id, sets: one_set(found.id), scope: None },
                ),
                Err(error) => Err(error),
            }
        },
        PromptFindings::Review { id, session, sets } => {
            let owner = match session {
                Some(owner) => owner,
                None => {
                    return Err(DispatchError::NotFound(id_text(id.0)));
                },
            };
            match ensure_prompt_session_workspace(&owner, workspace_id) {
                Ok(_) => {},
                Err(error) => {
                    return Err(error);
                },
            }
            if sets.len() == 0 {
                return Err(invalid("review has no recoverable annotation sets"));
            }
            Ok(PromptSource::Fresh { session: owner.id, sets: ids_of(&sets), scope: None })
        },
        PromptFindings::Export { id, record, session, sets, scope_title } => {
            let found = match record {
                Some(found) => found,
                None => {
                    return Err(DispatchError::NotFound(id_text(id.0)));
                },
            };
            let owner = match session {
                Some(owner) => owner,
                None => {
                    return Err(DispatchError::NotFound(id_text(found.review_session_id.0)));
                },
            };
            match ensure_prompt_session_workspace(&owner, workspace_id) {
                Ok(_) => {},
                Err(error) => {
                    return Err(error);
                },
            }
            let wanted = export_annotation_set_ids(&found);
            match prompt_sets_for_session(owner.id, &wanted, &sets) {
                Err(error) => Err(error),
                Ok(chosen) => {
                    if found.rendered_markdown.is_some() {
                        Ok(
                            PromptSource::Stored(
                                prompt_preview_from_record(&found, scope_title.as_str()),
                            ),
                        )
                    } else {
                        Ok(
                            PromptSource::Fresh {
                                session: owner.id,
                                sets: chosen,
                                scope: Some(found.scope),
                            },
                        )
                    }
                },
            }
        },
    }
}

proof fn lemma_first_set_is_chosen(
    ids: Seq<AnnotationSetId>,
    sets: Seq<AnnotationSet>,
    session: ReviewSessionId,
)
    requires
        ids.len() > 0,
        choose_sets(ids, sets, session) is Chosen,
    ensures
        choose_sets(ids, sets, session)->Chosen_0.len() > 0,
    decreases ids.len(),
{
    if ids.len() > 1 {
        assert(choose_sets(ids.drop_last(), sets, session) is Chosen);
        lemma_first_set_is_chosen(ids.drop_last(), sets, session);
    } else {
        assert(ids.drop_last() =~= Seq::<AnnotationSetId>::empty());
        assert(choose_sets(ids.drop_last(), sets, session) == SetChoice::Chosen(Seq::empty()));
    }
}

/// A prompt is always made of at least one set of annotations.
pub proof fn law_prompt_source_has_a_set(
    result: Result<PromptSource, DispatchError>,
    workspace_id: WorkspaceId,
    findings: PromptFindings,
)
    requires
        is_prompt_source(result, workspace_id, findings),
        result is Ok,
        result->Ok_0 is Fresh,
    ensures
        result->Ok_0->sets@.len() > 0,
{
    if let PromptFindings::Export { id, record, session, sets, scope_title } = findings {
        if record is Some && session is Some {
            let wanted = source_sets(record->0);
            assert(wanted.len() > 0);
            if choose_sets(wanted, sets@, session->0.id) is Chosen {
                lemma_first_set_is_chosen(wanted, sets@, session->0.id);
            }
        }
    }
}

proof fn lemma_chosen_sets_belong(
    ids: Seq<AnnotationSetId>,
    sets: Seq<AnnotationSet>,
    session: ReviewSessionId,
)
    requires
        choose_sets(ids, sets, session) is Chosen,
    ensures
        forall|i: int|
            0 <= i < choose_sets(ids, sets, session)->Chosen_0.len() ==> is_set_of(
                sets,
                #[trigger] choose_sets(ids, sets, session)->Chosen_0[i],
                session,
            ),
        choose_sets(ids, sets, session)->Chosen_0.no_duplicates(),
    decreases ids.len(),
{
    if ids.len() > 0 {
        assert(choose_sets(ids.drop_last(), sets, session) is Chosen);
        lemma_chosen_sets_belong(ids.drop_last(), sets, session);
        lemma_set_is_found(sets, ids.last());
    }
}

/// A prompt of the past is made anew only of sets of the review round that it
/// came from, each once, whatever the active review holds; and what is on
/// record word for word is answered with that text.
pub proof fn law_recorded_prompts_keep_their_source(
    result: Result<PromptSource, DispatchError>,
    workspace_id: WorkspaceId,
    id: PromptExportId,
    record: PromptExportRecord,
    session: ReviewSession,
    sets: Vec<AnnotationSet>,
    scope_title: String,
)
    requires
        is_prompt_source(
            result,
            workspace_id,
            PromptFindings::Export {
                id,
                record: Some(record),
                session: Some(session),
                sets,
                scope_title,
            },
        ),
        result is Ok,
    ensures
        session.workspace_id == workspace_id,
        record.rendered_markdown matches Some(markdown) ==> {
            &&& result->Ok_0 is Stored
            &&& result->Ok_0->Stored_0.content@ == markdown@
            &&& result->Ok_0->Stored_0.export_id@ == id_chars(record.id.0)
        },
        record.rendered_markdown is None ==> {
            &&& result->Ok_0 is Fresh
            &&& result->Ok_0->session == session.id
            &&& result->Ok_0->scope == Some(record.scope)
            &&& result->Ok_0->sets@.no_duplicates()
            &&& forall|i: int|
                0 <= i < result->Ok_0->sets@.len() ==> is_set_of(
                    sets@,
                    #[trigger] result->Ok_0->sets@[i],
                    session.id,
                )
        },
{
    if choose_sets(source_sets(record), sets@, session.id) is Chosen {
        lemma_chosen_sets_belong(source_sets(record), sets@, session.id);
    }
}

/// What a prompt on record says, for a file of its own.
#[derive(Debug)]
pub struct PromptExportFile {
    pub schema_version: u8,
    pub export_id: String,
    pub title: String,
    pub annotation_count: usize,
    pub estimated_tokens: usize,
    pub template_version: u32,
    pub scope: PromptScope,
    pub annotation_ids: Vec<String>,
    pub annotation_set_ids: Vec<String>,
    pub rendered_markdown: String,
    pub created_at: String,
}

/// Whether a file says what a prompt on record says.
pub open spec fn is_export_file(file: PromptExportFile, record: PromptExportRecord, scope_title: Seq<char>) -> bool {
    &&& file.schema_version == 1
    &&& file.export_id@ == id_chars(record.id.0)
    &&& file.title@ == title_of(record, scope_title)
    &&& file.annotation_count == match record.annotation_count {
        Some(count) => count as nat,
        None => record.annotation_ids@.len(),
    }
    &&& record.rendered_markdown matches Some(markdown) && file.rendered_markdown@ == markdown@
        && file.estimated_tokens == tokens_of(record, markdown@)
    &&& file.template_version == record.template_version
    &&& file.scope@ == record.scope@
    &&& texts(file.annotation_ids@) == record.annotation_ids@.map_values(
        |id: AnnotationId| id_chars(id.0),
    )
    &&& texts(file.annotation_set_ids@) == source_sets(record).map_values(
        |id: AnnotationSetId| id_chars(id.0),
    )
    &&& file.created_at@ == record.created_at.chars()
}

fn annotation_id_texts(ids: &Vec<AnnotationId>) -> (list: Vec<String>)
    ensures
        texts(list@) == ids@.map_values(|id: AnnotationId| id_chars(id.0)),
{
    let ghost wanted = ids@.map_values(|id: AnnotationId| id_chars(id.0));
    let mut list: Vec<String> = Vec::new();
    while list.len() < ids.len()
        invariant
            list.len() <= ids.len(),
            wanted == ids@.map_values(|id: AnnotationId| id_chars(id.0)),
            texts(list@) =~= wanted.take(list.len() as int),
        decreases ids.len() - list.len(),
    {
        let ghost before = texts(list@);
        let next: usize = list.len();
        list.push(id_text(ids[next].0));
        assert(texts(list@) =~= before.push(wanted[next as int]));
    }
    assert(texts(list@) =~= wanted);
    list
}

fn set_id_texts(ids: &Vec<AnnotationSetId>) -> (list: Vec<String>)
    ensures
        texts(list@) == ids@.map_values(|id: AnnotationSetId| id_chars(id.0)),
{
    let ghost wanted = ids@.map_values(|id: AnnotationSetId| id_chars(id.0));
    let mut list: Vec<String> = Vec::new();
    while list.len() < ids.len()
        invariant
            list.len() <= ids.len(),
            wanted == ids@.map_values(|id: AnnotationSetId| id_chars(id.0)),
            texts(list@) =~= wanted.take(list.len() as int),
        decreases ids.len() - list.len(),
    {
        let ghost before = texts(list@);
        let next: usize = list.len();
        list.push(id_text(ids[next].0));
        assert(texts(list@) =~= before.push(wanted[next as int]));
    }
    assert(texts(list@) =~= wanted);
    list
}

/// Builds the file of a prompt on record; there is none of a prompt without
/// text.
pub fn prompt_export_file(record: &PromptExportRecord, scope_title: &str) -> (result: Result<
    PromptExportFile,
    DispatchError,
>)
    ensures
        match record.rendered_markdown {
            Some(_) => result matches Ok(file) && is_export_file(file, *record, scope_title@),
            None => result == Err::<PromptExportFile, DispatchError>(DispatchError::Internal),
        },
{
    match &record.rendered_markdown {
        Some(markdown) => {
            let count: usize = match record.annotation_count {
                Some(count) => count,
                None => record.annotation_ids.len(),
            };
            let sets = export_annotation_set_ids(record);
            Ok(
                PromptExportFile {
                    schema_version: 1,
                    export_id: id_text(record.id.0),
                    title: record_title(record, scope_title),
                    annotation_count: count,
                    estimated_tokens: record_tokens(record, markdown.as_str()),
                    template_version: record.template_version,
                    scope: record.scope.copy(),
                    annotation_ids: annotation_id_texts(&record.annotation_ids),
                    annotation_set_ids: set_id_texts(&sets),
                    rendered_markdown: markdown.clone(),
                    created_at: record.created_at.to_rfc3339(),
                },
            )
        },
        None => Err(DispatchError::Internal),
    }
}

/// The extension of the file of a prompt.
pub open spec fn extension_chars(format: PromptExportSaveFormat) -> Seq<char> {
    match format {
        PromptExportSaveFormat::Markdown => "md"@,
        PromptExportSaveFormat::Json => "json"@,
    }
}

/// How the format of a prompt reads.
pub open spec fn format_chars(format: PromptExportSaveFormat) -> Seq<char> {
    match format {
        PromptExportSaveFormat::Markdown => "markdown"@,
        PromptExportSaveFormat::Json => "structured JSON"@,
    }
}

/// The extension of the file of a prompt, and how its format reads.
pub fn export_format(format: PromptExportSaveFormat) -> (names: (&'static str, &'static str))
    ensures
        names.0@ == extension_chars(format),
        names.1@ == format_chars(format),
{
    match format {
        PromptExportSaveFormat::Markdown => ("md", "markdown"),
        PromptExportSaveFormat::Json => ("json", "structured JSON"),
    }
}

/// The name that the file of a prompt is offered under.
pub fn export_file_name(id: PromptExportId, format: PromptExportSaveFormat) -> (name: String)
    ensures
        name@ == "localreview-prompt-"@ + id_chars(id.0) + "."@ + extension_chars(format),
{
    let mut name = "localreview-prompt-".to_owned();
    name.append(id_text(id.0).as_str());
    name.append(".");
    name.append(export_format(format).0);
    name
}

/// Reads which prompt on record is meant.
pub fn parse_prompt_export_id(value: &str) -> (result: Result<PromptExportId, DispatchError>)
    ensures
        match parsed_id(value@) {
            Some(id) => result == Ok::<PromptExportId, DispatchError>(PromptExportId(id)),
            None => result matches Err(error) && error.is_invalid("prompt export id is invalid"@),
        },
{
    match crate::ids::read_id(value) {
        Some(id) => Ok(PromptExportId(id)),
        None => Err(invalid("prompt export id is invalid")),
    }
}

/// The request that renders a prompt without text from what it was made of.
pub fn regeneration_input(id: PromptExportId) -> (input: PromptInput)
    ensures
        input.scope@ == "all"@,
        input.annotation_ids@.len() == 0,
        input.portable == Some(true),
        input.path_style is None,
        input.include_diff_hunks is None,
        input.include_git_state is None,
        opt_text(input.history_id) == Some("export:"@ + id_chars(id.0)),
{
    let mut history_id = "export:".to_owned();
    history_id.append(id_text(id.0).as_str());
    PromptInput {
        scope: "all".to_owned(),
        annotation_ids: Vec::new(),
        portable: Some(true),
        path_style: None,
        include_diff_hunks: None,
        include_git_state: None,
        history_id: Some(history_id),
    }
}

} // verus!
