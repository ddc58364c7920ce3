//! Annotations of captured files: how they are made, changed and shown.
use crate::canonical::{lines_of, split_lines};
use crate::document::{
    parse_side, side_chars, side_content, side_name, side_source, DiffSide, ReviewDiffDocument,
};
use crate::errors::{invalid, DispatchError};
use crate::ids::{
    id_chars, id_text, parse_annotation_id, parse_review_file_id, parsed_id, AnnotationId,
    AnnotationSetId, ComparisonId, RepositoryId, ReviewFileId,
};
use crate::text::{
    at_most, copy_texts, copy_texts_but, holds_char, join_lines, joined, list_contains, lists,
    opt_text, text_eq, texts, texts_but, trim_text, trimmed,
};
use crate::time::{parse_time, parsed_time, Timestamp};
use crate::views::AnnotationView;
use vstd::prelude::*;
use vstd::string::*;
use vstd::utf8::*;

verus! {

/// What an annotation is.
#[derive(Clone, Copy, Debug, PartialEq, Eq, Structural)]
pub enum AnnotationKind {
    Comment,
    Question,
    Suggestion,
    FileNote,
    ReviewNote,
}

/// Whether an annotation still asks for something.
#[derive(Clone, Copy, Debug, PartialEq, Eq, Structural)]
pub enum AnnotationState {
    Open,
    Resolved,
    Deleted,
}

/// Whether an annotation leaves this machine.
#[derive(Clone, Copy, Debug, PartialEq, Eq, Structural)]
pub enum PublicationState {
    LocalOnly,
    IncludedInNextReview,
    Published,
}

/// The captured place that an annotation is about: a file, or lines of one of
/// its sides.
#[derive(Debug)]
pub struct AnnotationAnchor {
    pub comparison_id: ComparisonId,
    pub repository_id: RepositoryId,
    pub file_path: String,
    pub side: Option<DiffSide>,
    pub start_line: Option<u32>,
    pub end_line: Option<u32>,
    pub selected_source: String,
    pub surrounding_context: String,
    pub outdated: bool,
}

/// An annotation.
#[derive(Debug)]
pub struct Annotation {
    pub id: AnnotationId,
    pub annotation_set_id: AnnotationSetId,
    pub kind: AnnotationKind,
    pub state: AnnotationState,
    pub publication_state: PublicationState,
    pub labels: Vec<String>,
    pub body_markdown: String,
    pub anchor: Option<AnnotationAnchor>,
    pub created_at: Timestamp,
    pub updated_at: Timestamp,
}

/// The label of an annotation that was deleted.
pub open spec fn deleted_label() -> Seq<char> {
    "localreview:deleted"@
}

/// The name of a kind.
pub open spec fn kind_chars(kind: AnnotationKind) -> Seq<char> {
    match kind {
        AnnotationKind::Comment => "comment"@,
        AnnotationKind::Question => "question"@,
        AnnotationKind::Suggestion => "suggestion"@,
        AnnotationKind::FileNote => "file_note"@,
        AnnotationKind::ReviewNote => "review_note"@,
    }
}

/// The kind that a text names.
pub open spec fn named_kind(value: Seq<char>) -> Option<AnnotationKind> {
    if value == "comment"@ {
        Some(AnnotationKind::Comment)
    } else if value == "question"@ {
        Some(AnnotationKind::Question)
    } else if value == "suggestion"@ {
        Some(AnnotationKind::Suggestion)
    } else if value == "file_note"@ {
        Some(AnnotationKind::FileNote)
    } else if value == "review_note"@ {
        Some(AnnotationKind::ReviewNote)
    } else {
        None
    }
}

/// The name of a kind.
pub fn annotation_kind_name(kind: AnnotationKind) -> (name: &'static str)
    ensures
        name@ == kind_chars(kind),
{
    match kind {
        AnnotationKind::Comment => "comment",
        AnnotationKind::Question => "question",
        AnnotationKind::Suggestion => "suggestion",
        AnnotationKind::FileNote => "file_note",
        AnnotationKind::ReviewNote => "review_note",
    }
}

/// Reads the name of a kind.
pub fn parse_annotation_kind(value: &str) -> (result: Result<AnnotationKind, DispatchError>)
    ensures
        match named_kind(value@) {
            Some(kind) => result == Ok::<AnnotationKind, DispatchError>(kind),
            None => result matches Err(error) && error.is_invalid("unsupported annotation kind"@),
        },
{
    if text_eq(value, "comment") {
        Ok(AnnotationKind::Comment)
    } else if text_eq(value, "question") {
        Ok(AnnotationKind::Question)
    } else if text_eq(value, "suggestion") {
        Ok(AnnotationKind::Suggestion)
    } else if text_eq(value, "file_note") {
        Ok(AnnotationKind::FileNote)
    } else if text_eq(value, "review_note") {
        Ok(AnnotationKind::ReviewNote)
    } else {
        Err(invalid("unsupported annotation kind"))
    }
}

/// Reading the name of a kind gives the kind back.
pub proof fn law_kind_names_read_back(kind: AnnotationKind)
    ensures
        named_kind(kind_chars(kind)) == Some(kind),
{
    reveal_strlit("comment");
    reveal_strlit("question");
    reveal_strlit("suggestion");
    reveal_strlit("file_note");
    reveal_strlit("review_note");
    assert("comment"@[0] == 'c');
    assert("question"@[0] == 'q');
    assert("suggestion"@[0] == 's');
    assert("file_note"@[0] == 'f');
    assert("review_note"@[0] == 'r');
}

/// The state that a text names. An outdated annotation counts as deleted.
pub open spec fn named_state(value: Seq<char>) -> Option<AnnotationState> {
    if value == "open"@ {
        Some(AnnotationState::Open)
    } else if value == "resolved"@ {
        Some(AnnotationState::Resolved)
    } else if value == "outdated"@ {
        Some(AnnotationState::Deleted)
    } else {
        None
    }
}

/// Reads the name of a state.
pub fn parse_annotation_state(value: &str) -> (result: Result<AnnotationState, DispatchError>)
    ensures
        match named_state(value@) {
            Some(state) => result == Ok::<AnnotationState, DispatchError>(state),
            None => result matches Err(error) && error.is_invalid("unsupported annotation state"@),
        },
{
    if text_eq(value, "open") {
        Ok(AnnotationState::Open)
    } else if text_eq(value, "resolved") {
        Ok(AnnotationState::Resolved)
    } else if text_eq(value, "outdated") {
        Ok(AnnotationState::Deleted)
    } else {
        Err(invalid("unsupported annotation state"))
    }
}

/// The name of the state of an annotation at a place.
pub open spec fn state_chars(state: AnnotationState, anchor: Option<AnnotationAnchor>) -> Seq<
    char,
> {
    if (anchor is Some && anchor->0.outdated) || state == AnnotationState::Deleted {
        "outdated"@
    } else if state == AnnotationState::Resolved {
        "resolved"@
    } else {
        "open"@
    }
}

/// The name of the state of an annotation at a place.
pub fn annotation_state_name(
    state: AnnotationState,
    anchor: &Option<AnnotationAnchor>,
) -> (name: &'static str)
    ensures
        name@ == state_chars(state, *anchor),
{
    let outdated: bool = match anchor {
        Some(anchor) => anchor.outdated,
        None => false,
    };
    if outdated || state == AnnotationState::Deleted {
        "outdated"
    } else if state == AnnotationState::Resolved {
        "resolved"
    } else {
        "open"
    }
}

/// Whether an annotation was deleted.
pub open spec fn soft_deleted(annotation: Annotation) -> bool {
    lists(annotation.labels@, deleted_label())
}

/// Whether an annotation was deleted.
pub fn is_soft_deleted(annotation: &Annotation) -> (deleted: bool)
    ensures
        deleted == soft_deleted(*annotation),
{
    list_contains(&annotation.labels, "localreview:deleted")
}

/// Whether an annotation is about a document.
pub open spec fn is_about(annotation: Annotation, document: ReviewDiffDocument) -> bool {
    annotation.anchor matches Some(anchor) && anchor.comparison_id == document.comparison_id
        && anchor.file_path@ == document.file.path@
}

/// Whether an annotation is about a document.
pub fn annotation_matches_file(annotation: &Annotation, document: &ReviewDiffDocument) -> (matching:
    bool)
    ensures
        matching == is_about(*annotation, *document),
{
    match &annotation.anchor {
        Some(anchor) => anchor.comparison_id == document.comparison_id && text_eq(
            anchor.file_path.as_str(),
            document.file.path.as_str(),
        ),
        None => false,
    }
}

/// Zero where there is no line.
pub open spec fn or_zero(line: Option<u32>) -> u32 {
    match line {
        Some(number) => number,
        None => 0,
    }
}

/// Whether an annotation that was not deleted is about some of the lines
/// `start_line..=end_line` of one side of a document.
pub open spec fn covers(
    annotation: Annotation,
    document: ReviewDiffDocument,
    side: DiffSide,
    start_line: u32,
    end_line: u32,
) -> bool {
    &&& !soft_deleted(annotation)
    &&& is_about(annotation, document)
    &&& annotation.anchor->0.side == Some(side)
    &&& or_zero(annotation.anchor->0.start_line) <= end_line
    &&& or_zero(annotation.anchor->0.end_line) >= start_line
}

/// Whether some annotation is about some of the lines.
pub open spec fn any_covers(
    annotations: Seq<Annotation>,
    document: ReviewDiffDocument,
    side: DiffSide,
    start_line: u32,
    end_line: u32,
) -> bool {
    exists|i: int|
        0 <= i < annotations.len() && covers(
            #[trigger] annotations[i],
            document,
            side,
            start_line,
            end_line,
        )
}

/// Whether some annotation is about some of the lines
/// `start_line..=end_line` of one side of a document.
pub fn annotation_overlaps(
    annotations: &Vec<Annotation>,
    document: &ReviewDiffDocument,
    side: DiffSide,
    start_line: u32,
    end_line: u32,
) -> (overlaps: bool)
    ensures
        overlaps == any_covers(annotations@, *document, side, start_line, end_line),
{
    let mut i: usize = 0;
    while i < annotations.len()
        invariant
            i <= annotations.len(),
            forall|j: int|
                0 <= j < i ==> !covers(
                    #[trigger] annotations@[j],
                    *document,
                    side,
                    start_line,
                    end_line,
                ),
        decreases annotations.len() - i,
    {
        let annotation = &annotations[i];
        if !is_soft_deleted(annotation) && annotation_matches_file(annotation, document) {
            match &annotation.anchor {
                Some(anchor) => {
                    let on_side: bool = match anchor.side {
                        Some(found) => found == side,
                        None => false,
                    };
                    let first: u32 = match anchor.start_line {
                        Some(line) => line,
                        None => 0,
                    };
                    let last: u32 = match anchor.end_line {
                        Some(line) => line,
                        None => 0,
                    };
                    if on_side && first <= end_line && last >= start_line {
                        assert(covers(annotations@[i as int], *document, side, start_line, end_line));
                        return true;
                    }
                },
                None => {},
            }
        }
        i += 1;
    }
    false
}

/// What an annotation view says.
pub struct AnnotationModel {
    pub id: Seq<char>,
    pub file_id: Seq<char>,
    pub repository_id: Seq<char>,
    pub kind: Seq<char>,
    pub state: Seq<char>,
    pub side: Seq<char>,
    pub start_line: u32,
    pub end_line: u32,
    pub body: Seq<char>,
    pub selected_source: Seq<char>,
    pub labels: Seq<Seq<char>>,
    pub local_only: bool,
    pub created_at: Seq<char>,
    pub published_id: Option<Seq<char>>,
}

impl View for AnnotationView {
    type V = AnnotationModel;

    open spec fn view(&self) -> AnnotationModel {
        AnnotationModel {
            id: self.id@,
            file_id: self.file_id@,
            repository_id: self.repository_id@,
            kind: self.kind@,
            state: self.state@,
            side: self.side@,
            start_line: self.start_line,
            end_line: self.end_line,
            body: self.body@,
            selected_source: self.selected_source@,
            labels: texts(self.labels@),
            local_only: self.local_only,
            created_at: self.created_at@,
            published_id: opt_text(self.published_id),
        }
    }
}

/// What the views of a list say, in order.
pub open spec fn annotation_models(views: Seq<AnnotationView>) -> Seq<AnnotationModel> {
    views.map_values(|view: AnnotationView| view@)
}

/// The identity of the first document that an annotation is about; nothing
/// where it is about none.
pub open spec fn file_of(annotation: Annotation, documents: Seq<ReviewDiffDocument>) -> Seq<char>
    decreases documents.len(),
{
    if documents.len() == 0 {
        Seq::empty()
    } else if is_about(annotation, documents[0]) {
        id_chars(documents[0].file.id.0)
    } else {
        file_of(annotation, documents.drop_first())
    }
}

/// What is shown of an annotation.
pub open spec fn shown_annotation(
    annotation: Annotation,
    documents: Seq<ReviewDiffDocument>,
) -> AnnotationModel {
    AnnotationModel {
        id: id_chars(annotation.id.0),
        file_id: file_of(annotation, documents),
        repository_id: match annotation.anchor {
            Some(anchor) => id_chars(anchor.repository_id.0),
            None => Seq::empty(),
        },
        kind: kind_chars(annotation.kind),
        state: state_chars(annotation.state, annotation.anchor),
        side: match annotation.anchor {
            Some(anchor) => match anchor.side {
                Some(side) => side_chars(side),
                None => "new"@,
            },
            None => "new"@,
        },
        start_line: match annotation.anchor {
            Some(anchor) => or_zero(anchor.start_line),
            None => 0,
        },
        end_line: match annotation.anchor {
            Some(anchor) => or_zero(anchor.end_line),
            None => 0,
        },
        body: annotation.body_markdown@,
        selected_source: match annotation.anchor {
            Some(anchor) => anchor.selected_source@,
            None => Seq::empty(),
        },
        labels: texts(annotation.labels@),
        local_only: annotation.publication_state == PublicationState::LocalOnly,
        created_at: annotation.created_at.chars(),
        published_id: if annotation.publication_state == PublicationState::Published {
            Some("published"@)
        } else {
            None
        },
    }
}

fn find_file(annotation: &Annotation, documents: &Vec<ReviewDiffDocument>) -> (id: String)
    ensures
        id@ == file_of(*annotation, documents@),
{
    let mut i: usize = 0;
    assert(documents@.skip(0) =~= documents@);
    while i < documents.len()
        invariant
            i <= documents.len(),
            file_of(*annotation, documents@) == file_of(*annotation, documents@.skip(i as int)),
        decreases documents.len() - i,
    {
        assert(documents@.skip(i as int)[0] == documents@[i as int]);
        assert(documents@.skip(i as int).drop_first() =~= documents@.skip(i + 1));
        if annotation_matches_file(annotation, &documents[i]) {
            return id_text(documents[i].file.id.0);
        }
        i += 1;
    }
    String::new()
}

/// Builds what is shown of an annotation.
pub fn annotation_view(annotation: &Annotation, documents: &Vec<ReviewDiffDocument>) -> (view:
    AnnotationView)
    ensures
        view@ == shown_annotation(*annotation, documents@),
{
    let file_id = find_file(annotation, documents);
    let mut view = AnnotationView {
        id: id_text(annotation.id.0),
        file_id,
        repository_id: String::new(),
        kind: annotation_kind_name(annotation.kind).to_owned(),
        state: annotation_state_name(annotation.state, &annotation.anchor).to_owned(),
        side: "new".to_owned(),
        start_line: 0,
        end_line: 0,
        body: annotation.body_markdown.clone(),
        selected_source: String::new(),
        labels: copy_texts(&annotation.labels),
        local_only: annotation.publication_state == PublicationState::LocalOnly,
        created_at: annotation.created_at.to_rfc3339(),
        published_id: if annotation.publication_state == PublicationState::Published {
            Some("published".to_owned())
        } else {
            None
        },
    };
    match &annotation.anchor {
        Some(anchor) => {
            view.repository_id = id_text(anchor.repository_id.0);
            match anchor.side {
                Some(side) => {
                    view.side = side_name(side).to_owned();
                },
                None => {},
            }
            view.start_line = match anchor.start_line {
                Some(line) => line,
                None => 0,
            };
            view.end_line = match anchor.end_line {
                Some(line) => line,
                None => 0,
            };
            view.selected_source = anchor.selected_source.clone();
        },
        None => {},
    }
    view
}

/// Builds what is shown of some annotations.
pub fn annotation_views(annotations: &Vec<Annotation>, documents: &Vec<ReviewDiffDocument>) -> (views:
    Vec<AnnotationView>)
    ensures
        annotation_models(views@) == annotations@.map_values(
            |annotation: Annotation| shown_annotation(annotation, documents@),
        ),
{
    let mut views: Vec<AnnotationView> = Vec::new();
    let ghost shown = annotations@.map_values(
        |annotation: Annotation| shown_annotation(annotation, documents@),
    );
    let mut i: usize = 0;
    while i < annotations.len()
        invariant
            i <= annotations.len(),
            shown == annotations@.map_values(
                |annotation: Annotation| shown_annotation(annotation, documents@),
            ),
            annotation_models(views@) =~= shown.take(i as int),
        decreases annotations.len() - i,
    {
        let view = annotation_view(&annotations[i], documents);
        let ghost before = annotation_models(views@);
        let ghost model = view@;
        assert(model == shown[i as int]);
        views.push(view);
        assert(annotation_models(views@) =~= before.push(model));
        i += 1;
    }
    assert(annotation_models(views@) =~= shown);
    views
}

/// The longest annotation body, in bytes.
pub const MAX_ANNOTATION_BYTES: usize = 1048576;

/// Whether a text can be the body of an annotation: it says something, is not
/// too long and holds no NUL.
pub open spec fn is_annotation_body(body: Seq<char>) -> bool {
    &&& trimmed(body).len() > 0
    &&& encode_utf8(body).len() <= MAX_ANNOTATION_BYTES
    &&& !body.contains('\0')
}

/// Whether a text can be the body of an annotation.
pub fn accepts_annotation_body(body: &str) -> (accepted: bool)
    ensures
        accepted == is_annotation_body(body@),
{
    !trim_text(body).as_str().is_empty() && body.as_bytes().len() <= MAX_ANNOTATION_BYTES
        && !holds_char(body, '\0')
}

/// Checks what can be checked of an annotation before its file is looked up,
/// and tells its kind and file.
pub fn check_annotation(value: &AnnotationView) -> (result: Result<
    (AnnotationKind, ReviewFileId),
    DispatchError,
>)
    ensures
        if !is_annotation_body(value.body@) {
            result matches Err(error) && error.is_invalid(
                "annotation body is empty or exceeds the supported size"@,
            )
        } else if named_kind(value.kind@) is None {
            result matches Err(error) && error.is_invalid("unsupported annotation kind"@)
        } else if parsed_id(value.file_id@) is None {
            result matches Err(error) && error.is_invalid("annotation fileId is invalid"@)
        } else {
            result == Ok::<(AnnotationKind, ReviewFileId), DispatchError>(
                (named_kind(value.kind@)->0, ReviewFileId(parsed_id(value.file_id@)->0)),
            )
        },
{
    if !accepts_annotation_body(value.body.as_str()) {
        return Err(invalid("annotation body is empty or exceeds the supported size"));
    }
    let kind = match parse_annotation_kind(value.kind.as_str()) {
        Ok(kind) => kind,
        Err(error) => {
            return Err(error);
        },
    };
    match parse_review_file_id(value.file_id.as_str()) {
        Some(file_id) => Ok((kind, file_id)),
        None => Err(invalid("annotation fileId is invalid")),
    }
}

/// The side that a text names.
pub open spec fn named_side(value: Seq<char>) -> Option<DiffSide> {
    if value == "old"@ {
        Some(DiffSide::Old)
    } else if value == "new"@ {
        Some(DiffSide::New)
    } else {
        None
    }
}

/// Why an annotation cannot stand at the place it names; `None` where it can.
pub open spec fn place_problem(
    value: AnnotationModel,
    kind: AnnotationKind,
    document: ReviewDiffDocument,
) -> Option<Seq<char>> {
    match kind {
        AnnotationKind::ReviewNote => if value.start_line != 0 || value.end_line != 0 {
            Some("review notes cannot carry a file or line anchor"@)
        } else {
            None
        },
        AnnotationKind::FileNote => if value.start_line != 0 || value.end_line != 0 {
            Some("file notes cannot carry a line range"@)
        } else {
            None
        },
        _ => match named_side(value.side) {
            None => Some("annotation side must be old or new"@),
            Some(side) => if value.start_line == 0 || value.end_line < value.start_line {
                Some("annotation range is invalid"@)
            } else if value.end_line > lines_of(side_source(document, side).content@).len() {
                Some("annotation range is outside the captured source"@)
            } else {
                None
            },
        },
    }
}

/// Whether an anchor is the place that an annotation names: none for a note
/// on the whole review, the file for a note on a file, or else the lines, with
/// their source and the source up to three lines around them.
pub open spec fn is_place(
    anchor: Option<AnnotationAnchor>,
    value: AnnotationModel,
    kind: AnnotationKind,
    document: ReviewDiffDocument,
    repository_id: RepositoryId,
) -> bool {
    match kind {
        AnnotationKind::ReviewNote => anchor is None,
        AnnotationKind::FileNote => {
            &&& anchor is Some
            &&& anchor->0.comparison_id == document.comparison_id
            &&& anchor->0.repository_id == repository_id
            &&& anchor->0.file_path@ == document.file.path@
            &&& anchor->0.side is None
            &&& anchor->0.start_line is None
            &&& anchor->0.end_line is None
            &&& anchor->0.selected_source@.len() == 0
            &&& anchor->0.surrounding_context@.len() == 0
            &&& !anchor->0.outdated
        },
        _ => {
            let side = named_side(value.side)->0;
            let lines = lines_of(side_source(document, side).content@);
            let first = value.start_line - 1;
            let above: int = if first < 3 {
                0
            } else {
                first - 3
            };
            let below: int = if value.end_line + 3 < lines.len() {
                value.end_line + 3
            } else {
                lines.len() as int
            };
            &&& anchor is Some
            &&& anchor->0.comparison_id == document.comparison_id
            &&& anchor->0.repository_id == repository_id
            &&& anchor->0.file_path@ == document.file.path@
            &&& anchor->0.side == Some(side)
            &&& anchor->0.start_line == Some(value.start_line)
            &&& anchor->0.end_line == Some(value.end_line)
            &&& anchor->0.selected_source@ == joined(lines.subrange(first, value.end_line as int))
            &&& anchor->0.surrounding_context@ == joined(lines.subrange(above, below))
            &&& !anchor->0.outdated
        },
    }
}

/// Resolves the place that an annotation names in a captured document.
pub fn resolve_place(
    value: &AnnotationView,
    kind: AnnotationKind,
    document: &ReviewDiffDocument,
    repository_id: RepositoryId,
) -> (result: Result<Option<AnnotationAnchor>, DispatchError>)
    ensures
        match place_problem(value@, kind, *document) {
            Some(text) => result matches Err(error) && error.is_invalid(text),
            None => result matches Ok(anchor) && is_place(
                anchor,
                value@,
                kind,
                *document,
                repository_id,
            ),
        },
{
    match kind {
        AnnotationKind::ReviewNote => {
            if value.start_line != 0 || value.end_line != 0 {
                return Err(invalid("review notes cannot carry a file or line anchor"));
            }
            Ok(None)
        },
        AnnotationKind::FileNote => {
            if value.start_line != 0 || value.end_line != 0 {
                return Err(invalid("file notes cannot carry a line range"));
            }
            Ok(
                Some(
                    AnnotationAnchor {
                        comparison_id: document.comparison_id,
                        repository_id,
                        file_path: document.file.path.clone(),
                        side: None,
                        start_line: None,
                        end_line: None,
                        selected_source: String::new(),
                        surrounding_context: String::new(),
                        outdated: false,
                    },
                ),
            )
        },
        AnnotationKind::Comment | AnnotationKind::Question | AnnotationKind::Suggestion => {
            proof {
                crate::document::lemma_side_names_differ();
            }
            let side = match parse_side(value.side.as_str()) {
                Ok(side) => side,
                Err(error) => {
                    return Err(error);
                },
            };
            if value.start_line == 0 || value.end_line < value.start_line {
                return Err(invalid("annotation range is invalid"));
            }
            let lines = split_lines(side_content(document, side).as_str());
            let start: usize = (value.start_line - 1) as usize;
            let end: usize = value.end_line as usize;
            assert(lines.len() == texts(lines@).len());
            if end > lines.len() {
                return Err(invalid("annotation range is outside the captured source"));
            }
            let above: usize = if start < 3 {
                0
            } else {
                start - 3
            };
            let below: usize = if lines.len() - end > 3 {
                end + 3
            } else {
                lines.len()
            };
            Ok(
                Some(
                    AnnotationAnchor {
                        comparison_id: document.comparison_id,
                        repository_id,
                        file_path: document.file.path.clone(),
                        side: Some(side),
                        start_line: Some(value.start_line),
                        end_line: Some(value.end_line),
                        selected_source: join_lines(&lines, start, end),
                        surrounding_context: join_lines(&lines, above, below),
                        outdated: false,
                    },
                ),
            )
        },
    }
}

/// Finds the annotation with a rendered identity. The empty text names none.
pub fn find_annotation(annotations: &Vec<Annotation>, id: &str) -> (found: Option<usize>)
    ensures
        id@.len() == 0 ==> found is None,
        match found {
            Some(index) => {
                &&& index < annotations.len()
                &&& parsed_id(id@) == Some(annotations@[index as int].id.0)
                &&& forall|j: int|
                    0 <= j < index ==> parsed_id(id@) != Some((#[trigger] annotations@[j]).id.0)
            },
            None => forall|j: int|
                0 <= j < annotations.len() ==> parsed_id(id@) != Some(
                    (#[trigger] annotations@[j]).id.0,
                ),
        },
{
    let wanted = match parse_annotation_id(id) {
        Some(wanted) => wanted,
        None => {
            return None;
        },
    };
    let mut i: usize = 0;
    while i < annotations.len()
        invariant
            i <= annotations.len(),
            id@.len() > 0,
            parsed_id(id@) == Some(wanted.0),
            forall|j: int|
                0 <= j < i ==> parsed_id(id@) != Some((#[trigger] annotations@[j]).id.0),
        decreases annotations.len() - i,
    {
        if annotations[i].id == wanted {
            return Some(i);
        }
        i += 1;
    }
    None
}

/// What an annotation that is being saved keeps of the one it replaces: its
/// identity and when it was made.
#[derive(Clone, Copy, Debug, PartialEq, Eq, Structural)]
pub struct ReplacedAnnotation {
    pub id: AnnotationId,
    pub created_at: Timestamp,
}

/// Why an annotation cannot be saved; `None` where it can.
pub open spec fn save_problem(
    value: AnnotationModel,
    kind: AnnotationKind,
    document: ReviewDiffDocument,
    repository_id: Option<RepositoryId>,
) -> Option<Seq<char>> {
    if named_state(value.state) is None {
        Some("unsupported annotation state"@)
    } else if repository_id is None {
        Some("file comparison is no longer active"@)
    } else {
        place_problem(value, kind, document)
    }
}

/// Whether an annotation is what saving `value` stores.
pub open spec fn is_saved(
    annotation: Annotation,
    value: AnnotationModel,
    kind: AnnotationKind,
    document: ReviewDiffDocument,
    repository_id: RepositoryId,
    active_set: AnnotationSetId,
    replaced: Option<ReplacedAnnotation>,
    fresh_id: AnnotationId,
    now: Timestamp,
) -> bool {
    &&& annotation.id == match replaced {
        Some(existing) => existing.id,
        None => fresh_id,
    }
    &&& annotation.annotation_set_id == active_set
    &&& annotation.kind == kind
    &&& Some(annotation.state) == named_state(value.state)
    &&& annotation.publication_state == if value.local_only {
        PublicationState::LocalOnly
    } else {
        PublicationState::IncludedInNextReview
    }
    &&& texts(annotation.labels@) == at_most(texts_but(value.labels, deleted_label()), 64)
    &&& annotation.body_markdown@ == value.body
    &&& is_place(annotation.anchor, value, kind, document, repository_id)
    &&& annotation.updated_at == now
    &&& match (replaced, parsed_time(value.created_at)) {
        (Some(existing), _) => annotation.created_at == existing.created_at,
        (None, Some(time)) => annotation.created_at.secs() == time.0
            && annotation.created_at.subsec_nanos() == time.1,
        (None, None) => annotation.created_at == now,
    }
}

/// Builds the annotation that saving `value` stores.
///
/// It replaces an annotation of the active set or gets `fresh_id`; the
/// identity in `value` is never taken over as such. Its place comes from the
/// captured document alone.
pub fn build_annotation(
    value: &AnnotationView,
    kind: AnnotationKind,
    document: &ReviewDiffDocument,
    repository_id: Option<RepositoryId>,
    active_set: AnnotationSetId,
    replaced: Option<ReplacedAnnotation>,
    fresh_id: AnnotationId,
    now: Timestamp,
) -> (result: Result<Annotation, DispatchError>)
    ensures
        match save_problem(value@, kind, *document, repository_id) {
            Some(text) => result matches Err(error) && error.is_invalid(text),
            None => result matches Ok(annotation) && is_saved(
                annotation,
                value@,
                kind,
                *document,
                repository_id->0,
                active_set,
                replaced,
                fresh_id,
                now,
            ),
        },
{
    let state = match parse_annotation_state(value.state.as_str()) {
        Ok(state) => state,
        Err(error) => {
            return Err(error);
        },
    };
    let owner = match repository_id {
        Some(owner) => owner,
        None => {
            return Err(invalid("file comparison is no longer active"));
        },
    };
    let anchor = match resolve_place(value, kind, document, owner) {
        Ok(anchor) => anchor,
        Err(error) => {
            return Err(error);
        },
    };
    let created_at = match replaced {
        Some(existing) => existing.created_at,
        None => match parse_time(value.created_at.as_str()) {
            Some(time) => time,
            None => now,
        },
    };
    Ok(
        Annotation {
            id: match replaced {
                Some(existing) => existing.id,
                None => fresh_id,
            },
            annotation_set_id: active_set,
            kind,
            state,
            publication_state: if value.local_only {
                PublicationState::LocalOnly
            } else {
                PublicationState::IncludedInNextReview
            },
            labels: copy_texts_but(&value.labels, "localreview:deleted", 64),
            body_markdown: value.body.clone(),
            anchor,
            created_at,
            updated_at: now,
        },
    )
}

proof fn lemma_texts_but_lacks(list: Seq<Seq<char>>, text: Seq<char>)
    ensures
        !texts_but(list, text).contains(text),
    decreases list.len(),
{
    if list.len() > 0 {
        lemma_texts_but_lacks(list.drop_last(), text);
        let kept = texts_but(list.drop_last(), text);
        if list.last() != text && kept.push(list.last()).contains(text) {
            let i = choose|i: int|
                0 <= i < kept.push(list.last()).len() && kept.push(list.last())[i] == text;
            assert(kept[i] == text);
        }
    }
}

/// Saving never stores an annotation as deleted.
pub proof fn law_saved_annotation_is_not_deleted(
    annotation: Annotation,
    value: AnnotationModel,
    kind: AnnotationKind,
    document: ReviewDiffDocument,
    repository_id: RepositoryId,
    active_set: AnnotationSetId,
    replaced: Option<ReplacedAnnotation>,
    fresh_id: AnnotationId,
    now: Timestamp,
)
    requires
        is_saved(
            annotation,
            value,
            kind,
            document,
            repository_id,
            active_set,
            replaced,
            fresh_id,
            now,
        ),
    ensures
        !soft_deleted(annotation),
{
    let kept = texts_but(value.labels, deleted_label());
    lemma_texts_but_lacks(value.labels, deleted_label());
    if soft_deleted(annotation) {
        let i = choose|i: int|
            0 <= i < annotation.labels@.len() && #[trigger] annotation.labels@[i]@
                == deleted_label();
        let stored = at_most(kept, 64);
        assert(texts(annotation.labels@)[i] == deleted_label());
        assert(texts(annotation.labels@) == stored);
        assert(i < stored.len());
        assert(stored[i] == kept[i]);
        assert(kept.contains(deleted_label()));
    }
}

/// The labels with that of a deleted annotation, once.
pub open spec fn with_deleted_label(labels: Seq<Seq<char>>) -> Seq<Seq<char>> {
    if labels.contains(deleted_label()) {
        labels
    } else {
        labels.push(deleted_label())
    }
}

/// Deletes an annotation: it stays stored, but is labelled as deleted.
pub fn delete_annotation(mut annotation: Annotation, now: Timestamp) -> (deleted: Annotation)
    ensures
        deleted.id == annotation.id,
        deleted.annotation_set_id == annotation.annotation_set_id,
        deleted.kind == annotation.kind,
        deleted.state == AnnotationState::Deleted,
        deleted.publication_state == annotation.publication_state,
        texts(deleted.labels@) == with_deleted_label(texts(annotation.labels@)),
        deleted.body_markdown == annotation.body_markdown,
        deleted.anchor == annotation.anchor,
        deleted.created_at == annotation.created_at,
        deleted.updated_at == now,
        soft_deleted(deleted),
{
    let ghost before = texts(annotation.labels@);
    let labelled: bool = list_contains(&annotation.labels, "localreview:deleted");
    annotation.state = AnnotationState::Deleted;
    if !labelled {
        annotation.labels.push("localreview:deleted".to_owned());
        assert(texts(annotation.labels@) =~= before.push(deleted_label()));
        assert(annotation.labels@[annotation.labels@.len() - 1]@ == deleted_label());
    }
    proof {
        if labelled {
            let i = choose|i: int|
                0 <= i < annotation.labels@.len() && #[trigger] annotation.labels@[i]@
                    == deleted_label();
            assert(before[i] == deleted_label());
        } else if before.contains(deleted_label()) {
            let i = choose|i: int| 0 <= i < before.len() && before[i] == deleted_label();
            assert(annotation.labels@[i]@ == deleted_label());
        }
    }
    annotation.updated_at = now;
    annotation
}

/// Whether an anchor is another but for whether it is outdated.
pub open spec fn moved_anchor(
    anchor: Option<AnnotationAnchor>,
    before: Option<AnnotationAnchor>,
    outdated: bool,
) -> bool {
    match before {
        Some(place) => anchor == Some(AnnotationAnchor { outdated, ..place }),
        None => anchor is None,
    }
}

/// Puts an annotation into the named state. Being outdated is also a matter
/// of its place, which opening it again takes back. It is not deleted then.
pub fn set_annotation_state(mut annotation: Annotation, state: &str, now: Timestamp) -> (result:
    Result<Annotation, DispatchError>)
    ensures
        match named_state(state@) {
            None => result matches Err(error) && error.is_invalid("unsupported annotation state"@),
            Some(named) => result matches Ok(changed) && {
                &&& changed.id == annotation.id
                &&& changed.annotation_set_id == annotation.annotation_set_id
                &&& changed.kind == annotation.kind
                &&& changed.state == named
                &&& changed.publication_state == annotation.publication_state
                &&& texts(changed.labels@) == texts_but(texts(annotation.labels@), deleted_label())
                &&& changed.body_markdown == annotation.body_markdown
                &&& match named {
                    AnnotationState::Open => moved_anchor(changed.anchor, annotation.anchor, false),
                    AnnotationState::Resolved => changed.anchor == annotation.anchor,
                    AnnotationState::Deleted => moved_anchor(
                        changed.anchor,
                        annotation.anchor,
                        true,
                    ),
                }
                &&& changed.created_at == annotation.created_at
                &&& changed.updated_at == now
            },
        },
{
    let ghost before = texts(annotation.labels@);
    let named = match parse_annotation_state(state) {
        Ok(named) => named,
        Err(error) => {
            return Err(error);
        },
    };
    let count: usize = annotation.labels.len();
    let labels = copy_texts_but(&annotation.labels, "localreview:deleted", count);
    proof {
        lemma_texts_but_no_longer(before, deleted_label());
    }
    let Annotation {
        id,
        annotation_set_id,
        kind,
        state: _,
        publication_state,
        labels: _,
        body_markdown,
        anchor,
        created_at,
        updated_at: _,
    } = annotation;
    let place = match anchor {
        Some(mut place) => {
            match named {
                AnnotationState::Open => {
                    place.outdated = false;
                },
                AnnotationState::Resolved => {},
                AnnotationState::Deleted => {
                    place.outdated = true;
                },
            }
            Some(place)
        },
        None => None,
    };
    Ok(
        Annotation {
            id,
            annotation_set_id,
            kind,
            state: named,
            publication_state,
            labels,
            body_markdown,
            anchor: place,
            created_at,
            updated_at: now,
        },
    )
}

proof fn lemma_texts_but_no_longer(list: Seq<Seq<char>>, text: Seq<char>)
    ensures
        texts_but(list, text).len() <= list.len(),
    decreases list.len(),
{
    if list.len() > 0 {
        lemma_texts_but_no_longer(list.drop_last(), text);
    }
}

} // verus!
