//! Comments that are being written, and annotations that are restored.
use crate::annotations::{
    named_kind, named_side, named_state, parse_annotation_kind, parse_annotation_state, Annotation,
    AnnotationKind, AnnotationModel, PublicationState,
};
use crate::canonical::{lines_of, split_lines};
use crate::document::{
    lemma_side_names_differ, parse_side, side_content, side_source, DiffSide, ReviewDiffDocument,
};
use crate::errors::{invalid, DispatchError};
use crate::ids::{
    id_chars, id_text, parse_repository_id, parse_review_file_id, parsed_id, AnnotationId,
    AnnotationSetId, ComparisonId, RepositoryId, ReviewFileId, ReviewSessionId, WorkspaceId,
};
use crate::text::{holds_char, text_eq, texts, trim_text, trimmed};
use crate::time::{parse_time, parsed_time, Timestamp};
use crate::views::{AnnotationDraft, AnnotationView};
use vstd::prelude::*;
use vstd::string::*;
use vstd::utf8::*;

verus! {

/// The setting under which the draft of a review round is kept.
pub fn annotation_draft_key(session_id: ReviewSessionId) -> (key: String)
    ensures
        key@ == "ui.annotation_draft.v1.session."@ + id_chars(session_id.0),
{
    let mut key = "ui.annotation_draft.v1.session.".to_owned();
    key.append(id_text(session_id.0).as_str());
    key
}

/// The setting under which the draft of a workspace used to be kept.
pub fn legacy_annotation_draft_key(workspace_id: WorkspaceId) -> (key: String)
    ensures
        key@ == "ui.annotation_draft.v1."@ + id_chars(workspace_id.0),
{
    let mut key = "ui.annotation_draft.v1.".to_owned();
    key.append(id_text(workspace_id.0).as_str());
    key
}

/// The repository that a captured comparison is of.
#[derive(Clone, Copy, Debug, PartialEq, Eq, Structural)]
pub struct ComparisonOwner {
    pub comparison_id: ComparisonId,
    pub repository_id: RepositoryId,
}

/// The repository of the first comparison with an identity.
pub open spec fn owner_of(owners: Seq<ComparisonOwner>, comparison_id: ComparisonId) -> Option<
    RepositoryId,
>
    decreases owners.len(),
{
    if owners.len() == 0 {
        None
    } else if owners[0].comparison_id == comparison_id {
        Some(owners[0].repository_id)
    } else {
        owner_of(owners.drop_first(), comparison_id)
    }
}

/// Finds the repository of a comparison.
pub fn find_owner(owners: &Vec<ComparisonOwner>, comparison_id: ComparisonId) -> (owner: Option<
    RepositoryId,
>)
    ensures
        owner == owner_of(owners@, comparison_id),
{
    let mut i: usize = 0;
    assert(owners@.skip(0) =~= owners@);
    while i < owners.len()
        invariant
            i <= owners.len(),
            owner_of(owners@, comparison_id) == owner_of(owners@.skip(i as int), comparison_id),
        decreases owners.len() - i,
    {
        assert(owners@.skip(i as int)[0] == owners@[i as int]);
        assert(owners@.skip(i as int).drop_first() =~= owners@.skip(i + 1));
        if owners[i].comparison_id == comparison_id {
            return Some(owners[i].repository_id);
        }
        i += 1;
    }
    None
}

/// The repository that a captured file belongs to.
pub fn document_repository_id(document: &ReviewDiffDocument, owners: &Vec<ComparisonOwner>) -> (result:
    Result<RepositoryId, DispatchError>)
    ensures
        match owner_of(owners@, document.comparison_id) {
            Some(owner) => result == Ok::<RepositoryId, DispatchError>(owner),
            None => result matches Err(error) && error.is_invalid(
                "file comparison is no longer active"@,
            ),
        },
{
    match find_owner(owners, document.comparison_id) {
        Some(owner) => Ok(owner),
        None => Err(invalid("file comparison is no longer active")),
    }
}

/// The longest name of a draft, in bytes.
pub const MAX_DRAFT_ID_BYTES: usize = 160;

/// The longest body of a draft, in bytes.
pub const MAX_DRAFT_BODY_BYTES: usize = 1048576;

/// Whether the name and the body of a draft are in order. Unlike that of an
/// annotation, the body may say nothing yet.
pub open spec fn is_draft_shape(draft: AnnotationDraft, workspace_id: WorkspaceId) -> bool {
    &&& draft.workspace_id@ == id_chars(workspace_id.0)
    &&& trimmed(draft.id@).len() > 0
    &&& encode_utf8(draft.id@).len() <= MAX_DRAFT_ID_BYTES
    &&& !draft.id@.contains('\0')
    &&& !draft.id@.contains('\n')
    &&& !draft.id@.contains('\r')
    &&& encode_utf8(draft.body@).len() <= MAX_DRAFT_BODY_BYTES
    &&& !draft.body@.contains('\0')
}

/// Why a draft is refused before its file is looked up; `None` where it is
/// not.
pub open spec fn draft_problem(draft: AnnotationDraft, workspace_id: WorkspaceId) -> Option<
    Seq<char>,
> {
    if !is_draft_shape(draft, workspace_id) {
        Some("annotation draft is invalid"@)
    } else if parsed_id(draft.file_id@) is None {
        Some("draft fileId is invalid"@)
    } else if parsed_id(draft.repository_id@) is None {
        Some("draft repositoryId is invalid"@)
    } else if named_kind(draft.kind@) is None {
        Some("unsupported annotation kind"@)
    } else if named_side(draft.side@) is None {
        Some("annotation side must be old or new"@)
    } else if draft.start_line == 0 || draft.end_line < draft.start_line {
        Some("annotation draft range is invalid"@)
    } else if parsed_time(draft.updated_at@) is None {
        Some("draft updatedAt is invalid"@)
    } else {
        None
    }
}

/// What a draft is about.
#[derive(Clone, Copy, Debug, PartialEq, Eq, Structural)]
pub struct DraftTarget {
    pub file_id: ReviewFileId,
    pub repository_id: RepositoryId,
    pub side: DiffSide,
}

/// Checks what can be checked of a draft before its file is looked up, and
/// tells what it is about.
pub fn check_annotation_draft(draft: &AnnotationDraft, workspace_id: WorkspaceId) -> (result:
    Result<DraftTarget, DispatchError>)
    ensures
        match draft_problem(*draft, workspace_id) {
            Some(text) => result matches Err(error) && error.is_invalid(text),
            None => result matches Ok(target) && {
                &&& Some(target.file_id.0) == parsed_id(draft.file_id@)
                &&& Some(target.repository_id.0) == parsed_id(draft.repository_id@)
                &&& Some(target.side) == named_side(draft.side@)
            },
        },
{
    let owner = id_text(workspace_id.0);
    let id = draft.id.as_str();
    let body = draft.body.as_str();
    if !text_eq(draft.workspace_id.as_str(), owner.as_str()) || trim_text(id).as_str().is_empty()
        || id.as_bytes().len() > MAX_DRAFT_ID_BYTES || holds_char(id, '\0') || holds_char(id, '\n')
        || holds_char(id, '\r') || body.as_bytes().len() > MAX_DRAFT_BODY_BYTES || holds_char(
        body,
        '\0',
    ) {
        return Err(invalid("annotation draft is invalid"));
    }
    let file_id = match parse_review_file_id(draft.file_id.as_str()) {
        Some(file_id) => file_id,
        None => {
            return Err(invalid("draft fileId is invalid"));
        },
    };
    let repository_id = match parse_repository_id(draft.repository_id.as_str()) {
        Some(repository_id) => repository_id,
        None => {
            return Err(invalid("draft repositoryId is invalid"));
        },
    };
    match parse_annotation_kind(draft.kind.as_str()) {
        Ok(_) => {},
        Err(error) => {
            return Err(error);
        },
    }
    proof {
        lemma_side_names_differ();
    }
    let side = match parse_side(draft.side.as_str()) {
        Ok(side) => side,
        Err(error) => {
            return Err(error);
        },
    };
    if draft.start_line == 0 || draft.end_line < draft.start_line {
        return Err(invalid("annotation draft range is invalid"));
    }
    if parse_time(draft.updated_at.as_str()).is_none() {
        return Err(invalid("draft updatedAt is invalid"));
    }
    Ok(DraftTarget { file_id, repository_id, side })
}

/// Checks a draft against the captured file that it is about.
pub fn check_draft_place(
    draft: &AnnotationDraft,
    target: DraftTarget,
    document: &ReviewDiffDocument,
    owners: &Vec<ComparisonOwner>,
) -> (result: Result<(), DispatchError>)
    ensures
        match owner_of(owners@, document.comparison_id) {
            None => result matches Err(error) && error.is_invalid(
                "file comparison is no longer active"@,
            ),
            Some(owner) => if owner != target.repository_id {
                result matches Err(error) && error.is_invalid(
                    "draft repositoryId does not own the captured file"@,
                )
            } else if draft.end_line > lines_of(
                side_source(*document, target.side).content@,
            ).len() {
                result matches Err(error) && error.is_invalid(
                    "draft range is outside the captured source"@,
                )
            } else {
                result == Ok::<(), DispatchError>(())
            },
        },
{
    let owner = match document_repository_id(document, owners) {
        Ok(owner) => owner,
        Err(error) => {
            return Err(error);
        },
    };
    if owner != target.repository_id {
        return Err(invalid("draft repositoryId does not own the captured file"));
    }
    let lines = split_lines(side_content(document, target.side).as_str());
    assert(lines.len() == texts(lines@).len());
    if draft.end_line as usize > lines.len() {
        return Err(invalid("draft range is outside the captured source"));
    }
    Ok(())
}

/// Whether a stored draft is offered again: one that no longer fits is
/// forgotten, while a failure to find that out is reported.
pub fn keeps_stored_draft(check: Result<(), DispatchError>) -> (result: Result<bool, DispatchError>)
    ensures
        match check {
            Ok(_) => result == Ok::<bool, DispatchError>(true),
            Err(DispatchError::NotFound(_)) => result == Ok::<bool, DispatchError>(false),
            Err(DispatchError::Invalid(_)) => result == Ok::<bool, DispatchError>(false),
            Err(error) => result == Err::<bool, DispatchError>(error),
        },
{
    match check {
        Ok(_) => Ok(true),
        Err(DispatchError::NotFound(_)) => Ok(false),
        Err(DispatchError::Invalid(_)) => Ok(false),
        Err(error) => Err(error),
    }
}

/// How many annotations a restore may hold.
pub const MAX_RESTORE_ANNOTATIONS: usize = 10000;

/// Refuses a restore of too many annotations.
pub fn check_restore_count(count: usize) -> (result: Result<(), DispatchError>)
    ensures
        if count > 10000 {
            result matches Err(error) && error.is_invalid(
                "a restore may contain at most 10000 annotations"@,
            )
        } else {
            result == Ok::<(), DispatchError>(())
        },
{
    if count > MAX_RESTORE_ANNOTATIONS {
        Err(invalid("a restore may contain at most 10000 annotations"))
    } else {
        Ok(())
    }
}

/// Checks an annotation of a checkpoint as far as that takes no file, and
/// tells its kind and the file to look up. A note on the whole review has
/// none.
pub fn check_restored(value: &AnnotationView) -> (result: Result<
    (AnnotationKind, Option<ReviewFileId>),
    DispatchError,
>)
    ensures
        match named_kind(value.kind@) {
            None => result matches Err(error) && error.is_invalid("unsupported annotation kind"@),
            Some(AnnotationKind::ReviewNote) => if value.start_line != 0 || value.end_line != 0 {
                result matches Err(error) && error.is_invalid(
                    "review notes cannot carry a line range"@,
                )
            } else {
                result == Ok::<(AnnotationKind, Option<ReviewFileId>), DispatchError>(
                    (AnnotationKind::ReviewNote, None),
                )
            },
            Some(kind) => match parsed_id(value.file_id@) {
                None => result matches Err(error) && error.is_invalid(
                    "annotation fileId is invalid"@,
                ),
                Some(number) => result == Ok::<
                    (AnnotationKind, Option<ReviewFileId>),
                    DispatchError,
                >((kind, Some(ReviewFileId(number)))),
            },
        },
{
    let kind = match parse_annotation_kind(value.kind.as_str()) {
        Ok(kind) => kind,
        Err(error) => {
            return Err(error);
        },
    };
    if kind == AnnotationKind::ReviewNote {
        if value.start_line != 0 || value.end_line != 0 {
            return Err(invalid("review notes cannot carry a line range"));
        }
        return Ok((kind, None));
    }
    match parse_review_file_id(value.file_id.as_str()) {
        Some(file_id) => Ok((kind, Some(file_id))),
        None => Err(invalid("annotation fileId is invalid")),
    }
}

/// Why an annotation of a checkpoint cannot be restored to its file; `None`
/// where it can. `owner` is the active review round that the file belongs to,
/// `session` the one that is restored.
pub open spec fn restore_problem(
    value: AnnotationModel,
    kind: AnnotationKind,
    document: ReviewDiffDocument,
    owner: Option<ReviewSessionId>,
    session: ReviewSessionId,
) -> Option<Seq<char>> {
    if owner is None {
        Some("annotation file is not active"@)
    } else if owner->0 != session {
        Some("annotation checkpoint contains a file from another workspace"@)
    } else if named_state(value.state) is None {
        Some("unsupported annotation state"@)
    } else if kind == AnnotationKind::FileNote {
        if value.start_line != 0 || value.end_line != 0 {
            Some("file notes cannot carry a line range"@)
        } else {
            None
        }
    } else {
        match named_side(value.side) {
            None => Some("annotation side must be old or new"@),
            Some(side) => if value.start_line == 0 || value.end_line < value.start_line {
                Some("annotation range is invalid"@)
            } else if value.end_line > lines_of(side_source(document, side).content@).len() {
                Some("annotation range is outside the captured source"@)
            } else {
                None
            },
        }
    }
}

/// Checks an annotation of a checkpoint against its captured file.
pub fn check_restored_place(
    value: &AnnotationView,
    kind: AnnotationKind,
    document: &ReviewDiffDocument,
    owner: Option<ReviewSessionId>,
    session: ReviewSessionId,
) -> (result: Result<(), DispatchError>)
    ensures
        match restore_problem(value@, kind, *document, owner, session) {
            Some(text) => result matches Err(error) && error.is_invalid(text),
            None => result == Ok::<(), DispatchError>(()),
        },
{
    match owner {
        None => {
            return Err(invalid("annotation file is not active"));
        },
        Some(found) => {
            if found != session {
                return Err(
                    invalid("annotation checkpoint contains a file from another workspace"),
                );
            }
        },
    }
    match parse_annotation_state(value.state.as_str()) {
        Ok(_) => {},
        Err(error) => {
            return Err(error);
        },
    }
    if kind == AnnotationKind::FileNote {
        if value.start_line != 0 || value.end_line != 0 {
            return Err(invalid("file notes cannot carry a line range"));
        }
        return Ok(());
    }
    proof {
        lemma_side_names_differ();
    }
    let side = match parse_side(value.side.as_str()) {
        Ok(side) => side,
        Err(error) => {
            return Err(error);
        },
    };
    if value.start_line == 0 || value.end_line < value.start_line {
        return Err(invalid("annotation range is invalid"));
    }
    let lines = split_lines(side_content(document, side).as_str());
    assert(lines.len() == texts(lines@).len());
    if value.end_line as usize > lines.len() {
        return Err(invalid("annotation range is outside the captured source"));
    }
    Ok(())
}

/// The file that a note on the whole review is sent through when it is
/// restored.
#[derive(Clone, Copy, Debug, PartialEq, Eq, Structural)]
pub struct NoteRoute {
    pub file_id: ReviewFileId,
    pub repository_id: RepositoryId,
}

/// What is saved for an annotation of a checkpoint. It has no identity, so
/// that it gets a fresh one and no stored annotation is touched. A note on the
/// whole review takes the route of a captured file and names no line.
pub open spec fn restored_model(value: AnnotationModel, route: NoteRoute) -> AnnotationModel {
    if value.kind == "review_note"@ {
        AnnotationModel {
            id: Seq::empty(),
            file_id: id_chars(route.file_id.0),
            repository_id: id_chars(route.repository_id.0),
            side: "new"@,
            start_line: 0,
            end_line: 0,
            ..value
        }
    } else {
        AnnotationModel { id: Seq::empty(), ..value }
    }
}

/// Whether an annotation is one of a checkpoint, prepared for being saved.
pub open spec fn is_prepared(
    prepared: AnnotationModel,
    value: AnnotationModel,
    route: Option<NoteRoute>,
) -> bool {
    if value.kind == "review_note"@ {
        route matches Some(target) && prepared == restored_model(value, target) && parsed_id(
            prepared.file_id,
        ) == Some(target.file_id.0)
    } else {
        prepared == (AnnotationModel { id: Seq::empty(), ..value })
    }
}

/// Prepares an annotation of a checkpoint for being saved. `route` is the
/// first captured file of the review, if it has one.
pub fn prepare_restored(value: AnnotationView, route: Option<NoteRoute>) -> (result: Result<
    AnnotationView,
    DispatchError,
>)
    ensures
        if value.kind@ == "review_note"@ && route is None {
            result matches Err(error) && error.is_invalid(
                "review has no captured files for note restore"@,
            )
        } else {
            result matches Ok(prepared) && is_prepared(prepared@, value@, route)
        },
{
    let mut prepared = value;
    prepared.id = String::new();
    if text_eq(prepared.kind.as_str(), "review_note") {
        match route {
            None => {
                return Err(invalid("review has no captured files for note restore"));
            },
            Some(target) => {
                prepared.file_id = id_text(target.file_id.0);
                prepared.repository_id = id_text(target.repository_id.0);
                prepared.side = "new".to_owned();
                prepared.start_line = 0;
                prepared.end_line = 0;
            },
        }
    }
    Ok(prepared)
}

/// Makes the copy of an archived annotation that is restored into the active
/// set: it has its own identity, is local, and where it names a place, that
/// place has to be looked at anew.
pub fn restored_copy(
    annotation: Annotation,
    fresh_id: AnnotationId,
    target_set: AnnotationSetId,
    now: Timestamp,
) -> (copy: Annotation)
    ensures
        copy.id == fresh_id,
        copy.annotation_set_id == target_set,
        copy.kind == annotation.kind,
        copy.state == annotation.state,
        copy.publication_state == PublicationState::LocalOnly,
        copy.labels == annotation.labels,
        copy.body_markdown == annotation.body_markdown,
        crate::annotations::moved_anchor(copy.anchor, annotation.anchor, true),
        copy.created_at == now,
        copy.updated_at == now,
{
    Annotation {
        id: fresh_id,
        annotation_set_id: target_set,
        kind: annotation.kind,
        state: annotation.state,
        publication_state: PublicationState::LocalOnly,
        labels: annotation.labels,
        body_markdown: annotation.body_markdown,
        anchor: match annotation.anchor {
            Some(mut place) => {
                place.outdated = true;
                Some(place)
            },
            None => None,
        },
        created_at: now,
        updated_at: now,
    }
}

} // verus!
