//! Saving annotations, and restoring those of a checkpoint.
use crate::annotations::{
    accepts_annotation_body, annotation_view, build_annotation, check_annotation, find_annotation,
    is_annotation_body, is_place, is_saved, law_kind_names_read_back, named_kind, named_state,
    parse_annotation_state, save_problem, shown_annotation, Annotation, AnnotationAnchor, AnnotationKind, AnnotationModel, ReplacedAnnotation,
};
use crate::document::ReviewDiffDocument;
use crate::drafts::{
    check_restore_count, check_restored, check_restored_place, find_owner, is_prepared, owner_of,
    restore_problem, ComparisonOwner, NoteRoute,
};
use crate::errors::{invalid, not_found, DispatchError};
use crate::ids::{
    id_behind, id_chars, parse_history_set_id, parsed_id, AnnotationId, AnnotationSetId,
    RepositoryId, ReviewSessionId,
};
use crate::time::Timestamp;
use crate::views::AnnotationView;
use vstd::prelude::*;
use vstd::string::*;

verus! {

/// Why something is refused.
pub enum Refusal {
    Invalid(Seq<char>),
    NotFound(Seq<char>),
}

/// Whether an error tells of a refusal.
pub open spec fn tells(error: DispatchError, refusal: Refusal) -> bool {
    match refusal {
        Refusal::Invalid(text) => error.is_invalid(text),
        Refusal::NotFound(text) => error.is_not_found(text),
    }
}

/// What was found for an annotation that is to be saved: its file, whether the
/// file is under an active review, the set of annotations of that review with
/// what it holds, and the repositories of the review's comparisons.
#[derive(Debug)]
pub struct SaveFindings {
    pub document: Option<ReviewDiffDocument>,
    pub in_active_review: bool,
    pub active_set: Option<AnnotationSetId>,
    pub annotations: Vec<Annotation>,
    pub owners: Vec<ComparisonOwner>,
}

/// What is kept of the first annotation with a rendered identity.
pub open spec fn replaced_by(annotations: Seq<Annotation>, id: Seq<char>) -> Option<
    ReplacedAnnotation,
>
    decreases annotations.len(),
{
    if annotations.len() == 0 {
        None
    } else if parsed_id(id) == Some(annotations[0].id.0) {
        Some(
            ReplacedAnnotation { id: annotations[0].id, created_at: annotations[0].created_at },
        )
    } else {
        replaced_by(annotations.drop_first(), id)
    }
}

proof fn lemma_replaced_at(annotations: Seq<Annotation>, id: Seq<char>, index: int)
    requires
        0 <= index < annotations.len(),
        parsed_id(id) == Some(annotations[index].id.0),
        forall|j: int| 0 <= j < index ==> parsed_id(id) != Some((#[trigger] annotations[j]).id.0),
    ensures
        replaced_by(annotations, id) == Some(
            ReplacedAnnotation {
                id: annotations[index].id,
                created_at: annotations[index].created_at,
            },
        ),
    decreases index,
{
    if index > 0 {
        assert(parsed_id(id) != Some(annotations[0].id.0));
        assert forall|j: int| 0 <= j < index - 1 implies parsed_id(id) != Some(
            (#[trigger] annotations.drop_first()[j]).id.0,
        ) by {
            assert(annotations.drop_first()[j] == annotations[j + 1]);
        }
        lemma_replaced_at(annotations.drop_first(), id, index - 1);
    }
}

proof fn lemma_replaces_none(annotations: Seq<Annotation>, id: Seq<char>)
    requires
        forall|j: int|
            0 <= j < annotations.len() ==> parsed_id(id) != Some((#[trigger] annotations[j]).id.0),
    ensures
        replaced_by(annotations, id) is None,
    decreases annotations.len(),
{
    if annotations.len() > 0 {
        assert(parsed_id(id) != Some(annotations[0].id.0));
        assert forall|j: int| 0 <= j < annotations.len() - 1 implies parsed_id(id) != Some(
            (#[trigger] annotations.drop_first()[j]).id.0,
        ) by {
            assert(annotations.drop_first()[j] == annotations[j + 1]);
        }
        lemma_replaces_none(annotations.drop_first(), id);
    }
}

/// Why an annotation is not saved; `None` where it is.
pub open spec fn annotation_refusal(value: AnnotationModel, findings: SaveFindings) -> Option<
    Refusal,
> {
    if !is_annotation_body(value.body) {
        Some(Refusal::Invalid("annotation body is empty or exceeds the supported size"@))
    } else if named_kind(value.kind) is None {
        Some(Refusal::Invalid("unsupported annotation kind"@))
    } else if parsed_id(value.file_id) is None {
        Some(Refusal::Invalid("annotation fileId is invalid"@))
    } else if findings.document is None {
        Some(Refusal::NotFound(value.file_id))
    } else if !findings.in_active_review {
        Some(Refusal::Invalid("the file does not belong to an active review"@))
    } else if findings.active_set is None {
        Some(Refusal::Invalid("active review has no annotation set"@))
    } else {
        match save_problem(
            value,
            named_kind(value.kind)->0,
            findings.document->0,
            owner_of(findings.owners@, findings.document->0.comparison_id),
        ) {
            Some(text) => Some(Refusal::Invalid(text)),
            None => None,
        }
    }
}

/// An annotation as it is stored, and as it is shown.
#[derive(Debug)]
pub struct SavedAnnotation {
    pub annotation: Annotation,
    pub view: AnnotationView,
}

/// Works out what saving an annotation stores and what it answers.
pub fn save_annotation(
    value: &AnnotationView,
    findings: SaveFindings,
    fresh_id: AnnotationId,
    now: Timestamp,
) -> (result: Result<SavedAnnotation, DispatchError>)
    ensures
        match annotation_refusal(value@, findings) {
            Some(refusal) => result matches Err(error) && tells(error, refusal),
            None => result matches Ok(saved) && {
                &&& is_saved(
                    saved.annotation,
                    value@,
                    named_kind(value.kind@)->0,
                    findings.document->0,
                    owner_of(findings.owners@, findings.document->0.comparison_id)->0,
                    findings.active_set->0,
                    replaced_by(findings.annotations@, value.id@),
                    fresh_id,
                    now,
                )
                &&& saved.view@ == shown_annotation(saved.annotation, seq![findings.document->0])
            },
        },
        value.id@.len() == 0 && result is Ok ==> result->Ok_0.annotation.id == fresh_id,
{
    let kind = match check_annotation(value) {
        Ok((kind, _)) => kind,
        Err(error) => {
            return Err(error);
        },
    };
    let document = match findings.document {
        Some(document) => document,
        None => {
            return Err(not_found(value.file_id.as_str()));
        },
    };
    if !findings.in_active_review {
        return Err(invalid("the file does not belong to an active review"));
    }
    let active_set = match findings.active_set {
        Some(active_set) => active_set,
        None => {
            return Err(invalid("active review has no annotation set"));
        },
    };
    let replaced: Option<ReplacedAnnotation> = match find_annotation(
        &findings.annotations,
        value.id.as_str(),
    ) {
        Some(index) => {
            proof {
                lemma_replaced_at(findings.annotations@, value.id@, index as int);
            }
            Some(
                ReplacedAnnotation {
                    id: findings.annotations[index].id,
                    created_at: findings.annotations[index].created_at,
                },
            )
        },
        None => {
            proof {
                lemma_replaces_none(findings.annotations@, value.id@);
            }
            None
        },
    };
    let owner = find_owner(&findings.owners, document.comparison_id);
    match build_annotation(value, kind, &document, owner, active_set, replaced, fresh_id, now) {
        Ok(annotation) => {
            let mut documents: Vec<ReviewDiffDocument> = Vec::new();
            documents.push(document);
            assert(documents@ =~= seq![document]);
            let view = annotation_view(&annotation, &documents);
            Ok(SavedAnnotation { annotation, view })
        },
        Err(error) => Err(error),
    }
}

/// What a saved annotation is shown as is what was saved: the same kind,
/// state, body, choice of publication and, where it names lines, the same
/// lines of the same side of the same file.
pub proof fn law_saved_annotation_reads_back(
    annotation: Annotation,
    value: AnnotationModel,
    document: ReviewDiffDocument,
    repository_id: RepositoryId,
    active_set: AnnotationSetId,
    replaced: Option<ReplacedAnnotation>,
    fresh_id: AnnotationId,
    now: Timestamp,
)
    requires
        named_kind(value.kind) is Some,
        save_problem(value, named_kind(value.kind)->0, document, Some(repository_id)) is None,
        is_saved(
            annotation,
            value,
            named_kind(value.kind)->0,
            document,
            repository_id,
            active_set,
            replaced,
            fresh_id,
            now,
        ),
    ensures
        ({
            let shown = shown_annotation(annotation, seq![document]);
            &&& shown.kind == value.kind
            &&& shown.state == value.state
            &&& shown.body == value.body
            &&& shown.local_only == value.local_only
            &&& shown.start_line == value.start_line
            &&& shown.end_line == value.end_line
            &&& shown.published_id is None
            &&& named_kind(value.kind)->0 != AnnotationKind::ReviewNote ==> {
                &&& shown.file_id == id_chars(document.file.id.0)
                &&& shown.repository_id == id_chars(repository_id.0)
            }
            &&& named_kind(value.kind)->0 != AnnotationKind::ReviewNote && named_kind(value.kind)->0
                != AnnotationKind::FileNote ==> shown.side == value.side
        }),
{
}

/// Saving touches no annotation outside the active set: what is stored either
/// replaces one of the annotations at hand or has the new identity.
pub proof fn law_saving_touches_only_the_active_set(
    annotation: Annotation,
    value: AnnotationModel,
    kind: AnnotationKind,
    document: ReviewDiffDocument,
    repository_id: RepositoryId,
    active_set: AnnotationSetId,
    stored: Seq<Annotation>,
    fresh_id: AnnotationId,
    now: Timestamp,
)
    requires
        is_saved(
            annotation,
            value,
            kind,
            document,
            repository_id,
            active_set,
            replaced_by(stored, value.id),
            fresh_id,
            now,
        ),
    ensures
        annotation.annotation_set_id == active_set,
        annotation.id == fresh_id || exists|i: int|
            0 <= i < stored.len() && (#[trigger] stored[i]).id == annotation.id,
{
    lemma_replaced_is_stored(stored, value.id);
}

proof fn lemma_replaced_is_stored(stored: Seq<Annotation>, id: Seq<char>)
    ensures
        replaced_by(stored, id) matches Some(replaced) ==> exists|i: int|
            0 <= i < stored.len() && (#[trigger] stored[i]).id == replaced.id,
    decreases stored.len(),
{
    if stored.len() > 0 && parsed_id(id) != Some(stored[0].id.0) {
        lemma_replaced_is_stored(stored.drop_first(), id);
        if replaced_by(stored, id) is Some {
            let i = choose|i: int|
                0 <= i < stored.drop_first().len() && (#[trigger] stored.drop_first()[i]).id
                    == replaced_by(stored, id)->0.id;
            assert(stored[i + 1].id == replaced_by(stored, id)->0.id);
        }
    } else if stored.len() > 0 {
        assert(stored[0].id == replaced_by(stored, id)->0.id);
    }
}

/// Where an annotation stands comes from the captured file alone: the source
/// text that comes with a request is not stored.
pub proof fn law_place_comes_from_the_capture(
    first: AnnotationAnchor,
    second: AnnotationAnchor,
    value: AnnotationModel,
    claimed: Seq<char>,
    kind: AnnotationKind,
    document: ReviewDiffDocument,
    repository_id: RepositoryId,
)
    requires
        is_place(Some(first), value, kind, document, repository_id),
        is_place(
            Some(second),
            AnnotationModel { selected_source: claimed, ..value },
            kind,
            document,
            repository_id,
        ),
    ensures
        first.comparison_id == second.comparison_id,
        first.repository_id == second.repository_id,
        first.file_path@ == second.file_path@,
        first.side == second.side,
        first.start_line == second.start_line,
        first.end_line == second.end_line,
        first.selected_source@ == second.selected_source@,
        first.surrounding_context@ == second.surrounding_context@,
{
}

/// Saving under the identity of a stored annotation replaces that one and
/// keeps when it was made.
pub proof fn law_saving_again_keeps_the_identity(stored: Seq<Annotation>, index: int, id: Seq<char>)
    requires
        0 <= index < stored.len(),
        forall|i: int, j: int|
            0 <= i < j < stored.len() ==> (#[trigger] stored[i]).id != (#[trigger] stored[j]).id,
        parsed_id(id) == Some(stored[index].id.0),
    ensures
        replaced_by(stored, id) == Some(
            ReplacedAnnotation { id: stored[index].id, created_at: stored[index].created_at },
        ),
{
    assert forall|j: int| 0 <= j < index implies parsed_id(id) != Some(
        (#[trigger] stored[j]).id.0,
    ) by {
        assert(stored[j].id != stored[index].id);
    }
    lemma_replaced_at(stored, id, index);
}

/// What was found for an annotation of a checkpoint: its file, and the active
/// review round that the file belongs to. The file of a note on the whole
/// review is the one that it is sent through when it is saved.
#[derive(Debug)]
pub struct RestoreFinding {
    pub document: Option<ReviewDiffDocument>,
    pub owner: Option<ReviewSessionId>,
}

/// Why one annotation of a checkpoint cannot be restored; `None` where it can.
/// Whatever saving would refuse is refused here.
pub open spec fn restored_refusal(
    value: AnnotationModel,
    finding: RestoreFinding,
    session: ReviewSessionId,
) -> Option<Refusal> {
    match restored_place_refusal(value, finding, session) {
        Some(refusal) => Some(refusal),
        None => if !is_annotation_body(value.body) {
            Some(Refusal::Invalid("annotation body is empty or exceeds the supported size"@))
        } else {
            None
        },
    }
}

/// Why one annotation of a checkpoint cannot be restored whatever it says:
/// its kind, its state, its file or its lines; `None` where it can.
pub open spec fn restored_place_refusal(
    value: AnnotationModel,
    finding: RestoreFinding,
    session: ReviewSessionId,
) -> Option<Refusal> {
    match named_kind(value.kind) {
        None => Some(Refusal::Invalid("unsupported annotation kind"@)),
        Some(AnnotationKind::ReviewNote) => if value.start_line != 0 || value.end_line != 0 {
            Some(Refusal::Invalid("review notes cannot carry a line range"@))
        } else if named_state(value.state) is None {
            Some(Refusal::Invalid("unsupported annotation state"@))
        } else if finding.document is None {
            Some(Refusal::Invalid("review has no captured files for note restore"@))
        } else {
            None
        },
        Some(kind) => if parsed_id(value.file_id) is None {
            Some(Refusal::Invalid("annotation fileId is invalid"@))
        } else {
            match finding.document {
                None => Some(Refusal::NotFound(value.file_id)),
                Some(document) => match restore_problem(
                    value,
                    kind,
                    document,
                    finding.owner,
                    session,
                ) {
                    Some(text) => Some(Refusal::Invalid(text)),
                    None => None,
                },
            }
        },
    }
}

/// Why a checkpoint cannot be restored: what is wrong with the first of its
/// annotations with which something is.
pub open spec fn checkpoint_refusal(
    values: Seq<AnnotationView>,
    findings: Seq<RestoreFinding>,
    session: ReviewSessionId,
) -> Option<Refusal>
    decreases values.len(),
{
    if values.len() == 0 {
        None
    } else {
        match restored_refusal(values[0]@, findings[0], session) {
            Some(refusal) => Some(refusal),
            None => checkpoint_refusal(values.drop_first(), findings.drop_first(), session),
        }
    }
}

fn check_one_place(
    value: &AnnotationView,
    finding: &RestoreFinding,
    session: ReviewSessionId,
) -> (result: Result<(), DispatchError>)
    ensures
        match restored_place_refusal(value@, *finding, session) {
            Some(refusal) => result matches Err(error) && tells(error, refusal),
            None => result == Ok::<(), DispatchError>(()),
        },
{
    match check_restored(value) {
        Ok((_, None)) => {
            match parse_annotation_state(value.state.as_str()) {
                Ok(_) => {},
                Err(error) => {
                    return Err(error);
                },
            }
            if finding.document.is_none() {
                return Err(invalid("review has no captured files for note restore"));
            }
            Ok(())
        },
        Ok((kind, Some(_))) => match &finding.document {
            Some(document) => check_restored_place(value, kind, document, finding.owner, session),
            None => Err(not_found(value.file_id.as_str())),
        },
        Err(error) => Err(error),
    }
}

fn check_one(value: &AnnotationView, finding: &RestoreFinding, session: ReviewSessionId) -> (result:
    Result<(), DispatchError>)
    ensures
        match restored_refusal(value@, *finding, session) {
            Some(refusal) => result matches Err(error) && tells(error, refusal),
            None => result == Ok::<(), DispatchError>(()),
        },
{
    match check_one_place(value, finding, session) {
        Ok(_) => {},
        Err(error) => {
            return Err(error);
        },
    }
    if !accepts_annotation_body(value.body.as_str()) {
        return Err(invalid("annotation body is empty or exceeds the supported size"));
    }
    Ok(())
}

/// Checks a whole checkpoint before anything of it is restored. `findings`
/// holds what was found for each of its annotations.
pub fn check_checkpoint(
    values: &Vec<AnnotationView>,
    findings: &Vec<RestoreFinding>,
    session: ReviewSessionId,
) -> (result: Result<(), DispatchError>)
    requires
        findings.len() == values.len(),
    ensures
        if values@.len() > 10000 {
            result matches Err(error) && error.is_invalid(
                "a restore may contain at most 10000 annotations"@,
            )
        } else {
            match checkpoint_refusal(values@, findings@, session) {
                Some(refusal) => result matches Err(error) && tells(error, refusal),
                None => result == Ok::<(), DispatchError>(()),
            }
        },
{
    match check_restore_count(values.len()) {
        Ok(_) => {},
        Err(error) => {
            return Err(error);
        },
    }
    let mut i: usize = 0;
    assert(values@.skip(0) =~= values@);
    assert(findings@.skip(0) =~= findings@);
    while i < values.len()
        invariant
            i <= values.len(),
            findings.len() == values.len(),
            values@.len() <= 10000,
            checkpoint_refusal(values@, findings@, session) == checkpoint_refusal(
                values@.skip(i as int),
                findings@.skip(i as int),
                session,
            ),
        decreases values.len() - i,
    {
        assert(values@.skip(i as int)[0] == values@[i as int]);
        assert(findings@.skip(i as int)[0] == findings@[i as int]);
        assert(values@.skip(i as int).drop_first() =~= values@.skip(i + 1));
        assert(findings@.skip(i as int).drop_first() =~= findings@.skip(i + 1));
        match check_one(&values[i], &findings[i], session) {
            Ok(_) => {},
            Err(error) => {
                return Err(error);
            },
        }
        i += 1;
    }
    Ok(())
}

/// What passes the check of a checkpoint is not refused when it is saved: of
/// no kind, for no body, state, file or lines, as long as the file is still the
/// one that was found and its review is still active.
pub proof fn law_checked_annotations_can_be_placed(
    value: AnnotationModel,
    finding: RestoreFinding,
    session: ReviewSessionId,
    route: Option<NoteRoute>,
    prepared: AnnotationModel,
    findings: SaveFindings,
)
    requires
        restored_refusal(value, finding, session) is None,
        is_prepared(prepared, value, route),
        findings.document == finding.document,
        findings.in_active_review,
        findings.active_set is Some,
        owner_of(findings.owners@, findings.document->0.comparison_id) is Some,
    ensures
        annotation_refusal(prepared, findings) is None,
{
    law_kind_names_read_back(AnnotationKind::ReviewNote);
}

proof fn lemma_checked_at(
    values: Seq<AnnotationView>,
    findings: Seq<RestoreFinding>,
    session: ReviewSessionId,
    index: int,
)
    requires
        findings.len() == values.len(),
        checkpoint_refusal(values, findings, session) is None,
        0 <= index < values.len(),
    ensures
        restored_refusal(values[index]@, findings[index], session) is None,
    decreases index,
{
    if index > 0 {
        assert(values.drop_first()[index - 1] == values[index]);
        assert(findings.drop_first()[index - 1] == findings[index]);
        lemma_checked_at(values.drop_first(), findings.drop_first(), session, index - 1);
    }
}

/// A checkpoint that passes its check is restored as a whole: saving refuses
/// none of its annotations. So nothing is archived for a checkpoint that could
/// not be restored.
pub proof fn law_checked_checkpoints_are_restored(
    values: Seq<AnnotationView>,
    findings: Seq<RestoreFinding>,
    session: ReviewSessionId,
    index: int,
    route: Option<NoteRoute>,
    prepared: AnnotationModel,
    saving: SaveFindings,
)
    requires
        findings.len() == values.len(),
        checkpoint_refusal(values, findings, session) is None,
        0 <= index < values.len(),
        is_prepared(prepared, values[index]@, route),
        saving.document == findings[index].document,
        saving.in_active_review,
        saving.active_set is Some,
        owner_of(saving.owners@, saving.document->0.comparison_id) is Some,
    ensures
        annotation_refusal(prepared, saving) is None,
{
    lemma_checked_at(values, findings, session, index);
    law_checked_annotations_can_be_placed(
        values[index]@,
        findings[index],
        session,
        route,
        prepared,
        saving,
    );
}

/// The set of annotations that an entry of the history restores.
pub fn check_restored_history(history_id: &str) -> (result: Result<AnnotationSetId, DispatchError>)
    ensures
        match id_behind("set:"@, history_id@) {
            Some(number) => result == Ok::<AnnotationSetId, DispatchError>(
                AnnotationSetId(number),
            ),
            None => result matches Err(error) && error.is_invalid(
                "history item cannot be restored"@,
            ),
        },
{
    match parse_history_set_id(history_id) {
        Some(id) => Ok(id),
        None => Err(invalid("history item cannot be restored")),
    }
}

} // verus!
