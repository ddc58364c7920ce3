//! Where annotations stand, which rows and files they mark, and what becomes of
//! them when they are resolved, reopened or deleted.
use crate::annotations::{
    annotation_overlaps, annotation_view, delete_annotation, law_kind_names_read_back,
    set_annotation_state, soft_deleted, Annotation, AnnotationKind, AnnotationState,
    PublicationState,
};
use crate::canonical::lines_of;
use crate::document::{side_source, DiffSide, ReviewDiffDocument, ReviewFileStatus};
use crate::drafts::{owner_of, ComparisonOwner};
use crate::errors::DispatchError;
use crate::ids::{id_chars, parsed_id, AnnotationId};
use crate::repositories::Repository;
use crate::review::{
    annotations_about, kept, kept_annotations, review_data_for_session, CapturedReview, ReviewData,
};
use crate::saving::{save_annotation, SaveFindings, SavedAnnotation};
use crate::text::{texts, trimmed};
use crate::time::Timestamp;
use crate::views::{AnnotationView, ReviewHistoryItem, WorkspaceView};
use vstd::prelude::*;
use vstd::string::*;
use vstd::utf8::*;

verus! {

/// Lines `first..last`, each with a newline.
pub open spec fn ended(lines: Seq<Seq<char>>, first: int, last: int) -> Seq<Seq<char>> {
    Seq::new((last - first) as nat, |i: int| lines[first + i].push('\n'))
}

proof fn lemma_joined_lines(lines: Seq<Seq<char>>, first: int, last: int)
    requires
        0 <= first < last <= lines.len(),
    ensures
        crate::text::joined(lines.subrange(first, last)).push('\n') == crate::line_texts::joined(
            ended(lines, first, last),
        ),
    decreases last - first,
{
    let cut = lines.subrange(first, last);
    let whole = ended(lines, first, last);
    assert(whole.drop_last() =~= ended(lines, first, last - 1));
    assert(whole.last() == lines[last - 1].push('\n'));
    assert(cut.drop_last() =~= lines.subrange(first, last - 1));
    assert(cut.last() == lines[last - 1]);
    if last - first > 1 {
        lemma_joined_lines(lines, first, last - 1);
        assert((crate::text::joined(cut.drop_last()) + seq!['\n'] + cut.last()).push('\n')
            =~= crate::text::joined(cut.drop_last()).push('\n') + cut.last().push('\n'));
    } else {
        assert(whole.drop_last() =~= Seq::<Seq<char>>::empty());
        assert(crate::line_texts::joined(whole.drop_last()) =~= Seq::<char>::empty());
        assert(crate::line_texts::joined(whole) =~= cut[0].push('\n'));
    }
}

/// Whether a text names a kind of annotation that is about lines.
pub open spec fn names_line_kind(name: Seq<char>, kind: AnnotationKind) -> bool {
    match kind {
        AnnotationKind::Comment => name == "comment"@,
        AnnotationKind::Question => name == "question"@,
        AnnotationKind::Suggestion => name == "suggestion"@,
        _ => false,
    }
}

/// Whether a text names a state that an annotation can be saved in.
pub open spec fn names_state(name: Seq<char>, state: AnnotationState) -> bool {
    match state {
        AnnotationState::Open => name == "open"@,
        AnnotationState::Resolved => name == "resolved"@,
        AnnotationState::Deleted => name == "outdated"@,
    }
}

/// Whether a text names a side.
pub open spec fn names_side(name: Seq<char>, side: DiffSide) -> bool {
    match side {
        DiffSide::Old => name == "old"@,
        DiffSide::New => name == "new"@,
    }
}

proof fn lemma_state_names(name: Seq<char>, state: AnnotationState)
    requires
        names_state(name, state),
    ensures
        crate::annotations::named_state(name) == Some(state),
{
    reveal_strlit("open");
    reveal_strlit("resolved");
    reveal_strlit("outdated");
    assert("open"@.len() == 4);
    assert("resolved"@[0] == 'r');
    assert("outdated"@.len() == 8);
    assert("outdated"@[0] == 'o');
}

/// Whether a text can be the body of an annotation.
pub open spec fn can_be_body(body: Seq<char>) -> bool {
    trimmed(body).len() > 0 && encode_utf8(body).len() <= 1048576 && !body.contains('\0')
}

/// Whether what was found lets an annotation be saved: its file, which belongs
/// to an active review with a set, and the repository that owns the file.
pub open spec fn can_be_saved_to(findings: SaveFindings) -> bool {
    &&& findings.document is Some
    &&& findings.in_active_review
    &&& findings.active_set is Some
    &&& exists|i: int|
        0 <= i < findings.owners@.len() && (#[trigger] findings.owners@[i]).comparison_id
            == findings.document->0.comparison_id
}

proof fn lemma_owner_is_found(owners: Seq<ComparisonOwner>, comparison: crate::ids::ComparisonId, i: int)
    requires
        0 <= i < owners.len(),
        owners[i].comparison_id == comparison,
    ensures
        owner_of(owners, comparison) is Some,
    decreases i,
{
    if owners[0].comparison_id != comparison {
        assert(owners.drop_first()[i - 1] == owners[i]);
        lemma_owner_is_found(owners.drop_first(), comparison, i - 1);
    }
}

/// A comment, question or suggestion on lines of a captured source is saved
/// with these lines: their numbers, their side and file, their text line by
/// line, and up to three lines around them. What it says is kept as it is.
pub proof fn law_annotations_hold_the_lines_they_name(
    value: AnnotationView,
    findings: SaveFindings,
    fresh_id: AnnotationId,
    now: Timestamp,
    result: Result<SavedAnnotation, DispatchError>,
    kind: AnnotationKind,
    state: AnnotationState,
    side: DiffSide,
)
    requires
        call_ensures(save_annotation, (&value, findings, fresh_id, now), result),
        can_be_saved_to(findings),
        can_be_body(value.body@),
        parsed_id(value.file_id@) is Some,
        names_line_kind(value.kind@, kind),
        names_state(value.state@, state),
        names_side(value.side@, side),
        1 <= value.start_line <= value.end_line <= lines_of(
            side_source(findings.document->0, side).content@,
        ).len(),
    ensures
        result matches Ok(saved) && {
            let document = findings.document->0;
            let lines = lines_of(side_source(document, side).content@);
            let first = value.start_line - 1;
            let last = value.end_line as int;
            let above = if first >= 3 {
                first - 3
            } else {
                0
            };
            let below = if last + 3 <= lines.len() {
                last + 3
            } else {
                lines.len() as int
            };
            &&& saved.annotation.kind == kind
            &&& saved.annotation.state == state
            &&& saved.annotation.body_markdown@ == value.body@
            &&& Some(saved.annotation.annotation_set_id) == findings.active_set
            &&& saved.annotation.publication_state == if value.local_only {
                PublicationState::LocalOnly
            } else {
                PublicationState::IncludedInNextReview
            }
            &&& saved.annotation.updated_at == now
            &&& saved.annotation.anchor matches Some(anchor) && {
                &&& anchor.comparison_id == document.comparison_id
                &&& anchor.file_path@ == document.file.path@
                &&& anchor.side == Some(side)
                &&& anchor.start_line == Some(value.start_line)
                &&& anchor.end_line == Some(value.end_line)
                &&& anchor.selected_source@.push('\n') == crate::line_texts::joined(
                    ended(lines, first, last),
                )
                &&& anchor.surrounding_context@.push('\n') == crate::line_texts::joined(
                    ended(lines, above, below),
                )
                &&& !anchor.outdated
            }
            &&& saved.view.file_id@ == id_chars(document.file.id.0)
            &&& saved.view.body@ == value.body@
            &&& saved.view.start_line == value.start_line
            &&& saved.view.end_line == value.end_line
            &&& saved.view.side@ == value.side@
            &&& saved.view.kind@ == value.kind@
            &&& saved.view.state@ == value.state@
        },
{
    let document = findings.document->0;
    let lines = lines_of(side_source(document, side).content@);
    law_kind_names_read_back(kind);
    lemma_state_names(value.state@, state);
    crate::document::lemma_side_names_differ();
    let i = choose|i: int|
        0 <= i < findings.owners@.len() && (#[trigger] findings.owners@[i]).comparison_id
            == document.comparison_id;
    lemma_owner_is_found(findings.owners@, document.comparison_id, i);
    let first = value.start_line - 1;
    let last = value.end_line as int;
    let above = if first >= 3 {
        first - 3
    } else {
        0
    };
    let below = if last + 3 <= lines.len() {
        last + 3
    } else {
        lines.len() as int
    };
    lemma_joined_lines(lines, first, last);
    lemma_joined_lines(lines, above, below);
    assert(seq![document][0] == document);
}

/// No annotation is saved on lines that the captured source does not have.
pub proof fn law_lines_outside_the_capture_are_refused(
    value: AnnotationView,
    findings: SaveFindings,
    fresh_id: AnnotationId,
    now: Timestamp,
    result: Result<SavedAnnotation, DispatchError>,
    kind: AnnotationKind,
    side: DiffSide,
)
    requires
        call_ensures(save_annotation, (&value, findings, fresh_id, now), result),
        findings.document is Some,
        names_line_kind(value.kind@, kind),
        names_side(value.side@, side),
        value.start_line == 0 || value.end_line < value.start_line || value.end_line > lines_of(
            side_source(findings.document->0, side).content@,
        ).len(),
    ensures
        result is Err,
{
    law_kind_names_read_back(kind);
    crate::document::lemma_side_names_differ();
}

/// Nothing is saved without a body, nor outside of an active review, nor for a
/// file that no repository under review owns.
pub proof fn law_annotations_need_a_body_and_an_active_review(
    value: AnnotationView,
    findings: SaveFindings,
    fresh_id: AnnotationId,
    now: Timestamp,
    result: Result<SavedAnnotation, DispatchError>,
)
    requires
        call_ensures(save_annotation, (&value, findings, fresh_id, now), result),
        !can_be_body(value.body@) || !findings.in_active_review || findings.document is None
            || findings.active_set is None || forall|i: int|
            0 <= i < findings.owners@.len() ==> (#[trigger] findings.owners@[i]).comparison_id
                != findings.document->0.comparison_id,
    ensures
        result is Err,
{
    if findings.document is Some && forall|i: int|
        0 <= i < findings.owners@.len() ==> (#[trigger] findings.owners@[i]).comparison_id
            != findings.document->0.comparison_id {
        lemma_no_owner(findings.owners@, findings.document->0.comparison_id);
    }
}

proof fn lemma_no_owner(owners: Seq<ComparisonOwner>, comparison: crate::ids::ComparisonId)
    requires
        forall|i: int|
            0 <= i < owners.len() ==> (#[trigger] owners[i]).comparison_id != comparison,
    ensures
        owner_of(owners, comparison) is None,
    decreases owners.len(),
{
    if owners.len() > 0 {
        assert(owners[0].comparison_id != comparison);
        assert forall|i: int| 0 <= i < owners.drop_first().len() implies (
        #[trigger] owners.drop_first()[i]).comparison_id != comparison by {
            assert(owners[i + 1].comparison_id != comparison);
        }
        lemma_no_owner(owners.drop_first(), comparison);
    }
}

/// Whether an annotation carries the mark of a deleted one.
pub open spec fn is_marked_deleted(annotation: Annotation) -> bool {
    exists|i: int|
        0 <= i < annotation.labels@.len() && #[trigger] annotation.labels@[i]@
            == "localreview:deleted"@
}

/// Whether an annotation is about a file.
pub open spec fn is_on_file(annotation: Annotation, document: ReviewDiffDocument) -> bool {
    annotation.anchor matches Some(anchor) && anchor.comparison_id == document.comparison_id
        && anchor.file_path@ == document.file.path@
}

/// Whether a line is among those that an annotation names on a side of a file.
pub open spec fn names_line(
    annotation: Annotation,
    document: ReviewDiffDocument,
    side: DiffSide,
    line: int,
) -> bool {
    annotation.anchor matches Some(anchor) && is_on_file(annotation, document) && anchor.side
        == Some(side) && anchor.start_line is Some && anchor.end_line is Some
        && anchor.start_line->0 <= line <= anchor.end_line->0
}

/// Lines are marked where an annotation that was not deleted names one of them
/// on that side of that file.
pub proof fn law_annotated_lines_are_marked(
    annotations: Vec<Annotation>,
    document: ReviewDiffDocument,
    side: DiffSide,
    first: u32,
    last: u32,
    marked: bool,
    index: int,
    line: int,
)
    requires
        call_ensures(annotation_overlaps, (&annotations, &document, side, first, last), marked),
        0 <= index < annotations@.len(),
        !is_marked_deleted(annotations@[index]),
        names_line(annotations@[index], document, side, line),
        first <= line <= last,
    ensures
        marked,
{
    assert(!soft_deleted(annotations@[index]));
    assert(crate::annotations::covers(annotations@[index], document, side, first, last));
}

/// No line is marked where no annotation that is left is about the file, or
/// where those that are name other lines or the other side.
pub proof fn law_other_lines_are_not_marked(
    annotations: Vec<Annotation>,
    document: ReviewDiffDocument,
    side: DiffSide,
    first: u32,
    last: u32,
    marked: bool,
)
    requires
        call_ensures(annotation_overlaps, (&annotations, &document, side, first, last), marked),
        1 <= first <= last,
        forall|i: int|
            0 <= i < annotations@.len() ==> is_marked_deleted(#[trigger] annotations@[i])
                || !is_on_file(annotations@[i], document) || annotations@[i].anchor->0.side
                != Some(side) || annotations@[i].anchor->0.end_line is None
                || annotations@[i].anchor->0.end_line->0 < first
                || (annotations@[i].anchor->0.start_line matches Some(start) && start > last),
    ensures
        !marked,
{
    if marked {
        let i = choose|i: int|
            0 <= i < annotations@.len() && crate::annotations::covers(
                #[trigger] annotations@[i],
                document,
                side,
                first,
                last,
            );
        assert(!soft_deleted(annotations@[i]));
        if is_marked_deleted(annotations@[i]) {
            let k = choose|k: int|
                0 <= k < annotations@[i].labels@.len() && #[trigger] annotations@[i].labels@[k]@
                    == "localreview:deleted"@;
            assert(annotations@[i].labels@[k]@ == "localreview:deleted"@);
        }
    }
}

/// An annotation is shown in the state that it was set to; one that is resolved
/// while it has lost its place is still shown as having lost it.
pub proof fn law_set_states_are_shown(
    annotation: Annotation,
    name: &str,
    now: Timestamp,
    result: Result<Annotation, DispatchError>,
    documents: Vec<ReviewDiffDocument>,
    view: AnnotationView,
    state: AnnotationState,
)
    requires
        call_ensures(set_annotation_state, (annotation, name, now), result),
        names_state(name@, state),
        result matches Ok(changed) ==> call_ensures(
            annotation_view,
            (&changed, &documents),
            view,
        ),
        state == AnnotationState::Deleted ==> annotation.anchor is Some,
    ensures
        result matches Ok(changed) && {
            &&& changed.id == annotation.id
            &&& changed.body_markdown == annotation.body_markdown
            &&& changed.kind == annotation.kind
            &&& changed.updated_at == now && changed.created_at == annotation.created_at
            &&& !is_marked_deleted(changed)
            &&& if state == AnnotationState::Resolved && annotation.anchor is Some
                && annotation.anchor->0.outdated {
                view.state@ == "outdated"@
            } else {
                view.state@ == name@
            }
            &&& view.id@ == id_chars(annotation.id.0)
            &&& view.body@ == annotation.body_markdown@
        },
{
    lemma_state_names(name@, state);
    let changed = result->Ok_0;
    lemma_label_is_gone(changed, annotation);
}

proof fn lemma_label_is_gone(changed: Annotation, annotation: Annotation)
    requires
        texts(changed.labels@) == crate::text::texts_but(
            texts(annotation.labels@),
            "localreview:deleted"@,
        ),
    ensures
        !is_marked_deleted(changed),
{
    if is_marked_deleted(changed) {
        let k = choose|k: int|
            0 <= k < changed.labels@.len() && #[trigger] changed.labels@[k]@
                == "localreview:deleted"@;
        assert(texts(changed.labels@)[k] == "localreview:deleted"@);
        lemma_left_texts_differ(texts(annotation.labels@), "localreview:deleted"@, k);
    }
}

proof fn lemma_left_texts_differ(list: Seq<Seq<char>>, text: Seq<char>, k: int)
    requires
        0 <= k < crate::text::texts_but(list, text).len(),
    ensures
        crate::text::texts_but(list, text)[k] != text,
    decreases list.len(),
{
    if list.len() > 0 {
        let rest = crate::text::texts_but(list.drop_last(), text);
        if k < rest.len() {
            lemma_left_texts_differ(list.drop_last(), text, k);
        }
    }
}

proof fn lemma_marked_deleted(annotation: Annotation)
    ensures
        is_marked_deleted(annotation) == soft_deleted(annotation),
{
    if is_marked_deleted(annotation) {
        let k = choose|k: int|
            0 <= k < annotation.labels@.len() && #[trigger] annotation.labels@[k]@
                == "localreview:deleted"@;
        assert(annotation.labels@[k]@ == "localreview:deleted"@);
    }
    if soft_deleted(annotation) {
        let k = choose|k: int|
            0 <= k < annotation.labels@.len() && #[trigger] annotation.labels@[k]@
                == crate::annotations::deleted_label();
        assert(annotation.labels@[k]@ == "localreview:deleted"@);
    }
}

proof fn lemma_kept(annotations: Seq<Annotation>, annotation: Annotation)
    ensures
        kept(annotations).contains(annotation) <==> annotations.contains(annotation)
            && !is_marked_deleted(annotation),
    decreases annotations.len(),
{
    lemma_marked_deleted(annotation);
    if annotations.len() > 0 {
        let rest = annotations.drop_first();
        let left = kept(rest);
        let all = kept(annotations);
        lemma_kept(rest, annotation);
        if annotations.contains(annotation) && !soft_deleted(annotation) {
            let k = choose|k: int| 0 <= k < annotations.len() && annotations[k] == annotation;
            if k == 0 {
                assert(all[0] == annotation);
            } else {
                assert(rest[k - 1] == annotation);
                let m = choose|m: int| 0 <= m < left.len() && left[m] == annotation;
                assert(all[all.len() - left.len() + m] == annotation);
            }
        }
        if all.contains(annotation) {
            let m = choose|m: int| 0 <= m < all.len() && all[m] == annotation;
            if m < all.len() - left.len() {
                assert(annotations[0] == annotation);
            } else {
                assert(left[m - (all.len() - left.len())] == annotation);
                let k = choose|k: int| 0 <= k < rest.len() && rest[k] == annotation;
                assert(annotations[k + 1] == annotation);
            }
        }
    }
}

proof fn lemma_kept_concat(a: Seq<Annotation>, b: Seq<Annotation>)
    ensures
        kept(a + b) == kept(a) + kept(b),
    decreases a.len(),
{
    if a.len() == 0 {
        assert(a + b =~= b);
        assert(kept(a) + kept(b) =~= kept(b));
    } else {
        assert((a + b).drop_first() =~= a.drop_first() + b);
        lemma_kept_concat(a.drop_first(), b);
        assert(kept(a + b) =~= kept(a) + kept(b));
    }
}

/// Deleted annotations go and all others stay.
pub proof fn law_only_deleted_annotations_are_left_out(
    annotations: Vec<Annotation>,
    left: Vec<Annotation>,
    annotation: Annotation,
)
    requires
        call_ensures(kept_annotations, (annotations,), left),
    ensures
        left@.contains(annotation) <==> annotations@.contains(annotation) && !is_marked_deleted(
            annotation,
        ),
{
    lemma_kept(annotations@, annotation);
}

/// What stays keeps its order: of one list behind another, what stays of the
/// first stands before what stays of the second.
pub proof fn law_annotations_that_stay_keep_their_order(
    first: (Vec<Annotation>, Vec<Annotation>),
    second: (Vec<Annotation>, Vec<Annotation>),
    both: (Vec<Annotation>, Vec<Annotation>),
)
    requires
        call_ensures(kept_annotations, (first.0,), first.1),
        call_ensures(kept_annotations, (second.0,), second.1),
        call_ensures(kept_annotations, (both.0,), both.1),
        both.0@ == first.0@ + second.0@,
    ensures
        both.1@ == first.1@ + second.1@,
{
    lemma_kept_concat(first.0@, second.0@);
}

/// Deleting an annotation takes it out of what is shown, and changes nothing
/// that it says.
pub proof fn law_deleted_annotations_are_not_shown(
    annotation: Annotation,
    now: Timestamp,
    deleted: Annotation,
    annotations: Vec<Annotation>,
    left: Vec<Annotation>,
)
    requires
        call_ensures(delete_annotation, (annotation, now), deleted),
        call_ensures(kept_annotations, (annotations,), left),
        annotations@.contains(deleted),
    ensures
        !left@.contains(deleted),
        deleted.id == annotation.id,
        deleted.body_markdown == annotation.body_markdown,
        deleted.anchor == annotation.anchor,
{
    law_only_deleted_annotations_are_left_out(annotations, left, deleted);
    let k = choose|k: int|
        0 <= k < deleted.labels@.len() && #[trigger] deleted.labels@[k]@
            == crate::annotations::deleted_label();
    assert(deleted.labels@[k]@ == "localreview:deleted"@);
}

/// How many annotations that were not deleted are about a file.
pub open spec fn live_annotations(annotations: Seq<Annotation>, document: ReviewDiffDocument) -> nat
    decreases annotations.len(),
{
    if annotations.len() == 0 {
        0
    } else {
        live_annotations(annotations.drop_last(), document) + if is_on_file(
            annotations.last(),
            document,
        ) && !is_marked_deleted(annotations.last()) {
            1nat
        } else {
            0
        }
    }
}

proof fn lemma_live(annotations: Seq<Annotation>, document: ReviewDiffDocument)
    ensures
        annotations_about(annotations, document) == live_annotations(annotations, document),
    decreases annotations.len(),
{
    if annotations.len() > 0 {
        lemma_live(annotations.drop_last(), document);
        lemma_marked_deleted(annotations.last());
    }
}

/// A review lists every captured file in order, with its path and former path,
/// its changed lines on either side, its hunks, its annotations that were not
/// deleted, and whether it was viewed; and it shows every annotation.
pub proof fn law_reviews_list_every_captured_file(
    workspace: WorkspaceView,
    default_base: &str,
    repositories: Vec<Repository>,
    review: CapturedReview,
    history: Vec<ReviewHistoryItem>,
    historical: bool,
    result: Result<ReviewData, DispatchError>,
    index: int,
)
    requires
        review.languages@.len() == review.documents@.len(),
        review.viewed.wf(),
        call_ensures(
            review_data_for_session,
            (workspace, default_base, &repositories, &review, history, historical),
            result,
        ),
        result is Ok,
        0 <= index < review.documents@.len(),
        review.documents@[index].changed_new_lines@.len() <= u32::MAX,
        review.documents@[index].changed_old_lines@.len() <= u32::MAX,
    ensures
        ({
            let data = result->Ok_0;
            let file = data.files@[index];
            let document = review.documents@[index];
            &&& data.files@.len() == review.documents@.len()
            &&& data.annotations@.len() == review.annotations@.len()
            &&& data.repositories@.len() == repositories@.len()
            &&& file.id@ == id_chars(document.file.id.0)
            &&& file.path@ == document.file.path@
            &&& file.previous_path is Some <==> document.file.old_path is Some
            &&& file.previous_path matches Some(path) ==> path@ == document.file.old_path->0@
            &&& file.additions == document.changed_new_lines@.len()
            &&& file.deletions == document.changed_old_lines@.len()
            &&& file.hunk_count == document.hunks@.len()
            &&& file.annotation_count == live_annotations(review.annotations@, document)
            &&& file.viewed == review.viewed@.contains(id_chars(document.file.id.0))
            &&& file.language@ == review.languages@[index]@
            &&& document.file.status == ReviewFileStatus::Deleted ==> file.status@ == "deleted"@
            &&& document.file.status == ReviewFileStatus::Added ==> file.status@ == "added"@
            &&& document.file.status == ReviewFileStatus::Modified ==> file.status@ == "modified"@
            &&& document.file.status == ReviewFileStatus::Renamed ==> file.status@ == "renamed"@
            &&& data.historical == historical
            &&& data.historical_session_id is Some <==> historical
        }),
{
    let data = result->Ok_0;
    lemma_live(review.annotations@, review.documents@[index]);
    assert(crate::review::shows_file(data.files@[index], review, index));
    assert(crate::annotations::annotation_models(data.annotations@).len()
        == data.annotations@.len());
}

} // verus!
