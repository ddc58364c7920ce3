//! Which review round a captured comparison belongs to, and what a request may reach through it.
use crate::annotations::Annotation;
use crate::errors::{invalid, not_found, DispatchError};
use crate::ids::{
    id_chars, id_text, parse_review_file_id, parse_workspace_id, parsed_id, AnnotationId,
    ComparisonId, ReviewFileId, WorkspaceId,
};
use crate::repositories::SourceKind;
use crate::review::{kept, kept_annotations};
use crate::sessions::{ReviewSession, ReviewSessionStatus};
use crate::text::starts_with;
use crate::views::{AnnotationDraft, CopyReviewItemRequest};
use vstd::prelude::*;
use vstd::string::*;

verus! {

/// A review round with the comparisons that it currently shows.
pub struct SessionRecord {
    pub session: ReviewSession,
    pub comparisons: Vec<ComparisonId>,
}

/// Whether a list of comparisons holds one of them.
pub fn lists_comparison(comparisons: &Vec<ComparisonId>, id: ComparisonId) -> (found: bool)
    ensures
        found == comparisons@.contains(id),
{
    let mut i: usize = 0;
    while i < comparisons.len()
        invariant
            i <= comparisons.len(),
            forall|j: int| 0 <= j < i ==> #[trigger] comparisons@[j] != id,
        decreases comparisons.len() - i,
    {
        if comparisons[i] == id {
            assert(comparisons@[i as int] == id);
            return true;
        }
        i += 1;
    }
    false
}

/// Whether the round at a place is the first that shows a comparison.
pub open spec fn is_first_owner(
    records: Seq<SessionRecord>,
    id: ComparisonId,
    index: int,
) -> bool {
    &&& 0 <= index < records.len()
    &&& records[index].comparisons@.contains(id)
    &&& forall|j: int| 0 <= j < index ==> !(#[trigger] records[j]).comparisons@.contains(id)
}

/// Whether no round shows a comparison.
pub open spec fn is_unowned(records: Seq<SessionRecord>, id: ComparisonId) -> bool {
    forall|j: int| 0 <= j < records.len() ==> !(#[trigger] records[j]).comparisons@.contains(id)
}

/// Finds the round that a comparison belongs to, the first in the given order.
pub fn session_for_comparison(records: &Vec<SessionRecord>, id: ComparisonId) -> (found: Option<
    usize,
>)
    ensures
        match found {
            Some(index) => is_first_owner(records@, id, index as int),
            None => is_unowned(records@, id),
        },
{
    let mut i: usize = 0;
    while i < records.len()
        invariant
            i <= records.len(),
            forall|j: int| 0 <= j < i ==> !(#[trigger] records@[j]).comparisons@.contains(id),
        decreases records.len() - i,
    {
        if lists_comparison(&records[i].comparisons, id) {
            return Some(i);
        }
        i += 1;
    }
    None
}

/// What a captured file is looked up for.
#[derive(Clone, Copy, Debug, PartialEq, Eq, Structural)]
pub enum Purpose {
    /// Showing rows, locations or source text.
    Presentation,
    /// Listing symbols.
    Outline,
    /// Widening the context of a hunk.
    HunkContext,
    /// Writing an annotation.
    Annotation,
}

/// How the refusal of a file that belongs to no round reads.
pub open spec fn unowned_chars(purpose: Purpose) -> Seq<char> {
    match purpose {
        Purpose::Presentation => "file is not part of a retained immutable review"@,
        Purpose::Outline => "file is not part of a retained review"@,
        Purpose::HunkContext => "file is not part of an active review"@,
        Purpose::Annotation => "the file does not belong to an active review"@,
    }
}

/// The round that a file's comparison belongs to, or the refusal to use the file.
pub fn require_session(records: &Vec<SessionRecord>, id: ComparisonId, purpose: Purpose) -> (result:
    Result<ReviewSession, DispatchError>)
    ensures
        match result {
            Ok(session) => exists|index: int| #[trigger]
                is_first_owner(records@, id, index) && session == records@[index].session,
            Err(error) => is_unowned(records@, id) && error.is_invalid(unowned_chars(purpose)),
        },
{
    match session_for_comparison(records, id) {
        Some(index) => {
            assert(is_first_owner(records@, id, index as int));
            Ok(records[index].session)
        },
        None => Err(
            invalid(
                match purpose {
                    Purpose::Presentation => "file is not part of a retained immutable review",
                    Purpose::Outline => "file is not part of a retained review",
                    Purpose::HunkContext => "file is not part of an active review",
                    Purpose::Annotation => "the file does not belong to an active review",
                },
            ),
        ),
    }
}

/// The annotations of several sets, one set after the other.
pub open spec fn joined(sets: Seq<Vec<Annotation>>) -> Seq<Annotation>
    decreases sets.len(),
{
    if sets.len() == 0 {
        Seq::empty()
    } else {
        joined(sets.drop_last()) + sets.last()@
    }
}

fn join_sets(sets: Vec<Vec<Annotation>>) -> (all: Vec<Annotation>)
    ensures
        all@ == joined(sets@),
{
    let ghost before = sets@;
    let mut rest = sets;
    let mut all: Vec<Annotation> = Vec::new();
    assert(before.take(0) =~= Seq::empty());
    assert(before.skip(0) =~= before);
    let ghost mut done: int = 0;
    while rest.len() > 0
        invariant
            0 <= done <= before.len(),
            rest@ == before.skip(done),
            all@ == joined(before.take(done)),
        decreases rest.len(),
    {
        let mut set = rest.remove(0);
        proof {
            assert(before.take(done + 1).drop_last() =~= before.take(done));
            assert(before.take(done + 1).last() == before[done]);
            assert(rest@ =~= before.skip(done + 1));
            done = done + 1;
        }
        all.append(&mut set);
    }
    assert(before.take(done) =~= before);
    all
}

/// The annotations that a round shows: those of its active set while it goes on, those of all
/// its sets once it has ended, and never a deleted one.
pub fn annotations_for_session(
    session: &ReviewSession,
    active: Option<Vec<Annotation>>,
    sets: Vec<Vec<Annotation>>,
) -> (result: Result<Vec<Annotation>, DispatchError>)
    ensures
        if session.status == ReviewSessionStatus::Active {
            match active {
                Some(annotations) => result matches Ok(shown) && shown@ == kept(annotations@),
                None => result matches Err(error) && error.is_invalid(
                    "active review has no annotation set"@,
                ),
            }
        } else {
            result matches Ok(shown) && shown@ == kept(joined(sets@))
        },
{
    if session.status == ReviewSessionStatus::Active {
        match active {
            Some(annotations) => Ok(kept_annotations(annotations)),
            None => Err(invalid("active review has no annotation set")),
        }
    } else {
        Ok(kept_annotations(join_sets(sets)))
    }
}

/// The place of an annotation in the active set, `None` for a round without one.
pub fn active_annotation(annotations: Option<&Vec<Annotation>>, id: AnnotationId) -> (result:
    Result<usize, DispatchError>)
    ensures
        match (annotations, result) {
            (None, Ok(_)) => false,
            (None, Err(error)) => error.is_invalid("active review has no annotation set"@),
            (Some(listed), Ok(index)) => {
                &&& index < listed@.len()
                &&& listed@[index as int].id == id
                &&& forall|j: int| 0 <= j < index ==> (#[trigger] listed@[j]).id != id
            },
            (Some(listed), Err(error)) => {
                &&& error.is_not_found(id_chars(id.0))
                &&& forall|j: int| 0 <= j < listed@.len() ==> (#[trigger] listed@[j]).id != id
            },
        },
{
    let listed = match annotations {
        Some(listed) => listed,
        None => {
            return Err(invalid("active review has no annotation set"));
        },
    };
    let mut i: usize = 0;
    while i < listed.len()
        invariant
            i <= listed.len(),
            annotations == Some(listed),
            forall|j: int| 0 <= j < i ==> (#[trigger] listed@[j]).id != id,
        decreases listed.len() - i,
    {
        if listed[i].id == id {
            return Ok(i);
        }
        i += 1;
    }
    Err(not_found(id_text(id.0).as_str()))
}

/// Checks the folder of a workspace that is to be opened: its path starts at the root.
pub fn check_workspace_path(path: &str) -> (result: Result<(), DispatchError>)
    ensures
        if path@.len() > 0 && path@[0] == '/' {
            result is Ok
        } else {
            result matches Err(error) && error.is_invalid(
                "workspace path must be absolute after CLI resolution"@,
            )
        },
{
    proof {
        reveal_strlit("/");
        assert("/"@ =~= seq!['/']);
        if path@.len() > 0 {
            assert(path@.take(1) =~= seq![path@[0]]);
            assert(seq![path@[0]][0] == path@[0]);
        }
    }
    if starts_with(path, "/") {
        Ok(())
    } else {
        Err(invalid("workspace path must be absolute after CLI resolution"))
    }
}

/// Whether a workspace stays open although its first capture failed: it does where the capture
/// failed for want of any repository that could be captured, and for this very workspace.
pub fn stays_open(workspace_id: WorkspaceId, captured_nothing_of: Option<WorkspaceId>) -> (stays:
    bool)
    ensures
        stays == (captured_nothing_of == Some(workspace_id)),
{
    match captured_nothing_of {
        Some(id) => id == workspace_id,
        None => false,
    }
}

/// Checks that a workspace can be reconnected.
pub fn check_ssh_workspace(source: SourceKind) -> (result: Result<(), DispatchError>)
    ensures
        if source == SourceKind::Remote {
            result is Ok
        } else {
            result matches Err(error) && error.is_invalid("workspace is not an SSH review"@)
        },
{
    if source == SourceKind::Remote {
        Ok(())
    } else {
        Err(invalid("workspace is not an SSH review"))
    }
}

/// Reads the workspace that a draft names.
pub fn draft_workspace(draft: &AnnotationDraft) -> (result: Result<WorkspaceId, DispatchError>)
    ensures
        match parsed_id(draft.workspace_id@) {
            Some(number) => result == Ok::<WorkspaceId, DispatchError>(WorkspaceId(number)),
            None => result matches Err(error) && error.is_invalid("draft workspaceId is invalid"@),
        },
{
    match parse_workspace_id(draft.workspace_id.as_str()) {
        Some(id) => Ok(id),
        None => Err(invalid("draft workspaceId is invalid")),
    }
}

/// Reads the file that a copy request names.
pub fn copied_file(request: &CopyReviewItemRequest) -> (result: Result<ReviewFileId, DispatchError>)
    ensures
        match parsed_id(request.file_id@) {
            Some(number) => result == Ok::<ReviewFileId, DispatchError>(ReviewFileId(number)),
            None => result matches Err(error) && error.is_invalid(
                "copy request fileId is invalid"@,
            ),
        },
{
    match parse_review_file_id(request.file_id.as_str()) {
        Some(id) => Ok(id),
        None => Err(invalid("copy request fileId is invalid")),
    }
}

/// Checks that a file that is to be copied belongs to the active review.
pub fn check_copied_file(comparisons: &Vec<ComparisonId>, id: ComparisonId) -> (result: Result<
    (),
    DispatchError,
>)
    ensures
        if comparisons@.contains(id) {
            result is Ok
        } else {
            result matches Err(error) && error.is_invalid("file is not in the active review"@)
        },
{
    if lists_comparison(comparisons, id) {
        Ok(())
    } else {
        Err(invalid("file is not in the active review"))
    }
}

/// A comparison that one round shows is found in that round wherever it stands, as long as no
/// other round shows it.
pub proof fn law_sole_owner_is_found(records: Seq<SessionRecord>, id: ComparisonId, index: int)
    requires
        0 <= index < records.len(),
        records[index].comparisons@.contains(id),
        forall|j: int|
            0 <= j < records.len() && j != index ==> !(#[trigger] records[j]).comparisons@.contains(
                id,
            ),
    ensures
        is_first_owner(records, id, index),
        forall|other: int| is_first_owner(records, id, other) ==> other == index,
{
}

} // verus!
