//! Review rounds and the sets of annotations that belong to them.
use crate::errors::{invalid, not_found, DispatchError};
use crate::ids::{
    id_chars, id_text, parse_history_review_id, AnnotationSetId, ReviewSessionId, WorkspaceId,
};
use crate::time::Timestamp;
use vstd::prelude::*;
use vstd::string::*;

verus! {

/// Whether a review round goes on.
#[derive(Clone, Copy, Debug, PartialEq, Eq, Structural)]
pub enum ReviewSessionStatus {
    Active,
    Archived,
    Completed,
}

/// A review round of a workspace.
#[derive(Clone, Copy, Debug)]
pub struct ReviewSession {
    pub id: ReviewSessionId,
    pub workspace_id: WorkspaceId,
    pub status: ReviewSessionStatus,
    pub started_at: Timestamp,
    pub refreshed_at: Option<Timestamp>,
    pub archived_at: Option<Timestamp>,
    pub completed_at: Option<Timestamp>,
}

/// A set of annotations of a review round.
#[derive(Clone, Copy, Debug)]
pub struct AnnotationSet {
    pub id: AnnotationSetId,
    pub review_session_id: ReviewSessionId,
    pub sequence: u32,
    pub active: bool,
    pub archived_at: Option<Timestamp>,
    pub created_at: Timestamp,
}

/// A review round that begins.
pub fn new_session(id: ReviewSessionId, workspace_id: WorkspaceId, now: Timestamp) -> (session:
    ReviewSession)
    ensures
        session == (ReviewSession {
            id,
            workspace_id,
            status: ReviewSessionStatus::Active,
            started_at: now,
            refreshed_at: None,
            archived_at: None,
            completed_at: None,
        }),
{
    ReviewSession {
        id,
        workspace_id,
        status: ReviewSessionStatus::Active,
        started_at: now,
        refreshed_at: None,
        archived_at: None,
        completed_at: None,
    }
}

/// The first set of annotations of a review round.
pub fn first_annotation_set(id: AnnotationSetId, session: ReviewSessionId, now: Timestamp) -> (set:
    AnnotationSet)
    ensures
        set == (AnnotationSet {
            id,
            review_session_id: session,
            sequence: 1,
            active: true,
            archived_at: None,
            created_at: now,
        }),
{
    AnnotationSet {
        id,
        review_session_id: session,
        sequence: 1,
        active: true,
        archived_at: None,
        created_at: now,
    }
}

/// Refuses a review round of another workspace.
pub fn ensure_prompt_session_workspace(session: &ReviewSession, workspace_id: WorkspaceId) -> (result:
    Result<(), DispatchError>)
    ensures
        if session.workspace_id == workspace_id {
            result is Ok
        } else {
            result matches Err(error) && error.is_not_found(id_chars(session.id.0))
        },
{
    if session.workspace_id != workspace_id {
        return Err(DispatchError::NotFound(id_text(session.id.0)));
    }
    Ok(())
}

/// Checks that a review round of the history may be browsed: it is one of
/// this workspace, and over.
pub fn check_archived_session(
    session: Option<ReviewSession>,
    workspace_id: WorkspaceId,
    history_id: &str,
) -> (result: Result<ReviewSession, DispatchError>)
    ensures
        match session {
            None => result matches Err(error) && error.is_not_found(history_id@),
            Some(found) => if found.workspace_id != workspace_id {
                result matches Err(error) && error.is_not_found(history_id@)
            } else if found.status == ReviewSessionStatus::Active {
                result matches Err(error) && error.is_invalid(
                    "the active review is already available from the workspace rail"@,
                )
            } else {
                result == Ok::<ReviewSession, DispatchError>(found)
            },
        },
{
    match session {
        None => Err(not_found(history_id)),
        Some(found) => {
            if found.workspace_id != workspace_id {
                return Err(not_found(history_id));
            }
            if found.status == ReviewSessionStatus::Active {
                return Err(
                    invalid("the active review is already available from the workspace rail"),
                );
            }
            Ok(found)
        },
    }
}

/// Reads which review round of the history is meant.
pub fn archived_review_id(history_id: &str) -> (result: Result<ReviewSessionId, DispatchError>)
    ensures
        match crate::ids::id_behind("review:"@, history_id@) {
            Some(value) => result == Ok::<ReviewSessionId, DispatchError>(ReviewSessionId(value)),
            None => result matches Err(error) && error.is_invalid(
                "history item is not an archived review"@,
            ),
        },
{
    match parse_history_review_id(history_id) {
        Some(id) => Ok(id),
        None => Err(invalid("history item is not an archived review")),
    }
}

} // verus!
