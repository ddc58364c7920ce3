//! Submitting a review to its provider.
use crate::errors::{invalid, not_found, DispatchError};
use crate::ids::{id_chars, id_text, AnnotationId};
use crate::prompt::{first_bad_id, parse_annotation_ids, read_ids};
use crate::settings::{breaks_line, holds_line_break};
use crate::text::{decimal, decimal_text, text_eq, texts};
use crate::views::{
    FinishReviewInput, FinishReviewPreview, FinishReviewResult, FinishReviewSubmissionInput,
};
use vstd::prelude::*;
use vstd::string::*;
use vstd::utf8::*;

verus! {

/// The longest token of a preview, in bytes.
pub const MAX_TOKEN_BYTES: usize = 256;

/// Whether a text can be the token of a preview.
pub open spec fn is_preview_token(token: Seq<char>) -> bool {
    &&& 0 < encode_utf8(token).len() <= MAX_TOKEN_BYTES
    &&& !breaks_line(token)
}

/// Refuses what cannot be the token of a preview.
pub fn check_preview_token(submission: &FinishReviewSubmissionInput) -> (result: Result<
    (),
    DispatchError,
>)
    ensures
        if is_preview_token(submission.preview_token@) {
            result is Ok
        } else {
            result matches Err(error) && error.is_invalid("preview token is invalid"@)
        },
{
    let token: &str = submission.preview_token.as_str();
    let length: usize = token.as_bytes().len();
    if length == 0 || length > MAX_TOKEN_BYTES || holds_line_break(token) {
        return Err(invalid("preview token is invalid"));
    }
    Ok(())
}

/// How far a submission has come.
#[derive(Clone, Copy, Debug, PartialEq, Eq, Structural)]
pub enum GitHubPublicationStatus {
    Previewed,
    Prepared,
    Submitted,
    Reconciled,
    Abandoned,
}

/// What is on record of a submission.
#[derive(Debug)]
pub struct PublicationRecord {
    pub id: String,
    pub preview_token: String,
    pub status: GitHubPublicationStatus,
    pub remote_review_id: Option<u64>,
    pub annotation_ids: Vec<AnnotationId>,
    pub payload_json: String,
}

/// Whether a submission may be given up: one that was only previewed may, and
/// one whose outcome is open may where that was confirmed.
pub open spec fn may_abandon(status: GitHubPublicationStatus, confirm_prepared: bool) -> bool {
    status == GitHubPublicationStatus::Previewed || (confirm_prepared && status
        == GitHubPublicationStatus::Prepared)
}

/// Checks that the submission with a token may be given up.
pub fn check_abandon(
    submission: &FinishReviewSubmissionInput,
    record: Option<&PublicationRecord>,
    confirm_prepared: bool,
) -> (result: Result<(), DispatchError>)
    ensures
        if !is_preview_token(submission.preview_token@) {
            result matches Err(error) && error.is_invalid("preview token is invalid"@)
        } else {
            match record {
                Some(found) => if found.preview_token@ != submission.preview_token@ {
                    result matches Err(error) && error.is_not_found(submission.preview_token@)
                } else if may_abandon(found.status, confirm_prepared) {
                    result is Ok
                } else {
                    result matches Err(error) && error.is_invalid(
                        "only an unused Previewed token, or an explicitly confirmed unresolved Prepared token, can be abandoned"@,
                    )
                },
                None => result matches Err(error) && error.is_not_found(submission.preview_token@),
            }
        },
{
    match check_preview_token(submission) {
        Ok(_) => {},
        Err(error) => {
            return Err(error);
        },
    }
    let found = match record {
        Some(found) => found,
        None => {
            return Err(not_found(submission.preview_token.as_str()));
        },
    };
    if !text_eq(found.preview_token.as_str(), submission.preview_token.as_str()) {
        return Err(not_found(submission.preview_token.as_str()));
    }
    if found.status == GitHubPublicationStatus::Previewed || (confirm_prepared && found.status
        == GitHubPublicationStatus::Prepared) {
        Ok(())
    } else {
        Err(
            invalid(
                "only an unused Previewed token, or an explicitly confirmed unresolved Prepared token, can be abandoned",
            ),
        )
    }
}

/// Without a confirmation, a submission whose outcome is open is never given
/// up; a finished one never is.
pub proof fn law_open_submissions_need_confirmation(status: GitHubPublicationStatus)
    ensures
        may_abandon(status, false) ==> status == GitHubPublicationStatus::Previewed,
        may_abandon(status, true) ==> status == GitHubPublicationStatus::Previewed || status
            == GitHubPublicationStatus::Prepared,
{
}

/// How many annotations a submission has at most.
pub const MAX_SUBMITTED_ANNOTATIONS: usize = 10000;

/// The longest summary of a submission, in bytes.
pub const MAX_SUMMARY_BYTES: usize = 100000;

/// Checks what a submission is to hold: the annotations that it names.
pub fn check_finish_request(request: &FinishReviewInput) -> (result: Result<
    Vec<AnnotationId>,
    DispatchError,
>)
    ensures
        if request.annotation_ids@.len() > MAX_SUBMITTED_ANNOTATIONS || encode_utf8(
            request.summary@,
        ).len() > MAX_SUMMARY_BYTES {
            result matches Err(error) && error.is_invalid("review payload is too large"@)
        } else {
            match first_bad_id(request.annotation_ids@) {
                Some(text) => result matches Err(error) && error.is_invalid(
                    "annotation id is invalid: "@ + text,
                ),
                None => result matches Ok(ids) && ids@ == read_ids(request.annotation_ids@),
            }
        },
{
    if request.annotation_ids.len() > MAX_SUBMITTED_ANNOTATIONS
        || request.summary.as_str().as_bytes().len() > MAX_SUMMARY_BYTES {
        return Err(invalid("review payload is too large"));
    }
    parse_annotation_ids(&request.annotation_ids)
}

/// How the status of a finished submission reads.
pub open spec fn publication_chars(status: GitHubPublicationStatus) -> Seq<char> {
    match status {
        GitHubPublicationStatus::Submitted => "submitted"@,
        GitHubPublicationStatus::Reconciled => "reconciled"@,
        _ => "unexpected"@,
    }
}

/// The texts of some annotation ids.
pub open spec fn id_list(ids: Seq<AnnotationId>) -> Seq<Seq<char>> {
    ids.map_values(|id: AnnotationId| id_chars(id.0))
}

fn id_texts(ids: &Vec<AnnotationId>) -> (list: Vec<String>)
    ensures
        texts(list@) == id_list(ids@),
{
    let mut list: Vec<String> = Vec::new();
    while list.len() < ids.len()
        invariant
            list.len() <= ids.len(),
            texts(list@) =~= id_list(ids@).take(list.len() as int),
        decreases ids.len() - list.len(),
    {
        let ghost before = texts(list@);
        let next: usize = list.len();
        list.push(id_text(ids[next].0));
        assert(texts(list@) =~= before.push(id_list(ids@)[next as int]));
    }
    assert(texts(list@) =~= id_list(ids@));
    list
}

/// Says what became of a submission.
pub fn finish_result(record: PublicationRecord, annotation_count: usize) -> (result:
    FinishReviewResult)
    ensures
        result.review_id@ == match record.remote_review_id {
            Some(id) => decimal(id as nat),
            None => record.id@,
        },
        result.annotation_count == annotation_count,
        texts(result.annotation_ids@) == id_list(record.annotation_ids@),
        result.payload_json == record.payload_json,
        result.preview_token == record.preview_token,
        result.publication_status@ == publication_chars(record.status),
        result.submitted,
{
    let review_id = match record.remote_review_id {
        Some(id) => decimal_text(id),
        None => record.id,
    };
    let status: &str = match record.status {
        GitHubPublicationStatus::Submitted => "submitted",
        GitHubPublicationStatus::Reconciled => "reconciled",
        _ => "unexpected",
    };
    FinishReviewResult {
        review_id,
        annotation_count,
        annotation_ids: id_texts(&record.annotation_ids),
        payload_json: record.payload_json,
        preview_token: record.preview_token,
        publication_status: status.to_owned(),
        submitted: true,
    }
}

/// What a submission would send.
#[derive(Debug)]
pub struct PreparedSubmission {
    pub annotation_ids: Vec<AnnotationId>,
    pub payload_json: String,
    pub pinned_head_sha: String,
    pub request_fingerprint: String,
    pub preview_token: String,
    pub preview_request_fingerprint: String,
    pub annotation_snapshot_fingerprint: String,
    pub requires_reconciliation: bool,
}

/// Shows what a submission would send.
pub fn finish_preview(prepared: PreparedSubmission) -> (preview: FinishReviewPreview)
    ensures
        preview.annotation_count == prepared.annotation_ids@.len(),
        texts(preview.annotation_ids@) == id_list(prepared.annotation_ids@),
        preview.payload_json == prepared.payload_json,
        preview.pinned_head_sha == prepared.pinned_head_sha,
        preview.preview_token == prepared.preview_token,
        preview.request_fingerprint == prepared.request_fingerprint,
        preview.preview_request_fingerprint == prepared.preview_request_fingerprint,
        preview.annotation_snapshot_fingerprint == prepared.annotation_snapshot_fingerprint,
        preview.requires_reconciliation == prepared.requires_reconciliation,
{
    FinishReviewPreview {
        annotation_count: prepared.annotation_ids.len(),
        annotation_ids: id_texts(&prepared.annotation_ids),
        payload_json: prepared.payload_json,
        pinned_head_sha: prepared.pinned_head_sha,
        preview_token: prepared.preview_token,
        request_fingerprint: prepared.request_fingerprint,
        preview_request_fingerprint: prepared.preview_request_fingerprint,
        annotation_snapshot_fingerprint: prepared.annotation_snapshot_fingerprint,
        requires_reconciliation: prepared.requires_reconciliation,
    }
}

} // verus!
