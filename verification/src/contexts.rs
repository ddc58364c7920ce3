//! What is known around a review: its pull request, commits and attributions.
use crate::document::{parse_side, side_chars, side_name, DiffSide};
use crate::errors::{invalid, DispatchError};
use crate::ids::{
    id_chars, id_text, parse_repository_id, parse_review_file_id, parsed_id, ComparisonId,
    RepositoryId, ReviewFileId, WorkspaceId,
};
use crate::annotations::named_side;
use crate::ownership::lists_comparison;
use crate::repositories::SourceKind;
use crate::text::{copy_opt, opt_text};
use crate::time::{opt_time_chars, opt_time_text, Timestamp};
use crate::views::{
    BlameLineView, CapturedBlameInput, CapturedBlameView, CapturedCommitContextView,
    ChangedSincePreviousReviewView, CommitContextInput, CommitDetailsView, CommitRangeView,
    CommitSummaryView, GitHubCommitContextView, GitHubPullRequestContextView,
    GitHubPullRequestUpdateStatusView, ImportedGitHubConversationCommentView,
    ImportedGitHubReviewCommentView, ImportedGitHubReviewThreadView, PreviousReviewFileView,
    ReviewFileClassificationView, ReviewFileClassificationViewFacts,
};
use vstd::prelude::*;
use vstd::string::*;

verus! {

/// A commit of a pull request, as it was imported.
#[derive(Debug)]
pub struct ImportedCommit {
    pub sha: String,
    pub message_headline: String,
    pub authored_at: Option<Timestamp>,
}

/// A pull request, as it was imported.
#[derive(Debug)]
pub struct GitHubPullRequestRecord {
    pub canonical_url: String,
    pub title: String,
    pub author: Option<String>,
    pub base_ref: String,
    pub head_ref: String,
    pub pinned_base_sha: String,
    pub pinned_head_sha: String,
    pub draft: bool,
    pub state: String,
    pub review_decision: Option<String>,
    pub commits: Vec<ImportedCommit>,
    pub import_error: Option<String>,
}

/// Whether a view shows an imported commit.
pub open spec fn shows_commit(view: GitHubCommitContextView, commit: ImportedCommit) -> bool {
    &&& view.sha@ == commit.sha@
    &&& view.message_headline@ == commit.message_headline@
    &&& opt_text(view.authored_at) == opt_time_chars(commit.authored_at)
}

/// Shows an imported pull request.
pub fn github_pull_request_context_view(review: GitHubPullRequestRecord) -> (view:
    GitHubPullRequestContextView)
    ensures
        view.canonical_url == review.canonical_url,
        view.title == review.title,
        view.author == review.author,
        view.base_ref == review.base_ref,
        view.head_ref == review.head_ref,
        view.pinned_base_sha == review.pinned_base_sha,
        view.pinned_head_sha == review.pinned_head_sha,
        view.draft == review.draft,
        view.state == review.state,
        view.review_decision == review.review_decision,
        view.commits@.len() == review.commits@.len(),
        forall|i: int|
            0 <= i < review.commits@.len() ==> shows_commit(
                #[trigger] view.commits@[i],
                review.commits@[i],
            ),
        view.import_error == review.import_error,
{
    let mut commits: Vec<GitHubCommitContextView> = Vec::new();
    while commits.len() < review.commits.len()
        invariant
            commits.len() <= review.commits.len(),
            forall|i: int|
                0 <= i < commits.len() ==> shows_commit(
                    #[trigger] commits@[i],
                    review.commits@[i],
                ),
        decreases review.commits.len() - commits.len(),
    {
        let commit = &review.commits[commits.len()];
        commits.push(
            GitHubCommitContextView {
                sha: commit.sha.clone(),
                message_headline: commit.message_headline.clone(),
                authored_at: opt_time_text(&commit.authored_at),
            },
        );
    }
    GitHubPullRequestContextView {
        canonical_url: review.canonical_url,
        title: review.title,
        author: review.author,
        base_ref: review.base_ref,
        head_ref: review.head_ref,
        pinned_base_sha: review.pinned_base_sha,
        pinned_head_sha: review.pinned_head_sha,
        draft: review.draft,
        state: review.state,
        review_decision: review.review_decision,
        commits,
        import_error: review.import_error,
    }
}

/// A comment of a review thread, as it was imported.
#[derive(Debug)]
pub struct ImportedReviewComment {
    pub id: String,
    pub body_markdown: String,
    pub author: Option<String>,
    pub url: Option<String>,
    pub created_at: Option<Timestamp>,
}

/// A review thread, as it was imported.
#[derive(Debug)]
pub struct ImportedReviewThread {
    pub id: String,
    pub resolved: bool,
    pub outdated: bool,
    pub path: Option<String>,
    pub line: Option<u32>,
    pub original_line: Option<u32>,
    pub comments: Vec<ImportedReviewComment>,
}

/// Whether a view shows an imported comment.
pub open spec fn shows_comment(view: ImportedGitHubReviewCommentView, comment: ImportedReviewComment) -> bool {
    &&& view.id@ == comment.id@
    &&& view.body_markdown@ == comment.body_markdown@
    &&& opt_text(view.author) == opt_text(comment.author)
    &&& opt_text(view.url) == opt_text(comment.url)
    &&& opt_text(view.created_at) == opt_time_chars(comment.created_at)
}

/// Shows an imported review thread.
pub fn imported_github_thread_view(thread: ImportedReviewThread) -> (view:
    ImportedGitHubReviewThreadView)
    ensures
        view.id == thread.id,
        view.resolved == thread.resolved,
        view.outdated == thread.outdated,
        view.path == thread.path,
        view.line == thread.line,
        view.original_line == thread.original_line,
        view.comments@.len() == thread.comments@.len(),
        forall|i: int|
            0 <= i < thread.comments@.len() ==> shows_comment(
                #[trigger] view.comments@[i],
                thread.comments@[i],
            ),
{
    let mut comments: Vec<ImportedGitHubReviewCommentView> = Vec::new();
    while comments.len() < thread.comments.len()
        invariant
            comments.len() <= thread.comments.len(),
            forall|i: int|
                0 <= i < comments.len() ==> shows_comment(
                    #[trigger] comments@[i],
                    thread.comments@[i],
                ),
        decreases thread.comments.len() - comments.len(),
    {
        let comment = &thread.comments[comments.len()];
        comments.push(
            ImportedGitHubReviewCommentView {
                id: comment.id.clone(),
                body_markdown: comment.body_markdown.clone(),
                author: copy_opt(&comment.author),
                url: copy_opt(&comment.url),
                created_at: opt_time_text(&comment.created_at),
            },
        );
    }
    ImportedGitHubReviewThreadView {
        id: thread.id,
        resolved: thread.resolved,
        outdated: thread.outdated,
        path: thread.path,
        line: thread.line,
        original_line: thread.original_line,
        comments,
    }
}

/// A conversation comment, as it was imported.
#[derive(Debug)]
pub struct ImportedConversationComment {
    pub id: u64,
    pub body_markdown: String,
    pub author: Option<String>,
    pub url: Option<String>,
    pub created_at: Option<Timestamp>,
}

/// Shows an imported conversation comment.
pub fn imported_github_conversation_view(comment: ImportedConversationComment) -> (view:
    ImportedGitHubConversationCommentView)
    ensures
        view.id == comment.id,
        view.body_markdown == comment.body_markdown,
        view.author == comment.author,
        view.url == comment.url,
        opt_text(view.created_at) == opt_time_chars(comment.created_at),
{
    ImportedGitHubConversationCommentView {
        id: comment.id,
        body_markdown: comment.body_markdown,
        author: comment.author,
        url: comment.url,
        created_at: opt_time_text(&comment.created_at),
    }
}

/// What the provider says of a pull request now.
#[derive(Debug)]
pub struct PullRequestUpdateStatus {
    pub workspace_id: WorkspaceId,
    pub canonical_url: String,
    pub pinned_base_sha: String,
    pub pinned_head_sha: String,
    pub current_base_sha: String,
    pub current_head_sha: String,
    pub base_changed: bool,
    pub head_changed: bool,
    pub metadata_fetched_at: Timestamp,
}

/// Shows what the provider says of a pull request now, and says whether it
/// moved.
pub fn update_status_view(status: PullRequestUpdateStatus) -> (shown: (
    GitHubPullRequestUpdateStatusView,
    bool,
))
    ensures
        shown.0.workspace_id@ == id_chars(status.workspace_id.0),
        shown.0.canonical_url == status.canonical_url,
        shown.0.pinned_base_sha == status.pinned_base_sha,
        shown.0.pinned_head_sha == status.pinned_head_sha,
        shown.0.current_base_sha == status.current_base_sha,
        shown.0.current_head_sha == status.current_head_sha,
        shown.0.base_changed == status.base_changed,
        shown.0.head_changed == status.head_changed,
        shown.0.metadata_fetched_at@ == status.metadata_fetched_at.chars(),
        shown.1 == (status.base_changed || status.head_changed),
{
    let moved: bool = status.base_changed || status.head_changed;
    (
        GitHubPullRequestUpdateStatusView {
            workspace_id: id_text(status.workspace_id.0),
            canonical_url: status.canonical_url,
            pinned_base_sha: status.pinned_base_sha,
            pinned_head_sha: status.pinned_head_sha,
            current_base_sha: status.current_base_sha,
            current_head_sha: status.current_head_sha,
            base_changed: status.base_changed,
            head_changed: status.head_changed,
            metadata_fetched_at: status.metadata_fetched_at.to_rfc3339(),
        },
        moved,
    )
}

/// Which captured lines an attribution is asked of.
#[derive(Clone, Copy, Debug, PartialEq, Eq, Structural)]
pub struct BlameTarget {
    pub file_id: ReviewFileId,
    pub side: DiffSide,
}

/// Checks a request for attributions.
pub fn check_blame_request(source: SourceKind, input: &CapturedBlameInput) -> (result: Result<
    BlameTarget,
    DispatchError,
>)
    ensures
        if source != SourceKind::Local {
            result matches Err(error) && error.is_invalid(
                "captured blame is currently available for local workspace reviews only"@,
            )
        } else {
            match (parsed_id(input.file_id@), named_side(input.side@)) {
                (None, _) => result matches Err(error) && error.is_invalid(
                    "blame fileId is invalid"@,
                ),
                (Some(_), None) => result matches Err(error) && error.is_invalid(
                    "annotation side must be old or new"@,
                ),
                (Some(id), Some(side)) => result == Ok::<BlameTarget, DispatchError>(
                    BlameTarget { file_id: ReviewFileId(id), side },
                ),
            }
        },
{
    if source != SourceKind::Local {
        return Err(
            invalid("captured blame is currently available for local workspace reviews only"),
        );
    }
    let file_id: ReviewFileId = match parse_review_file_id(input.file_id.as_str()) {
        Some(id) => id,
        None => {
            return Err(invalid("blame fileId is invalid"));
        },
    };
    match parse_side(input.side.as_str()) {
        Ok(side) => Ok(BlameTarget { file_id, side }),
        Err(error) => Err(error),
    }
}

/// Checks that a file belongs to the active review.
pub fn check_blame_file(comparisons: &Vec<ComparisonId>, id: ComparisonId) -> (result: Result<
    (),
    DispatchError,
>)
    ensures
        if comparisons@.contains(id) {
            result is Ok
        } else {
            result matches Err(error) && error.is_invalid(
                "blame file is not part of the active immutable review"@,
            )
        },
{
    if lists_comparison(comparisons, id) {
        Ok(())
    } else {
        Err(invalid("blame file is not part of the active immutable review"))
    }
}

/// Shows attributions.
pub fn captured_blame_view(comparison_id: ComparisonId, side: DiffSide, lines: Vec<BlameLineView>) -> (view:
    CapturedBlameView)
    ensures
        view.comparison_id@ == id_chars(comparison_id.0),
        view.side@ == side_chars(side),
        view.lines == lines,
{
    CapturedBlameView {
        comparison_id: id_text(comparison_id.0),
        side: side_name(side).to_owned(),
        lines,
    }
}

/// Which commits to list.
#[derive(Debug)]
pub struct CommitContextPlan {
    pub max_entries: usize,
    pub include_merge_commits: bool,
    pub author_contains: Option<String>,
    pub subject_contains: Option<String>,
    pub selected_commit: Option<String>,
}

/// Checks a request for commits: which repository it is about.
pub fn check_commit_context(source: SourceKind, input: &CommitContextInput) -> (result: Result<
    RepositoryId,
    DispatchError,
>)
    ensures
        if source != SourceKind::Local {
            result matches Err(error) && error.is_invalid(
                "captured commit context is currently available for local workspace reviews only"@,
            )
        } else {
            match parsed_id(input.repository_id@) {
                Some(id) => result == Ok::<RepositoryId, DispatchError>(RepositoryId(id)),
                None => result matches Err(error) && error.is_invalid(
                    "commit-context repositoryId is invalid"@,
                ),
            }
        },
{
    if source != SourceKind::Local {
        return Err(
            invalid(
                "captured commit context is currently available for local workspace reviews only",
            ),
        );
    }
    match parse_repository_id(input.repository_id.as_str()) {
        Some(id) => Ok(id),
        None => Err(invalid("commit-context repositoryId is invalid")),
    }
}

/// Works out which commits to list. `in_review` says whether the repository
/// is in the active review, and `sha_problem` what is wrong with the selected
/// commit, if anything is.
pub fn plan_commit_context(input: CommitContextInput, in_review: bool, sha_problem: Option<String>) -> (result:
    Result<CommitContextPlan, DispatchError>)
    ensures
        if !in_review {
            result matches Err(error) && error.is_invalid("repository is not in the active review"@)
        } else if input.selected_commit is Some && sha_problem is Some {
            result matches Err(error) && error.is_invalid(sha_problem->0@)
        } else {
            result == Ok::<CommitContextPlan, DispatchError>(
                CommitContextPlan {
                    max_entries: match input.max_entries {
                        Some(count) => count,
                        None => 100,
                    },
                    include_merge_commits: match input.include_merge_commits {
                        Some(choice) => choice,
                        None => true,
                    },
                    author_contains: input.author_contains,
                    subject_contains: input.subject_contains,
                    selected_commit: input.selected_commit,
                },
            )
        },
{
    if !in_review {
        return Err(invalid("repository is not in the active review"));
    }
    if input.selected_commit.is_some() {
        match sha_problem {
            Some(problem) => {
                return Err(DispatchError::Invalid(problem));
            },
            None => {},
        }
    }
    let max_entries: usize = match input.max_entries {
        Some(count) => count,
        None => 100,
    };
    let include_merge_commits: bool = match input.include_merge_commits {
        Some(choice) => choice,
        None => true,
    };
    Ok(
        CommitContextPlan {
            max_entries,
            include_merge_commits,
            author_contains: input.author_contains,
            subject_contains: input.subject_contains,
            selected_commit: input.selected_commit,
        },
    )
}

/// Shows the commits of a captured range.
pub fn commit_context_view(
    comparison_id: ComparisonId,
    range: CommitRangeView,
    commits: Vec<CommitSummaryView>,
    truncated: bool,
    selected_commit: Option<CommitDetailsView>,
) -> (view: CapturedCommitContextView)
    ensures
        view.comparison_id@ == id_chars(comparison_id.0),
        view.range == range,
        view.commits == commits,
        view.truncated == truncated,
        view.selected_commit == selected_commit,
{
    CapturedCommitContextView {
        comparison_id: id_text(comparison_id.0),
        range,
        commits,
        truncated,
        selected_commit,
    }
}

/// How a file changed between two review rounds.
#[derive(Clone, Copy, Debug, PartialEq, Eq, Structural)]
pub enum PreviousReviewFileChangeKind {
    Added,
    Removed,
    Renamed,
    Modified,
    Unchanged,
}

/// The name of a change.
pub open spec fn change_chars(kind: PreviousReviewFileChangeKind) -> Seq<char> {
    match kind {
        PreviousReviewFileChangeKind::Added => "added"@,
        PreviousReviewFileChangeKind::Removed => "removed"@,
        PreviousReviewFileChangeKind::Renamed => "renamed"@,
        PreviousReviewFileChangeKind::Modified => "modified"@,
        PreviousReviewFileChangeKind::Unchanged => "unchanged"@,
    }
}

/// The name of a change.
pub fn previous_review_change_name(kind: PreviousReviewFileChangeKind) -> (name: &'static str)
    ensures
        name@ == change_chars(kind),
{
    match kind {
        PreviousReviewFileChangeKind::Added => "added",
        PreviousReviewFileChangeKind::Removed => "removed",
        PreviousReviewFileChangeKind::Renamed => "renamed",
        PreviousReviewFileChangeKind::Modified => "modified",
        PreviousReviewFileChangeKind::Unchanged => "unchanged",
    }
}

/// A file that changed between two review rounds.
#[derive(Debug)]
pub struct PreviousReviewFile {
    pub kind: PreviousReviewFileChangeKind,
    pub path: String,
    pub previous_path: Option<String>,
    pub current_file_id: Option<ReviewFileId>,
    pub previous_file_id: Option<ReviewFileId>,
    pub current_document_fingerprint: Option<String>,
    pub previous_document_fingerprint: Option<String>,
}

/// The text of an optional file id.
pub open spec fn opt_id_chars(id: Option<ReviewFileId>) -> Option<Seq<char>> {
    match id {
        Some(found) => Some(id_chars(found.0)),
        None => None,
    }
}

fn opt_id_text(id: Option<ReviewFileId>) -> (text: Option<String>)
    ensures
        opt_text(text) == opt_id_chars(id),
{
    match id {
        Some(found) => Some(id_text(found.0)),
        None => None,
    }
}

/// Whether a view shows a file that changed between two review rounds.
pub open spec fn shows_change(view: PreviousReviewFileView, file: PreviousReviewFile) -> bool {
    &&& view.kind@ == change_chars(file.kind)
    &&& view.path@ == file.path@
    &&& view.previous_path == file.previous_path
    &&& opt_text(view.current_file_id) == opt_id_chars(file.current_file_id)
    &&& opt_text(view.previous_file_id) == opt_id_chars(file.previous_file_id)
    &&& view.current_document_fingerprint == file.current_document_fingerprint
    &&& view.previous_document_fingerprint == file.previous_document_fingerprint
}

/// Shows what changed between two review rounds.
pub fn changed_since_view(
    current: ComparisonId,
    previous: Option<ComparisonId>,
    files: &Vec<PreviousReviewFile>,
    truncated: bool,
) -> (view: ChangedSincePreviousReviewView)
    ensures
        view.current_comparison_id@ == id_chars(current.0),
        opt_text(view.previous_comparison_id) == match previous {
            Some(id) => Some(id_chars(id.0)),
            None => None,
        },
        view.files@.len() == files@.len(),
        forall|i: int|
            0 <= i < files@.len() ==> shows_change(#[trigger] view.files@[i], files@[i]),
        view.truncated == truncated,
{
    let mut shown: Vec<PreviousReviewFileView> = Vec::new();
    while shown.len() < files.len()
        invariant
            shown.len() <= files.len(),
            forall|i: int|
                0 <= i < shown.len() ==> shows_change(#[trigger] shown@[i], files@[i]),
        decreases files.len() - shown.len(),
    {
        let file = &files[shown.len()];
        shown.push(
            PreviousReviewFileView {
                kind: previous_review_change_name(file.kind).to_owned(),
                path: file.path.clone(),
                previous_path: copy_opt(&file.previous_path),
                current_file_id: opt_id_text(file.current_file_id),
                previous_file_id: opt_id_text(file.previous_file_id),
                current_document_fingerprint: copy_opt(
                    &file.current_document_fingerprint,
                ),
                previous_document_fingerprint: copy_opt(
                    &file.previous_document_fingerprint,
                ),
            },
        );
    }
    let previous_comparison_id: Option<String> = match previous {
        Some(id) => Some(id_text(id.0)),
        None => None,
    };
    ChangedSincePreviousReviewView {
        current_comparison_id: id_text(current.0),
        previous_comparison_id,
        files: shown,
        truncated,
    }
}

/// Reads which repository the comparison of review rounds is about.
pub fn parse_history_repository(repository_id: &str) -> (result: Result<RepositoryId, DispatchError>)
    ensures
        match parsed_id(repository_id@) {
            Some(id) => result == Ok::<RepositoryId, DispatchError>(RepositoryId(id)),
            None => result matches Err(error) && error.is_invalid(
                "history repositoryId is invalid"@,
            ),
        },
{
    match parse_repository_id(repository_id) {
        Some(id) => Ok(id),
        None => Err(invalid("history repositoryId is invalid")),
    }
}

/// Shows what was known of a file when it was captured.
pub fn classification_view(
    comparison_id: ComparisonId,
    file_id: ReviewFileId,
    path: String,
    facts: ReviewFileClassificationViewFacts,
) -> (view: ReviewFileClassificationView)
    ensures
        view.comparison_id@ == id_chars(comparison_id.0),
        view.file_id@ == id_chars(file_id.0),
        view.path == path,
        view.classification == facts,
{
    ReviewFileClassificationView {
        comparison_id: id_text(comparison_id.0),
        file_id: id_text(file_id.0),
        path,
        classification: facts,
    }
}

} // verus!
