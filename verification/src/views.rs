//! The values that cross the boundary between the review logic and its user
//! interface.
use vstd::prelude::*;

verus! {

/// What the desktop window is asked to show.
#[derive(Clone, Debug)]
pub enum DesktopOperation {
    Workspace { workspace_id: String },
    PullRequest { url: String },
    SshWorkspace { target: String },
}

/// The rows of one viewport request, with their hunks, tokens and blocks.
#[derive(Clone, Debug)]
pub struct PresentationWindow {
    pub generation: u64,
    pub mode: String,
    pub file_id: String,
    pub start_row: u32,
    pub total_rows: u32,
    pub rows: Vec<DiffRowView>,
    pub hunks: Vec<HunkLocationView>,
    pub omitted_blocks: Vec<FullFileOmittedBlockView>,
    pub old_tokens: Vec<SyntaxTokenView>,
    pub new_tokens: Vec<SyntaxTokenView>,
    pub highlight_status: String,
    pub highlight_reason: Option<String>,
    pub difftastic: Option<DifftasticPresentationView>,
}

/// Where a source line stands in the complete presentation of a file.
/// `row_index` counts rows of the whole presentation, not of a loaded window.
#[derive(Clone, Debug)]
pub struct PresentationLocation {
    pub row_index: u32,
    pub side: String,
    pub line: u32,
}

/// A complete selection of captured source lines.
#[derive(Clone, Debug)]
pub struct CapturedSourceRange {
    pub text: String,
    pub complete: bool,
}

/// A comment that is being written and has not been saved yet.
#[derive(Clone, Debug)]
pub struct AnnotationDraft {
    pub id: String,
    pub workspace_id: String,
    pub file_id: String,
    pub repository_id: String,
    pub kind: String,
    pub side: String,
    pub start_line: u32,
    pub end_line: u32,
    pub body: String,
    pub updated_at: String,
}

/// Where a hunk starts in a presentation.
#[derive(Clone, Debug)]
pub struct HunkLocationView {
    pub id: String,
    pub row_index: u32,
    pub old_line: Option<u32>,
    pub new_line: Option<u32>,
    pub header: String,
    pub collapsed_context_lines: Option<u32>,
}

/// One highlighted token, as a byte span of its source.
#[derive(Clone, Debug)]
pub struct SyntaxTokenView {
    pub start_byte: u32,
    pub end_byte: u32,
    pub class: String,
}

/// A window of a structural diff.
#[derive(Clone, Debug)]
pub struct DifftasticPresentationView {
    pub status: String,
    pub display: String,
    pub start_row: u32,
    pub total_rows: u32,
    pub chunks: Vec<DifftasticChunkView>,
    pub alignment: Vec<DifftasticAlignmentView>,
    pub fallback: Option<DifftasticFallbackView>,
}

/// Rows of a structural diff that belong together.
#[derive(Clone, Debug)]
pub struct DifftasticChunkView {
    pub rows: Vec<DifftasticRowView>,
}

/// One row of a structural diff.
#[derive(Clone, Debug)]
pub struct DifftasticRowView {
    pub old: Option<DifftasticCellView>,
    pub new: Option<DifftasticCellView>,
}

/// One side of a structural diff row.
#[derive(Clone, Debug)]
pub struct DifftasticCellView {
    pub line_number: u32,
    pub text: String,
    pub changed_spans: Vec<DifftasticSpanView>,
}

/// A changed span of a cell, in UTF-16 positions.
#[derive(Clone, Debug)]
pub struct DifftasticSpanView {
    pub start: u32,
    pub end: u32,
    pub highlight: String,
}

/// Which lines of the two sides stand next to each other.
#[derive(Clone, Debug)]
pub struct DifftasticAlignmentView {
    pub old_line: Option<u32>,
    pub new_line: Option<u32>,
}

/// Why a canonical diff stands in for a structural one.
#[derive(Clone, Debug)]
pub struct DifftasticFallbackView {
    pub reason: String,
    pub detail: Option<String>,
}

/// A symbol in the outline of a file.
#[derive(Clone, Debug)]
pub struct OutlineSymbolView {
    pub id: String,
    pub name: String,
    pub kind: String,
    pub start_line: u32,
    pub end_line: u32,
    pub depth: u16,
    pub side: String,
}

/// What to copy out of a captured file.
#[derive(Clone, Debug)]
pub struct CopyReviewItemRequest {
    pub kind: String,
    pub file_id: String,
    pub side: Option<String>,
    pub start_line: Option<u32>,
    pub end_line: Option<u32>,
}

/// A workspace as the rail shows it.
#[derive(Clone, Debug)]
pub struct WorkspaceView {
    pub id: String,
    pub name: String,
    pub source: Vec<String>,
    pub location: String,
    pub detail: String,
    pub default_base: String,
    pub progress: ReviewProgress,
    pub draft_count: usize,
    pub pinned: bool,
    pub refresh_available: bool,
    pub refresh_available_revision: u64,
    pub connection: String,
    pub review_ready: bool,
    pub archived: bool,
}

/// How many files of a review were viewed.
#[derive(Clone, Debug)]
pub struct ReviewProgress {
    pub viewed: usize,
    pub total: usize,
}

/// Live information on one repository for the setup table.
/// It is never taken from, nor written to, the captured review.
#[derive(Clone, Debug)]
pub struct RepositorySetupView {
    pub id: String,
    pub path: String,
    pub enabled: bool,
    pub branch: String,
    pub clean: Option<bool>,
    pub changed_file_count: Option<usize>,
    pub status_summary: String,
    pub effective_base: String,
    pub suggested_base: Option<String>,
    pub base_source: String,
    pub base_override: Option<String>,
    pub resolved_base_sha: Option<String>,
    pub merge_base_sha: Option<String>,
    pub head_sha: Option<String>,
    pub ahead: Option<u32>,
    pub behind: Option<u32>,
    pub last_fetch_at: Option<String>,
    pub last_fetch_error: Option<String>,
    pub discovery_error: Option<String>,
    pub comparison_error: Option<String>,
    pub status_checked_at: Option<String>,
}

/// A file of a review as the file list shows it.
#[derive(Clone, Debug)]
pub struct ReviewFileView {
    pub id: String,
    pub comparison_id: String,
    pub repository_id: String,
    pub path: String,
    pub previous_path: Option<String>,
    pub status: String,
    pub additions: u32,
    pub deletions: u32,
    pub hunk_count: usize,
    pub language: String,
    pub viewed: bool,
    pub annotation_count: usize,
}

/// What was known of a file when it was captured.
#[derive(Clone, Debug)]
pub struct ReviewFileClassificationView {
    pub comparison_id: String,
    pub file_id: String,
    pub path: String,
    pub classification: ReviewFileClassificationViewFacts,
}

/// The capture-time facts of a file.
#[derive(Clone, Debug)]
pub struct ReviewFileClassificationViewFacts {
    pub generated: bool,
    pub vendored: bool,
    pub lockfile: bool,
    pub binary: bool,
    pub lfs_pointer: bool,
    pub submodule: bool,
}

/// Which captured lines to attribute.
#[derive(Clone, Debug)]
pub struct CapturedBlameInput {
    pub file_id: String,
    pub side: String,
    pub start_line: u32,
    pub end_line: u32,
}

/// Attributed lines of one side of a comparison.
#[derive(Clone, Debug)]
pub struct CapturedBlameView {
    pub comparison_id: String,
    pub side: String,
    pub lines: Vec<BlameLineView>,
}

/// The attribution of one line.
#[derive(Clone, Debug)]
pub struct BlameLineView {
    pub revision: String,
    pub original_line: u32,
    pub final_line: u32,
    pub source_path: String,
    pub author_name: String,
    pub author_email: String,
    pub author_time: String,
    pub summary: String,
    pub source: String,
    pub source_truncated: bool,
}

/// Which commits of a captured range to list.
#[derive(Clone, Debug)]
pub struct CommitContextInput {
    pub repository_id: String,
    pub max_entries: Option<usize>,
    pub include_merge_commits: Option<bool>,
    pub author_contains: Option<String>,
    pub subject_contains: Option<String>,
    pub selected_commit: Option<String>,
}

/// The commits of a captured range.
#[derive(Clone, Debug)]
pub struct CapturedCommitContextView {
    pub comparison_id: String,
    pub range: CommitRangeView,
    pub commits: Vec<CommitSummaryView>,
    pub truncated: bool,
    pub selected_commit: Option<CommitDetailsView>,
}

/// The two ends of a captured commit range.
#[derive(Clone, Debug)]
pub struct CommitRangeView {
    pub merge_base: String,
    pub head: String,
}

/// One commit in a list.
#[derive(Clone, Debug)]
pub struct CommitSummaryView {
    pub sha: String,
    pub parent_shas: Vec<String>,
    pub author_name: String,
    pub author_email: String,
    pub authored_at: String,
    pub subject: String,
}

/// One commit in full.
#[derive(Clone, Debug)]
pub struct CommitDetailsView {
    pub summary: CommitSummaryView,
    pub committer_name: String,
    pub committer_email: String,
    pub committed_at: String,
    pub body: String,
    pub body_truncated: bool,
}

/// What changed between two review rounds.
#[derive(Clone, Debug)]
pub struct ChangedSincePreviousReviewView {
    pub current_comparison_id: String,
    pub previous_comparison_id: Option<String>,
    pub files: Vec<PreviousReviewFileView>,
    pub truncated: bool,
}

/// How one file changed between two review rounds.
#[derive(Clone, Debug)]
pub struct PreviousReviewFileView {
    pub kind: String,
    pub path: String,
    pub previous_path: Option<String>,
    pub current_file_id: Option<String>,
    pub previous_file_id: Option<String>,
    pub current_document_fingerprint: Option<String>,
    pub previous_document_fingerprint: Option<String>,
}

/// Whether a pull request moved since it was captured.
#[derive(Clone, Debug)]
pub struct GitHubPullRequestUpdateStatusView {
    pub workspace_id: String,
    pub canonical_url: String,
    pub pinned_base_sha: String,
    pub pinned_head_sha: String,
    pub current_base_sha: String,
    pub current_head_sha: String,
    pub base_changed: bool,
    pub head_changed: bool,
    pub metadata_fetched_at: String,
}

/// What a pull request says of itself.
#[derive(Clone, Debug)]
pub struct GitHubPullRequestContextView {
    pub canonical_url: String,
    pub title: String,
    pub author: Option<String>,
    pub base_ref: String,
    pub head_ref: String,
    pub pinned_base_sha: String,
    pub pinned_head_sha: String,
    pub draft: bool,
    pub state: String,
    pub review_decision: Option<String>,
    pub commits: Vec<GitHubCommitContextView>,
    pub import_error: Option<String>,
}

/// A commit of a pull request.
#[derive(Clone, Debug)]
pub struct GitHubCommitContextView {
    pub sha: String,
    pub message_headline: String,
    pub authored_at: Option<String>,
}

/// An imported review thread.
#[derive(Clone, Debug)]
pub struct ImportedGitHubReviewThreadView {
    pub id: String,
    pub resolved: bool,
    pub outdated: bool,
    pub path: Option<String>,
    pub line: Option<u32>,
    pub original_line: Option<u32>,
    pub comments: Vec<ImportedGitHubReviewCommentView>,
}

/// A comment of an imported review thread.
#[derive(Clone, Debug)]
pub struct ImportedGitHubReviewCommentView {
    pub id: String,
    pub body_markdown: String,
    pub author: Option<String>,
    pub url: Option<String>,
    pub created_at: Option<String>,
}

/// An imported conversation comment.
#[derive(Clone, Debug)]
pub struct ImportedGitHubConversationCommentView {
    pub id: u64,
    pub body_markdown: String,
    pub author: Option<String>,
    pub url: Option<String>,
    pub created_at: Option<String>,
}

/// An annotation as the review shows it.
#[derive(Clone, Debug)]
pub struct AnnotationView {
    pub id: String,
    pub file_id: String,
    pub repository_id: String,
    pub kind: String,
    pub state: String,
    pub side: String,
    pub start_line: u32,
    pub end_line: u32,
    pub body: String,
    pub selected_source: String,
    pub labels: Vec<String>,
    pub local_only: bool,
    pub created_at: String,
    pub published_id: Option<String>,
}

/// An entry of the review history.
#[derive(Clone, Debug)]
pub struct ReviewHistoryItem {
    pub id: String,
    pub label: String,
    pub created_at: String,
    pub annotation_count: usize,
    pub item_type: String,
    pub annotations: Option<Vec<AnnotationView>>,
}

/// How an explicit refresh of a local workspace went.
/// `status` is `success`, `partial` or `failed`.
#[derive(Clone, Debug)]
pub struct LocalRefreshOutcomeView {
    pub status: String,
    pub captured_repository_count: usize,
    pub failed_repository_count: usize,
    pub failures: Vec<LocalRefreshFailureView>,
}

/// Why one repository could not be captured.
#[derive(Clone, Debug)]
pub struct LocalRefreshFailureView {
    pub repository_id: String,
    pub repository_path: String,
    pub error: String,
}

/// One row of a diff presentation.
#[derive(Clone, Debug)]
pub struct DiffRowView {
    pub id: String,
    pub kind: String,
    pub hunk_id: Option<String>,
    pub old_line: Option<u32>,
    pub new_line: Option<u32>,
    pub old_text: Option<String>,
    pub new_text: Option<String>,
    pub text: Option<String>,
    pub hunk: Option<String>,
    pub has_annotation: bool,
    pub old_source_start_byte: Option<u32>,
    pub new_source_start_byte: Option<u32>,
    pub omitted_block_id: Option<String>,
    pub omitted_count: Option<u32>,
    pub omitted_end_line: Option<u32>,
    pub omitted_side: Option<String>,
    pub omitted_expanded: Option<bool>,
}

/// A run of lines that the full-file presentation can fold away.
#[derive(Clone, Debug)]
pub struct FullFileOmittedBlockView {
    pub id: String,
    pub side: String,
    pub start_line: u32,
    pub end_line: u32,
    pub count: u32,
    pub expanded: bool,
    pub row_index: u32,
}

/// A request to open a local directory.
#[derive(Clone, Debug)]
pub struct OpenWorkspaceInput {
    pub path: String,
    pub base: Option<String>,
    pub repository_bases: Vec<RepositoryBaseInput>,
}

/// A request to open a pull request.
#[derive(Clone, Debug)]
pub struct OpenGitHubPullRequestInput {
    pub url: String,
}

/// A request to open a directory of another host.
#[derive(Clone, Debug)]
pub struct OpenSshWorkspaceInput {
    pub target: String,
}

/// The base of one repository, which is named by identity or by path.
#[derive(Clone, Debug)]
pub struct RepositoryBaseInput {
    pub repository_id: Option<String>,
    pub repository_path: Option<String>,
    pub relative_path: Option<String>,
    pub base: Option<String>,
}

/// New bases for a workspace.
#[derive(Clone, Debug)]
pub struct ConfigureBaselinesInput {
    pub default_base: Option<String>,
    pub repository_bases: Vec<RepositoryBaseInput>,
}

/// A selection of repositories.
#[derive(Clone, Debug)]
pub struct RepositorySelectionInput {
    pub repository_ids: Vec<String>,
}

/// Repositories to take into a review or leave out of it.
#[derive(Clone, Debug)]
pub struct SetRepositoryInclusionInput {
    pub repository_ids: Vec<String>,
    pub enabled: bool,
}

/// A base for a selection of repositories.
#[derive(Clone, Debug)]
pub struct ApplyRepositoryBaseInput {
    pub repository_ids: Vec<String>,
    pub base: String,
}

/// A request for a prompt.
#[derive(Clone, Debug)]
pub struct PromptInput {
    pub scope: String,
    pub annotation_ids: Vec<String>,
    pub portable: Option<bool>,
    pub path_style: Option<String>,
    pub include_diff_hunks: Option<bool>,
    pub include_git_state: Option<bool>,
    pub history_id: Option<String>,
}

/// A rendered prompt.
#[derive(Clone, Debug)]
pub struct PromptPreview {
    pub export_id: String,
    pub title: String,
    pub content: String,
    pub annotation_count: usize,
    pub estimated_tokens: usize,
}

/// How a stored prompt is written to a file.
#[derive(Clone, Copy, Debug, PartialEq, Eq, Structural)]
pub enum PromptExportSaveFormat {
    Markdown,
    Json,
}

/// Whether and how a stored prompt was written.
#[derive(Clone, Debug)]
pub struct SavedPromptExport {
    pub saved: bool,
    pub format: String,
}

/// The verdict of a submitted review.
#[derive(Clone, Copy, Debug, PartialEq, Eq, Structural)]
pub enum ReviewConclusion {
    Comment,
    Approve,
    RequestChanges,
}

/// A request to preview the submission of a review.
#[derive(Clone, Debug)]
pub struct FinishReviewInput {
    pub annotation_ids: Vec<String>,
    pub summary: String,
    pub conclusion: ReviewConclusion,
}

/// A request to submit the review that was previewed.
#[derive(Clone, Debug)]
pub struct FinishReviewSubmissionInput {
    pub preview_token: String,
}

/// What became of a submission.
#[derive(Clone, Debug)]
pub struct FinishReviewResult {
    pub review_id: String,
    pub annotation_count: usize,
    pub annotation_ids: Vec<String>,
    pub payload_json: String,
    pub preview_token: String,
    pub publication_status: String,
    pub submitted: bool,
}

/// What a submission would send.
#[derive(Clone, Debug)]
pub struct FinishReviewPreview {
    pub annotation_count: usize,
    pub annotation_ids: Vec<String>,
    pub payload_json: String,
    pub pinned_head_sha: String,
    pub preview_token: String,
    pub request_fingerprint: String,
    pub preview_request_fingerprint: String,
    pub annotation_snapshot_fingerprint: String,
    pub requires_reconciliation: bool,
}

} // verus!
