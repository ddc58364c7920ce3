//! The repositories of a workspace: their bases, their setup and their state.
use crate::errors::{invalid, DispatchError};
use crate::ids::{
    id_chars, id_text, parse_repository_id, parsed_id, ComparisonId, RepositoryId, WorkspaceId,
};
use crate::split::{lemma_pieces_nonempty, pieces, split_pieces};
use crate::text::{copy_opt, copy_texts, decimal, decimal_text, opt_text, text_eq, texts};
use crate::time::{opt_time_chars, opt_time_text, Timestamp};
use crate::views::{
    LocalRefreshFailureView, LocalRefreshOutcomeView, RepositoryBaseInput, RepositorySetupView,
};
use vstd::prelude::*;
use vstd::string::*;

verus! {

/// What is checked out.
#[derive(Debug)]
pub enum HeadState {
    Branch(String),
    Detached(String),
    Unborn,
}

impl HeadState {
    /// Copies the state.
    pub fn copy(&self) -> (head: HeadState)
        ensures
            head == *self,
    {
        match self {
            HeadState::Branch(name) => HeadState::Branch(name.clone()),
            HeadState::Detached(sha) => HeadState::Detached(sha.clone()),
            HeadState::Unborn => HeadState::Unborn,
        }
    }
}

/// How a checked out state reads.
pub open spec fn head_chars(head: HeadState) -> Seq<char> {
    match head {
        HeadState::Branch(name) => name@,
        HeadState::Detached(sha) => "detached "@ + sha@,
        HeadState::Unborn => "unborn"@,
    }
}

/// How a checked out state reads.
pub fn head_text(head: &HeadState) -> (text: String)
    ensures
        text@ == head_chars(*head),
{
    match head {
        HeadState::Branch(name) => name.clone(),
        HeadState::Detached(sha) => {
            let mut text = "detached ".to_owned();
            text.append(sha.as_str());
            text
        },
        HeadState::Unborn => "unborn".to_owned(),
    }
}

/// A repository of a workspace.
#[derive(Debug)]
pub struct Repository {
    pub id: RepositoryId,
    pub workspace_id: WorkspaceId,
    pub relative_path: String,
    pub worktree_path: String,
    pub git_common_dir: Option<String>,
    pub normalized_primary_remote: Option<String>,
    pub enabled: bool,
    pub base_override: Option<String>,
    pub current_branch: HeadState,
    pub last_resolved_base_sha: Option<String>,
    pub last_fetch_at: Option<Timestamp>,
    pub last_fetch_error: Option<String>,
    pub discovery_error: Option<String>,
    pub comparison_error: Option<String>,
}

impl Repository {
    /// Copies the repository.
    pub fn copy(&self) -> (repository: Repository)
        ensures
            repository == *self,
    {
        Repository {
            id: self.id,
            workspace_id: self.workspace_id,
            relative_path: self.relative_path.clone(),
            worktree_path: self.worktree_path.clone(),
            git_common_dir: copy_opt(&self.git_common_dir),
            normalized_primary_remote: copy_opt(&self.normalized_primary_remote),
            enabled: self.enabled,
            base_override: copy_opt(&self.base_override),
            current_branch: self.current_branch.copy(),
            last_resolved_base_sha: copy_opt(&self.last_resolved_base_sha),
            last_fetch_at: self.last_fetch_at,
            last_fetch_error: copy_opt(&self.last_fetch_error),
            discovery_error: copy_opt(&self.discovery_error),
            comparison_error: copy_opt(&self.comparison_error),
        }
    }
}

/// Which differences a comparison shows.
#[derive(Debug)]
pub struct ComparisonOptions {
    pub ignore_all_whitespace: bool,
    pub ignore_space_at_eol: bool,
    pub ignore_cr_at_eol: bool,
    pub path_filters: Vec<String>,
}

/// Whether two options mean the same.
pub open spec fn same_options(a: ComparisonOptions, b: ComparisonOptions) -> bool {
    &&& a.ignore_all_whitespace == b.ignore_all_whitespace
    &&& a.ignore_space_at_eol == b.ignore_space_at_eol
    &&& a.ignore_cr_at_eol == b.ignore_cr_at_eol
    &&& a.path_filters@ == b.path_filters@
}

impl ComparisonOptions {
    /// Copies the options.
    pub fn copy(&self) -> (options: ComparisonOptions)
        ensures
            same_options(options, *self),
    {
        ComparisonOptions {
            ignore_all_whitespace: self.ignore_all_whitespace,
            ignore_space_at_eol: self.ignore_space_at_eol,
            ignore_cr_at_eol: self.ignore_cr_at_eol,
            path_filters: copy_texts(&self.path_filters),
        }
    }
}

/// A captured comparison of a repository.
#[derive(Debug)]
pub struct RepositoryComparison {
    pub id: ComparisonId,
    pub repository_id: RepositoryId,
    pub requested_base: String,
    pub base_tip_sha: String,
    pub merge_base_sha: String,
    pub head_sha: Option<String>,
    pub head: HeadState,
    pub options: ComparisonOptions,
}

/// A repository as the review shows it.
#[derive(Debug)]
pub struct RepositoryView {
    pub id: String,
    pub name: String,
    pub path: String,
    pub branch: String,
    pub base: String,
    pub merge_base: String,
    pub head: String,
    pub is_override: bool,
    pub comparison_options: Option<ComparisonOptions>,
}

/// The base of a repository that was not captured: its own, or else that of
/// its workspace.
pub open spec fn own_base(repository: Repository, workspace_default_base: Seq<char>) -> Seq<char> {
    match repository.base_override {
        Some(base) => base@,
        None => workspace_default_base,
    }
}

/// The base of a repository that was not captured.
pub fn repository_base(repository: &Repository, workspace_default_base: &str) -> (base: String)
    ensures
        base@ == own_base(*repository, workspace_default_base@),
{
    match &repository.base_override {
        Some(base) => base.clone(),
        None => workspace_default_base.to_owned(),
    }
}

/// Whether a view shows a repository with its captured comparison, if it was
/// captured.
pub open spec fn is_repository_view(
    view: RepositoryView,
    repository: Repository,
    comparison: Option<RepositoryComparison>,
    workspace_default_base: Seq<char>,
) -> bool {
    &&& view.id@ == id_chars(repository.id.0)
    &&& view.name@ == pieces(repository.relative_path@, '/').last()
    &&& view.path@ == repository.relative_path@
    &&& view.branch@ == head_chars(repository.current_branch)
    &&& view.is_override == (repository.base_override is Some)
    &&& match comparison {
        Some(captured) => {
            &&& view.base@ == captured.requested_base@
            &&& view.merge_base@ == captured.merge_base_sha@
            &&& view.head@ == match captured.head_sha {
                Some(sha) => sha@,
                None => Seq::empty(),
            }
            &&& view.comparison_options matches Some(options) && same_options(
                options,
                captured.options,
            )
        },
        None => {
            &&& view.base@ == own_base(repository, workspace_default_base)
            &&& view.merge_base@ == Seq::<char>::empty()
            &&& view.head@ == Seq::<char>::empty()
            &&& view.comparison_options is None
        },
    }
}

fn copy_or_empty(value: &Option<String>) -> (text: String)
    ensures
        text@ == match *value {
            Some(found) => found@,
            None => Seq::empty(),
        },
{
    match value {
        Some(found) => found.clone(),
        None => {
            let text = String::new();
            assert(text@ =~= Seq::<char>::empty());
            text
        },
    }
}

fn empty_text() -> (text: String)
    ensures
        text@ == Seq::<char>::empty(),
{
    let text = String::new();
    assert(text@ =~= Seq::<char>::empty());
    text
}

/// Shows a repository.
pub fn repository_view(
    repository: &Repository,
    comparison: Option<&RepositoryComparison>,
    workspace_default_base: &str,
) -> (view: RepositoryView)
    ensures
        is_repository_view(
            view,
            *repository,
            match comparison {
                Some(captured) => Some(*captured),
                None => None,
            },
            workspace_default_base@,
        ),
{
    let mut names = split_pieces(repository.relative_path.as_str(), '/');
    proof {
        lemma_pieces_nonempty(repository.relative_path@, '/');
        assert(texts(names@).len() == names@.len());
        assert(texts(names@).last() == names@.last()@);
    }
    let last: usize = names.len() - 1;
    let name = names.remove(last);
    let id = id_text(repository.id.0);
    let path = repository.relative_path.clone();
    let branch = head_text(&repository.current_branch);
    let is_override: bool = repository.base_override.is_some();
    match comparison {
        Some(captured) => RepositoryView {
            id,
            name,
            path,
            branch,
            base: captured.requested_base.clone(),
            merge_base: captured.merge_base_sha.clone(),
            head: copy_or_empty(&captured.head_sha),
            is_override,
            comparison_options: Some(captured.options.copy()),
        },
        None => RepositoryView {
            id,
            name,
            path,
            branch,
            base: repository_base(repository, workspace_default_base),
            merge_base: empty_text(),
            head: empty_text(),
            is_override,
            comparison_options: None,
        },
    }
}

/// Where the base of a repository comes from.
#[derive(Clone, Copy, Debug, PartialEq, Eq, Structural)]
pub enum BaselineSource {
    TemporaryReviewOverride,
    RepositoryOverride,
    WorkspaceDefault,
    ApplicationDefault,
}

/// The base of a repository, and where it comes from.
#[derive(Debug)]
pub struct ResolvedBaseline {
    pub reference: String,
    pub source: BaselineSource,
}

/// How the origin of a base reads.
pub open spec fn source_label(source: BaselineSource) -> Seq<char> {
    match source {
        BaselineSource::TemporaryReviewOverride => "temporary"@,
        BaselineSource::RepositoryOverride => "override"@,
        BaselineSource::WorkspaceDefault => "inherited"@,
        BaselineSource::ApplicationDefault => "application default"@,
    }
}

/// How the origin of a base reads.
pub fn baseline_source_label(source: BaselineSource) -> (label: &'static str)
    ensures
        label@ == source_label(source),
{
    match source {
        BaselineSource::TemporaryReviewOverride => "temporary",
        BaselineSource::RepositoryOverride => "override",
        BaselineSource::WorkspaceDefault => "inherited",
        BaselineSource::ApplicationDefault => "application default",
    }
}

/// A change in a working tree.
#[derive(Clone, Copy, Debug, PartialEq, Eq, Structural)]
pub struct WorkingTreeChange {
    pub index_status: char,
    pub worktree_status: char,
    pub untracked: bool,
}

/// Whether a status letter tells of a change.
pub open spec fn is_change(status: char) -> bool {
    status != ' ' && status != '?'
}

/// How many changes are staged.
pub open spec fn staged_count(changes: Seq<WorkingTreeChange>) -> nat
    decreases changes.len(),
{
    if changes.len() == 0 {
        0
    } else {
        staged_count(changes.drop_last()) + if is_change(changes.last().index_status) {
            1nat
        } else {
            0
        }
    }
}

/// How many changes are not staged.
pub open spec fn unstaged_count(changes: Seq<WorkingTreeChange>) -> nat
    decreases changes.len(),
{
    if changes.len() == 0 {
        0
    } else {
        unstaged_count(changes.drop_last()) + if is_change(changes.last().worktree_status) {
            1nat
        } else {
            0
        }
    }
}

/// How many files Git does not know.
pub open spec fn untracked_count(changes: Seq<WorkingTreeChange>) -> nat
    decreases changes.len(),
{
    if changes.len() == 0 {
        0
    } else {
        untracked_count(changes.drop_last()) + if changes.last().untracked {
            1nat
        } else {
            0
        }
    }
}

/// A count with its name as a list; nothing where it is zero.
pub open spec fn counted(count: nat, name: Seq<char>) -> Seq<Seq<char>> {
    if count > 0 {
        seq![decimal(count) + name]
    } else {
        Seq::empty()
    }
}

/// Texts with commas between them.
pub open spec fn comma_joined(list: Seq<Seq<char>>) -> Seq<char>
    decreases list.len(),
{
    if list.len() == 0 {
        Seq::empty()
    } else if list.len() == 1 {
        list[0]
    } else {
        comma_joined(list.drop_last()) + ", "@ + list.last()
    }
}

/// How the changes of a working tree read.
pub open spec fn status_chars(changes: Seq<WorkingTreeChange>) -> Seq<char> {
    let segments = counted(staged_count(changes), " staged"@) + counted(
        unstaged_count(changes),
        " unstaged"@,
    ) + counted(untracked_count(changes), " untracked"@);
    if changes.len() == 0 {
        "Clean"@
    } else if segments.len() == 0 {
        "Dirty: "@ + decimal(changes.len()) + " changed"@
    } else {
        "Dirty: "@ + comma_joined(segments)
    }
}

fn push_counted(segments: &mut Vec<String>, count: usize, name: &str)
    ensures
        texts(final(segments)@) == texts(old(segments)@) + counted(count as nat, name@),
{
    let ghost before = texts(segments@);
    if count > 0 {
        let mut segment = decimal_text(count as u64);
        segment.append(name);
        let ghost added = segment@;
        segments.push(segment);
        assert(texts(segments@) =~= before + seq![added]);
    } else {
        assert(texts(segments@) =~= before + Seq::<Seq<char>>::empty());
    }
}

fn join_with_commas(list: &Vec<String>) -> (text: String)
    ensures
        text@ == comma_joined(texts(list@)),
{
    let ghost all = texts(list@);
    let mut text = String::new();
    let mut i: usize = 0;
    assert(all.take(0) =~= Seq::<Seq<char>>::empty());
    assert(text@ =~= comma_joined(all.take(0)));
    while i < list.len()
        invariant
            i <= list.len(),
            all == texts(list@),
            text@ == comma_joined(all.take(i as int)),
        decreases list.len() - i,
    {
        assert(all.take(i + 1).drop_last() =~= all.take(i as int));
        if i > 0 {
            text.append(", ");
        }
        text.append(list[i].as_str());
        assert(text@ =~= comma_joined(all.take(i + 1)));
        i += 1;
    }
    assert(all.take(all.len() as int) =~= all);
    text
}

/// Says what changed in a working tree.
pub fn status_summary(changes: &Vec<WorkingTreeChange>) -> (summary: String)
    ensures
        summary@ == status_chars(changes@),
{
    if changes.len() == 0 {
        return "Clean".to_owned();
    }
    let mut staged: usize = 0;
    let mut unstaged: usize = 0;
    let mut untracked: usize = 0;
    let mut i: usize = 0;
    assert(changes@.take(0) =~= Seq::<WorkingTreeChange>::empty());
    while i < changes.len()
        invariant
            i <= changes.len(),
            staged == staged_count(changes@.take(i as int)),
            unstaged == unstaged_count(changes@.take(i as int)),
            untracked == untracked_count(changes@.take(i as int)),
            staged <= i,
            unstaged <= i,
            untracked <= i,
        decreases changes.len() - i,
    {
        assert(changes@.take(i + 1).drop_last() =~= changes@.take(i as int));
        let change: WorkingTreeChange = changes[i];
        if change.index_status != ' ' && change.index_status != '?' {
            staged += 1;
        }
        if change.worktree_status != ' ' && change.worktree_status != '?' {
            unstaged += 1;
        }
        if change.untracked {
            untracked += 1;
        }
        i += 1;
    }
    assert(changes@.take(changes.len() as int) =~= changes@);
    let mut segments: Vec<String> = Vec::new();
    assert(texts(segments@) =~= Seq::<Seq<char>>::empty());
    push_counted(&mut segments, staged, " staged");
    assert(texts(segments@) =~= counted(staged as nat, " staged"@));
    push_counted(&mut segments, unstaged, " unstaged");
    push_counted(&mut segments, untracked, " untracked");
    assert(texts(segments@).len() == segments@.len());
    let mut summary = "Dirty: ".to_owned();
    if segments.len() == 0 {
        summary.append(decimal_text(changes.len() as u64).as_str());
        summary.append(" changed");
    } else {
        summary.append(join_with_commas(&segments).as_str());
    }
    summary
}

/// What was read of a repository just now.
#[derive(Debug)]
pub struct RepositorySetupLive {
    pub clean: Option<bool>,
    pub changed_file_count: Option<usize>,
    pub status_summary: String,
    pub suggested_base: Option<String>,
    pub resolved_base_sha: Option<String>,
    pub merge_base_sha: Option<String>,
    pub head_sha: Option<String>,
    pub ahead: Option<u32>,
    pub behind: Option<u32>,
    pub comparison_error: Option<String>,
    pub status_checked_at: Option<Timestamp>,
}

impl Default for RepositorySetupLive {
    /// Nothing is known.
    fn default() -> (live: RepositorySetupLive)
        ensures
            live.clean is None,
            live.changed_file_count is None,
            live.status_summary@.len() == 0,
            live.suggested_base is None,
            live.resolved_base_sha is None,
            live.merge_base_sha is None,
            live.head_sha is None,
            live.ahead is None,
            live.behind is None,
            live.comparison_error is None,
            live.status_checked_at is None,
    {
        RepositorySetupLive {
            clean: None,
            changed_file_count: None,
            status_summary: String::new(),
            suggested_base: None,
            resolved_base_sha: None,
            merge_base_sha: None,
            head_sha: None,
            ahead: None,
            behind: None,
            comparison_error: None,
            status_checked_at: None,
        }
    }
}

/// What a comparison with the base came to.
#[derive(Debug)]
pub struct ComparisonReading {
    pub base_tip_sha: String,
    pub merge_base_sha: String,
    pub head_sha: String,
    pub divergence: Result<(u32, u32), String>,
}

/// What Git answered on a repository: what is checked out, what changed and
/// when that was asked, the base that its remote suggests, and the comparison
/// with its base.
#[derive(Debug)]
pub struct SetupReadings {
    pub head: Result<HeadState, String>,
    pub status: Result<Vec<WorkingTreeChange>, String>,
    pub checked_at: Timestamp,
    pub suggested_base: Option<String>,
    pub comparison: Result<ComparisonReading, String>,
}

/// The errors of Git that are shown, the latest first: that of the comparison,
/// of its divergence, of what is checked out, of what changed.
pub open spec fn shown_error(readings: SetupReadings) -> Option<Seq<char>> {
    let comparison_error = match readings.comparison {
        Ok(reading) => match reading.divergence {
            Ok(_) => None::<Seq<char>>,
            Err(error) => Some(error@),
        },
        Err(error) => Some(error@),
    };
    if comparison_error is Some {
        comparison_error
    } else {
        match (readings.head, readings.status) {
            (Err(error), _) => Some(error@),
            (Ok(_), Err(error)) => Some(error@),
            _ => None,
        }
    }
}

/// Whether `live` is what the readings say.
pub open spec fn is_live(live: RepositorySetupLive, readings: SetupReadings) -> bool {
    &&& match readings.status {
        Ok(changes) => {
            &&& live.clean == Some(changes@.len() == 0)
            &&& live.changed_file_count matches Some(count) && count == changes@.len()
            &&& live.status_summary@ == status_chars(changes@)
            &&& live.status_checked_at == Some(readings.checked_at)
        },
        Err(_) => {
            &&& live.clean is None
            &&& live.changed_file_count is None
            &&& live.status_summary@ == "Status unavailable"@
            &&& live.status_checked_at is None
        },
    }
    &&& live.suggested_base == readings.suggested_base
    &&& match readings.comparison {
        Ok(reading) => {
            &&& live.resolved_base_sha == Some(reading.base_tip_sha)
            &&& live.merge_base_sha == Some(reading.merge_base_sha)
            &&& live.head_sha == Some(reading.head_sha)
            &&& match reading.divergence {
                Ok((ahead, behind)) => live.ahead == Some(ahead) && live.behind == Some(behind),
                Err(_) => live.ahead is None && live.behind is None,
            }
        },
        Err(_) => {
            &&& live.resolved_base_sha is None
            &&& live.merge_base_sha is None
            &&& live.head_sha is None
            &&& live.ahead is None
            &&& live.behind is None
        },
    }
    &&& opt_text(live.comparison_error) == shown_error(readings)
}

/// The repository with what Git answered on it.
pub open spec fn with_readings(repository: Repository, readings: SetupReadings) -> Repository {
    Repository {
        current_branch: match readings.head {
            Ok(head) => head,
            Err(_) => repository.current_branch,
        },
        last_resolved_base_sha: match readings.comparison {
            Ok(reading) => Some(reading.base_tip_sha),
            Err(_) => repository.last_resolved_base_sha,
        },
        comparison_error: match readings.comparison {
            Ok(_) => None,
            Err(error) => Some(error),
        },
        ..repository
    }
}

/// Takes over what Git answered on a repository.
pub fn take_readings(repository: Repository, readings: SetupReadings) -> (result: (
    Repository,
    RepositorySetupLive,
))
    ensures
        result.0 == with_readings(repository, readings),
        is_live(result.1, readings),
{
    let mut repository = repository;
    let mut live = RepositorySetupLive::default();
    match readings.head {
        Ok(head) => {
            repository.current_branch = head;
        },
        Err(error) => {
            live.comparison_error = Some(error);
        },
    }
    match readings.status {
        Ok(changes) => {
            live.clean = Some(changes.len() == 0);
            live.changed_file_count = Some(changes.len());
            live.status_summary = status_summary(&changes);
            live.status_checked_at = Some(readings.checked_at);
        },
        Err(error) => {
            live.status_summary = "Status unavailable".to_owned();
            if live.comparison_error.is_none() {
                live.comparison_error = Some(error);
            }
        },
    }
    live.suggested_base = readings.suggested_base;
    match readings.comparison {
        Ok(reading) => {
            repository.last_resolved_base_sha = Some(reading.base_tip_sha.clone());
            live.resolved_base_sha = Some(reading.base_tip_sha);
            live.merge_base_sha = Some(reading.merge_base_sha);
            live.head_sha = Some(reading.head_sha);
            repository.comparison_error = None;
            match reading.divergence {
                Ok((ahead, behind)) => {
                    live.ahead = Some(ahead);
                    live.behind = Some(behind);
                },
                Err(error) => {
                    live.comparison_error = Some(error);
                },
            }
        },
        Err(error) => {
            repository.comparison_error = Some(error.clone());
            live.comparison_error = Some(error);
        },
    }
    (repository, live)
}

/// The first of two optional values that is there.
pub open spec fn or_else<A>(first: Option<A>, second: Option<A>) -> Option<A> {
    if first is Some {
        first
    } else {
        second
    }
}

/// Whether a view shows the setup of a repository: what was read just now,
/// and, where nothing was read, what was captured or is on record.
pub open spec fn is_setup_view(
    view: RepositorySetupView,
    repository: Repository,
    baseline: ResolvedBaseline,
    pinned: Option<RepositoryComparison>,
    live: RepositorySetupLive,
) -> bool {
    &&& view.id@ == id_chars(repository.id.0)
    &&& view.path@ == repository.relative_path@
    &&& view.enabled == repository.enabled
    &&& view.branch@ == head_chars(repository.current_branch)
    &&& view.clean == live.clean
    &&& view.changed_file_count == live.changed_file_count
    &&& view.status_summary@ == if live.status_summary@.len() == 0 {
        "Status not checked for this source"@
    } else {
        live.status_summary@
    }
    &&& view.effective_base@ == baseline.reference@
    &&& view.suggested_base == live.suggested_base
    &&& view.base_source@ == source_label(baseline.source)
    &&& view.base_override == repository.base_override
    &&& view.resolved_base_sha == or_else(
        live.resolved_base_sha,
        match pinned {
            Some(comparison) => Some(comparison.base_tip_sha),
            None => repository.last_resolved_base_sha,
        },
    )
    &&& view.merge_base_sha == or_else(
        live.merge_base_sha,
        match pinned {
            Some(comparison) => Some(comparison.merge_base_sha),
            None => None,
        },
    )
    &&& view.head_sha == or_else(
        live.head_sha,
        match pinned {
            Some(comparison) => comparison.head_sha,
            None => None,
        },
    )
    &&& view.ahead == live.ahead
    &&& view.behind == live.behind
    &&& opt_text(view.last_fetch_at) == opt_time_chars(repository.last_fetch_at)
    &&& view.last_fetch_error == repository.last_fetch_error
    &&& view.discovery_error == repository.discovery_error
    &&& view.comparison_error == or_else(live.comparison_error, repository.comparison_error)
    &&& opt_text(view.status_checked_at) == opt_time_chars(live.status_checked_at)
}

fn first_of(first: Option<String>, second: Option<String>) -> (text: Option<String>)
    ensures
        text == or_else(first, second),
{
    match first {
        Some(text) => Some(text),
        None => second,
    }
}

/// Shows the setup of a repository.
pub fn repository_setup_view(
    repository: &Repository,
    baseline: &ResolvedBaseline,
    pinned: Option<&RepositoryComparison>,
    live: RepositorySetupLive,
) -> (view: RepositorySetupView)
    ensures
        is_setup_view(
            view,
            *repository,
            *baseline,
            match pinned {
                Some(comparison) => Some(*comparison),
                None => None,
            },
            live,
        ),
{
    let pinned_base: Option<String> = match pinned {
        Some(comparison) => Some(comparison.base_tip_sha.clone()),
        None => copy_opt(&repository.last_resolved_base_sha),
    };
    let pinned_merge_base: Option<String> = match pinned {
        Some(comparison) => Some(comparison.merge_base_sha.clone()),
        None => None,
    };
    let pinned_head: Option<String> = match pinned {
        Some(comparison) => copy_opt(&comparison.head_sha),
        None => None,
    };
    RepositorySetupView {
        id: id_text(repository.id.0),
        path: repository.relative_path.clone(),
        enabled: repository.enabled,
        branch: head_text(&repository.current_branch),
        clean: live.clean,
        changed_file_count: live.changed_file_count,
        status_summary: if live.status_summary.as_str().is_empty() {
            "Status not checked for this source".to_owned()
        } else {
            live.status_summary
        },
        effective_base: baseline.reference.clone(),
        suggested_base: live.suggested_base,
        base_source: baseline_source_label(baseline.source).to_owned(),
        base_override: copy_opt(&repository.base_override),
        resolved_base_sha: first_of(live.resolved_base_sha, pinned_base),
        merge_base_sha: first_of(live.merge_base_sha, pinned_merge_base),
        head_sha: first_of(live.head_sha, pinned_head),
        ahead: live.ahead,
        behind: live.behind,
        last_fetch_at: opt_time_text(&repository.last_fetch_at),
        last_fetch_error: copy_opt(&repository.last_fetch_error),
        discovery_error: copy_opt(&repository.discovery_error),
        comparison_error: first_of(live.comparison_error, copy_opt(&repository.comparison_error)),
        status_checked_at: opt_time_text(&live.status_checked_at),
    }
}

/// How many repositories may be selected at once.
pub const MAX_SETUP_SELECTION: usize = 1000;

/// Whether a text of a list reads as an id.
pub open spec fn names_id(ids: Seq<String>, value: u128) -> bool {
    exists|i: int| 0 <= i < ids.len() && parsed_id(#[trigger] ids[i]@) == Some(value)
}

/// The first thing that is wrong with a list of ids.
pub open spec fn id_problem(ids: Seq<String>) -> Option<Seq<char>>
    decreases ids.len(),
{
    if ids.len() == 0 {
        None
    } else {
        let before = id_problem(ids.drop_last());
        if before is Some {
            before
        } else {
            match parsed_id(ids.last()@) {
                None => Some("repositoryId is invalid"@),
                Some(value) => if names_id(ids.drop_last(), value) {
                    Some("repository selection contains a duplicate"@)
                } else {
                    None
                },
            }
        }
    }
}

/// The repositories that a list of ids names, in their own order.
pub open spec fn chosen(repositories: Seq<Repository>, ids: Seq<String>) -> Seq<Repository>
    decreases repositories.len(),
{
    if repositories.len() == 0 {
        Seq::empty()
    } else {
        let before = chosen(repositories.drop_last(), ids);
        if names_id(ids, repositories.last().id.0) {
            before.push(repositories.last())
        } else {
            before
        }
    }
}

/// Why a selection is refused.
pub open spec fn selection_problem(repositories: Seq<Repository>, ids: Seq<String>) -> Option<
    Seq<char>,
> {
    if ids.len() == 0 || ids.len() > MAX_SETUP_SELECTION {
        Some("select between one and 1000 repositories"@)
    } else if id_problem(ids) is Some {
        id_problem(ids)
    } else if chosen(repositories, ids).len() != ids.len() {
        Some("repository selection contains an item outside this workspace"@)
    } else {
        None
    }
}

fn holds_id(values: &Vec<RepositoryId>, value: u128, Ghost(ids): Ghost<Seq<String>>) -> (found: bool)
    requires
        values.len() == ids.len(),
        forall|i: int|
            0 <= i < ids.len() ==> parsed_id(#[trigger] ids[i]@) == Some(values@[i].0),
    ensures
        found == names_id(ids, value),
{
    let mut i: usize = 0;
    while i < values.len()
        invariant
            i <= values.len(),
            values.len() == ids.len(),
            forall|j: int|
                0 <= j < ids.len() ==> parsed_id(#[trigger] ids[j]@) == Some(values@[j].0),
            forall|j: int| 0 <= j < i ==> (#[trigger] values@[j]).0 != value,
        decreases values.len() - i,
    {
        if values[i].0 == value {
            assert(parsed_id(ids[i as int]@) == Some(value));
            return true;
        }
        i += 1;
    }
    false
}

/// Picks the repositories that a selection names.
pub fn selected_repositories(repositories: &Vec<Repository>, ids: &Vec<String>) -> (result: Result<
    Vec<Repository>,
    DispatchError,
>)
    ensures
        match selection_problem(repositories@, ids@) {
            Some(problem) => result matches Err(error) && error.is_invalid(problem),
            None => result matches Ok(selected) && selected@ == chosen(repositories@, ids@),
        },
{
    if ids.len() == 0 || ids.len() > MAX_SETUP_SELECTION {
        return Err(invalid("select between one and 1000 repositories"));
    }
    let mut values: Vec<RepositoryId> = Vec::new();
    assert(ids@.take(0) =~= Seq::<String>::empty());
    while values.len() < ids.len()
        invariant
            values.len() <= ids.len(),
            0 < ids.len() <= MAX_SETUP_SELECTION,
            id_problem(ids@.take(values.len() as int)) is None,
            forall|j: int|
                0 <= j < values.len() ==> parsed_id(#[trigger] ids@[j]@) == Some(values@[j].0),
        decreases ids.len() - values.len(),
    {
        let next: usize = values.len();
        let ghost done = ids@.take(next as int);
        assert(ids@.take(next + 1).drop_last() =~= done);
        assert(ids@.take(next + 1).last() == ids@[next as int]);
        let value: RepositoryId = match parse_repository_id(ids[next].as_str()) {
            Some(value) => value,
            None => {
                proof {
                    lemma_problem_stays(ids@, next + 1);
                }
                return Err(invalid("repositoryId is invalid"));
            },
        };
        if holds_id(&values, value.0, Ghost(done)) {
            proof {
                lemma_problem_stays(ids@, next + 1);
            }
            return Err(invalid("repository selection contains a duplicate"));
        }
        values.push(value);
    }
    assert(ids@.take(ids.len() as int) =~= ids@);
    let mut selected: Vec<Repository> = Vec::new();
    let mut i: usize = 0;
    assert(repositories@.take(0) =~= Seq::<Repository>::empty());
    while i < repositories.len()
        invariant
            i <= repositories.len(),
            values.len() == ids.len(),
            forall|j: int|
                0 <= j < ids.len() ==> parsed_id(#[trigger] ids@[j]@) == Some(values@[j].0),
            selected@ == chosen(repositories@.take(i as int), ids@),
        decreases repositories.len() - i,
    {
        assert(repositories@.take(i + 1).drop_last() =~= repositories@.take(i as int));
        if holds_id(&values, repositories[i].id.0, Ghost(ids@)) {
            selected.push(repositories[i].copy());
        }
        i += 1;
    }
    assert(repositories@.take(repositories.len() as int) =~= repositories@);
    if selected.len() != ids.len() {
        return Err(invalid("repository selection contains an item outside this workspace"));
    }
    Ok(selected)
}

proof fn lemma_problem_stays(ids: Seq<String>, count: int)
    requires
        0 <= count <= ids.len(),
        id_problem(ids.take(count)) is Some,
    ensures
        id_problem(ids) == id_problem(ids.take(count)),
    decreases ids.len() - count,
{
    if count < ids.len() {
        assert(ids.take(count + 1).drop_last() =~= ids.take(count));
        lemma_problem_stays(ids, count + 1);
    } else {
        assert(ids.take(count) =~= ids);
    }
}

/// A refused selection changes nothing, and an accepted one names each of its
/// repositories once.
pub proof fn law_selection_names_workspace_repositories(
    repositories: Seq<Repository>,
    ids: Seq<String>,
)
    requires
        selection_problem(repositories, ids) is None,
    ensures
        chosen(repositories, ids).len() == ids.len(),
        forall|i: int|
            0 <= i < chosen(repositories, ids).len() ==> repositories.contains(
                #[trigger] chosen(repositories, ids)[i],
            ) && names_id(ids, chosen(repositories, ids)[i].id.0),
{
    lemma_chosen(repositories, ids);
}

proof fn lemma_chosen(repositories: Seq<Repository>, ids: Seq<String>)
    ensures
        forall|i: int|
            0 <= i < chosen(repositories, ids).len() ==> repositories.contains(
                #[trigger] chosen(repositories, ids)[i],
            ) && names_id(ids, chosen(repositories, ids)[i].id.0),
    decreases repositories.len(),
{
    if repositories.len() > 0 {
        lemma_chosen(repositories.drop_last(), ids);
        let before = chosen(repositories.drop_last(), ids);
        assert forall|i: int| 0 <= i < chosen(repositories, ids).len() implies repositories.contains(
            #[trigger] chosen(repositories, ids)[i],
        ) && names_id(ids, chosen(repositories, ids)[i].id.0) by {
            if i < before.len() {
                assert(chosen(repositories, ids)[i] == before[i]);
                let j = choose|j: int|
                    0 <= j < repositories.drop_last().len() && repositories.drop_last()[j]
                        == before[i];
                assert(repositories[j] == before[i]);
            } else {
                assert(repositories[repositories.len() - 1] == chosen(repositories, ids)[i]);
            }
        }
    }
}

/// Where the source of a workspace lies.
#[derive(Clone, Copy, Debug, PartialEq, Eq, Structural)]
pub enum SourceKind {
    Local,
    Remote,
    PullRequest,
}

/// Refuses the setup of a workspace that is not local.
pub fn require_local_setup_workspace(source: SourceKind) -> (result: Result<(), DispatchError>)
    ensures
        if source == SourceKind::Local {
            result is Ok
        } else {
            result matches Err(error) && error.is_invalid(
                "repository setup controls are currently available for local workspaces only"@,
            )
        },
{
    match source {
        SourceKind::Local => Ok(()),
        _ => Err(
            invalid("repository setup controls are currently available for local workspaces only"),
        ),
    }
}

/// A repository that is in a review or left out of it.
pub open spec fn with_inclusion(repository: Repository, enabled: bool) -> Repository {
    Repository { enabled, ..repository }
}

/// A repository with a base of its own, or without one; what was wrong with
/// its comparison no longer counts.
pub open spec fn with_base(repository: Repository, base: Option<String>) -> Repository {
    Repository { base_override: base, comparison_error: None, ..repository }
}

/// A repository whose remote was asked for news at a time, with the error that
/// came of it.
pub open spec fn with_fetch(repository: Repository, at: Timestamp, error: Option<String>) -> Repository {
    Repository { last_fetch_at: Some(at), last_fetch_error: error, ..repository }
}

/// Takes selected repositories into the next capture, or leaves them out of
/// it: the repositories to store.
pub fn set_repository_inclusion(
    source: SourceKind,
    repositories: &Vec<Repository>,
    ids: &Vec<String>,
    enabled: bool,
) -> (result: Result<Vec<Repository>, DispatchError>)
    ensures
        if source != SourceKind::Local {
            result matches Err(error) && error.is_invalid(
                "repository setup controls are currently available for local workspaces only"@,
            )
        } else {
            match selection_problem(repositories@, ids@) {
                Some(problem) => result matches Err(error) && error.is_invalid(problem),
                None => result matches Ok(updated) && updated@ == chosen(repositories@, ids@).map_values(
                    |repository: Repository| with_inclusion(repository, enabled),
                ),
            }
        },
{
    match require_local_setup_workspace(source) {
        Ok(_) => {},
        Err(error) => {
            return Err(error);
        },
    }
    let selected = match selected_repositories(repositories, ids) {
        Ok(selected) => selected,
        Err(error) => {
            return Err(error);
        },
    };
    let ghost wanted = selected@.map_values(
        |repository: Repository| with_inclusion(repository, enabled),
    );
    let mut updated: Vec<Repository> = Vec::new();
    while updated.len() < selected.len()
        invariant
            updated.len() <= selected.len(),
            wanted == selected@.map_values(
                |repository: Repository| with_inclusion(repository, enabled),
            ),
            updated@ =~= wanted.take(updated.len() as int),
        decreases selected.len() - updated.len(),
    {
        let mut repository = selected[updated.len()].copy();
        repository.enabled = enabled;
        updated.push(repository);
    }
    assert(updated@ =~= wanted);
    Ok(updated)
}

fn rebased(selected: &Vec<Repository>, base: &Option<String>) -> (updated: Vec<Repository>)
    ensures
        updated@ == selected@.map_values(|repository: Repository| with_base(repository, *base)),
{
    let ghost wanted = selected@.map_values(|repository: Repository| with_base(repository, *base));
    let mut updated: Vec<Repository> = Vec::new();
    while updated.len() < selected.len()
        invariant
            updated.len() <= selected.len(),
            wanted == selected@.map_values(|repository: Repository| with_base(repository, *base)),
            updated@ =~= wanted.take(updated.len() as int),
        decreases selected.len() - updated.len(),
    {
        let mut repository = selected[updated.len()].copy();
        repository.base_override = copy_opt(base);
        repository.comparison_error = None;
        updated.push(repository);
    }
    assert(updated@ =~= wanted);
    updated
}

/// Gives selected repositories a base of their own: the repositories to store.
/// `base_problem` says what is wrong with the base, if anything is.
pub fn apply_repository_base(
    source: SourceKind,
    repositories: &Vec<Repository>,
    ids: &Vec<String>,
    base: &str,
    base_problem: Option<String>,
) -> (result: Result<Vec<Repository>, DispatchError>)
    ensures
        if source != SourceKind::Local {
            result matches Err(error) && error.is_invalid(
                "repository setup controls are currently available for local workspaces only"@,
            )
        } else if base_problem is Some {
            result matches Err(error) && error.is_invalid(base_problem->0@)
        } else {
            match selection_problem(repositories@, ids@) {
                Some(problem) => result matches Err(error) && error.is_invalid(problem),
                None => result matches Ok(updated) && exists|reference: String|
                    #![trigger reference@]
                    reference@ == base@ && updated@ == chosen(repositories@, ids@).map_values(
                        |repository: Repository| with_base(repository, Some(reference)),
                    ),
            }
        },
{
    match require_local_setup_workspace(source) {
        Ok(_) => {},
        Err(error) => {
            return Err(error);
        },
    }
    match base_problem {
        Some(problem) => {
            return Err(DispatchError::Invalid(problem));
        },
        None => {},
    }
    match selected_repositories(repositories, ids) {
        Ok(selected) => {
            let reference = base.to_owned();
            let own: Option<String> = Some(reference.clone());
            let updated = rebased(&selected, &own);
            assert(reference@ == base@);
            Ok(updated)
        },
        Err(error) => Err(error),
    }
}

/// Takes their own base from selected repositories: the repositories to store.
pub fn reset_repository_base_overrides(
    source: SourceKind,
    repositories: &Vec<Repository>,
    ids: &Vec<String>,
) -> (result: Result<Vec<Repository>, DispatchError>)
    ensures
        if source != SourceKind::Local {
            result matches Err(error) && error.is_invalid(
                "repository setup controls are currently available for local workspaces only"@,
            )
        } else {
            match selection_problem(repositories@, ids@) {
                Some(problem) => result matches Err(error) && error.is_invalid(problem),
                None => result matches Ok(updated) && updated@ == chosen(repositories@, ids@).map_values(
                    |repository: Repository| with_base(repository, None),
                ),
            }
        },
{
    match require_local_setup_workspace(source) {
        Ok(_) => {},
        Err(error) => {
            return Err(error);
        },
    }
    match selected_repositories(repositories, ids) {
        Ok(selected) => Ok(rebased(&selected, &None)),
        Err(error) => Err(error),
    }
}

/// Notes on a repository that its remote was asked for news.
pub fn note_fetch(repository: Repository, at: Timestamp, error: Option<String>) -> (updated:
    Repository)
    ensures
        updated == with_fetch(repository, at, error),
{
    let mut updated = repository;
    updated.last_fetch_at = Some(at);
    updated.last_fetch_error = error;
    updated
}

/// Whether an input names a repository: by id, or by one of its two paths.
pub open spec fn names_repository(input: RepositoryBaseInput, repository: Repository) -> bool {
    ||| input.repository_id matches Some(id) && id@ == id_chars(repository.id.0)
    ||| input.repository_path matches Some(path) && path@ == repository.relative_path@
    ||| input.relative_path matches Some(path) && path@ == repository.relative_path@
}

/// The first repository that an input names.
pub open spec fn named_repository(input: RepositoryBaseInput, repositories: Seq<Repository>) -> Option<
    Repository,
>
    decreases repositories.len(),
{
    if repositories.len() == 0 {
        None
    } else if names_repository(input, repositories[0]) {
        Some(repositories[0])
    } else {
        named_repository(input, repositories.drop_first())
    }
}

fn is_named(input: &RepositoryBaseInput, repository: &Repository) -> (named: bool)
    ensures
        named == names_repository(*input, *repository),
{
    let by_id: bool = match &input.repository_id {
        Some(id) => text_eq(id.as_str(), id_text(repository.id.0).as_str()),
        None => false,
    };
    let by_path: bool = match &input.repository_path {
        Some(path) => text_eq(path.as_str(), repository.relative_path.as_str()),
        None => false,
    };
    let by_relative_path: bool = match &input.relative_path {
        Some(path) => text_eq(path.as_str(), repository.relative_path.as_str()),
        None => false,
    };
    by_id || by_path || by_relative_path
}

fn find_named(input: &RepositoryBaseInput, repositories: &Vec<Repository>) -> (found: Option<
    Repository,
>)
    ensures
        found == named_repository(*input, repositories@),
{
    let mut i: usize = 0;
    assert(repositories@.skip(0) =~= repositories@);
    while i < repositories.len()
        invariant
            i <= repositories.len(),
            named_repository(*input, repositories@) == named_repository(
                *input,
                repositories@.skip(i as int),
            ),
        decreases repositories.len() - i,
    {
        assert(repositories@.skip(i as int)[0] == repositories@[i as int]);
        assert(repositories@.skip(i as int).drop_first() =~= repositories@.skip(i + 1));
        if is_named(input, &repositories[i]) {
            return Some(repositories[i].copy());
        }
        i += 1;
    }
    None
}

/// The repositories that new bases change, in order, up to the first entry
/// that is refused, and why it is. `problems` says for each entry what is
/// wrong with its base, if anything is.
pub open spec fn baseline_plan(
    entries: Seq<RepositoryBaseInput>,
    problems: Seq<Option<String>>,
    repositories: Seq<Repository>,
) -> (Seq<Repository>, Option<Seq<char>>)
    decreases entries.len(),
{
    if entries.len() == 0 {
        (Seq::empty(), None)
    } else {
        let (saves, refused) = baseline_plan(entries.drop_last(), problems, repositories);
        if refused is Some {
            (saves, refused)
        } else {
            match named_repository(entries.last(), repositories) {
                None => (saves, Some("repository baseline target was not discovered"@)),
                Some(repository) => match problems[entries.len() - 1] {
                    Some(problem) => (saves, Some(problem@)),
                    None => (
                        saves.push(
                            Repository { base_override: entries.last().base, ..repository },
                        ),
                        None,
                    ),
                },
            }
        }
    }
}

proof fn lemma_refusal_stays(
    entries: Seq<RepositoryBaseInput>,
    problems: Seq<Option<String>>,
    repositories: Seq<Repository>,
    count: int,
)
    requires
        0 <= count <= entries.len(),
        baseline_plan(entries.take(count), problems, repositories).1 is Some,
    ensures
        baseline_plan(entries, problems, repositories) == baseline_plan(
            entries.take(count),
            problems,
            repositories,
        ),
    decreases entries.len() - count,
{
    if count < entries.len() {
        assert(entries.take(count + 1).drop_last() =~= entries.take(count));
        lemma_refusal_stays(entries, problems, repositories, count + 1);
    } else {
        assert(entries.take(count) =~= entries);
    }
}

/// Works out which repositories new bases change, and whether an entry is
/// refused. What was worked out before a refused entry stands.
pub fn apply_baselines(
    entries: &Vec<RepositoryBaseInput>,
    problems: &Vec<Option<String>>,
    repositories: &Vec<Repository>,
) -> (plan: (Vec<Repository>, Option<DispatchError>))
    requires
        problems.len() == entries.len(),
    ensures
        plan.0@ == baseline_plan(entries@, problems@, repositories@).0,
        match baseline_plan(entries@, problems@, repositories@).1 {
            Some(refusal) => plan.1 matches Some(error) && error.is_invalid(refusal),
            None => plan.1 is None,
        },
{
    let mut saves: Vec<Repository> = Vec::new();
    let mut i: usize = 0;
    assert(entries@.take(0) =~= Seq::<RepositoryBaseInput>::empty());
    while i < entries.len()
        invariant
            i <= entries.len(),
            problems.len() == entries.len(),
            (saves@, None::<Seq<char>>) == baseline_plan(
                entries@.take(i as int),
                problems@,
                repositories@,
            ),
        decreases entries.len() - i,
    {
        let entry = &entries[i];
        assert(entries@.take(i + 1).drop_last() =~= entries@.take(i as int));
        assert(entries@.take(i + 1).last() == *entry);
        match find_named(entry, repositories) {
            None => {
                proof {
                    lemma_refusal_stays(entries@, problems@, repositories@, i + 1);
                }
                return (saves, Some(invalid("repository baseline target was not discovered")));
            },
            Some(repository) => {
                match &problems[i] {
                    Some(problem) => {
                        proof {
                            lemma_refusal_stays(entries@, problems@, repositories@, i + 1);
                        }
                        return (saves, Some(DispatchError::Invalid(problem.clone())));
                    },
                    None => {},
                }
                let mut updated = repository;
                updated.base_override = copy_opt(&entry.base);
                saves.push(updated);
            },
        }
        i += 1;
    }
    assert(entries@.take(entries.len() as int) =~= entries@);
    (saves, None)
}

/// A repository that could not be captured.
#[derive(Debug)]
pub struct CaptureFailure {
    pub repository_id: RepositoryId,
    pub relative_path: String,
    pub error: String,
}

/// A repository that was captured, with the tip of its base.
#[derive(Debug)]
pub struct CaptureSuccess {
    pub repository_id: RepositoryId,
    pub base_tip_sha: String,
}

/// What a failure says to the user.
pub open spec fn tells_failure(view: LocalRefreshFailureView, failure: CaptureFailure) -> bool {
    &&& view.repository_id@ == id_chars(failure.repository_id.0)
    &&& view.repository_path@ == failure.relative_path@
    &&& view.error@ == failure.error@
}

/// Says how the capture of a workspace went.
pub fn local_refresh_outcome(captured: usize, failures: &Vec<CaptureFailure>) -> (outcome:
    LocalRefreshOutcomeView)
    ensures
        outcome.status@ == if failures@.len() == 0 {
            "success"@
        } else if captured == 0 {
            "failed"@
        } else {
            "partial"@
        },
        outcome.captured_repository_count == captured,
        outcome.failed_repository_count == failures@.len(),
        outcome.failures@.len() == failures@.len(),
        forall|i: int|
            0 <= i < failures@.len() ==> tells_failure(
                #[trigger] outcome.failures@[i],
                failures@[i],
            ),
{
    let status: &str = if failures.len() == 0 {
        "success"
    } else if captured == 0 {
        "failed"
    } else {
        "partial"
    };
    let mut told: Vec<LocalRefreshFailureView> = Vec::new();
    while told.len() < failures.len()
        invariant
            told.len() <= failures.len(),
            forall|i: int|
                0 <= i < told.len() ==> tells_failure(#[trigger] told@[i], failures@[i]),
        decreases failures.len() - told.len(),
    {
        let failure = &failures[told.len()];
        told.push(
            LocalRefreshFailureView {
                repository_id: id_text(failure.repository_id.0),
                repository_path: failure.relative_path.clone(),
                error: failure.error.clone(),
            },
        );
    }
    LocalRefreshOutcomeView {
        status: status.to_owned(),
        captured_repository_count: captured,
        failed_repository_count: failures.len(),
        failures: told,
    }
}

/// The last capture of a repository in a list.
pub open spec fn success_of(captures: Seq<CaptureSuccess>, id: RepositoryId) -> Option<String>
    decreases captures.len(),
{
    if captures.len() == 0 {
        None
    } else if captures.last().repository_id == id {
        Some(captures.last().base_tip_sha)
    } else {
        success_of(captures.drop_last(), id)
    }
}

/// The last failure of a repository in a list.
pub open spec fn failure_of(failures: Seq<CaptureFailure>, id: RepositoryId) -> Option<String>
    decreases failures.len(),
{
    if failures.len() == 0 {
        None
    } else if failures.last().repository_id == id {
        Some(failures.last().error)
    } else {
        failure_of(failures.drop_last(), id)
    }
}

/// The repository once a capture took note of it; `None` where it did not.
pub open spec fn with_outcome(
    repository: Repository,
    captures: Seq<CaptureSuccess>,
    failures: Seq<CaptureFailure>,
) -> Option<Repository> {
    match (success_of(captures, repository.id), failure_of(failures, repository.id)) {
        (Some(base), _) => Some(
            Repository { last_resolved_base_sha: Some(base), comparison_error: None, ..repository },
        ),
        (None, Some(error)) => Some(Repository { comparison_error: Some(error), ..repository }),
        (None, None) => None,
    }
}

fn find_success(captures: &Vec<CaptureSuccess>, id: RepositoryId) -> (found: Option<String>)
    ensures
        found == success_of(captures@, id),
{
    let mut i: usize = captures.len();
    assert(captures@.take(captures.len() as int) =~= captures@);
    while i > 0
        invariant
            i <= captures.len(),
            success_of(captures@, id) == success_of(captures@.take(i as int), id),
        decreases i,
    {
        assert(captures@.take(i as int).drop_last() =~= captures@.take(i - 1));
        if captures[i - 1].repository_id == id {
            return Some(captures[i - 1].base_tip_sha.clone());
        }
        i -= 1;
    }
    None
}

fn find_failure(failures: &Vec<CaptureFailure>, id: RepositoryId) -> (found: Option<String>)
    ensures
        found == failure_of(failures@, id),
{
    let mut i: usize = failures.len();
    assert(failures@.take(failures.len() as int) =~= failures@);
    while i > 0
        invariant
            i <= failures.len(),
            failure_of(failures@, id) == failure_of(failures@.take(i as int), id),
        decreases i,
    {
        assert(failures@.take(i as int).drop_last() =~= failures@.take(i - 1));
        if failures[i - 1].repository_id == id {
            return Some(failures[i - 1].error.clone());
        }
        i -= 1;
    }
    None
}

/// The repositories to store after a capture.
pub open spec fn noted(
    repositories: Seq<Repository>,
    captures: Seq<CaptureSuccess>,
    failures: Seq<CaptureFailure>,
) -> Seq<Repository>
    decreases repositories.len(),
{
    if repositories.len() == 0 {
        Seq::empty()
    } else {
        let before = noted(repositories.drop_last(), captures, failures);
        match with_outcome(repositories.last(), captures, failures) {
            Some(updated) => before.push(updated),
            None => before,
        }
    }
}

/// Works out which repositories to store after a capture.
pub fn local_capture_outcomes(
    repositories: &Vec<Repository>,
    captures: &Vec<CaptureSuccess>,
    failures: &Vec<CaptureFailure>,
) -> (updates: Vec<Repository>)
    ensures
        updates@ == noted(repositories@, captures@, failures@),
{
    let mut updates: Vec<Repository> = Vec::new();
    let mut i: usize = 0;
    assert(repositories@.take(0) =~= Seq::<Repository>::empty());
    while i < repositories.len()
        invariant
            i <= repositories.len(),
            updates@ == noted(repositories@.take(i as int), captures@, failures@),
        decreases repositories.len() - i,
    {
        assert(repositories@.take(i + 1).drop_last() =~= repositories@.take(i as int));
        let repository = &repositories[i];
        match find_success(captures, repository.id) {
            Some(base) => {
                let mut updated = repository.copy();
                updated.last_resolved_base_sha = Some(base);
                updated.comparison_error = None;
                updates.push(updated);
            },
            None => {
                match find_failure(failures, repository.id) {
                    Some(error) => {
                        let mut updated = repository.copy();
                        updated.comparison_error = Some(error);
                        updates.push(updated);
                    },
                    None => {},
                }
            },
        }
        i += 1;
    }
    assert(repositories@.take(repositories.len() as int) =~= repositories@);
    updates
}

} // verus!
