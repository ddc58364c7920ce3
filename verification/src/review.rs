//! A review as a whole: its files, outline and captures.
use crate::annotations::{
    annotation_matches_file, annotation_models, annotation_views, is_about, is_soft_deleted,
    shown_annotation, soft_deleted, Annotation,
};
use crate::document::{side_chars, side_name, DiffSide, ReviewDiffDocument, ReviewFileStatus};
use crate::drafts::{
    document_repository_id, legacy_annotation_draft_key, owner_of, ComparisonOwner,
};
use crate::errors::{invalid, DispatchError};
use crate::ids::{id_chars, id_text, ReviewSessionId, WorkspaceId};
use crate::prompt::{comparison_position, find_comparison};
use crate::remote::{legacy_remote_workspace_key, remote_workspace_key};
use crate::repositories::{
    is_repository_view, repository_view, Repository, RepositoryComparison, RepositoryView,
    SourceKind,
};
use crate::text::{
    copy_opt, decimal, opt_text, push_decimal, row_number, text_eq, texts, to_row_number,
};
use crate::text_set::TextSet;
use crate::views::{
    AnnotationView, LocalRefreshOutcomeView, OutlineSymbolView, ReviewFileView, ReviewHistoryItem,
    WorkspaceView,
};
use vstd::prelude::*;
use vstd::string::*;

verus! {

/// The name of a status in the file list.
pub open spec fn file_status_chars(status: ReviewFileStatus) -> Seq<char> {
    match status {
        ReviewFileStatus::Added => "added"@,
        ReviewFileStatus::Modified => "modified"@,
        ReviewFileStatus::Deleted => "deleted"@,
        ReviewFileStatus::Renamed => "renamed"@,
        ReviewFileStatus::Copied => "renamed"@,
        ReviewFileStatus::Binary
        | ReviewFileStatus::ModeChanged
        | ReviewFileStatus::TypeChanged => "modified"@,
        ReviewFileStatus::Submodule => "submodule"@,
        ReviewFileStatus::LfsPointer => "lfs_pointer"@,
    }
}

fn file_status_name(status: ReviewFileStatus) -> (name: &'static str)
    ensures
        name@ == file_status_chars(status),
{
    match status {
        ReviewFileStatus::Added => "added",
        ReviewFileStatus::Modified => "modified",
        ReviewFileStatus::Deleted => "deleted",
        ReviewFileStatus::Renamed => "renamed",
        ReviewFileStatus::Copied => "renamed",
        ReviewFileStatus::Binary
        | ReviewFileStatus::ModeChanged
        | ReviewFileStatus::TypeChanged => "modified",
        ReviewFileStatus::Submodule => "submodule",
        ReviewFileStatus::LfsPointer => "lfs_pointer",
    }
}

/// Whether a view shows a file in the file list.
pub open spec fn is_file_view(
    view: ReviewFileView,
    document: ReviewDiffDocument,
    repository_id: Seq<char>,
    language: Seq<char>,
    viewed: bool,
    annotation_count: nat,
) -> bool {
    &&& view.id@ == id_chars(document.file.id.0)
    &&& view.comparison_id@ == id_chars(document.comparison_id.0)
    &&& view.repository_id@ == repository_id
    &&& view.path@ == document.file.path@
    &&& opt_text(view.previous_path) == opt_text(document.file.old_path)
    &&& view.status@ == file_status_chars(document.file.status)
    &&& view.additions == row_number(document.changed_new_lines@.len())
    &&& view.deletions == row_number(document.changed_old_lines@.len())
    &&& view.hunk_count == document.hunks@.len()
    &&& view.language@ == language
    &&& view.viewed == viewed
    &&& view.annotation_count == annotation_count
}

/// Shows a file in the file list. `language` is what its language is called.
pub fn file_view(
    document: &ReviewDiffDocument,
    repository_id: String,
    language: &str,
    viewed: bool,
    annotation_count: usize,
) -> (view: ReviewFileView)
    ensures
        is_file_view(
            view,
            *document,
            repository_id@,
            language@,
            viewed,
            annotation_count as nat,
        ),
{
    ReviewFileView {
        id: id_text(document.file.id.0),
        comparison_id: id_text(document.comparison_id.0),
        repository_id,
        path: document.file.path.clone(),
        previous_path: copy_opt(&document.file.old_path),
        status: file_status_name(document.file.status).to_owned(),
        additions: to_row_number(document.changed_new_lines.len()),
        deletions: to_row_number(document.changed_old_lines.len()),
        hunk_count: document.hunks.len(),
        language: language.to_owned(),
        viewed,
        annotation_count,
    }
}

/// How many annotations that were not deleted are about a document.
pub open spec fn annotations_about(annotations: Seq<Annotation>, document: ReviewDiffDocument) -> nat
    decreases annotations.len(),
{
    if annotations.len() == 0 {
        0
    } else {
        annotations_about(annotations.drop_last(), document) + if !soft_deleted(annotations.last())
            && is_about(annotations.last(), document) {
            1nat
        } else {
            0
        }
    }
}

fn count_annotations(annotations: &Vec<Annotation>, document: &ReviewDiffDocument) -> (count: usize)
    ensures
        count == annotations_about(annotations@, *document),
{
    let mut count: usize = 0;
    let mut i: usize = 0;
    assert(annotations@.take(0) =~= Seq::<Annotation>::empty());
    while i < annotations.len()
        invariant
            i <= annotations.len(),
            count <= i,
            count == annotations_about(annotations@.take(i as int), *document),
        decreases annotations.len() - i,
    {
        assert(annotations@.take(i + 1).drop_last() =~= annotations@.take(i as int));
        if !is_soft_deleted(&annotations[i]) && annotation_matches_file(
            &annotations[i],
            document,
        ) {
            count += 1;
        }
        i += 1;
    }
    assert(annotations@.take(annotations.len() as int) =~= annotations@);
    count
}

/// A review as it is shown.
#[derive(Debug)]
pub struct ReviewData {
    pub workspace: WorkspaceView,
    pub repositories: Vec<RepositoryView>,
    pub files: Vec<ReviewFileView>,
    pub annotations: Vec<AnnotationView>,
    pub history: Vec<ReviewHistoryItem>,
    pub refresh_outcome: Option<LocalRefreshOutcomeView>,
    pub historical: bool,
    pub historical_session_id: Option<String>,
}

/// What was captured in a review round: its comparisons, its files with what
/// their languages are called, its annotations, and the files that were
/// viewed.
#[derive(Debug)]
pub struct CapturedReview {
    pub session_id: ReviewSessionId,
    pub comparisons: Vec<RepositoryComparison>,
    pub documents: Vec<ReviewDiffDocument>,
    pub languages: Vec<String>,
    pub annotations: Vec<Annotation>,
    pub viewed: TextSet,
}

/// Which repository each comparison is of.
pub open spec fn owners_of(comparisons: Seq<RepositoryComparison>) -> Seq<ComparisonOwner> {
    comparisons.map_values(
        |comparison: RepositoryComparison|
            ComparisonOwner {
                comparison_id: comparison.id,
                repository_id: comparison.repository_id,
            },
    )
}

fn list_owners(comparisons: &Vec<RepositoryComparison>) -> (owners: Vec<ComparisonOwner>)
    ensures
        owners@ == owners_of(comparisons@),
{
    let mut owners: Vec<ComparisonOwner> = Vec::new();
    while owners.len() < comparisons.len()
        invariant
            owners.len() <= comparisons.len(),
            owners@ =~= owners_of(comparisons@).take(owners.len() as int),
        decreases comparisons.len() - owners.len(),
    {
        let comparison = &comparisons[owners.len()];
        owners.push(
            ComparisonOwner {
                comparison_id: comparison.id,
                repository_id: comparison.repository_id,
            },
        );
    }
    assert(owners@ =~= owners_of(comparisons@));
    owners
}

/// The latest comparison of a repository.
pub open spec fn latest_comparison(comparisons: Seq<RepositoryComparison>, repository: Repository) -> Option<
    RepositoryComparison,
> {
    match comparison_position(comparisons, repository.id) {
        Some(position) => Some(comparisons[position]),
        None => None,
    }
}

fn repository_views(
    repositories: &Vec<Repository>,
    comparisons: &Vec<RepositoryComparison>,
    default_base: &str,
) -> (views: Vec<RepositoryView>)
    ensures
        views@.len() == repositories@.len(),
        forall|i: int|
            0 <= i < repositories@.len() ==> is_repository_view(
                #[trigger] views@[i],
                repositories@[i],
                latest_comparison(comparisons@, repositories@[i]),
                default_base@,
            ),
{
    let mut views: Vec<RepositoryView> = Vec::new();
    while views.len() < repositories.len()
        invariant
            views.len() <= repositories.len(),
            forall|i: int|
                0 <= i < views.len() ==> is_repository_view(
                    #[trigger] views@[i],
                    repositories@[i],
                    latest_comparison(comparisons@, repositories@[i]),
                    default_base@,
                ),
        decreases repositories.len() - views.len(),
    {
        let repository = &repositories[views.len()];
        let comparison: Option<&RepositoryComparison> = match find_comparison(
            comparisons,
            repository.id,
        ) {
            Some(place) => {
                proof {
                    lemma_position_in_range(comparisons@, repository.id);
                }
                Some(&comparisons[place])
            },
            None => None,
        };
        views.push(repository_view(repository, comparison, default_base));
    }
    views
}

proof fn lemma_position_in_range(
    comparisons: Seq<RepositoryComparison>,
    id: crate::ids::RepositoryId,
)
    ensures
        comparison_position(comparisons, id) matches Some(position) ==> 0 <= position
            < comparisons.len(),
    decreases comparisons.len(),
{
    if comparisons.len() > 0 {
        lemma_position_in_range(comparisons.drop_last(), id);
    }
}

/// Whether the repository of a file is known.
pub open spec fn is_owned(document: ReviewDiffDocument, comparisons: Seq<RepositoryComparison>) -> bool {
    owner_of(owners_of(comparisons), document.comparison_id) is Some
}

/// Whether a view shows the file at an index of a captured review.
pub open spec fn shows_file(view: ReviewFileView, review: CapturedReview, index: int) -> bool {
    let document = review.documents@[index];
    owner_of(owners_of(review.comparisons@), document.comparison_id) matches Some(owner)
        && is_file_view(
        view,
        document,
        id_chars(owner.0),
        review.languages@[index]@,
        review.viewed@.contains(id_chars(document.file.id.0)),
        annotations_about(review.annotations@, document),
    )
}

fn file_views(review: &CapturedReview) -> (result: Result<Vec<ReviewFileView>, DispatchError>)
    requires
        review.languages.len() == review.documents.len(),
        review.viewed.wf(),
    ensures
        if forall|i: int|
            0 <= i < review.documents@.len() ==> is_owned(
                #[trigger] review.documents@[i],
                review.comparisons@,
            ) {
            result matches Ok(views) && {
                &&& views@.len() == review.documents@.len()
                &&& forall|i: int|
                    0 <= i < views@.len() ==> shows_file(#[trigger] views@[i], *review, i)
            }
        } else {
            result matches Err(error) && error.is_invalid("file comparison is no longer active"@)
        },
{
    let owners = list_owners(&review.comparisons);
    let mut views: Vec<ReviewFileView> = Vec::new();
    while views.len() < review.documents.len()
        invariant
            views.len() <= review.documents.len(),
            review.languages.len() == review.documents.len(),
            review.viewed.wf(),
            owners@ == owners_of(review.comparisons@),
            forall|i: int|
                0 <= i < views.len() ==> is_owned(
                    #[trigger] review.documents@[i],
                    review.comparisons@,
                ),
            forall|i: int| 0 <= i < views.len() ==> shows_file(#[trigger] views@[i], *review, i),
        decreases review.documents.len() - views.len(),
    {
        let next: usize = views.len();
        let document = &review.documents[next];
        let repository_id = match document_repository_id(document, &owners) {
            Ok(id) => id_text(id.0),
            Err(error) => {
                assert(!is_owned(review.documents@[next as int], review.comparisons@));
                return Err(error);
            },
        };
        let viewed: bool = review.viewed.contains(id_text(document.file.id.0).as_str());
        let count: usize = count_annotations(&review.annotations, document);
        views.push(
            file_view(
                document,
                repository_id,
                review.languages[next].as_str(),
                viewed,
                count,
            ),
        );
        assert(shows_file(views@[next as int], *review, next as int));
    }
    Ok(views)
}

/// Shows a review round. `historical` says that it is only browsed.
pub fn review_data_for_session(
    workspace: WorkspaceView,
    default_base: &str,
    repositories: &Vec<Repository>,
    review: &CapturedReview,
    history: Vec<ReviewHistoryItem>,
    historical: bool,
) -> (result: Result<ReviewData, DispatchError>)
    requires
        review.languages.len() == review.documents.len(),
        review.viewed.wf(),
    ensures
        if forall|i: int|
            0 <= i < review.documents@.len() ==> is_owned(
                #[trigger] review.documents@[i],
                review.comparisons@,
            ) {
            result matches Ok(data) && {
                &&& data.workspace == workspace
                &&& data.repositories@.len() == repositories@.len()
                &&& forall|i: int|
                    0 <= i < repositories@.len() ==> is_repository_view(
                        #[trigger] data.repositories@[i],
                        repositories@[i],
                        latest_comparison(review.comparisons@, repositories@[i]),
                        default_base@,
                    )
                &&& data.files@.len() == review.documents@.len()
                &&& forall|i: int|
                    0 <= i < data.files@.len() ==> shows_file(
                        #[trigger] data.files@[i],
                        *review,
                        i,
                    )
                &&& annotation_models(data.annotations@) == review.annotations@.map_values(
                    |annotation: Annotation| shown_annotation(annotation, review.documents@),
                )
                &&& data.history == history
                &&& data.refresh_outcome is None
                &&& data.historical == historical
                &&& opt_text(data.historical_session_id) == if historical {
                    Some(id_chars(review.session_id.0))
                } else {
                    None
                }
            }
        } else {
            result matches Err(error) && error.is_invalid("file comparison is no longer active"@)
        },
{
    let files = match file_views(review) {
        Ok(files) => files,
        Err(error) => {
            return Err(error);
        },
    };
    let historical_session_id: Option<String> = if historical {
        Some(id_text(review.session_id.0))
    } else {
        None
    };
    Ok(
        ReviewData {
            workspace,
            repositories: repository_views(repositories, &review.comparisons, default_base),
            files,
            annotations: annotation_views(&review.annotations, &review.documents),
            history,
            refresh_outcome: None,
            historical,
            historical_session_id,
        },
    )
}

/// Shows a workspace that has no review yet.
pub fn review_data_without_session(
    workspace: WorkspaceView,
    default_base: &str,
    repositories: &Vec<Repository>,
    history: Vec<ReviewHistoryItem>,
) -> (data: ReviewData)
    ensures
        data.workspace == workspace,
        data.repositories@.len() == repositories@.len(),
        forall|i: int|
            0 <= i < repositories@.len() ==> is_repository_view(
                #[trigger] data.repositories@[i],
                repositories@[i],
                None,
                default_base@,
            ),
        data.files@.len() == 0,
        data.annotations@.len() == 0,
        data.history == history,
        data.refresh_outcome is None,
        !data.historical,
        data.historical_session_id is None,
{
    let none: Vec<RepositoryComparison> = Vec::new();
    let views = repository_views(repositories, &none, default_base);
    assert(forall|i: int|
        0 <= i < repositories@.len() ==> latest_comparison(
            none@,
            #[trigger] repositories@[i],
        ) is None);
    ReviewData {
        workspace,
        repositories: views,
        files: Vec::new(),
        annotations: Vec::new(),
        history,
        refresh_outcome: None,
        historical: false,
        historical_session_id: None,
    }
}

/// The annotations that were not deleted.
pub open spec fn kept(annotations: Seq<Annotation>) -> Seq<Annotation>
    decreases annotations.len(),
{
    if annotations.len() == 0 {
        Seq::empty()
    } else {
        let rest = kept(annotations.drop_first());
        if soft_deleted(annotations[0]) {
            rest
        } else {
            seq![annotations[0]] + rest
        }
    }
}

/// Leaves out the annotations that were deleted.
pub fn kept_annotations(annotations: Vec<Annotation>) -> (left: Vec<Annotation>)
    ensures
        left@ == kept(annotations@),
{
    let ghost before = annotations@;
    let mut left = annotations;
    let mut i: usize = 0;
    assert(before.skip(0) =~= before);
    assert(before.take(0) + kept(before.skip(0)) =~= kept(before));
    while i < left.len()
        invariant
            i <= left.len(),
            kept(before) == left@.take(i as int) + kept(left@.skip(i as int)),
        decreases left.len() - i,
    {
        let ghost now = left@;
        assert(now.skip(i as int)[0] == now[i as int]);
        assert(now.skip(i as int).drop_first() =~= now.skip(i + 1));
        if is_soft_deleted(&left[i]) {
            left.remove(i);
            assert(left@.take(i as int) =~= now.take(i as int));
            assert(left@.skip(i as int) =~= now.skip(i + 1));
        } else {
            assert(now.take(i as int) + (seq![now[i as int]] + kept(now.skip(i + 1))) =~= now.take(
                i + 1,
            ) + kept(now.skip(i + 1)));
            i += 1;
        }
    }
    assert(left@.take(left.len() as int) =~= left@);
    assert(left@.skip(left.len() as int) =~= Seq::<Annotation>::empty());
    assert(left@ + Seq::<Annotation>::empty() =~= left@);
    left
}

/// What kind of symbol an outline shows.
#[derive(Clone, Copy, Debug, PartialEq, Eq, Structural)]
pub enum OutlineKind {
    Function,
    Method,
    Class,
    Struct,
    Enum,
    Interface,
    Module,
    Heading,
    Property,
    Unknown,
}

/// The name of a kind of symbol.
pub open spec fn outline_kind_chars(kind: OutlineKind) -> Seq<char> {
    match kind {
        OutlineKind::Function => "function"@,
        OutlineKind::Method => "method"@,
        OutlineKind::Class => "class"@,
        OutlineKind::Struct => "struct"@,
        OutlineKind::Enum => "enum"@,
        OutlineKind::Interface => "interface"@,
        OutlineKind::Module => "module"@,
        OutlineKind::Heading => "heading"@,
        OutlineKind::Property => "property"@,
        OutlineKind::Unknown => "unknown"@,
    }
}

/// The name of a kind of symbol.
pub fn outline_kind_name(kind: OutlineKind) -> (name: &'static str)
    ensures
        name@ == outline_kind_chars(kind),
{
    match kind {
        OutlineKind::Function => "function",
        OutlineKind::Method => "method",
        OutlineKind::Class => "class",
        OutlineKind::Struct => "struct",
        OutlineKind::Enum => "enum",
        OutlineKind::Interface => "interface",
        OutlineKind::Module => "module",
        OutlineKind::Heading => "heading",
        OutlineKind::Property => "property",
        OutlineKind::Unknown => "unknown",
    }
}

/// A symbol of a source.
#[derive(Debug)]
pub struct OutlineSymbol {
    pub name: String,
    pub kind: OutlineKind,
    pub start_line: u32,
    pub end_line: u32,
    pub depth: u16,
}

/// The side whose outline is shown: of a deleted file, the old one.
pub fn outline_side(document: &ReviewDiffDocument, requested: DiffSide) -> (side: DiffSide)
    ensures
        side == if document.file.status == ReviewFileStatus::Deleted {
            DiffSide::Old
        } else {
            requested
        },
{
    if document.file.status == ReviewFileStatus::Deleted {
        DiffSide::Old
    } else {
        requested
    }
}

/// Whether a view shows the symbol at an index of an outline.
pub open spec fn shows_symbol(view: OutlineSymbolView, symbol: OutlineSymbol, side: DiffSide, index: nat) -> bool {
    &&& view.id@ == side_chars(side) + ":"@ + decimal(symbol.start_line as nat) + ":"@ + decimal(
        index,
    )
    &&& view.name@ == symbol.name@
    &&& view.kind@ == outline_kind_chars(symbol.kind)
    &&& view.start_line == symbol.start_line
    &&& view.end_line == symbol.end_line
    &&& view.depth == symbol.depth
    &&& view.side@ == side_chars(side)
}

/// Shows an outline.
pub fn outline_views(symbols: &Vec<OutlineSymbol>, side: DiffSide) -> (views: Vec<OutlineSymbolView>)
    ensures
        views@.len() == symbols@.len(),
        forall|i: int|
            0 <= i < symbols@.len() ==> shows_symbol(
                #[trigger] views@[i],
                symbols@[i],
                side,
                i as nat,
            ),
{
    let mut views: Vec<OutlineSymbolView> = Vec::new();
    while views.len() < symbols.len()
        invariant
            views.len() <= symbols.len(),
            forall|i: int|
                0 <= i < views.len() ==> shows_symbol(
                    #[trigger] views@[i],
                    symbols@[i],
                    side,
                    i as nat,
                ),
        decreases symbols.len() - views.len(),
    {
        let symbol = &symbols[views.len()];
        let mut id = side_name(side).to_owned();
        id.append(":");
        push_decimal(&mut id, symbol.start_line as u64);
        id.append(":");
        push_decimal(&mut id, views.len() as u64);
        views.push(
            OutlineSymbolView {
                id,
                name: symbol.name.clone(),
                kind: outline_kind_name(symbol.kind).to_owned(),
                start_line: symbol.start_line,
                end_line: symbol.end_line,
                depth: symbol.depth,
                side: side_name(side).to_owned(),
            },
        );
    }
    views
}

/// Refuses to override what a pull request pins.
pub fn check_refresh_input(
    source: SourceKind,
    has_base: bool,
    repository_base_count: usize,
    has_options: bool,
) -> (result: Result<(), DispatchError>)
    ensures
        if source == SourceKind::PullRequest && (has_base || repository_base_count > 0
            || has_options) {
            result matches Err(error) && error.is_invalid(
                "GitHub PR bases and comparison rules are pinned by GitHub metadata; refresh the PR instead of overriding them"@,
            )
        } else {
            result is Ok
        },
{
    if source == SourceKind::PullRequest && (has_base || repository_base_count > 0 || has_options) {
        return Err(
            invalid(
                "GitHub PR bases and comparison rules are pinned by GitHub metadata; refresh the PR instead of overriding them",
            ),
        );
    }
    Ok(())
}

/// What is said of the changes of a workspace once it was captured.
#[derive(Clone, Copy, Debug, PartialEq, Eq, Structural)]
pub enum Acknowledgement {
    /// That the capture shows those from before it.
    CapturedUpToBoundary,
    /// That there are some that it does not show.
    StillOutdated,
    /// Nothing.
    Silent,
}

/// What is said of the changes of a workspace once a new review was captured.
/// A capture of which a part failed shows nothing for certain, and that of a
/// pull request says nothing of its provider.
pub fn acknowledge_start(source: SourceKind, failure_count: usize) -> (said: Acknowledgement)
    ensures
        said == if failure_count == 0 && source == SourceKind::Local {
            Acknowledgement::CapturedUpToBoundary
        } else {
            Acknowledgement::Silent
        },
{
    if failure_count == 0 && source == SourceKind::Local {
        Acknowledgement::CapturedUpToBoundary
    } else {
        Acknowledgement::Silent
    }
}

/// What is said of the changes of a workspace once its review was captured
/// again. A repository that could not be captured keeps the offer to try again.
pub fn acknowledge_refresh(failure_count: usize) -> (said: Acknowledgement)
    ensures
        said == if failure_count == 0 {
            Acknowledgement::CapturedUpToBoundary
        } else {
            Acknowledgement::StillOutdated
        },
{
    if failure_count == 0 {
        Acknowledgement::CapturedUpToBoundary
    } else {
        Acknowledgement::StillOutdated
    }
}

/// Whether a review can only be browsed: that of a pull request whose checkout
/// is gone.
pub fn is_detached_snapshot(source: SourceKind, checkout_exists: bool) -> (detached: bool)
    ensures
        detached == (source == SourceKind::PullRequest && !checkout_exists),
{
    source == SourceKind::PullRequest && !checkout_exists
}

/// The settings that go with a workspace.
pub fn workspace_setting_keys(workspace_id: WorkspaceId) -> (keys: Vec<String>)
    ensures
        texts(keys@) == seq![
            "ui.annotation_draft.v1."@ + id_chars(workspace_id.0),
            "remote.workspace.v4."@ + id_chars(workspace_id.0),
            "remote.workspace.v3."@ + id_chars(workspace_id.0),
        ],
{
    let mut keys: Vec<String> = Vec::new();
    keys.push(legacy_annotation_draft_key(workspace_id));
    keys.push(remote_workspace_key(workspace_id));
    keys.push(legacy_remote_workspace_key(workspace_id));
    assert(texts(keys@) =~= seq![
        "ui.annotation_draft.v1."@ + id_chars(workspace_id.0),
        "remote.workspace.v4."@ + id_chars(workspace_id.0),
        "remote.workspace.v3."@ + id_chars(workspace_id.0),
    ]);
    keys
}

/// How many languages are remembered at most.
pub const MAX_LANGUAGES: usize = 8192;

/// The language that was found for a file of a comparison, if one was.
#[derive(Debug)]
pub struct KnownLanguage {
    pub comparison_id: String,
    pub path: String,
    pub language: Option<String>,
}

/// What is remembered of a language.
pub struct LanguageModel {
    pub comparison_id: Seq<char>,
    pub path: Seq<char>,
    pub language: Option<Seq<char>>,
}

/// The languages of the files that were asked for.
#[derive(Debug)]
pub struct LanguageMemory {
    known: Vec<KnownLanguage>,
}

/// What was remembered last of a file of a comparison.
pub open spec fn recalled(known: Seq<LanguageModel>, comparison_id: Seq<char>, path: Seq<char>) -> Option<
    Option<Seq<char>>,
>
    decreases known.len(),
{
    if known.len() == 0 {
        None
    } else if known.last().comparison_id == comparison_id && known.last().path == path {
        Some(known.last().language)
    } else {
        recalled(known.drop_last(), comparison_id, path)
    }
}

/// What is remembered of all other files.
pub open spec fn languages_but(
    known: Seq<LanguageModel>,
    comparison_id: Seq<char>,
    path: Seq<char>,
) -> Seq<LanguageModel>
    decreases known.len(),
{
    if known.len() == 0 {
        known
    } else {
        let rest = languages_but(known.drop_last(), comparison_id, path);
        if known.last().comparison_id == comparison_id && known.last().path == path {
            rest
        } else {
            rest.push(known.last())
        }
    }
}

/// What is remembered once a language has been added: everything, or nothing
/// where that would be one too many.
pub open spec fn remembering(known: Seq<LanguageModel>, entry: LanguageModel) -> Seq<LanguageModel> {
    let left = languages_but(known, entry.comparison_id, entry.path);
    if left.len() < MAX_LANGUAGES {
        left.push(entry)
    } else {
        Seq::empty()
    }
}

impl View for LanguageMemory {
    type V = Seq<LanguageModel>;

    closed spec fn view(&self) -> Seq<LanguageModel> {
        self.known@.map_values(
            |entry: KnownLanguage|
                LanguageModel {
                    comparison_id: entry.comparison_id@,
                    path: entry.path@,
                    language: opt_text(entry.language),
                },
        )
    }
}

impl LanguageMemory {
    /// Nothing is remembered.
    pub fn new() -> (memory: LanguageMemory)
        ensures
            memory@ == Seq::<LanguageModel>::empty(),
    {
        let memory = LanguageMemory { known: Vec::new() };
        assert(memory@ =~= Seq::<LanguageModel>::empty());
        memory
    }

    /// Recalls the language of a file; `None` where it was not asked for yet.
    pub fn recall(&self, comparison_id: &str, path: &str) -> (found: Option<Option<String>>)
        ensures
            match recalled(self@, comparison_id@, path@) {
                Some(language) => found matches Some(text) && opt_text(text) == language,
                None => found is None,
            },
    {
        let mut i: usize = self.known.len();
        assert(self@.take(self@.len() as int) =~= self@);
        while i > 0
            invariant
                i <= self.known.len(),
                i <= self@.len(),
                recalled(self@, comparison_id@, path@) == recalled(
                    self@.take(i as int),
                    comparison_id@,
                    path@,
                ),
            decreases i,
        {
            let entry = &self.known[i - 1];
            assert(self@.take(i as int).drop_last() =~= self@.take(i - 1));
            assert(self@.take(i as int).last() == self@[i - 1]);
            assert(self@[i - 1].language == opt_text(entry.language));
            if text_eq(entry.comparison_id.as_str(), comparison_id) && text_eq(
                entry.path.as_str(),
                path,
            ) {
                return Some(copy_opt(&entry.language));
            }
            i -= 1;
        }
        None
    }

    /// Remembers the language of a file, in place of what was remembered of it.
    /// Where that is one too many, everything is forgotten.
    pub fn remember(&mut self, comparison_id: &str, path: &str, language: Option<String>)
        ensures
            final(self)@ == remembering(
                old(self)@,
                LanguageModel {
                    comparison_id: comparison_id@,
                    path: path@,
                    language: opt_text(language),
                },
            ),
    {
        let ghost before = self@;
        let ghost mut seen: int = 0;
        let mut i: usize = 0;
        assert(before.skip(0) =~= before);
        assert(self@.take(0) =~= Seq::<LanguageModel>::empty());
        assert(before.take(0) =~= Seq::<LanguageModel>::empty());
        while i < self.known.len()
            invariant
                i <= self.known.len(),
                0 <= seen <= before.len(),
                self@.take(i as int) == languages_but(before.take(seen), comparison_id@, path@),
                self@.skip(i as int) == before.skip(seen),
            decreases self.known.len() - i,
        {
            let ghost held = self@;
            assert(held.skip(i as int)[0] == before.skip(seen)[0]);
            assert(before.skip(seen).len() > 0);
            assert(before.take(seen + 1).drop_last() =~= before.take(seen));
            assert(before.take(seen + 1).last() == held[i as int]);
            assert(before.skip(seen).skip(1) =~= before.skip(seen + 1));
            assert(held.skip(i as int).skip(1) =~= held.skip(i + 1));
            if text_eq(self.known[i].comparison_id.as_str(), comparison_id) && text_eq(
                self.known[i].path.as_str(),
                path,
            ) {
                self.known.remove(i);
                assert(self@ =~= held.remove(i as int));
                assert(self@.take(i as int) =~= held.take(i as int));
                assert(self@.skip(i as int) =~= held.skip(i + 1));
            } else {
                assert(held.take(i + 1) =~= held.take(i as int).push(held[i as int]));
                i += 1;
            }
            proof {
                seen = seen + 1;
            }
        }
        assert(before.skip(seen).len() == 0);
        assert(before.take(seen) =~= before);
        assert(self@.take(i as int) =~= self@);
        let ghost left = self@;
        let ghost model = LanguageModel {
            comparison_id: comparison_id@,
            path: path@,
            language: opt_text(language),
        };
        if self.known.len() >= MAX_LANGUAGES {
            self.known = Vec::new();
            assert(self@ =~= Seq::<LanguageModel>::empty());
        } else {
            self.known.push(
                KnownLanguage {
                    comparison_id: comparison_id.to_owned(),
                    path: path.to_owned(),
                    language,
                },
            );
            assert(self@ =~= left.push(model));
        }
    }
}

proof fn lemma_others_are_recalled(
    known: Seq<LanguageModel>,
    comparison_id: Seq<char>,
    path: Seq<char>,
    other_id: Seq<char>,
    other_path: Seq<char>,
)
    requires
        comparison_id != other_id || path != other_path,
    ensures
        recalled(languages_but(known, comparison_id, path), other_id, other_path) == recalled(
            known,
            other_id,
            other_path,
        ),
    decreases known.len(),
{
    if known.len() > 0 {
        let rest = languages_but(known.drop_last(), comparison_id, path);
        lemma_others_are_recalled(
            known.drop_last(),
            comparison_id,
            path,
            other_id,
            other_path,
        );
        assert(rest.push(known.last()).drop_last() =~= rest);
    }
}

/// As long as the memory is not full, a language that was remembered is
/// recalled and those of all other files stay; and it never grows beyond its
/// bound.
pub proof fn law_remembered_language_is_recalled(
    known: Seq<LanguageModel>,
    entry: LanguageModel,
    other_id: Seq<char>,
    other_path: Seq<char>,
)
    ensures
        remembering(known, entry).len() <= MAX_LANGUAGES,
        languages_but(known, entry.comparison_id, entry.path).len() < MAX_LANGUAGES ==> {
            &&& recalled(remembering(known, entry), entry.comparison_id, entry.path) == Some(
                entry.language,
            )
            &&& (entry.comparison_id != other_id || entry.path != other_path) ==> recalled(
                remembering(known, entry),
                other_id,
                other_path,
            ) == recalled(known, other_id, other_path)
        },
{
    let left = languages_but(known, entry.comparison_id, entry.path);
    assert(left.push(entry).last() == entry);
    assert(left.push(entry).drop_last() =~= left);
    if entry.comparison_id != other_id || entry.path != other_path {
        lemma_others_are_recalled(known, entry.comparison_id, entry.path, other_id, other_path);
    }
}

} // verus!
