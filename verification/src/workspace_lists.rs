//! Which workspaces are listed and found, and what is counted of their
//! reviews.
use crate::annotations::{Annotation, AnnotationState, PublicationState};
use crate::errors::DispatchError;
use crate::ids::{id_chars, parsed_id, ReviewFileId};
use crate::refresh::RefreshAvailability;
use crate::text::{texts, trimmed};
use crate::text_set::TextSet;
use crate::time::Timestamp;
use crate::views::{ReviewProgress, WorkspaceView};
use crate::workspace::{
    draft_total, focus_workspace, law_source_names_read_back, list_workspaces, listed_workspaces,
    named_tags, open_count, position_of, protocol_summary, review_progress, tag_names,
    update_workspace_metadata, viewed_count, workspace_view, ActiveReview, Workspace,
    WorkspaceFacts, WorkspaceSource, WorkspaceSourceTag, WorkspaceSummary,
};
use vstd::prelude::*;
use vstd::string::*;

verus! {

/// How many numbers below `count` are as asked.
pub open spec fn how_many(asked: spec_fn(int) -> bool, count: nat) -> nat
    decreases count,
{
    if count == 0 {
        0
    } else {
        how_many(asked, (count - 1) as nat) + if asked(count - 1) {
            1nat
        } else {
            0
        }
    }
}

/// What holds of the same numbers is counted alike.
pub proof fn lemma_how_many(a: spec_fn(int) -> bool, b: spec_fn(int) -> bool, count: nat)
    requires
        forall|i: int| 0 <= i < count ==> #[trigger] a(i) == b(i),
    ensures
        how_many(a, count) == how_many(b, count),
    decreases count,
{
    if count > 0 {
        lemma_how_many(a, b, (count - 1) as nat);
        assert(a(count - 1) == b(count - 1));
    }
}

proof fn lemma_listed(workspaces: Seq<Workspace>, archived: bool)
    requires
        workspaces.len() <= usize::MAX,
    ensures
        ({
            let indices = listed_workspaces(workspaces, archived);
            &&& forall|i: int|
                0 <= i < workspaces.len() ==> (indices.contains(i as usize) <==> (
                #[trigger] workspaces[i]).archived_at is Some == archived)
            &&& forall|k: int| 0 <= k < indices.len() ==> #[trigger] indices[k] < workspaces.len()
            &&& forall|j: int, k: int|
                0 <= j < k < indices.len() ==> #[trigger] indices[j] < #[trigger] indices[k]
        }),
    decreases workspaces.len(),
{
    if workspaces.len() > 0 {
        let shorter = workspaces.drop_last();
        lemma_listed(shorter, archived);
        let before = listed_workspaces(shorter, archived);
        let indices = listed_workspaces(workspaces, archived);
        let last = workspaces.len() - 1;
        assert forall|i: int| 0 <= i < workspaces.len() implies (indices.contains(i as usize) <==> (
        #[trigger] workspaces[i]).archived_at is Some == archived) by {
            if i < last {
                assert(shorter[i] == workspaces[i]);
                if before.contains(i as usize) {
                    let k = choose|k: int| 0 <= k < before.len() && before[k] == i as usize;
                    assert(indices[k] == i as usize);
                }
                if indices.contains(i as usize) {
                    let k = choose|k: int| 0 <= k < indices.len() && indices[k] == i as usize;
                    if k < before.len() {
                        assert(before[k] == i as usize);
                    }
                }
            } else {
                if (workspaces[i].archived_at is Some) == archived {
                    assert(indices[indices.len() - 1] == i as usize);
                } else if indices.contains(i as usize) {
                    let k = choose|k: int| 0 <= k < indices.len() && indices[k] == i as usize;
                    assert(before[k] < shorter.len());
                }
            }
        }
    }
}

/// Every workspace is in one of the two lists: the archived ones in the one,
/// all others in the other, each once and in order.
pub proof fn law_workspaces_are_listed_once(
    workspaces: Vec<Workspace>,
    shown: Vec<usize>,
    archived: Vec<usize>,
    index: usize,
)
    requires
        call_ensures(list_workspaces, (&workspaces, false), shown),
        call_ensures(list_workspaces, (&workspaces, true), archived),
        index < workspaces@.len(),
    ensures
        archived@.contains(index) <==> workspaces@[index as int].archived_at is Some,
        shown@.contains(index) <==> workspaces@[index as int].archived_at is None,
        forall|j: int, k: int|
            0 <= j < k < shown@.len() ==> #[trigger] shown@[j] < #[trigger] shown@[k],
        forall|j: int, k: int|
            0 <= j < k < archived@.len() ==> #[trigger] archived@[j] < #[trigger] archived@[k],
{
    assert(workspaces.len() == workspaces@.len());
    lemma_listed(workspaces@, false);
    lemma_listed(workspaces@, true);
    assert(workspaces@[index as int] == workspaces@[index as int]);
}

proof fn lemma_position(workspaces: Seq<Workspace>, id: u128, index: int)
    requires
        0 <= index < workspaces.len(),
        workspaces[index].id.0 == id,
        forall|j: int| 0 <= j < index ==> (#[trigger] workspaces[j]).id.0 != id,
    ensures
        position_of(workspaces, id) == Some(index),
    decreases workspaces.len(),
{
    if index < workspaces.len() - 1 {
        lemma_position(workspaces.drop_last(), id, index);
    } else {
        lemma_no_position(workspaces.drop_last(), id);
    }
}

proof fn lemma_no_position(workspaces: Seq<Workspace>, id: u128)
    requires
        forall|j: int| 0 <= j < workspaces.len() ==> (#[trigger] workspaces[j]).id.0 != id,
    ensures
        position_of(workspaces, id) is None,
    decreases workspaces.len(),
{
    if workspaces.len() > 0 {
        lemma_no_position(workspaces.drop_last(), id);
        assert(workspaces[workspaces.len() - 1].id.0 != id);
    }
}

/// Which workspaces are open under a name.
spec fn open_under(workspaces: Seq<Workspace>, name: Seq<char>) -> spec_fn(int) -> bool {
    |i: int| workspaces[i].archived_at is None && workspaces[i].display_name@ == name
}

proof fn lemma_open_count(workspaces: Seq<Workspace>, name: Seq<char>)
    ensures
        open_count(workspaces, name) == how_many(open_under(workspaces, name), workspaces.len()),
    decreases workspaces.len(),
{
    if workspaces.len() > 0 {
        let shorter = workspaces.drop_last();
        lemma_open_count(shorter, name);
        lemma_how_many(open_under(shorter, name), open_under(workspaces, name), shorter.len());
    }
}

proof fn lemma_how_many_at_most(asked: spec_fn(int) -> bool, count: nat, index: int)
    requires
        forall|i: int| 0 <= i < count && i != index ==> !#[trigger] asked(i),
    ensures
        how_many(asked, count) == if 0 <= index < count && asked(index) {
            1nat
        } else {
            0
        },
    decreases count,
{
    if count > 0 {
        lemma_how_many_at_most(asked, (count - 1) as nat, index);
        if count - 1 != index {
            assert(!asked(count - 1));
        }
    }
}

proof fn lemma_how_many_pair(asked: spec_fn(int) -> bool, count: nat, a: int, b: int)
    requires
        0 <= a < b < count,
        asked(a),
        asked(b),
    ensures
        how_many(asked, count) >= 2,
    decreases count,
{
    if b == count - 1 {
        lemma_how_many_one(asked, (count - 1) as nat, a);
    } else {
        lemma_how_many_pair(asked, (count - 1) as nat, a, b);
    }
}

proof fn lemma_how_many_one(asked: spec_fn(int) -> bool, count: nat, a: int)
    requires
        0 <= a < count,
        asked(a),
    ensures
        how_many(asked, count) >= 1,
    decreases count,
{
    if a < count - 1 {
        lemma_how_many_one(asked, (count - 1) as nat, a);
    }
}

/// An open workspace is found by its id, whatever others are called; an
/// archived one is not opened that way.
pub proof fn law_workspaces_are_found_by_their_id(
    workspaces: Vec<Workspace>,
    selector: &str,
    result: Result<usize, DispatchError>,
    index: int,
)
    requires
        call_ensures(focus_workspace, (&workspaces, selector), result),
        0 <= index < workspaces@.len(),
        parsed_id(selector@) == Some(workspaces@[index].id.0),
        forall|j: int| 0 <= j < index ==> (#[trigger] workspaces@[j]).id != workspaces@[index].id,
    ensures
        if workspaces@[index].archived_at is None {
            result matches Ok(place) && place == index
        } else {
            result is Err
        },
{
    lemma_position(workspaces@, workspaces@[index].id.0, index);
}

/// An open workspace is found by its name where no other open one has it; a
/// name that two open ones have, or none, finds nothing.
pub proof fn law_workspaces_are_found_by_an_unambiguous_name(
    workspaces: Vec<Workspace>,
    selector: &str,
    result: Result<usize, DispatchError>,
    index: int,
    other: int,
)
    requires
        call_ensures(focus_workspace, (&workspaces, selector), result),
        parsed_id(selector@) is None,
        0 <= index < workspaces@.len(),
        workspaces@[index].archived_at is None,
        workspaces@[index].display_name@ == selector@,
        index != other,
    ensures
        (forall|j: int|
            0 <= j < workspaces@.len() && j != index ==> (#[trigger] workspaces@[j]).archived_at is Some
                || workspaces@[j].display_name@ != selector@) ==> (result matches Ok(place) && place
            == index),
        0 <= other < workspaces@.len() && workspaces@[other].archived_at is None
            && workspaces@[other].display_name@ == selector@ ==> result is Err,
{
    let asked = open_under(workspaces@, selector@);
    lemma_open_count(workspaces@, selector@);
    assert(asked(index));
    if forall|j: int|
        0 <= j < workspaces@.len() && j != index ==> (#[trigger] workspaces@[j]).archived_at is Some
            || workspaces@[j].display_name@ != selector@ {
        assert forall|i: int| 0 <= i < workspaces@.len() && i != index implies !#[trigger] asked(
            i,
        ) by {
            assert(workspaces@[i].archived_at is Some || workspaces@[i].display_name@ != selector@);
        }
        lemma_how_many_at_most(asked, workspaces@.len(), index);
    }
    if 0 <= other < workspaces@.len() && workspaces@[other].archived_at is None
        && workspaces@[other].display_name@ == selector@ {
        assert(asked(other));
        if index < other {
            lemma_how_many_pair(asked, workspaces@.len(), index, other);
        } else {
            lemma_how_many_pair(asked, workspaces@.len(), other, index);
        }
    }
}

proof fn lemma_viewed(files: Seq<ReviewFileId>, viewed: Set<Seq<char>>)
    ensures
        viewed_count(files, viewed) == how_many(
            |i: int| viewed.contains(id_chars(files[i].0)),
            files.len(),
        ),
    decreases files.len(),
{
    if files.len() > 0 {
        let shorter = files.drop_last();
        lemma_viewed(shorter, viewed);
        lemma_how_many(
            |i: int| viewed.contains(id_chars(shorter[i].0)),
            |i: int| viewed.contains(id_chars(files[i].0)),
            shorter.len(),
        );
    }
}

proof fn lemma_drafts(annotations: Seq<Annotation>)
    ensures
        draft_total(annotations) == how_many(|i: int| is_unpublished(annotations[i]), annotations.len()),
    decreases annotations.len(),
{
    if annotations.len() > 0 {
        let shorter = annotations.drop_last();
        lemma_drafts(shorter);
        lemma_how_many(
            |i: int| is_unpublished(shorter[i]),
            |i: int| is_unpublished(annotations[i]),
            shorter.len(),
        );
    }
}

/// Whether an annotation is open and was not published.
pub open spec fn is_unpublished(annotation: Annotation) -> bool {
    &&& match annotation.state {
        AnnotationState::Open => true,
        AnnotationState::Resolved | AnnotationState::Deleted => false,
    }
    &&& match annotation.publication_state {
        PublicationState::LocalOnly | PublicationState::IncludedInNextReview => true,
        PublicationState::Published => false,
    }
}

/// Progress counts the files that were viewed among all files.
pub proof fn law_progress_counts_viewed_files(
    files: Vec<ReviewFileId>,
    viewed: TextSet,
    progress: ReviewProgress,
)
    requires
        viewed.wf(),
        call_ensures(review_progress, (&files, &viewed), progress),
    ensures
        progress.total == files@.len(),
        progress.viewed == how_many(
            |i: int| viewed@.contains(id_chars(files@[i].0)),
            files@.len(),
        ),
{
    lemma_viewed(files@, viewed@);
}

/// A workspace is shown with its own name, base and marks, with the progress
/// and the open unpublished annotations of its review, and as ready where it
/// has one. A change that was noticed is offered.
pub proof fn law_workspaces_are_shown_with_their_review(
    workspace: Workspace,
    tags: Vec<WorkspaceSourceTag>,
    review: Option<ActiveReview>,
    availability: RefreshAvailability,
    facts: WorkspaceFacts,
    view: WorkspaceView,
)
    requires
        crate::workspace::facts_fit(workspace.source, facts),
        review matches Some(active) ==> active.viewed.wf(),
        call_ensures(
            workspace_view,
            (&workspace, &tags, &review, availability, &facts),
            view,
        ),
    ensures
        view.id@ == id_chars(workspace.id.0),
        view.name@ == workspace.display_name@,
        view.default_base@ == workspace.default_base@,
        view.pinned == workspace.pinned,
        view.archived <==> workspace.archived_at is Some,
        view.review_ready <==> review is Some,
        review matches Some(active) ==> {
            &&& view.progress.total == active.files@.len()
            &&& view.progress.viewed == how_many(
                |i: int| active.viewed@.contains(id_chars(active.files@[i].0)),
                active.files@.len(),
            )
            &&& view.draft_count == how_many(
                |i: int| is_unpublished(active.annotations@[i]),
                active.annotations@.len(),
            )
        },
        availability.available ==> view.refresh_available,
        view.refresh_available_revision == availability.revision,
        workspace.source matches WorkspaceSource::LocalDirectory { root } ==> view.location@ == root@
            && view.connection@ == "connected"@ && view.refresh_available
            == availability.available,
        workspace.source matches WorkspaceSource::PullRequest { url, number } ==> view.location@
            == url@ && view.connection@ == "connected"@ && view.refresh_available
            == availability.available,
        facts matches WorkspaceFacts::Remote { metadata, repository_count, connection } ==> (
        metadata matches Some(record) && record.stale ==> view.refresh_available),
{
    match review {
        Some(active) => {
            lemma_viewed(active.files@, active.viewed@);
            lemma_drafts(active.annotations@);
        },
        None => {},
    }
}

proof fn lemma_tags_read_back(tags: Seq<WorkspaceSourceTag>, names: Seq<String>)
    requires
        texts(names) == tag_names(tags),
    ensures
        named_tags(names) == tags,
    decreases tags.len(),
{
    assert(texts(names).len() == names.len());
    assert(tag_names(tags).len() == tags.len());
    if tags.len() > 0 {
        assert(texts(names.drop_last()) =~= tag_names(tags.drop_last())) by {
            assert forall|i: int| 0 <= i < names.len() - 1 implies #[trigger] texts(
                names.drop_last(),
            )[i] == tag_names(tags.drop_last())[i] by {
                assert(texts(names)[i] == tag_names(tags)[i]);
            }
        }
        lemma_tags_read_back(tags.drop_last(), names.drop_last());
        assert(texts(names)[tags.len() - 1] == tag_names(tags)[tags.len() - 1]);
        law_source_names_read_back(tags.last());
        assert(named_tags(names) =~= tags);
    } else {
        assert(named_tags(names) =~= tags);
    }
}

/// What a client is told of a workspace is what is shown of it: its id, its
/// name, where it is, and every source that it was tagged with.
pub proof fn law_clients_are_told_what_is_shown(
    workspace: Workspace,
    tags: Vec<WorkspaceSourceTag>,
    review: Option<ActiveReview>,
    availability: RefreshAvailability,
    facts: WorkspaceFacts,
    view: WorkspaceView,
    summary: WorkspaceSummary,
)
    requires
        crate::workspace::facts_fit(workspace.source, facts),
        review matches Some(active) ==> active.viewed.wf(),
        call_ensures(
            workspace_view,
            (&workspace, &tags, &review, availability, &facts),
            view,
        ),
        call_ensures(protocol_summary, (&view,), summary),
    ensures
        summary.id@ == id_chars(workspace.id.0),
        summary.name@ == workspace.display_name@,
        summary.source_tags@ == tags@,
        summary.location matches Some(location) && location@ == view.location@,
        workspace.source is LocalDirectory ==> summary.available,
{
    lemma_tags_read_back(tags@, view.source@);
}

/// A workspace takes the new name without the white space around it and the new
/// mark, and keeps all else; an archived one takes neither.
pub proof fn law_renaming_changes_the_name_alone(
    workspace: Workspace,
    name: String,
    pinned: Option<bool>,
    now: Timestamp,
    result: Result<Workspace, DispatchError>,
)
    requires
        call_ensures(update_workspace_metadata, (workspace, Some(name), pinned, now), result),
        1 <= trimmed(name@).len() <= 120,
        !crate::text::has_control_code(trimmed(name@)),
    ensures
        workspace.archived_at is Some ==> result is Err,
        workspace.archived_at is None ==> (result matches Ok(updated) && {
            &&& updated.display_name@ == trimmed(name@)
            &&& updated.pinned == match pinned {
                Some(mark) => mark,
                None => workspace.pinned,
            }
            &&& updated.id == workspace.id
            &&& updated.source == workspace.source
            &&& updated.default_base == workspace.default_base
            &&& updated.archived_at is None
            &&& updated.created_at == workspace.created_at
            &&& updated.updated_at == now
        }),
{
}

} // verus!
