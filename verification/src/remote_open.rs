//! Opening a workspace on another host.
use crate::ids::{ReviewFileId, WorkspaceId};
use crate::remote::{
    accepted_files, is_not_text, remote_workspace_name, stands_for, workspace_leaf, KnownFile,
    PathProblems, PlaceholderFile, RemoteCapturedFile, RemoteTarget,
};
use crate::time::Timestamp;
use crate::workspace::{is_found_target, is_open_target, Workspace, WorkspaceSource};
use vstd::prelude::*;
use vstd::string::*;

verus! {

/// A step of opening a remote workspace. None of them reads a source: that is
/// left to the moment at which a file is shown.
#[derive(Clone, Copy, Debug, PartialEq, Eq, Structural)]
pub enum OpenStep {
    /// Connect to the host of the workspace that is there.
    Reconnect,
    /// Answer with the workspace that is there.
    ShowKnown,
    Connect,
    Discover,
    StoreWorkspace,
    StoreRepositories,
    /// Capture what changed in every repository, without its sources.
    CaptureManifests,
    StoreReview,
    /// Start watching; a failure is no reason to give the review up.
    TryToWatch,
    /// Answer with the new workspace.
    ShowCreated,
}

/// The steps of opening a remote workspace, where it is there or not. The
/// first one that fails is the last one.
pub open spec fn open_steps(known: bool) -> Seq<OpenStep> {
    if known {
        seq![OpenStep::Reconnect, OpenStep::ShowKnown]
    } else {
        seq![
            OpenStep::Connect,
            OpenStep::Discover,
            OpenStep::StoreWorkspace,
            OpenStep::StoreRepositories,
            OpenStep::CaptureManifests,
            OpenStep::StoreReview,
            OpenStep::TryToWatch,
            OpenStep::ShowCreated,
        ]
    }
}

/// Plans how to open a remote workspace.
pub fn plan_open(known: bool) -> (steps: Vec<OpenStep>)
    ensures
        steps@ == open_steps(known),
{
    let mut steps: Vec<OpenStep> = Vec::new();
    if known {
        steps.push(OpenStep::Reconnect);
        steps.push(OpenStep::ShowKnown);
    } else {
        steps.push(OpenStep::Connect);
        steps.push(OpenStep::Discover);
        steps.push(OpenStep::StoreWorkspace);
        steps.push(OpenStep::StoreRepositories);
        steps.push(OpenStep::CaptureManifests);
        steps.push(OpenStep::StoreReview);
        steps.push(OpenStep::TryToWatch);
        steps.push(OpenStep::ShowCreated);
    }
    assert(steps@ =~= open_steps(known));
    steps
}

/// Whether a workspace is the one with which a target is opened.
pub open spec fn is_opened(
    workspace: Workspace,
    id: WorkspaceId,
    target: RemoteTarget,
    default_base: Seq<char>,
    at: Timestamp,
) -> bool {
    &&& workspace.id == id
    &&& workspace.display_name@ == target.host@ + ":"@ + workspace_leaf(target.root@)
    &&& workspace.source matches WorkspaceSource::RemoteDirectory { host, root } && host@
        == target.host@ && root@ == target.root@
    &&& workspace.default_base@ == default_base
    &&& !workspace.pinned
    &&& workspace.archived_at is None
    &&& workspace.created_at == at
    &&& workspace.updated_at == at
}

/// Makes the workspace with which a target is opened.
pub fn opened_workspace(
    id: WorkspaceId,
    target: &RemoteTarget,
    default_base: &str,
    at: Timestamp,
) -> (workspace: Workspace)
    ensures
        is_opened(workspace, id, *target, default_base@, at),
{
    Workspace {
        id,
        display_name: remote_workspace_name(target),
        source: WorkspaceSource::RemoteDirectory {
            host: target.host.clone(),
            root: target.root.clone(),
        },
        default_base: default_base.to_owned(),
        pinned: false,
        archived_at: None,
        created_at: at,
        updated_at: at,
    }
}

/// A target that had no open workspace is opened with a new one; opened again,
/// while nothing else was opened for it, it is answered with that same one.
pub proof fn law_opening_twice_gives_one_workspace(
    workspaces: Seq<Workspace>,
    target: RemoteTarget,
    id: WorkspaceId,
    default_base: Seq<char>,
    at: Timestamp,
    opened: Workspace,
    first: Option<usize>,
    later: Seq<Workspace>,
    second: Option<usize>,
)
    requires
        forall|i: int|
            0 <= i < workspaces.len() ==> !is_open_target(#[trigger] workspaces[i], target),
        is_found_target(first, workspaces, target),
        is_opened(opened, id, target, default_base, at),
        forall|workspace: Workspace| #[trigger]
            later.contains(workspace) <==> workspaces.contains(workspace) || workspace == opened,
        is_found_target(second, later, target),
    ensures
        open_steps(first is Some).last() == OpenStep::ShowCreated,
        open_steps(second is Some).last() == OpenStep::ShowKnown,
        later[second->0 as int].id == id,
{
    assert(later.contains(opened));
    let place = choose|place: int| 0 <= place < later.len() && later[place] == opened;
    assert(is_open_target(later[place], target));
    if second is None {
        assert(!is_open_target(later[place], target));
    }
    let found = later[second->0 as int];
    assert(later.contains(found));
    if workspaces.contains(found) {
        let i = choose|i: int| 0 <= i < workspaces.len() && workspaces[i] == found;
        assert(!is_open_target(workspaces[i], target));
    }
}

/// Every file enters a new review without any source, which is read only when
/// it is asked for; and what is no text needs none.
pub proof fn law_new_reviews_hold_no_source(
    placeholders: Seq<PlaceholderFile>,
    files: Seq<RemoteCapturedFile>,
    problems: Seq<PathProblems>,
    known: Seq<KnownFile>,
    fresh: Seq<ReviewFileId>,
    index: int,
)
    requires
        0 <= index < placeholders.len(),
        placeholders.len() == accepted_files(files, problems).len(),
        forall|i: int|
            0 <= i < placeholders.len() ==> stands_for(
                #[trigger] placeholders[i],
                accepted_files(files, problems)[i],
                files,
                known,
                fresh,
            ),
    ensures
        placeholders[index].old_text@.len() == 0,
        placeholders[index].new_text@.len() == 0,
        placeholders[index].binding.materialized ==> is_not_text(placeholders[index].binding.file),
{
    assert(stands_for(
        placeholders[index],
        accepted_files(files, problems)[index],
        files,
        known,
        fresh,
    ));
}

} // verus!
