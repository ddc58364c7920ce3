//! Whether a workspace has changes that its captured review does not show.
use crate::ids::{id_chars, id_text, WorkspaceId};
use vstd::prelude::*;
use vstd::string::*;

verus! {

/// Whether changes were seen, how often that was said anew, and which watcher
/// may say so.
#[derive(Clone, Copy, Debug, PartialEq, Eq, Structural)]
pub struct RefreshAvailability {
    pub available: bool,
    pub revision: u64,
    pub watcher_epoch: u64,
}

/// The state of the availability when a capture began.
#[derive(Clone, Copy, Debug, PartialEq, Eq, Structural)]
pub struct RefreshCaptureBoundary {
    pub revision: u64,
    pub watcher_epoch: u64,
}

/// What is told to the user interface when the availability changed.
#[derive(Debug)]
pub struct RefreshAvailableEvent {
    pub workspace_id: String,
    pub refresh_available: bool,
    pub revision: u64,
}

/// One more, at most the largest number.
pub open spec fn bumped(value: u64) -> u64 {
    if value < u64::MAX {
        (value + 1) as u64
    } else {
        u64::MAX
    }
}

/// Nothing was seen yet.
pub open spec fn unseen() -> RefreshAvailability {
    RefreshAvailability { available: false, revision: 0, watcher_epoch: 0 }
}

impl Default for RefreshAvailability {
    fn default() -> (state: RefreshAvailability)
        ensures
            state == unseen(),
    {
        RefreshAvailability { available: false, revision: 0, watcher_epoch: 0 }
    }
}

/// Whether an event tells of a state of a workspace.
pub open spec fn tells(
    event: RefreshAvailableEvent,
    workspace_id: WorkspaceId,
    state: RefreshAvailability,
) -> bool {
    &&& event.workspace_id@ == id_chars(workspace_id.0)
    &&& event.refresh_available == state.available
    &&& event.revision == state.revision
}

/// The availability once a watcher, or anyone where no watcher is named, said
/// that there are changes or none; `None` where nothing comes of it. A watcher
/// that was replaced is not heard. Changes count anew each time.
pub open spec fn published(
    state: RefreshAvailability,
    expected_watcher_epoch: Option<u64>,
    available: bool,
) -> Option<RefreshAvailability> {
    if expected_watcher_epoch is Some && expected_watcher_epoch->0 != state.watcher_epoch {
        None
    } else if available || state.available {
        Some(
            RefreshAvailability {
                available,
                revision: bumped(state.revision),
                watcher_epoch: state.watcher_epoch,
            },
        )
    } else {
        None
    }
}

/// The availability once a capture that began at `boundary` says that there
/// are changes or none; `None` where nothing comes of it. What happened since
/// the capture began stands.
pub open spec fn published_at(
    state: RefreshAvailability,
    boundary: RefreshCaptureBoundary,
    available: bool,
) -> Option<RefreshAvailability> {
    if state.revision != boundary.revision || state.watcher_epoch != boundary.watcher_epoch
        || state.available == available {
        None
    } else {
        Some(
            RefreshAvailability {
                available,
                revision: bumped(state.revision),
                watcher_epoch: state.watcher_epoch,
            },
        )
    }
}

fn event_of(workspace_id: WorkspaceId, state: RefreshAvailability) -> (event:
    RefreshAvailableEvent)
    ensures
        tells(event, workspace_id, state),
{
    RefreshAvailableEvent {
        workspace_id: id_text(workspace_id.0),
        refresh_available: state.available,
        revision: state.revision,
    }
}

impl RefreshAvailability {
    /// Takes note that there are changes or none.
    pub fn publish_refresh_availability(
        &mut self,
        workspace_id: WorkspaceId,
        expected_watcher_epoch: Option<u64>,
        available: bool,
    ) -> (event: Option<RefreshAvailableEvent>)
        ensures
            match published(*old(self), expected_watcher_epoch, available) {
                Some(state) => *final(self) == state && (event matches Some(told) && tells(
                    told,
                    workspace_id,
                    state,
                )),
                None => *final(self) == *old(self) && event is None,
            },
    {
        match expected_watcher_epoch {
            Some(epoch) => {
                if epoch != self.watcher_epoch {
                    return None;
                }
            },
            None => {},
        }
        if !available && !self.available {
            return None;
        }
        self.revision = self.revision.saturating_add(1);
        self.available = available;
        Some(event_of(workspace_id, *self))
    }

    /// Takes note of what a capture says, unless something happened since it
    /// began.
    pub fn publish_refresh_availability_at_boundary(
        &mut self,
        workspace_id: WorkspaceId,
        boundary: RefreshCaptureBoundary,
        available: bool,
    ) -> (event: Option<RefreshAvailableEvent>)
        ensures
            match published_at(*old(self), boundary, available) {
                Some(state) => *final(self) == state && (event matches Some(told) && tells(
                    told,
                    workspace_id,
                    state,
                )),
                None => *final(self) == *old(self) && event is None,
            },
    {
        if self.revision != boundary.revision || self.watcher_epoch != boundary.watcher_epoch
            || self.available == available {
            return None;
        }
        self.revision = self.revision.saturating_add(1);
        self.available = available;
        Some(event_of(workspace_id, *self))
    }

    /// Replaces the watcher that is heard, and names the new one.
    pub fn advance_refresh_watcher_epoch(&mut self) -> (epoch: u64)
        ensures
            epoch == bumped(old(self).watcher_epoch),
            *final(self) == (RefreshAvailability { watcher_epoch: epoch, ..*old(self) }),
    {
        self.watcher_epoch = self.watcher_epoch.saturating_add(1);
        self.watcher_epoch
    }

    /// The state that a capture that begins now compares with.
    pub fn boundary(&self) -> (boundary: RefreshCaptureBoundary)
        ensures
            boundary.revision == self.revision,
            boundary.watcher_epoch == self.watcher_epoch,
    {
        RefreshCaptureBoundary { revision: self.revision, watcher_epoch: self.watcher_epoch }
    }
}

/// Revisions never go back, and what is told has a newer one, short of the
/// largest.
pub proof fn law_revisions_only_grow(
    state: RefreshAvailability,
    expected_watcher_epoch: Option<u64>,
    boundary: RefreshCaptureBoundary,
    available: bool,
)
    ensures
        published(state, expected_watcher_epoch, available) matches Some(next) ==> next.revision
            >= state.revision && (state.revision < u64::MAX ==> next.revision > state.revision)
            && next.revision >= 1,
        published_at(state, boundary, available) matches Some(next) ==> next.revision
            >= state.revision && (state.revision < u64::MAX ==> next.revision > state.revision)
            && next.revision >= 1,
{
}

/// A notification does nothing but offer a new capture: it replaces no watcher
/// and takes no offer back.
pub proof fn law_notifications_only_offer_a_capture(
    state: RefreshAvailability,
    expected_watcher_epoch: Option<u64>,
)
    ensures
        published(state, expected_watcher_epoch, true) matches Some(next) ==> next.available
            && next.watcher_epoch == state.watcher_epoch,
{
}

/// A notification that arrives while a capture runs is not acknowledged away
/// by that capture.
pub proof fn law_later_change_survives_capture(
    state: RefreshAvailability,
    expected_watcher_epoch: Option<u64>,
)
    requires
        state.revision < u64::MAX,
        published(state, expected_watcher_epoch, true) is Some,
    ensures
        ({
            let boundary = RefreshCaptureBoundary {
                revision: state.revision,
                watcher_epoch: state.watcher_epoch,
            };
            let later = published(state, expected_watcher_epoch, true)->0;
            later.available && published_at(later, boundary, false) is None
        }),
{
}

/// A watcher that was replaced changes nothing any more.
pub proof fn law_replaced_watcher_is_not_heard(state: RefreshAvailability, available: bool)
    requires
        state.watcher_epoch < u64::MAX,
    ensures
        published(
            RefreshAvailability { watcher_epoch: bumped(state.watcher_epoch), ..state },
            Some(state.watcher_epoch),
            available,
        ) is None,
{
}

} // verus!
