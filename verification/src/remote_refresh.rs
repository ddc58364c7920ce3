//! The order in which a remote workspace is captured again.
use crate::remote_review::Promotion;
use vstd::prelude::*;

verus! {

/// What has just been done on the way to a new capture.
#[derive(Clone, Copy, Debug, PartialEq, Eq, Structural)]
pub enum RefreshEvent {
    /// A new capture was asked for.
    Asked,
    /// The new bases are on record.
    BaselinesApplied,
    /// The record of the workspace was read.
    RecordRead,
    /// A new watcher listens.
    WatcherReady,
    /// The active review was found.
    ReviewFound,
    /// Every text of the active review is kept on this machine.
    TextsRetained,
    /// A companion answers.
    Connected,
    /// No companion answers.
    NotConnected,
    /// The repositories were found.
    Discovered,
    /// The repositories could not be found.
    NotDiscovered,
    /// A capture of every repository was tried.
    AllTried { promotion: Promotion },
    /// The outcome is on record; it is out of date or not.
    Stored { stale: bool },
    /// It is on record that the workspace is out of date.
    MarkedStale,
    /// The outcome was announced.
    Announced,
}

/// What to do next on the way to a new capture.
#[derive(Clone, Copy, Debug, PartialEq, Eq, Structural)]
pub enum RefreshAction {
    ApplyBaselines,
    ReadRecord,
    StartWatcher,
    FindReview,
    RetainTexts,
    Connect,
    Discover,
    TryRepositories,
    /// Put a new review in the place of the active one.
    ReplaceReview,
    /// Let the active review show the new capture.
    RefreshReview,
    /// Put only the outcome on record.
    StoreRecord,
    /// Put on record that the workspace is out of date, and announce it.
    MarkStale,
    /// Announce that there are changes.
    MarkAvailable,
    /// Announce that there are none since the capture began.
    ClearToBoundary,
    /// Answer with the active review.
    LoadReview,
}

/// What follows an event. `replace` says that a new review was asked for.
pub open spec fn refresh_action(event: RefreshEvent, replace: bool) -> RefreshAction {
    match event {
        RefreshEvent::Asked => RefreshAction::ApplyBaselines,
        RefreshEvent::BaselinesApplied => RefreshAction::ReadRecord,
        RefreshEvent::RecordRead => RefreshAction::StartWatcher,
        RefreshEvent::WatcherReady => RefreshAction::FindReview,
        RefreshEvent::ReviewFound => if replace {
            RefreshAction::RetainTexts
        } else {
            RefreshAction::Connect
        },
        RefreshEvent::TextsRetained => RefreshAction::Connect,
        RefreshEvent::Connected => RefreshAction::Discover,
        RefreshEvent::NotConnected | RefreshEvent::NotDiscovered => RefreshAction::MarkStale,
        RefreshEvent::Discovered => RefreshAction::TryRepositories,
        RefreshEvent::AllTried { promotion } => match promotion {
            Promotion::Replace => RefreshAction::ReplaceReview,
            Promotion::Refresh => RefreshAction::RefreshReview,
            Promotion::Keep => RefreshAction::StoreRecord,
        },
        RefreshEvent::Stored { stale } => if stale {
            RefreshAction::MarkAvailable
        } else {
            RefreshAction::ClearToBoundary
        },
        RefreshEvent::MarkedStale | RefreshEvent::Announced => RefreshAction::LoadReview,
    }
}

/// Decides what follows an event.
pub fn next_refresh_action(event: RefreshEvent, replace: bool) -> (action: RefreshAction)
    ensures
        action == refresh_action(event, replace),
{
    match event {
        RefreshEvent::Asked => RefreshAction::ApplyBaselines,
        RefreshEvent::BaselinesApplied => RefreshAction::ReadRecord,
        RefreshEvent::RecordRead => RefreshAction::StartWatcher,
        RefreshEvent::WatcherReady => RefreshAction::FindReview,
        RefreshEvent::ReviewFound => if replace {
            RefreshAction::RetainTexts
        } else {
            RefreshAction::Connect
        },
        RefreshEvent::TextsRetained => RefreshAction::Connect,
        RefreshEvent::Connected => RefreshAction::Discover,
        RefreshEvent::NotConnected | RefreshEvent::NotDiscovered => RefreshAction::MarkStale,
        RefreshEvent::Discovered => RefreshAction::TryRepositories,
        RefreshEvent::AllTried { promotion } => match promotion {
            Promotion::Replace => RefreshAction::ReplaceReview,
            Promotion::Refresh => RefreshAction::RefreshReview,
            Promotion::Keep => RefreshAction::StoreRecord,
        },
        RefreshEvent::Stored { stale } => if stale {
            RefreshAction::MarkAvailable
        } else {
            RefreshAction::ClearToBoundary
        },
        RefreshEvent::MarkedStale | RefreshEvent::Announced => RefreshAction::LoadReview,
    }
}

/// Whether an event can come of an action.
pub open spec fn comes_of(event: RefreshEvent, action: RefreshAction) -> bool {
    match action {
        RefreshAction::ApplyBaselines => event == RefreshEvent::BaselinesApplied,
        RefreshAction::ReadRecord => event == RefreshEvent::RecordRead,
        RefreshAction::StartWatcher => event == RefreshEvent::WatcherReady,
        RefreshAction::FindReview => event == RefreshEvent::ReviewFound,
        RefreshAction::RetainTexts => event == RefreshEvent::TextsRetained,
        RefreshAction::Connect => event == RefreshEvent::Connected || event
            == RefreshEvent::NotConnected,
        RefreshAction::Discover => event == RefreshEvent::Discovered || event
            == RefreshEvent::NotDiscovered,
        RefreshAction::TryRepositories => event is AllTried,
        RefreshAction::ReplaceReview
        | RefreshAction::RefreshReview
        | RefreshAction::StoreRecord => event is Stored,
        RefreshAction::MarkStale => event == RefreshEvent::MarkedStale,
        RefreshAction::MarkAvailable | RefreshAction::ClearToBoundary => event
            == RefreshEvent::Announced,
        RefreshAction::LoadReview => false,
    }
}

/// Whether events are those of a new capture, from its start on.
pub open spec fn is_run(events: Seq<RefreshEvent>, replace: bool) -> bool {
    &&& events.len() > 0
    &&& events[0] == RefreshEvent::Asked
    &&& forall|i: int|
        0 < i < events.len() ==> #[trigger] comes_of(
            events[i],
            refresh_action(events[i - 1], replace),
        )
}

/// How far a capture is when an event comes.
pub open spec fn stage(event: RefreshEvent) -> int {
    match event {
        RefreshEvent::Asked => 0,
        RefreshEvent::BaselinesApplied => 1,
        RefreshEvent::RecordRead => 2,
        RefreshEvent::WatcherReady => 3,
        RefreshEvent::ReviewFound => 4,
        RefreshEvent::TextsRetained => 5,
        RefreshEvent::Connected | RefreshEvent::NotConnected => 6,
        RefreshEvent::Discovered | RefreshEvent::NotDiscovered => 7,
        RefreshEvent::AllTried { .. } => 8,
        RefreshEvent::Stored { .. } => 9,
        RefreshEvent::MarkedStale => 10,
        RefreshEvent::Announced => 10,
    }
}

proof fn lemma_stages(events: Seq<RefreshEvent>, replace: bool, index: int)
    requires
        is_run(events, replace),
        0 <= index < events.len(),
    ensures
        index <= stage(events[index]),
        stage(events[index]) >= 3 && stage(events[index]) <= 9 ==> index >= 3 && events[3]
            == RefreshEvent::WatcherReady,
        replace && stage(events[index]) >= 5 && stage(events[index]) <= 9 ==> index >= 5
            && events[5] == RefreshEvent::TextsRetained,
        stage(events[index]) == 0 ==> index == 0,
        stage(events[index]) == 1 ==> index == 1,
        stage(events[index]) == 2 ==> index == 2,
        stage(events[index]) == 3 ==> index == 3,
        stage(events[index]) == 4 ==> index == 4,
    decreases index,
{
    if index > 0 {
        lemma_stages(events, replace, index - 1);
        assert(comes_of(events[index], refresh_action(events[index - 1], replace)));
    }
}

/// A new watcher listens before anything is captured, so that no change during
/// the capture is lost.
pub proof fn law_watcher_listens_before_the_capture(
    events: Seq<RefreshEvent>,
    replace: bool,
    index: int,
)
    requires
        is_run(events, replace),
        0 <= index < events.len(),
        events[index] is AllTried,
    ensures
        exists|earlier: int|
            0 <= earlier < index && #[trigger] events[earlier] == RefreshEvent::WatcherReady,
{
    lemma_stages(events, replace, index);
    assert(events[3] == RefreshEvent::WatcherReady);
}

/// Before a new review takes the place of the active one, every text of the
/// active one is kept on this machine.
pub proof fn law_texts_are_retained_before_a_review_is_replaced(
    events: Seq<RefreshEvent>,
    index: int,
)
    requires
        is_run(events, true),
        0 <= index < events.len(),
        refresh_action(events[index], true) == RefreshAction::ReplaceReview,
    ensures
        exists|earlier: int|
            0 <= earlier < index && #[trigger] events[earlier] == RefreshEvent::TextsRetained,
{
    lemma_stages(events, true, index);
    assert(events[5] == RefreshEvent::TextsRetained);
}

/// A new capture comes to an end.
pub proof fn law_new_captures_end(events: Seq<RefreshEvent>, replace: bool)
    requires
        is_run(events, replace),
    ensures
        events.len() <= 11,
{
    lemma_stages(events, replace, events.len() - 1);
}

} // verus!
