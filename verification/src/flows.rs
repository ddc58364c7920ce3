//! The order of the steps of operations that reach outside.
use crate::repositories::SourceKind;
use vstd::prelude::*;

verus! {

/// A step on the way to archiving or deleting a workspace.
#[derive(Clone, Copy, Debug, PartialEq, Eq, Structural)]
pub enum RemovalStep {
    /// Delete the checkout of a pull request, which archives the workspace.
    DeleteCheckout,
    /// Put on record that the workspace is archived.
    ArchiveRecord,
    StopRemoteWatchers,
    DropRemoteSession,
    DropLocalWatcher,
    /// Forget that there were changes.
    ForgetChanges,
    /// Forget that this workspace was the last one in use.
    ForgetLastWorkspace,
    /// Delete every record of the workspace.
    PurgeRecords,
    /// Empty every cache.
    DropCaches,
}

/// The steps that archive a workspace. `checkout_exists` says that the
/// checkout of a pull request is there.
pub open spec fn archive_steps(source: SourceKind, checkout_exists: bool) -> Seq<RemovalStep> {
    match source {
        SourceKind::PullRequest => if checkout_exists {
            seq![RemovalStep::DeleteCheckout, RemovalStep::ForgetChanges]
        } else {
            seq![RemovalStep::ArchiveRecord, RemovalStep::ForgetChanges]
        },
        SourceKind::Remote => seq![
            RemovalStep::StopRemoteWatchers,
            RemovalStep::DropRemoteSession,
            RemovalStep::ArchiveRecord,
            RemovalStep::DropLocalWatcher,
            RemovalStep::ForgetChanges,
        ],
        SourceKind::Local => seq![
            RemovalStep::ArchiveRecord,
            RemovalStep::DropLocalWatcher,
            RemovalStep::ForgetChanges,
        ],
    }
}

/// The steps that delete a workspace.
pub open spec fn delete_steps(source: SourceKind, checkout_exists: bool) -> Seq<RemovalStep> {
    (match source {
        SourceKind::PullRequest => if checkout_exists {
            seq![RemovalStep::DeleteCheckout]
        } else {
            seq![]
        },
        SourceKind::Remote => seq![RemovalStep::StopRemoteWatchers, RemovalStep::DropRemoteSession],
        SourceKind::Local => seq![],
    }) + seq![
        RemovalStep::DropLocalWatcher,
        RemovalStep::ForgetChanges,
        RemovalStep::ForgetLastWorkspace,
        RemovalStep::PurgeRecords,
        RemovalStep::DropCaches,
    ]
}

/// Plans how to archive a workspace.
pub fn plan_archive(source: SourceKind, checkout_exists: bool) -> (steps: Vec<RemovalStep>)
    ensures
        steps@ == archive_steps(source, checkout_exists),
{
    let mut steps: Vec<RemovalStep> = Vec::new();
    match source {
        SourceKind::PullRequest => {
            if checkout_exists {
                steps.push(RemovalStep::DeleteCheckout);
            } else {
                steps.push(RemovalStep::ArchiveRecord);
            }
        },
        SourceKind::Remote => {
            steps.push(RemovalStep::StopRemoteWatchers);
            steps.push(RemovalStep::DropRemoteSession);
            steps.push(RemovalStep::ArchiveRecord);
            steps.push(RemovalStep::DropLocalWatcher);
        },
        SourceKind::Local => {
            steps.push(RemovalStep::ArchiveRecord);
            steps.push(RemovalStep::DropLocalWatcher);
        },
    }
    steps.push(RemovalStep::ForgetChanges);
    assert(steps@ =~= archive_steps(source, checkout_exists));
    steps
}

/// Plans how to delete a workspace.
pub fn plan_deletion(source: SourceKind, checkout_exists: bool) -> (steps: Vec<RemovalStep>)
    ensures
        steps@ == delete_steps(source, checkout_exists),
{
    let mut steps: Vec<RemovalStep> = Vec::new();
    match source {
        SourceKind::PullRequest => {
            if checkout_exists {
                steps.push(RemovalStep::DeleteCheckout);
            }
        },
        SourceKind::Remote => {
            steps.push(RemovalStep::StopRemoteWatchers);
            steps.push(RemovalStep::DropRemoteSession);
        },
        SourceKind::Local => {},
    }
    steps.push(RemovalStep::DropLocalWatcher);
    steps.push(RemovalStep::ForgetChanges);
    steps.push(RemovalStep::ForgetLastWorkspace);
    steps.push(RemovalStep::PurgeRecords);
    steps.push(RemovalStep::DropCaches);
    assert(steps@ =~= delete_steps(source, checkout_exists));
    steps
}

/// Archiving a workspace deletes no record of its reviews.
pub proof fn law_archiving_purges_nothing(source: SourceKind, checkout_exists: bool)
    ensures
        !archive_steps(source, checkout_exists).contains(RemovalStep::PurgeRecords),
{
}

/// No folder of a local workspace and no file of a host is deleted: all that
/// is deleted beside records is the checkout that the application made of a
/// pull request.
pub proof fn law_only_own_checkouts_are_deleted(source: SourceKind, checkout_exists: bool)
    ensures
        archive_steps(source, checkout_exists).contains(RemovalStep::DeleteCheckout) ==> source
            == SourceKind::PullRequest && checkout_exists,
        delete_steps(source, checkout_exists).contains(RemovalStep::DeleteCheckout) ==> source
            == SourceKind::PullRequest && checkout_exists,
{
}

/// Whatever a workspace reaches outside is given up before its records are
/// deleted, so that a refusal there leaves the records as they are.
pub proof fn law_records_go_last(source: SourceKind, checkout_exists: bool, first: int, second: int)
    requires
        0 <= first < delete_steps(source, checkout_exists).len(),
        0 <= second < delete_steps(source, checkout_exists).len(),
        delete_steps(source, checkout_exists)[first] == RemovalStep::DeleteCheckout || delete_steps(
            source,
            checkout_exists,
        )[first] == RemovalStep::StopRemoteWatchers || delete_steps(source, checkout_exists)[first]
            == RemovalStep::DropRemoteSession,
        delete_steps(source, checkout_exists)[second] == RemovalStep::PurgeRecords,
    ensures
        first < second,
{
}

/// A step on the way to a new capture of a workspace.
#[derive(Clone, Copy, Debug, PartialEq, Eq, Structural)]
pub enum CaptureStep {
    /// Capture a workspace on another host; `replace` asks for a new review.
    CaptureRemotely { replace: bool },
    /// Refuse where the outcome of a submission is open.
    EnsureSubmitted,
    ApplyBaselines,
    FindReview,
    /// Start a new watcher, so that what it hears counts against the capture.
    RestartWatcher,
    FetchIfAsked,
    Capture,
    /// Ask the provider for the pull request, and capture what it has become.
    RefreshProvider,
    /// Put on record what each repository came to.
    StoreOutcomes,
    /// Announce whether the review is up to date.
    Acknowledge,
    LoadReview,
}

/// The steps to a new review of a workspace.
pub open spec fn start_steps(source: SourceKind) -> Seq<CaptureStep> {
    match source {
        SourceKind::Remote => seq![CaptureStep::CaptureRemotely { replace: true }],
        SourceKind::PullRequest => seq![
            CaptureStep::EnsureSubmitted,
            CaptureStep::ApplyBaselines,
            CaptureStep::FetchIfAsked,
            CaptureStep::Capture,
            CaptureStep::StoreOutcomes,
            CaptureStep::Acknowledge,
            CaptureStep::LoadReview,
        ],
        SourceKind::Local => seq![
            CaptureStep::ApplyBaselines,
            CaptureStep::RestartWatcher,
            CaptureStep::FetchIfAsked,
            CaptureStep::Capture,
            CaptureStep::StoreOutcomes,
            CaptureStep::Acknowledge,
            CaptureStep::LoadReview,
        ],
    }
}

/// The steps that let the active review of a workspace show a new capture.
pub open spec fn refresh_steps(source: SourceKind) -> Seq<CaptureStep> {
    match source {
        SourceKind::Remote => seq![CaptureStep::CaptureRemotely { replace: false }],
        SourceKind::PullRequest => seq![CaptureStep::RefreshProvider, CaptureStep::LoadReview],
        SourceKind::Local => seq![
            CaptureStep::ApplyBaselines,
            CaptureStep::FindReview,
            CaptureStep::FetchIfAsked,
            CaptureStep::RestartWatcher,
            CaptureStep::Capture,
            CaptureStep::StoreOutcomes,
            CaptureStep::Acknowledge,
            CaptureStep::LoadReview,
        ],
    }
}

/// Plans a new review of a workspace.
pub fn plan_start(source: SourceKind) -> (steps: Vec<CaptureStep>)
    ensures
        steps@ == start_steps(source),
{
    let mut steps: Vec<CaptureStep> = Vec::new();
    match source {
        SourceKind::Remote => {
            steps.push(CaptureStep::CaptureRemotely { replace: true });
        },
        SourceKind::PullRequest => {
            steps.push(CaptureStep::EnsureSubmitted);
            steps.push(CaptureStep::ApplyBaselines);
            steps.push(CaptureStep::FetchIfAsked);
            push_capture(&mut steps);
        },
        SourceKind::Local => {
            steps.push(CaptureStep::ApplyBaselines);
            steps.push(CaptureStep::RestartWatcher);
            steps.push(CaptureStep::FetchIfAsked);
            push_capture(&mut steps);
        },
    }
    assert(steps@ =~= start_steps(source));
    steps
}

/// Plans to let the active review of a workspace show a new capture.
pub fn plan_refresh(source: SourceKind) -> (steps: Vec<CaptureStep>)
    ensures
        steps@ == refresh_steps(source),
{
    let mut steps: Vec<CaptureStep> = Vec::new();
    match source {
        SourceKind::Remote => {
            steps.push(CaptureStep::CaptureRemotely { replace: false });
        },
        SourceKind::PullRequest => {
            steps.push(CaptureStep::RefreshProvider);
            steps.push(CaptureStep::LoadReview);
        },
        SourceKind::Local => {
            steps.push(CaptureStep::ApplyBaselines);
            steps.push(CaptureStep::FindReview);
            steps.push(CaptureStep::FetchIfAsked);
            steps.push(CaptureStep::RestartWatcher);
            push_capture(&mut steps);
        },
    }
    assert(steps@ =~= refresh_steps(source));
    steps
}

fn push_capture(steps: &mut Vec<CaptureStep>)
    ensures
        final(steps)@ == old(steps)@ + seq![
            CaptureStep::Capture,
            CaptureStep::StoreOutcomes,
            CaptureStep::Acknowledge,
            CaptureStep::LoadReview,
        ],
{
    steps.push(CaptureStep::Capture);
    steps.push(CaptureStep::StoreOutcomes);
    steps.push(CaptureStep::Acknowledge);
    steps.push(CaptureStep::LoadReview);
}

/// Whether one step always comes before another in a plan.
pub open spec fn comes_before(
    steps: Seq<CaptureStep>,
    first: CaptureStep,
    second: CaptureStep,
) -> bool {
    forall|i: int, j: int|
        0 <= i < steps.len() && 0 <= j < steps.len() && #[trigger] steps[i] == first
            && #[trigger] steps[j] == second ==> i < j
}

/// A local workspace is watched anew before it is captured, so that a change
/// during the capture is not lost; what was fetched is captured; and nothing
/// is announced before it is on record.
pub proof fn law_captures_keep_their_order(source: SourceKind)
    ensures
        source == SourceKind::Local ==> start_steps(source).contains(CaptureStep::RestartWatcher)
            && refresh_steps(source).contains(CaptureStep::RestartWatcher),
        comes_before(start_steps(source), CaptureStep::RestartWatcher, CaptureStep::Capture),
        comes_before(refresh_steps(source), CaptureStep::RestartWatcher, CaptureStep::Capture),
        comes_before(start_steps(source), CaptureStep::FetchIfAsked, CaptureStep::Capture),
        comes_before(refresh_steps(source), CaptureStep::FetchIfAsked, CaptureStep::Capture),
        comes_before(start_steps(source), CaptureStep::StoreOutcomes, CaptureStep::Acknowledge),
        comes_before(refresh_steps(source), CaptureStep::StoreOutcomes, CaptureStep::Acknowledge),
{
    if source == SourceKind::Local {
        assert(start_steps(source)[1] == CaptureStep::RestartWatcher);
        assert(refresh_steps(source)[3] == CaptureStep::RestartWatcher);
    }
}

/// What happened on the way to the text of a remote file.
#[derive(Clone, Copy, Debug, PartialEq, Eq, Structural)]
pub enum SourceEvent {
    /// The text was read before.
    Known,
    /// The file has no text.
    WithoutText,
    /// The text has to be read; each side has one or not.
    Missing,
    /// A companion answers.
    Connected,
    /// No companion answers.
    NotConnected,
    /// The old text is there.
    OldRead,
    /// The new text is there.
    NewRead,
    /// A text could not be read.
    NotRead,
    /// The document is stored.
    Stored,
    /// It is on record that the text was read.
    Recorded,
}

/// What to do next on the way to the text of a remote file.
#[derive(Clone, Copy, Debug, PartialEq, Eq, Structural)]
pub enum SourceAction {
    Connect,
    /// Read the old text from the host.
    ReadOld,
    /// Read the new text from the host.
    ReadNew,
    /// Store the document that the texts make.
    Store,
    /// Put on record that the file needs no reading.
    RecordWithoutText,
    /// Put on record that the text was read and that nothing is out of date.
    RecordRead,
    /// Put on record that the workspace is out of date, and fail.
    MarkStaleAndFail,
    /// Forget what was presented of the file.
    ClearCaches,
    Finish,
}

/// What follows an event. A side without a text is empty and is not read.
pub open spec fn source_action(event: SourceEvent, has_old: bool, has_new: bool) -> SourceAction {
    match event {
        SourceEvent::Known => SourceAction::Finish,
        SourceEvent::WithoutText => SourceAction::RecordWithoutText,
        SourceEvent::Missing => SourceAction::Connect,
        SourceEvent::Connected => if has_old {
            SourceAction::ReadOld
        } else if has_new {
            SourceAction::ReadNew
        } else {
            SourceAction::Store
        },
        SourceEvent::OldRead => if has_new {
            SourceAction::ReadNew
        } else {
            SourceAction::Store
        },
        SourceEvent::NewRead => SourceAction::Store,
        SourceEvent::NotConnected | SourceEvent::NotRead => SourceAction::MarkStaleAndFail,
        SourceEvent::Stored => SourceAction::RecordRead,
        SourceEvent::Recorded => SourceAction::ClearCaches,
    }
}

/// Decides what follows an event.
pub fn next_source_action(event: SourceEvent, has_old: bool, has_new: bool) -> (action: SourceAction)
    ensures
        action == source_action(event, has_old, has_new),
{
    match event {
        SourceEvent::Known => SourceAction::Finish,
        SourceEvent::WithoutText => SourceAction::RecordWithoutText,
        SourceEvent::Missing => SourceAction::Connect,
        SourceEvent::Connected => if has_old {
            SourceAction::ReadOld
        } else if has_new {
            SourceAction::ReadNew
        } else {
            SourceAction::Store
        },
        SourceEvent::OldRead => if has_new {
            SourceAction::ReadNew
        } else {
            SourceAction::Store
        },
        SourceEvent::NewRead => SourceAction::Store,
        SourceEvent::NotConnected | SourceEvent::NotRead => SourceAction::MarkStaleAndFail,
        SourceEvent::Stored => SourceAction::RecordRead,
        SourceEvent::Recorded => SourceAction::ClearCaches,
    }
}

/// A text is read only where the file has one on that side.
pub proof fn law_only_present_texts_are_read(event: SourceEvent, has_old: bool, has_new: bool)
    ensures
        source_action(event, has_old, has_new) == SourceAction::ReadOld ==> has_old,
        source_action(event, has_old, has_new) == SourceAction::ReadNew ==> has_new,
{
}

/// What happened on the way to watching a remote workspace.
#[derive(Clone, Copy, Debug, PartialEq, Eq, Structural)]
pub enum WatchStart {
    Asked,
    /// No former watcher is left.
    FormerStopped,
    /// A new count of watchers began.
    EpochAdvanced,
    /// There is nothing to watch.
    NothingToWatch,
    /// There is something to watch.
    Planned,
    /// The watcher could not be started.
    NotStarted,
    /// The watcher was started and can be stopped.
    Started,
    /// The watcher told that it watches.
    Ready,
    /// The watcher told that it does not watch, or told nothing in time.
    NotReady,
}

/// What to do next on the way to watching a remote workspace.
#[derive(Clone, Copy, Debug, PartialEq, Eq, Structural)]
pub enum WatchAction {
    StopFormer,
    AdvanceEpoch,
    Plan,
    Start,
    AwaitReadiness,
    /// Announce that there are changes, then fail.
    MarkAvailableAndFail,
    /// Stop the watcher, announce that there are changes, then fail.
    StopMarkAvailableAndFail,
    Fail,
    Finish,
}

/// What follows an event. `wait` says that the watcher has to watch before
/// anything else is done.
pub open spec fn watch_action(event: WatchStart, wait: bool) -> WatchAction {
    match event {
        WatchStart::Asked => WatchAction::StopFormer,
        WatchStart::FormerStopped => WatchAction::AdvanceEpoch,
        WatchStart::EpochAdvanced => WatchAction::Plan,
        WatchStart::NothingToWatch => if wait {
            WatchAction::MarkAvailableAndFail
        } else {
            WatchAction::Finish
        },
        WatchStart::Planned => WatchAction::Start,
        WatchStart::NotStarted => if wait {
            WatchAction::MarkAvailableAndFail
        } else {
            WatchAction::Fail
        },
        WatchStart::Started => if wait {
            WatchAction::AwaitReadiness
        } else {
            WatchAction::Finish
        },
        WatchStart::Ready => WatchAction::Finish,
        WatchStart::NotReady => WatchAction::StopMarkAvailableAndFail,
    }
}

/// Decides what follows an event.
pub fn next_watch_action(event: WatchStart, wait: bool) -> (action: WatchAction)
    ensures
        action == watch_action(event, wait),
{
    match event {
        WatchStart::Asked => WatchAction::StopFormer,
        WatchStart::FormerStopped => WatchAction::AdvanceEpoch,
        WatchStart::EpochAdvanced => WatchAction::Plan,
        WatchStart::NothingToWatch => if wait {
            WatchAction::MarkAvailableAndFail
        } else {
            WatchAction::Finish
        },
        WatchStart::Planned => WatchAction::Start,
        WatchStart::NotStarted => if wait {
            WatchAction::MarkAvailableAndFail
        } else {
            WatchAction::Fail
        },
        WatchStart::Started => if wait {
            WatchAction::AwaitReadiness
        } else {
            WatchAction::Finish
        },
        WatchStart::Ready => WatchAction::Finish,
        WatchStart::NotReady => WatchAction::StopMarkAvailableAndFail,
    }
}

/// A watcher that had to watch and does not leaves the offer to look for
/// changes: what waits for it either finishes with a watcher that watches, or
/// fails with that offer.
pub proof fn law_waiting_ends_watched_or_offered(event: WatchStart)
    ensures
        watch_action(event, true) == WatchAction::Finish ==> event == WatchStart::Ready,
        watch_action(event, true) != WatchAction::Fail,
{
}

} // verus!
