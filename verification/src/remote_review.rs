//! Capturing remote workspaces again, watching them, and connecting to them.
use crate::errors::{remote_failure, DispatchError};
use crate::ids::{id_chars, id_text, ReviewSessionId, WorkspaceId};
use crate::remote::{
    remote_transport_error, transport_error_chars, RemoteCaptureBinding,
    RemoteCompanionAvailability, RemoteCompanionPlatform, RemoteCompanionStatus, RemoteTarget,
    RemoteWorkspaceMetadata, REMOTE_SCHEMA_VERSION,
};
use crate::remote_source::RemoteRepositoryRef;
use crate::repositories::Repository;
use crate::text::{list_contains, lists, opt_text, text_eq, texts};
use vstd::prelude::*;
use vstd::string::*;

verus! {

/// The number of the next capture.
pub open spec fn following(generation: u64) -> u64 {
    if generation < u64::MAX {
        (generation + 1) as u64
    } else {
        u64::MAX
    }
}

/// The number of the next capture.
pub fn next_generation(generation: u64) -> (next: u64)
    ensures
        next == following(generation),
        next >= 1,
{
    if generation < u64::MAX {
        generation + 1
    } else {
        u64::MAX
    }
}

/// The first repository with a path.
pub open spec fn repository_at(repositories: Seq<Repository>, relative_path: Seq<char>) -> Option<
    Repository,
>
    decreases repositories.len(),
{
    if repositories.len() == 0 {
        None
    } else if repositories[0].relative_path@ == relative_path {
        Some(repositories[0])
    } else {
        repository_at(repositories.drop_first(), relative_path)
    }
}

/// Finds the first repository with a path.
pub fn known_repository(repositories: &Vec<Repository>, relative_path: &str) -> (found: Option<
    Repository,
>)
    ensures
        found == repository_at(repositories@, relative_path@),
{
    let mut i: usize = 0;
    assert(repositories@.skip(0) =~= repositories@);
    while i < repositories.len()
        invariant
            i <= repositories.len(),
            repository_at(repositories@, relative_path@) == repository_at(
                repositories@.skip(i as int),
                relative_path@,
            ),
        decreases repositories.len() - i,
    {
        assert(repositories@.skip(i as int)[0] == repositories@[i as int]);
        assert(repositories@.skip(i as int).drop_first() =~= repositories@.skip(i + 1));
        if text_eq(repositories[i].relative_path.as_str(), relative_path) {
            return Some(repositories[i].copy());
        }
        i += 1;
    }
    None
}

/// The captures of other repositories than one.
pub open spec fn captures_but(captures: Seq<RemoteCaptureBinding>, repository_id: Seq<char>) -> Seq<
    RemoteCaptureBinding,
>
    decreases captures.len(),
{
    if captures.len() == 0 {
        Seq::empty()
    } else {
        let rest = captures_but(captures.drop_first(), repository_id);
        if captures[0].repository_id@ == repository_id {
            rest
        } else {
            seq![captures[0]] + rest
        }
    }
}

fn drop_captures(captures: &mut Vec<RemoteCaptureBinding>, repository_id: &str)
    ensures
        final(captures)@ == captures_but(old(captures)@, repository_id@),
{
    let ghost before = captures@;
    let mut i: usize = 0;
    assert(before.take(0) + captures_but(before.skip(0), repository_id@) =~= captures_but(
        before,
        repository_id@,
    )) by {
        assert(before.skip(0) =~= before);
    }
    while i < captures.len()
        invariant
            i <= captures.len(),
            captures_but(before, repository_id@) == captures@.take(i as int) + captures_but(
                captures@.skip(i as int),
                repository_id@,
            ),
        decreases captures.len() - i,
    {
        let ghost now = captures@;
        assert(now.skip(i as int)[0] == now[i as int]);
        assert(now.skip(i as int).drop_first() =~= now.skip(i + 1));
        if text_eq(captures[i].repository_id.as_str(), repository_id) {
            captures.remove(i);
            assert(captures@.take(i as int) =~= now.take(i as int));
            assert(captures@.skip(i as int) =~= now.skip(i + 1));
        } else {
            assert(now.take(i + 1) =~= now.take(i as int).push(now[i as int]));
            assert(now.take(i as int) + (seq![now[i as int]] + captures_but(
                now.skip(i + 1),
                repository_id@,
            )) =~= now.take(i + 1) + captures_but(now.skip(i + 1), repository_id@));
            i += 1;
        }
    }
    assert(captures@.take(captures.len() as int) =~= captures@);
    assert(captures@.skip(captures.len() as int) =~= Seq::<RemoteCaptureBinding>::empty());
    assert(captures@ + Seq::<RemoteCaptureBinding>::empty() =~= captures@);
}

/// A repository that was captured.
pub open spec fn captured(repository: Repository, merge_base_sha: String) -> Repository {
    Repository {
        last_resolved_base_sha: Some(merge_base_sha),
        discovery_error: None,
        ..repository
    }
}

/// A repository that could not be captured.
pub open spec fn uncaptured(repository: Repository, error: String) -> Repository {
    Repository { discovery_error: Some(error), ..repository }
}

/// How far a new capture of a workspace has come.
pub struct RunModel {
    pub replace: bool,
    pub prior: Seq<RemoteCaptureBinding>,
    pub captures: Seq<RemoteCaptureBinding>,
    pub staged: Seq<Repository>,
    pub first_error: Option<Seq<char>>,
    pub succeeded: bool,
}

/// A new capture of a workspace that is under way.
#[derive(Debug)]
pub struct RefreshRun {
    replace: bool,
    prior: Vec<RemoteCaptureBinding>,
    captures: Vec<RemoteCaptureBinding>,
    staged: Vec<Repository>,
    first_error: Option<String>,
    succeeded: bool,
}

impl View for RefreshRun {
    type V = RunModel;

    closed spec fn view(&self) -> RunModel {
        RunModel {
            replace: self.replace,
            prior: self.prior@,
            captures: self.captures@,
            staged: self.staged@,
            first_error: opt_text(self.first_error),
            succeeded: self.succeeded,
        }
    }
}

/// What becomes of the review once its workspace was captured again.
#[derive(Clone, Copy, Debug, PartialEq, Eq, Structural)]
pub enum Promotion {
    /// A new review takes its place.
    Replace,
    /// It shows the new capture.
    Refresh,
    /// It stays as it is.
    Keep,
}

/// What comes of a new capture.
#[derive(Debug)]
pub struct RefreshResult {
    pub metadata: RemoteWorkspaceMetadata,
    pub repositories: Vec<Repository>,
    pub promotion: Promotion,
}

/// The captures on record once a workspace was captured again. Where a new
/// review was asked for and nothing could be captured, the former ones stay.
pub open spec fn promoted_captures(run: RunModel) -> Seq<RemoteCaptureBinding> {
    if run.replace && !run.succeeded {
        run.prior
    } else {
        run.captures
    }
}

/// Whether a result is what comes of a new capture.
pub open spec fn is_refresh_result(
    result: RefreshResult,
    run: RunModel,
    metadata: RemoteWorkspaceMetadata,
    generation: u64,
    agent_version: String,
    latency_millis: u128,
) -> bool {
    &&& result.metadata.captures@ == promoted_captures(run)
    &&& result.metadata.stale == (run.first_error is Some)
    &&& opt_text(result.metadata.last_error) == run.first_error
    &&& result.metadata == (RemoteWorkspaceMetadata {
        generation,
        captures: result.metadata.captures,
        stale: result.metadata.stale,
        last_error: result.metadata.last_error,
        agent_version: if run.succeeded {
            Some(agent_version)
        } else {
            metadata.agent_version
        },
        latency_millis: if run.succeeded {
            Some(latency_millis)
        } else {
            metadata.latency_millis
        },
        ..metadata
    })
    &&& result.repositories@ == run.staged
    &&& result.promotion == if !run.succeeded {
        Promotion::Keep
    } else if run.replace {
        Promotion::Replace
    } else {
        Promotion::Refresh
    }
}

impl RefreshRun {
    /// Starts a new capture. A new review starts from nothing; a refreshed one
    /// keeps the captures of the repositories that are not found again.
    pub fn begin(captures: Vec<RemoteCaptureBinding>, replace: bool) -> (run: RefreshRun)
        ensures
            run@ == begun(captures@, replace),
    {
        let none: Vec<RemoteCaptureBinding> = Vec::new();
        assert(none@ =~= Seq::<RemoteCaptureBinding>::empty());
        let staged: Vec<Repository> = Vec::new();
        assert(staged@ =~= Seq::<Repository>::empty());
        if replace {
            RefreshRun {
                replace,
                prior: captures,
                captures: none,
                staged,
                first_error: None,
                succeeded: false,
            }
        } else {
            RefreshRun {
                replace,
                prior: none,
                captures,
                staged,
                first_error: None,
                succeeded: false,
            }
        }
    }

    /// Notes that a repository was captured.
    pub fn note_captured(
        &mut self,
        repository: Repository,
        merge_base_sha: String,
        binding: RemoteCaptureBinding,
    )
        ensures
            final(self)@ == tried(
                old(self)@,
                Attempt::Captured { repository, merge_base_sha, binding },
            ),
    {
        drop_captures(&mut self.captures, id_text(repository.id.0).as_str());
        self.captures.push(binding);
        let mut updated = repository;
        updated.last_resolved_base_sha = Some(merge_base_sha);
        updated.discovery_error = None;
        self.staged.push(updated);
        self.succeeded = true;
    }

    /// Notes that a repository could not be captured, and why.
    pub fn note_failed(&mut self, repository: Repository, error: String)
        ensures
            final(self)@ == tried(old(self)@, Attempt::Failed { repository, error }),
    {
        if self.first_error.is_none() {
            self.first_error = Some(error.clone());
        }
        let mut updated = repository;
        updated.discovery_error = Some(error);
        self.staged.push(updated);
    }

    /// Ends the first capture of a workspace: what was captured, and the
    /// repositories as they are stored.
    pub fn opened(self) -> (found: (Vec<RemoteCaptureBinding>, Vec<Repository>))
        ensures
            found.0@ == self@.captures,
            found.1@ == self@.staged,
    {
        (self.captures, self.staged)
    }

    /// Ends a new capture: what to put on record, and what becomes of the
    /// review. A capture of which nothing succeeded leaves the review alone.
    pub fn finish(
        self,
        metadata: RemoteWorkspaceMetadata,
        generation: u64,
        agent_version: String,
        latency_millis: u128,
    ) -> (result: RefreshResult)
        ensures
            is_refresh_result(
                result,
                self@,
                metadata,
                generation,
                agent_version,
                latency_millis,
            ),
    {
        let mut metadata = metadata;
        metadata.generation = generation;
        metadata.captures = if self.replace && !self.succeeded {
            self.prior
        } else {
            self.captures
        };
        metadata.stale = self.first_error.is_some();
        metadata.last_error = self.first_error;
        let promotion: Promotion = if !self.succeeded {
            Promotion::Keep
        } else {
            metadata.agent_version = Some(agent_version);
            metadata.latency_millis = Some(latency_millis);
            if self.replace {
                Promotion::Replace
            } else {
                Promotion::Refresh
            }
        };
        RefreshResult { metadata, repositories: self.staged, promotion }
    }
}

/// A capture of a repository that was tried.
pub enum Attempt {
    Captured { repository: Repository, merge_base_sha: String, binding: RemoteCaptureBinding },
    Failed { repository: Repository, error: String },
}

/// The start of a new capture.
pub open spec fn begun(captures: Seq<RemoteCaptureBinding>, replace: bool) -> RunModel {
    RunModel {
        replace,
        prior: if replace {
            captures
        } else {
            Seq::empty()
        },
        captures: if replace {
            Seq::empty()
        } else {
            captures
        },
        staged: Seq::empty(),
        first_error: None,
        succeeded: false,
    }
}

/// A new capture once one more repository was tried.
pub open spec fn tried(run: RunModel, attempt: Attempt) -> RunModel {
    match attempt {
        Attempt::Captured { repository, merge_base_sha, binding } => RunModel {
            captures: captures_but(run.captures, id_chars(repository.id.0)).push(binding),
            staged: run.staged.push(captured(repository, merge_base_sha)),
            succeeded: true,
            ..run
        },
        Attempt::Failed { repository, error } => RunModel {
            staged: run.staged.push(uncaptured(repository, error)),
            first_error: if run.first_error is Some {
                run.first_error
            } else {
                Some(error@)
            },
            ..run
        },
    }
}

/// A new capture once some repositories were tried.
pub open spec fn all_tried(captures: Seq<RemoteCaptureBinding>, replace: bool, attempts: Seq<Attempt>) -> RunModel
    decreases attempts.len(),
{
    if attempts.len() == 0 {
        begun(captures, replace)
    } else {
        tried(all_tried(captures, replace, attempts.drop_last()), attempts.last())
    }
}

/// A new capture of which nothing succeeded leaves the captures on record as
/// they were, whether or not a new review was asked for.
pub proof fn law_failed_capture_keeps_the_record(
    captures: Seq<RemoteCaptureBinding>,
    replace: bool,
    attempts: Seq<Attempt>,
)
    requires
        forall|i: int| 0 <= i < attempts.len() ==> (#[trigger] attempts[i]) is Failed,
    ensures
        !all_tried(captures, replace, attempts).succeeded,
        promoted_captures(all_tried(captures, replace, attempts)) == captures,
    decreases attempts.len(),
{
    lemma_failures_keep_captures(captures, replace, attempts);
}

proof fn lemma_failures_keep_captures(
    captures: Seq<RemoteCaptureBinding>,
    replace: bool,
    attempts: Seq<Attempt>,
)
    requires
        forall|i: int| 0 <= i < attempts.len() ==> (#[trigger] attempts[i]) is Failed,
    ensures
        !all_tried(captures, replace, attempts).succeeded,
        all_tried(captures, replace, attempts).replace == replace,
        all_tried(captures, replace, attempts).prior == begun(captures, replace).prior,
        all_tried(captures, replace, attempts).captures == begun(captures, replace).captures,
    decreases attempts.len(),
{
    if attempts.len() > 0 {
        assert forall|i: int| 0 <= i < attempts.len() - 1 implies (
        #[trigger] attempts.drop_last()[i]) is Failed by {
            assert(attempts[i] is Failed);
        }
        lemma_failures_keep_captures(captures, replace, attempts.drop_last());
    }
}

/// Every repository that was tried is stored once, the record is stale exactly
/// where one of them failed, and the review changes exactly where one of them
/// was captured.
pub proof fn law_every_tried_repository_is_stored(
    captures: Seq<RemoteCaptureBinding>,
    replace: bool,
    attempts: Seq<Attempt>,
)
    ensures
        all_tried(captures, replace, attempts).staged.len() == attempts.len(),
        all_tried(captures, replace, attempts).first_error is Some <==> exists|i: int|
            0 <= i < attempts.len() && (#[trigger] attempts[i]) is Failed,
        all_tried(captures, replace, attempts).succeeded <==> exists|i: int|
            0 <= i < attempts.len() && (#[trigger] attempts[i]) is Captured,
    decreases attempts.len(),
{
    if attempts.len() > 0 {
        let before = attempts.drop_last();
        law_every_tried_repository_is_stored(captures, replace, before);
        let last = attempts[attempts.len() - 1];
        assert(last == attempts.last());
        assert(forall|i: int| 0 <= i < before.len() ==> before[i] == attempts[i]);
        if all_tried(captures, replace, before).first_error is Some {
            let i = choose|i: int| 0 <= i < before.len() && (#[trigger] before[i]) is Failed;
            assert(attempts[i] is Failed);
        }
        if all_tried(captures, replace, before).succeeded {
            let i = choose|i: int| 0 <= i < before.len() && (#[trigger] before[i]) is Captured;
            assert(attempts[i] is Captured);
        }
        if exists|i: int| 0 <= i < attempts.len() && (#[trigger] attempts[i]) is Failed {
            let i = choose|i: int| 0 <= i < attempts.len() && (#[trigger] attempts[i]) is Failed;
            if i < before.len() {
                assert(before[i] is Failed);
            }
        }
        if exists|i: int| 0 <= i < attempts.len() && (#[trigger] attempts[i]) is Captured {
            let i = choose|i: int| 0 <= i < attempts.len() && (#[trigger] attempts[i]) is Captured;
            if i < before.len() {
                assert(before[i] is Captured);
            }
        }
    }
}

/// After a capture no repository stands on record twice on its account.
pub proof fn law_new_capture_replaces_the_former_one(
    captures: Seq<RemoteCaptureBinding>,
    repository_id: Seq<char>,
)
    ensures
        forall|i: int|
            0 <= i < captures_but(captures, repository_id).len() ==> (#[trigger] captures_but(
                captures,
                repository_id,
            )[i]).repository_id@ != repository_id,
    decreases captures.len(),
{
    if captures.len() > 0 {
        law_new_capture_replaces_the_former_one(captures.drop_first(), repository_id);
        let rest = captures_but(captures.drop_first(), repository_id);
        if captures[0].repository_id@ != repository_id {
            assert(captures_but(captures, repository_id) == seq![captures[0]] + rest);
            assert forall|i: int|
                0 <= i < captures_but(captures, repository_id).len() implies (
            #[trigger] captures_but(captures, repository_id)[i]).repository_id@
                != repository_id by {
                if i > 0 {
                    assert(captures_but(captures, repository_id)[i] == rest[i - 1]);
                }
            }
        }
    }
}

/// The record of a remote workspace that was just opened.
pub fn opened_metadata(
    target: RemoteTarget,
    session: ReviewSessionId,
    generation: u64,
    agent_version: String,
    latency_millis: u128,
    captures: Vec<RemoteCaptureBinding>,
    companion: RemoteCompanionStatus,
) -> (metadata: RemoteWorkspaceMetadata)
    ensures
        metadata.review_session_id@ == id_chars(session.0),
        metadata == (RemoteWorkspaceMetadata {
            schema_version: REMOTE_SCHEMA_VERSION,
            target,
            review_session_id: metadata.review_session_id,
            generation,
            agent_version: Some(agent_version),
            latency_millis: Some(latency_millis),
            captures,
            stale: false,
            last_error: None,
            companion: Some(companion),
        }),
{
    RemoteWorkspaceMetadata {
        schema_version: REMOTE_SCHEMA_VERSION,
        target,
        review_session_id: id_text(session.0),
        generation,
        agent_version: Some(agent_version),
        latency_millis: Some(latency_millis),
        captures,
        stale: false,
        last_error: None,
        companion: Some(companion),
    }
}

/// How many repositories of a workspace are watched at most.
pub const MAX_WATCHED_REPOSITORIES: usize = 1024;

/// The key by which watched repositories are told apart.
pub open spec fn watch_key(reference: RemoteRepositoryRef) -> Seq<char> {
    reference.workspace_root@ + ":"@ + reference.relative_path@
}

/// The keys of some repositories.
pub open spec fn watch_keys(references: Seq<RemoteRepositoryRef>) -> Seq<Seq<char>> {
    references.map_values(|reference: RemoteRepositoryRef| watch_key(reference))
}

/// The repositories to watch: those that were captured, each once, and no more
/// than may be watched.
pub open spec fn watched(captures: Seq<RemoteCaptureBinding>) -> Seq<RemoteRepositoryRef>
    decreases captures.len(),
{
    if captures.len() == 0 {
        Seq::empty()
    } else {
        let before = watched(captures.drop_last());
        let reference = captures.last().capture.repository;
        if before.len() >= MAX_WATCHED_REPOSITORIES || watch_keys(before).contains(
            watch_key(reference),
        ) {
            before
        } else {
            before.push(reference)
        }
    }
}

/// Watching keeps its bound, and watches no repository twice.
pub proof fn law_watched_repositories_are_bounded_and_distinct(captures: Seq<RemoteCaptureBinding>)
    ensures
        watched(captures).len() <= MAX_WATCHED_REPOSITORIES,
        watch_keys(watched(captures)).no_duplicates(),
    decreases captures.len(),
{
    if captures.len() > 0 {
        law_watched_repositories_are_bounded_and_distinct(captures.drop_last());
        let before = watched(captures.drop_last());
        let reference = captures.last().capture.repository;
        if before.len() < MAX_WATCHED_REPOSITORIES && !watch_keys(before).contains(
            watch_key(reference),
        ) {
            assert(watch_keys(before.push(reference)) =~= watch_keys(before).push(
                watch_key(reference),
            ));
        }
    }
}

proof fn lemma_watched_full(captures: Seq<RemoteCaptureBinding>, count: int)
    requires
        0 <= count <= captures.len(),
        watched(captures.take(count)).len() >= MAX_WATCHED_REPOSITORIES,
    ensures
        watched(captures) == watched(captures.take(count)),
    decreases captures.len() - count,
{
    if count < captures.len() {
        assert(captures.take(count + 1).drop_last() =~= captures.take(count));
        lemma_watched_full(captures, count + 1);
    } else {
        assert(captures.take(count) =~= captures);
    }
}

fn watched_repositories(captures: &Vec<RemoteCaptureBinding>) -> (references: Vec<
    RemoteRepositoryRef,
>)
    ensures
        references@ == watched(captures@),
{
    let mut seen: Vec<String> = Vec::new();
    let mut references: Vec<RemoteRepositoryRef> = Vec::new();
    let mut i: usize = 0;
    assert(captures@.take(0) =~= Seq::<RemoteCaptureBinding>::empty());
    assert(texts(seen@) =~= watch_keys(references@));
    while i < captures.len()
        invariant
            i <= captures.len(),
            references@ == watched(captures@.take(i as int)),
            texts(seen@) == watch_keys(references@),
        decreases captures.len() - i,
    {
        if references.len() >= MAX_WATCHED_REPOSITORIES {
            proof {
                lemma_watched_full(captures@, i as int);
            }
            return references;
        }
        assert(captures@.take(i + 1).drop_last() =~= captures@.take(i as int));
        let reference = &captures[i].capture.repository;
        let mut key = reference.workspace_root.clone();
        key.append(":");
        key.append(reference.relative_path.as_str());
        proof {
            let keys = texts(seen@);
            if lists(seen@, key@) {
                let j = choose|j: int| 0 <= j < seen@.len() && #[trigger] seen@[j]@ == key@;
                assert(keys[j] == key@);
            }
            if keys.contains(key@) {
                let j = choose|j: int| 0 <= j < keys.len() && keys[j] == key@;
                assert(seen@[j]@ == key@);
            }
        }
        if !list_contains(&seen, key.as_str()) {
            let ghost keys = texts(seen@);
            let ghost before = references@;
            let ghost added = key@;
            seen.push(key);
            references.push(reference.copy());
            assert(texts(seen@) =~= keys.push(added));
            assert(watch_keys(references@) =~= watch_keys(before).push(watch_key(*reference)));
        }
        i += 1;
    }
    assert(captures@.take(captures.len() as int) =~= captures@);
    references
}

/// What to watch.
#[derive(Debug)]
pub enum WatchPlan {
    /// Nothing, and that is in order.
    Idle,
    /// Nothing, but something had to be watched.
    Refuse(DispatchError),
    /// These repositories, by a request with this name and number.
    Watch { repositories: Vec<RemoteRepositoryRef>, request_id: String, generation: u64 },
}

/// Works out what to watch of a workspace. `wait_until_ready` says that
/// something has to be watched.
pub fn plan_watch(
    workspace_id: WorkspaceId,
    captures: &Vec<RemoteCaptureBinding>,
    generation: u64,
    wait_until_ready: bool,
) -> (plan: WatchPlan)
    ensures
        if watched(captures@).len() == 0 {
            if wait_until_ready {
                plan matches WatchPlan::Refuse(error) && error.is_remote(
                    "SSH change watcher has no captured repositories to monitor"@,
                )
            } else {
                plan is Idle
            }
        } else {
            plan matches WatchPlan::Watch { repositories, request_id, generation: number } && {
                &&& repositories@ == watched(captures@)
                &&& request_id@ == "watch-workspace-"@ + id_chars(workspace_id.0)
                &&& number == if generation == 0 {
                    1
                } else {
                    generation
                }
            }
        },
{
    let repositories = watched_repositories(captures);
    if repositories.len() == 0 {
        return if wait_until_ready {
            WatchPlan::Refuse(
                remote_failure("SSH change watcher has no captured repositories to monitor"),
            )
        } else {
            WatchPlan::Idle
        };
    }
    let mut request_id = "watch-workspace-".to_owned();
    request_id.append(id_text(workspace_id.0).as_str());
    let number: u64 = if generation == 0 {
        1
    } else {
        generation
    };
    WatchPlan::Watch { repositories, request_id, generation: number }
}

/// What a watcher tells before it watches, or instead of watching.
#[derive(Debug)]
pub enum WatcherReport {
    /// It was stopped.
    Cancelled,
    /// It could not connect.
    Unconnected { error: String },
    /// It could not leave a way to stop it.
    StateUnavailable,
    /// It watches.
    Watching,
    /// It ended with a result.
    EndedWith { result: String },
    /// It ended with an error.
    EndedBy { error: String },
    /// It told nothing in time.
    Silent { error: String },
}

/// Why a watcher does not watch; `None` where it does.
pub open spec fn watcher_problem(report: WatcherReport) -> Option<Seq<char>> {
    match report {
        WatcherReport::Cancelled => Some("SSH change watcher was cancelled"@),
        WatcherReport::Unconnected { error } => Some(
            "could not connect SSH change watcher: "@ + error@,
        ),
        WatcherReport::StateUnavailable => Some("SSH change watcher state is unavailable"@),
        WatcherReport::Watching => None,
        WatcherReport::EndedWith { result } => Some(
            "SSH change watcher stopped before ready with result: "@ + result@,
        ),
        WatcherReport::EndedBy { error } => Some(
            "SSH change watcher stopped before ready: "@ + error@,
        ),
        WatcherReport::Silent { error } => Some(
            "SSH change watcher did not become ready: "@ + error@,
        ),
    }
}

fn with_detail(text: &str, detail: &str) -> (error: DispatchError)
    ensures
        error.is_remote(text@ + detail@),
{
    let mut message = text.to_owned();
    message.append(detail);
    DispatchError::Remote(message)
}

/// Judges what a watcher told first.
pub fn watcher_readiness(report: &WatcherReport) -> (result: Result<(), DispatchError>)
    ensures
        match watcher_problem(*report) {
            Some(problem) => result matches Err(error) && error.is_remote(problem),
            None => result is Ok,
        },
{
    match report {
        WatcherReport::Cancelled => Err(remote_failure("SSH change watcher was cancelled")),
        WatcherReport::Unconnected { error } => Err(
            with_detail("could not connect SSH change watcher: ", error.as_str()),
        ),
        WatcherReport::StateUnavailable => Err(
            remote_failure("SSH change watcher state is unavailable"),
        ),
        WatcherReport::Watching => Ok(()),
        WatcherReport::EndedWith { result } => Err(
            with_detail("SSH change watcher stopped before ready with result: ", result.as_str()),
        ),
        WatcherReport::EndedBy { error } => Err(
            with_detail("SSH change watcher stopped before ready: ", error.as_str()),
        ),
        WatcherReport::Silent { error } => Err(
            with_detail("SSH change watcher did not become ready: ", error.as_str()),
        ),
    }
}

/// Whether a notification counts for the watcher that got it: it was not
/// stopped, and the notification is about its own capture.
pub fn watcher_hears(cancelled: bool, generation: u64, notified: u64) -> (heard: bool)
    ensures
        heard == (!cancelled && notified == generation),
{
    !cancelled && notified == generation
}

/// Whether one of the notifications that came along with a reply tells of
/// changes since a capture.
pub fn tells_of_changes(notified: &Vec<u64>, generation: u64) -> (changed: bool)
    ensures
        changed == exists|i: int| 0 <= i < notified@.len() && #[trigger] notified@[i] >= generation,
{
    let mut i: usize = 0;
    while i < notified.len()
        invariant
            i <= notified.len(),
            forall|j: int| 0 <= j < i ==> #[trigger] notified@[j] < generation,
        decreases notified.len() - i,
    {
        if notified[i] >= generation {
            return true;
        }
        i += 1;
    }
    false
}

/// What a look for a companion came to.
#[derive(Debug)]
pub enum CompanionProbe {
    Compatible { platform: Option<RemoteCompanionPlatform> },
    Incompatible { platform: RemoteCompanionPlatform, detail: String },
    MissingOrUnreachable { platform: Option<RemoteCompanionPlatform>, detail: String },
}

/// Which companion to start on the host.
#[derive(Clone, Copy, Debug, PartialEq, Eq, Structural)]
pub enum RemoteAgentProgram {
    /// The one that the host finds by its name.
    PathLookup,
    /// The one that the user keeps.
    UserLocal,
}

/// What is known of a companion after a look for it, and which one to start.
pub open spec fn probed(probe: CompanionProbe) -> (
    RemoteCompanionAvailability,
    Option<RemoteCompanionPlatform>,
    Seq<char>,
    RemoteAgentProgram,
) {
    match probe {
        CompanionProbe::Compatible { platform } => (
            RemoteCompanionAvailability::Compatible,
            platform,
            "compatible companion found through the configured SSH command path"@,
            RemoteAgentProgram::PathLookup,
        ),
        CompanionProbe::Incompatible { platform, detail } => (
            RemoteCompanionAvailability::Incompatible,
            Some(platform),
            detail@,
            RemoteAgentProgram::UserLocal,
        ),
        CompanionProbe::MissingOrUnreachable { platform, detail } => (
            RemoteCompanionAvailability::MissingOrUnreachable,
            platform,
            detail@,
            RemoteAgentProgram::UserLocal,
        ),
    }
}

/// Takes over what a look for a companion came to.
pub fn companion_from_probe(probe: CompanionProbe) -> (found: (
    RemoteCompanionStatus,
    RemoteAgentProgram,
))
    ensures
        (found.0.availability, found.0.platform, found.0.detail@, found.1) == probed(probe),
{
    match probe {
        CompanionProbe::Compatible { platform } => (
            RemoteCompanionStatus {
                availability: RemoteCompanionAvailability::Compatible,
                platform,
                detail:
                    "compatible companion found through the configured SSH command path".to_owned(),
            },
            RemoteAgentProgram::PathLookup,
        ),
        CompanionProbe::Incompatible { platform, detail } => (
            RemoteCompanionStatus {
                availability: RemoteCompanionAvailability::Incompatible,
                platform: Some(platform),
                detail,
            },
            RemoteAgentProgram::UserLocal,
        ),
        CompanionProbe::MissingOrUnreachable { platform, detail } => (
            RemoteCompanionStatus {
                availability: RemoteCompanionAvailability::MissingOrUnreachable,
                platform,
                detail,
            },
            RemoteAgentProgram::UserLocal,
        ),
    }
}

/// A connection that failed: what is known of the companion, and the error.
#[derive(Debug)]
pub struct RemoteConnectionFailure {
    pub companion: RemoteCompanionStatus,
    pub error: DispatchError,
}

/// The failure of a connection to a companion. Where the companion that the
/// user keeps was tried, what is known of it says so.
pub fn connection_failure(
    companion: RemoteCompanionStatus,
    program: RemoteAgentProgram,
    error: &str,
) -> (failure: RemoteConnectionFailure)
    ensures
        failure.companion.availability == companion.availability,
        failure.companion.platform == companion.platform,
        failure.companion.detail@ == if program == RemoteAgentProgram::UserLocal {
            companion.detail@ + "; ~/.local/bin fallback failed: "@ + error@
        } else {
            companion.detail@
        },
        failure.error.is_remote(transport_error_chars(error@)),
{
    let mut companion = companion;
    if program == RemoteAgentProgram::UserLocal {
        let mut detail = companion.detail.clone();
        detail.append("; ~/.local/bin fallback failed: ");
        detail.append(error);
        companion.detail = detail;
    }
    RemoteConnectionFailure { companion, error: remote_transport_error(error) }
}

/// What is known of a companion that answered.
pub fn connected_companion(companion: RemoteCompanionStatus, program: RemoteAgentProgram) -> (known:
    RemoteCompanionStatus)
    ensures
        known.platform == companion.platform,
        if program == RemoteAgentProgram::UserLocal {
            &&& known.availability == RemoteCompanionAvailability::Compatible
            &&& known.detail@ == "compatible companion found in ~/.local/bin after path probe: "@
                + companion.detail@
        } else {
            known == companion
        },
{
    if program == RemoteAgentProgram::UserLocal {
        let mut detail =
            "compatible companion found in ~/.local/bin after path probe: ".to_owned();
        detail.append(companion.detail.as_str());
        RemoteCompanionStatus {
            availability: RemoteCompanionAvailability::Compatible,
            platform: companion.platform,
            detail,
        }
    } else {
        companion
    }
}

fn unreachable_companion(detail: &str) -> (status: RemoteCompanionStatus)
    ensures
        is_unreachable(status, detail@),
{
    RemoteCompanionStatus {
        availability: RemoteCompanionAvailability::MissingOrUnreachable,
        platform: None,
        detail: detail.to_owned(),
    }
}

/// Whether a status says of a companion only why it cannot be reached.
pub open spec fn is_unreachable(status: RemoteCompanionStatus, detail: Seq<char>) -> bool {
    &&& status.availability == RemoteCompanionAvailability::MissingOrUnreachable
    &&& status.platform is None
    &&& status.detail@ == detail
}

/// How a companion finds its way back to this machine.
#[derive(Debug)]
pub struct ManagedForwardEnvironment {
    pub endpoint: String,
    pub token_hex: String,
    pub session_id: String,
}

/// The first value under a name.
pub open spec fn value_of(environment: Seq<(String, String)>, name: Seq<char>) -> Option<Seq<char>>
    decreases environment.len(),
{
    if environment.len() == 0 {
        None
    } else if environment[0].0@ == name {
        Some(environment[0].1@)
    } else {
        value_of(environment.drop_first(), name)
    }
}

fn find_value(environment: &Vec<(String, String)>, name: &str) -> (value: Option<String>)
    ensures
        opt_text(value) == value_of(environment@, name@),
{
    let mut i: usize = 0;
    assert(environment@.skip(0) =~= environment@);
    while i < environment.len()
        invariant
            i <= environment.len(),
            value_of(environment@, name@) == value_of(environment@.skip(i as int), name@),
        decreases environment.len() - i,
    {
        assert(environment@.skip(i as int)[0] == environment@[i as int]);
        assert(environment@.skip(i as int).drop_first() =~= environment@.skip(i + 1));
        if text_eq(environment[i].0.as_str(), name) {
            return Some(environment[i].1.clone());
        }
        i += 1;
    }
    None
}

/// Picks out of an environment how a companion finds its way back.
pub fn managed_forward_environment(environment: &Vec<(String, String)>, session_id: String) -> (result:
    Result<ManagedForwardEnvironment, RemoteConnectionFailure>)
    ensures
        match (
            value_of(environment@, "LOCALREVIEW_MANAGED_FORWARD_ENDPOINT"@),
            value_of(environment@, "LOCALREVIEW_MANAGED_FORWARD_TOKEN"@),
        ) {
            (None, _) => result matches Err(failure) && failure.error is Internal && is_unreachable(
                failure.companion,
                "managed reverse-forward endpoint was unavailable"@,
            ),
            (Some(_), None) => result matches Err(failure) && failure.error is Internal
                && is_unreachable(
                failure.companion,
                "managed reverse-forward token was unavailable"@,
            ),
            (Some(endpoint), Some(token)) => result matches Ok(found) && found.endpoint@ == endpoint
                && found.token_hex@ == token && found.session_id == session_id,
        },
{
    let endpoint = match find_value(environment, "LOCALREVIEW_MANAGED_FORWARD_ENDPOINT") {
        Some(endpoint) => endpoint,
        None => {
            return Err(
                RemoteConnectionFailure {
                    companion: unreachable_companion(
                        "managed reverse-forward endpoint was unavailable",
                    ),
                    error: DispatchError::Internal,
                },
            );
        },
    };
    let token_hex = match find_value(environment, "LOCALREVIEW_MANAGED_FORWARD_TOKEN") {
        Some(token) => token,
        None => {
            return Err(
                RemoteConnectionFailure {
                    companion: unreachable_companion(
                        "managed reverse-forward token was unavailable",
                    ),
                    error: DispatchError::Internal,
                },
            );
        },
    };
    Ok(ManagedForwardEnvironment { endpoint, token_hex, session_id })
}

/// The failure to prepare a way back from a host.
pub fn forward_failure(host: &str, error: &str) -> (failure: RemoteConnectionFailure)
    ensures
        is_unreachable(
            failure.companion,
            "could not prepare a managed SSH reverse-forward session"@,
        ),
        failure.error.is_remote(
            "could not create managed reverse forwarding for "@ + host@ + ": "@ + error@,
        ),
{
    let mut text = "could not create managed reverse forwarding for ".to_owned();
    text.append(host);
    text.append(": ");
    text.append(error);
    RemoteConnectionFailure {
        companion: unreachable_companion("could not prepare a managed SSH reverse-forward session"),
        error: DispatchError::Remote(text),
    }
}

/// What came in on the way back from a host.
#[derive(Clone, Copy, Debug, PartialEq, Eq, Structural)]
pub enum ForwardEvent {
    Accepted,
    TimedOut,
    TokenRejected,
    ProtocolRefused,
    NonLoopbackPeer,
    Rejected,
    Expired,
    InvalidSession,
    InvalidEndpoint,
    EntropyUnavailable,
    IoFailed,
}

/// Whether the way back stays open: a refused caller does not close it, its
/// end and its failures do.
pub fn forward_stays_open(event: ForwardEvent) -> (open: bool)
    ensures
        open == (event == ForwardEvent::Accepted || event == ForwardEvent::TimedOut || event
            == ForwardEvent::TokenRejected || event == ForwardEvent::ProtocolRefused || event
            == ForwardEvent::NonLoopbackPeer || event == ForwardEvent::Rejected),
{
    match event {
        ForwardEvent::Accepted | ForwardEvent::TimedOut => true,
        ForwardEvent::TokenRejected
        | ForwardEvent::ProtocolRefused
        | ForwardEvent::NonLoopbackPeer
        | ForwardEvent::Rejected => true,
        ForwardEvent::Expired => false,
        ForwardEvent::InvalidSession
        | ForwardEvent::InvalidEndpoint
        | ForwardEvent::EntropyUnavailable
        | ForwardEvent::IoFailed => false,
    }
}

} // verus!
