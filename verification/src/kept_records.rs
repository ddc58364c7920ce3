//! What is kept stays as it was kept, and is found again.
use crate::annotations::{
    annotation_view, file_of, is_about, Annotation, AnnotationKind, PublicationState,
};
use crate::cache::{cost_of, lookup, unmarked, within_bounds, without, BoundedCache, EntryModel};
use crate::document::{DiffSide, ReviewDiffDocument};
use crate::errors::DispatchError;
use crate::full_file::valid_full_file_deletion_block_ids;
use crate::ids::{
    id_chars, id_text, parse_prompt_history_reference, AnnotationSetId, PromptExportId,
    PromptHistoryReference, ReviewFileId, ReviewSessionId, WorkspaceId,
};
use crate::jobs::{
    job_of, jobs_without, PresentationJob, PresentationJobLease, PresentationJobRegistry,
    PresentationWorkPool, WorkPermit,
};
use crate::ownership::{annotations_for_session, joined};
use crate::presentation::CachedCanonicalPresentation;
use crate::presentation_cache::PresentationCache;
use crate::refresh::{RefreshAvailability, RefreshAvailableEvent, RefreshCaptureBoundary};
use crate::remote::{
    check_capture, mark_stale, note_connected, note_materialized, note_unconnected, CaptureProblems,
    RemoteCompanionAvailability, RemoteCompanionStatus, RemoteComparisonCapture,
    RemoteWorkspaceMetadata,
};
use crate::remote_review::{
    companion_from_probe, managed_forward_environment, value_of, CompanionProbe,
    ManagedForwardEnvironment, RemoteAgentProgram, RemoteConnectionFailure,
};
use crate::remote_source::{
    validate_remote_source_window, ReadProgress, RemoteSourceWindow, SourceReader, SourceRequest,
};
use crate::review::kept;
use crate::sessions::{
    archived_review_id, check_archived_session, ReviewSession, ReviewSessionStatus,
};
use crate::text::texts;
use crate::text_set::TextSet;
use crate::ui_state::{forget_stale_blocks, set_viewed, ReviewUiState};
use crate::views::AnnotationView;
use std::sync::Arc;
use vstd::prelude::*;
use vstd::string::*;
use vstd::utf8::*;

verus! {

proof fn lemma_file_of(annotation: Annotation, documents: Seq<ReviewDiffDocument>, place: int)
    requires
        0 <= place < documents.len(),
        is_about(annotation, documents[place]),
        forall|i: int| 0 <= i < place ==> !is_about(annotation, #[trigger] documents[i]),
    ensures
        file_of(annotation, documents) == id_chars(documents[place].file.id.0),
    decreases documents.len(),
{
    if place > 0 {
        assert(!is_about(annotation, documents[0]));
        let rest = documents.drop_first();
        assert(rest[place - 1] == documents[place]);
        assert forall|i: int| 0 <= i < place - 1 implies !is_about(
            annotation,
            #[trigger] rest[i],
        ) by {
            assert(rest[i] == documents[i + 1]);
        }
        lemma_file_of(annotation, rest, place - 1);
    }
}

/// Whether an annotation is about a captured file: one of its comparison, at
/// its path.
pub open spec fn is_of_file(annotation: Annotation, document: ReviewDiffDocument) -> bool {
    annotation.anchor matches Some(anchor) && anchor.comparison_id == document.comparison_id
        && anchor.file_path@ == document.file.path@
}

/// An annotation is shown with its text and labels at the file that it is
/// about, on its side and at its lines, and with the source that it was written
/// on.
pub proof fn law_annotations_are_shown_at_their_place(
    annotation: Annotation,
    documents: Vec<ReviewDiffDocument>,
    view: AnnotationView,
    place: int,
)
    requires
        call_ensures(annotation_view, (&annotation, &documents), view),
        0 <= place < documents@.len(),
        is_of_file(annotation, documents@[place]),
        forall|i: int| 0 <= i < place ==> !is_of_file(annotation, #[trigger] documents@[i]),
    ensures
        ({
            let anchor = annotation.anchor->0;
            &&& view.id@ == id_chars(annotation.id.0)
            &&& view.file_id@ == id_chars(documents@[place].file.id.0)
            &&& view.repository_id@ == id_chars(anchor.repository_id.0)
            &&& view.body@ == annotation.body_markdown@
            &&& texts(view.labels@) == texts(annotation.labels@)
            &&& anchor.side == Some(DiffSide::Old) ==> view.side@ == "old"@
            &&& anchor.side != Some(DiffSide::Old) ==> view.side@ == "new"@
            &&& anchor.start_line matches Some(line) ==> view.start_line == line
            &&& anchor.start_line is None ==> view.start_line == 0
            &&& anchor.end_line matches Some(line) ==> view.end_line == line
            &&& anchor.end_line is None ==> view.end_line == 0
            &&& view.selected_source@ == anchor.selected_source@
            &&& view.local_only <==> annotation.publication_state == PublicationState::LocalOnly
            &&& view.published_id is Some <==> annotation.publication_state
                == PublicationState::Published
            &&& annotation.kind == AnnotationKind::Comment ==> view.kind@ == "comment"@
            &&& annotation.kind == AnnotationKind::Question ==> view.kind@ == "question"@
            &&& annotation.kind == AnnotationKind::Suggestion ==> view.kind@ == "suggestion"@
            &&& annotation.kind == AnnotationKind::FileNote ==> view.kind@ == "file_note"@
        }),
{
    assert forall|i: int| 0 <= i < place implies !is_about(annotation, #[trigger] documents@[i]) by {
        assert(!is_of_file(annotation, documents@[i]));
    }
    lemma_file_of(annotation, documents@, place);
    assert(view@.labels == texts(view.labels@));
    assert(view@.id == view.id@ && view@.file_id == view.file_id@);
}

/// A note on the review as a whole is shown without a file and without lines.
pub proof fn law_review_notes_are_shown_without_a_place(
    annotation: Annotation,
    documents: Vec<ReviewDiffDocument>,
    view: AnnotationView,
)
    requires
        call_ensures(annotation_view, (&annotation, &documents), view),
        annotation.anchor is None,
    ensures
        view.body@ == annotation.body_markdown@,
        view.start_line == 0 && view.end_line == 0,
        view.repository_id@.len() == 0 && view.selected_source@.len() == 0,
        view.file_id@.len() == 0,
{
    lemma_no_file(annotation, documents@);
    assert(view@.file_id == view.file_id@ && view@.repository_id == view.repository_id@);
}

proof fn lemma_no_file(annotation: Annotation, documents: Seq<ReviewDiffDocument>)
    requires
        annotation.anchor is None,
    ensures
        file_of(annotation, documents).len() == 0,
    decreases documents.len(),
{
    if documents.len() > 0 {
        lemma_no_file(annotation, documents.drop_first());
    }
}

/// A round of review that is open shows the annotations of its set; one that is
/// over shows those of all its sets, one set behind the other.
pub proof fn law_rounds_show_their_annotations(
    session: ReviewSession,
    active: Option<Vec<Annotation>>,
    first: Vec<Annotation>,
    second: Vec<Annotation>,
    sets: Vec<Vec<Annotation>>,
    result: Result<Vec<Annotation>, DispatchError>,
)
    requires
        sets@ == seq![first, second],
        call_ensures(annotations_for_session, (&session, active, sets), result),
    ensures
        session.status == ReviewSessionStatus::Active ==> (result is Ok <==> active is Some),
        session.status != ReviewSessionStatus::Active ==> result is Ok,
        session.status == ReviewSessionStatus::Active && active is Some ==> result->Ok_0@ == kept(
            active->0@,
        ),
        session.status != ReviewSessionStatus::Active ==> result->Ok_0@ == kept(first@ + second@),
{
    assert(sets@.drop_last() =~= seq![first]);
    assert(sets@.drop_last().drop_last() =~= Seq::<Vec<Annotation>>::empty());
    assert(joined(sets@.drop_last().drop_last()) =~= Seq::<Annotation>::empty());
    assert(joined(sets@.drop_last()) =~= first@);
    assert(joined(sets@) =~= first@ + second@);
}

proof fn lemma_prefixes_differ()
    ensures
        "set:"@.len() == 4 && "set:"@[0] == 's',
        "review:"@.len() == 7 && "review:"@[0] == 'r',
        "export:"@.len() == 7 && "export:"@[0] == 'e',
{
    reveal_strlit("set:");
    reveal_strlit("review:");
    reveal_strlit("export:");
}

proof fn lemma_behind(prefix: Seq<char>, text: Seq<char>)
    ensures
        prefix.is_prefix_of(prefix + text),
        (prefix + text).skip(prefix.len() as int) == text,
{
    assert((prefix + text).skip(prefix.len() as int) =~= text);
    assert((prefix + text).subrange(0, prefix.len() as int) =~= prefix);
}

/// A reference to something of the past leads to it: to a set, to a round of
/// review or to a prompt, by the id that it was written with.
pub proof fn law_references_lead_to_what_they_name(
    number: u128,
    id: String,
    value: &str,
    result: Result<Option<PromptHistoryReference>, DispatchError>,
)
    requires
        call_ensures(id_text, (number,), id),
        call_ensures(parse_prompt_history_reference, (Some(value),), result),
    ensures
        value@ == "set:"@ + id@ ==> result == Ok::<Option<PromptHistoryReference>, DispatchError>(
            Some(PromptHistoryReference::AnnotationSet(AnnotationSetId(number))),
        ),
        value@ == "review:"@ + id@ ==> result == Ok::<
            Option<PromptHistoryReference>,
            DispatchError,
        >(Some(PromptHistoryReference::Review(ReviewSessionId(number)))),
        value@ == "export:"@ + id@ ==> result == Ok::<
            Option<PromptHistoryReference>,
            DispatchError,
        >(Some(PromptHistoryReference::Export(PromptExportId(number)))),
{
    lemma_prefixes_differ();
    lemma_behind("set:"@, id@);
    lemma_behind("review:"@, id@);
    lemma_behind("export:"@, id@);
    if value@ == "review:"@ + id@ {
        assert(value@[0] == 'r');
        if "set:"@.is_prefix_of(value@) {
            assert(value@.subrange(0, 4)[0] == value@[0]);
            assert("set:"@[0] == value@[0]);
        }
    }
    if value@ == "export:"@ + id@ {
        assert(value@[0] == 'e');
        if "set:"@.is_prefix_of(value@) {
            assert(value@.subrange(0, 4)[0] == value@[0]);
            assert("set:"@[0] == value@[0]);
        }
        if "review:"@.is_prefix_of(value@) {
            assert(value@.subrange(0, 7)[0] == value@[0]);
            assert("review:"@[0] == value@[0]);
        }
    }
}

/// A round of the past is opened by its reference, in its own workspace and
/// only where it is over.
pub proof fn law_past_rounds_are_opened_by_their_reference(
    number: u128,
    id: String,
    history_id: &str,
    result: Result<ReviewSessionId, DispatchError>,
    session: Option<ReviewSession>,
    workspace_id: WorkspaceId,
    opened: Result<ReviewSession, DispatchError>,
)
    requires
        call_ensures(id_text, (number,), id),
        history_id@ == "review:"@ + id@,
        call_ensures(archived_review_id, (history_id,), result),
        call_ensures(check_archived_session, (session, workspace_id, history_id), opened),
    ensures
        result == Ok::<ReviewSessionId, DispatchError>(ReviewSessionId(number)),
        opened is Ok <==> (session matches Some(found) && found.workspace_id == workspace_id
            && found.status != ReviewSessionStatus::Active),
        opened matches Ok(found) ==> session == Some(found),
{
    lemma_behind("review:"@, id@);
}

/// A file that is marked as viewed is viewed and one that is unmarked is not;
/// nothing else changes.
pub proof fn law_viewed_files_are_marked(
    state: &mut ReviewUiState,
    file_id: ReviewFileId,
    viewed: bool,
    other: Seq<char>,
)
    requires
        call_ensures(set_viewed, (state, file_id, viewed), ()),
    ensures
        final(state)@.viewed_file_ids.contains(id_chars(file_id.0)) <==> viewed,
        other != id_chars(file_id.0) ==> (final(state)@.viewed_file_ids.contains(other) <==> old(
            state,
        )@.viewed_file_ids.contains(other)),
        final(state)@.active_file_id == old(state)@.active_file_id,
        final(state)@.mode == old(state)@.mode,
        final(state)@.hunk_context_lines == old(state)@.hunk_context_lines,
        final(state)@.expanded_full_file_deletion_blocks == old(
            state,
        )@.expanded_full_file_deletion_blocks,
        final(state)@.collapsed_full_file_addition_blocks == old(
            state,
        )@.collapsed_full_file_addition_blocks,
{
}

/// What is told of changes is what is on offer then, with a newer number; a
/// watcher that was replaced, and the news that there is nothing where nothing
/// was on offer, change and tell nothing.
pub proof fn law_offers_are_told_as_they_are(
    state: &mut RefreshAvailability,
    workspace_id: WorkspaceId,
    epoch: Option<u64>,
    available: bool,
    event: Option<RefreshAvailableEvent>,
)
    requires
        call_ensures(
            RefreshAvailability::publish_refresh_availability,
            (state, workspace_id, epoch, available),
            event,
        ),
    ensures
        event is Some <==> (epoch is None || epoch == Some(old(state).watcher_epoch)) && (available
            || old(state).available),
        event is None ==> *final(state) == *old(state),
        event matches Some(told) ==> {
            &&& told.workspace_id@ == id_chars(workspace_id.0)
            &&& told.refresh_available == available && final(state).available == available
            &&& told.revision == final(state).revision
            &&& old(state).revision < u64::MAX ==> told.revision == old(state).revision + 1
            &&& final(state).watcher_epoch == old(state).watcher_epoch
        },
{
}

/// A capture takes an offer back only where nothing happened since it began.
pub proof fn law_offers_are_taken_back_by_captures(
    state: &mut RefreshAvailability,
    workspace_id: WorkspaceId,
    boundary: RefreshCaptureBoundary,
    available: bool,
    event: Option<RefreshAvailableEvent>,
)
    requires
        call_ensures(
            RefreshAvailability::publish_refresh_availability_at_boundary,
            (state, workspace_id, boundary, available),
            event,
        ),
    ensures
        event is Some <==> old(state).revision == boundary.revision && old(state).watcher_epoch
            == boundary.watcher_epoch && old(state).available != available,
        event is None ==> *final(state) == *old(state),
        event matches Some(told) ==> told.refresh_available == available && final(state).available
            == available && told.workspace_id@ == id_chars(workspace_id.0),
{
}

proof fn lemma_lookup<V>(entries: Seq<EntryModel<V>>, key: Seq<char>)
    ensures
        match lookup(entries, key) {
            Some(entry) => entries.contains(entry) && entry.key == key,
            None => forall|i: int| 0 <= i < entries.len() ==> (#[trigger] entries[i]).key != key,
        },
    decreases entries.len(),
{
    if entries.len() > 0 {
        let before = entries.drop_last();
        lemma_lookup(before, key);
        assert forall|i: int| 0 <= i < before.len() implies before[i] == #[trigger] entries[i] by {}
        if entries.last().key == key {
            assert(entries[entries.len() - 1] == entries.last());
        } else if lookup(before, key) is Some {
            let entry = lookup(before, key)->0;
            let i = choose|i: int| 0 <= i < before.len() && before[i] == entry;
            assert(entries[i] == entry);
        }
    }
}

proof fn lemma_without<V>(entries: Seq<EntryModel<V>>, key: Seq<char>, other: EntryModel<V>)
    requires
        other.key != key,
    ensures
        without(entries, key).contains(other) <==> entries.contains(other),
    decreases entries.len(),
{
    if entries.len() > 0 {
        let before = entries.drop_last();
        let last = entries.len() - 1;
        lemma_without(before, key, other);
        let left = without(entries, key);
        if entries.contains(other) {
            let i = choose|i: int| 0 <= i < entries.len() && entries[i] == other;
            if i < last {
                assert(before[i] == other);
                assert(before.contains(other));
            }
        }
        if before.contains(other) {
            let i = choose|i: int| 0 <= i < before.len() && before[i] == other;
            assert(entries[i] == other);
        }
        if entries.last().key != key {
            let rest = without(before, key);
            assert(left == rest.push(entries.last()));
            assert(left[left.len() - 1] == entries.last());
            if rest.contains(other) {
                let i = choose|i: int| 0 <= i < rest.len() && rest[i] == other;
                assert(left[i] == other);
            }
            if left.contains(other) {
                let i = choose|i: int| 0 <= i < left.len() && left[i] == other;
                if i < rest.len() {
                    assert(rest[i] == other);
                } else {
                    assert(entries[last] == other);
                }
            }
            if other == entries.last() {
                assert(entries[last] == other);
            }
        }
    } else {
        assert(without(entries, key) =~= entries);
    }
}

proof fn lemma_without_is_no_longer<V>(entries: Seq<EntryModel<V>>, key: Seq<char>)
    ensures
        without(entries, key).len() <= entries.len(),
        cost_of(without(entries, key)) <= cost_of(entries),
    decreases entries.len(),
{
    if entries.len() > 0 {
        let before = entries.drop_last();
        lemma_without_is_no_longer(before, key);
        if entries.last().key != key {
            let left = without(before, key).push(entries.last());
            assert(left.drop_last() =~= without(before, key));
        }
    }
}

/// What was used last is kept longest: a value that is found becomes the newest
/// entry, and every other entry stays. What is not there is not found, and
/// nothing changes.
pub proof fn law_found_values_become_the_newest<V>(
    cache: &mut BoundedCache<V>,
    key: &str,
    value: Option<&V>,
    other: EntryModel<V>,
)
    requires
        call_ensures(BoundedCache::<V>::get, (cache, key), value),
    ensures
        value is Some <==> exists|i: int|
            0 <= i < old(cache)@.len() && (#[trigger] old(cache)@[i]).key == key@,
        value is None ==> final(cache)@ == old(cache)@,
        value matches Some(found) ==> {
            &&& final(cache)@.len() > 0
            &&& final(cache)@.last().key == key@
            &&& final(cache)@.last().value == *found
            &&& old(cache)@.contains(final(cache)@.last())
        },
        other.key != key@ ==> (final(cache)@.contains(other) <==> old(cache)@.contains(other)),
{
    let before = old(cache)@;
    let after = final(cache)@;
    lemma_lookup(before, key@);
    if lookup(before, key@) is Some {
        let entry = lookup(before, key@)->0;
        let i = choose|i: int| 0 <= i < before.len() && before[i] == entry;
        assert(before[i].key == key@);
        let rest = without(before, key@);
        if other.key != key@ {
            lemma_without(before, key@, other);
            if rest.contains(other) {
                let k = choose|k: int| 0 <= k < rest.len() && rest[k] == other;
                assert(after[k] == other);
            }
            if after.contains(other) {
                let k = choose|k: int| 0 <= k < after.len() && after[k] == other;
                assert(k < rest.len());
                assert(rest[k] == other);
            }
        }
    }
}

/// What is kept anew becomes the newest entry. As long as there is room for it,
/// every other entry stays. What is too large on its own is not kept, and
/// nothing changes.
pub proof fn law_kept_values_leave_room_for_the_others<V>(
    cache: &mut BoundedCache<V>,
    key: String,
    cost: usize,
    value: V,
    other: EntryModel<V>,
)
    requires
        call_ensures(BoundedCache::<V>::insert, (cache, key, cost, value), ()),
    ensures
        cost > old(cache).cost_limit() ==> final(cache)@ == old(cache)@,
        cost <= old(cache).cost_limit() && old(cache).entry_limit() > 0 ==> {
            &&& final(cache)@.len() > 0
            &&& final(cache)@.last().key == key@ && final(cache)@.last().value == value
        },
        cost <= old(cache).cost_limit() && old(cache)@.len() < old(cache).entry_limit() && cost_of(
            old(cache)@,
        ) + cost <= old(cache).cost_limit() && other.key != key@ ==> (final(cache)@.contains(other)
            <==> old(cache)@.contains(other)),
{
    let before = old(cache)@;
    let after = final(cache)@;
    let rest = without(before, key@);
    let entry = EntryModel { key: key@, cost: cost as nat, value };
    let list = rest.push(entry);
    if cost <= old(cache).cost_limit() {
        assert(list.drop_last() =~= rest);
        lemma_without_is_no_longer(before, key@);
        if old(cache).entry_limit() > 0 {
            lemma_newest_stays(list, old(cache).entry_limit(), old(cache).cost_limit());
        }
        if before.len() < old(cache).entry_limit() && cost_of(before) + cost <= old(
            cache,
        ).cost_limit() && other.key != key@ {
            assert(after == list);
            lemma_without(before, key@, other);
            if rest.contains(other) {
                let k = choose|k: int| 0 <= k < rest.len() && rest[k] == other;
                assert(after[k] == other);
            }
            if after.contains(other) {
                let k = choose|k: int| 0 <= k < after.len() && after[k] == other;
                assert(k < rest.len());
                assert(rest[k] == other);
            }
        }
    }
}

proof fn lemma_newest_stays<V>(entries: Seq<EntryModel<V>>, max_entries: nat, max_cost: nat)
    requires
        entries.len() > 0,
        max_entries > 0,
        entries.last().cost <= max_cost,
    ensures
        within_bounds(entries, max_entries, max_cost).len() > 0,
        within_bounds(entries, max_entries, max_cost).last() == entries.last(),
    decreases entries.len(),
{
    if entries.len() > max_entries || cost_of(entries) > max_cost {
        if entries.len() == 1 {
            assert(entries.drop_last() =~= Seq::<EntryModel<V>>::empty());
            assert(cost_of(entries.drop_last()) == 0);
        } else {
            lemma_newest_stays(entries.drop_first(), max_entries, max_cost);
        }
    }
}

/// The newest request for a file holds its job: an older one is refused and
/// changes nothing, the same one keeps its ticket, and a newer one takes the
/// job over with a ticket of its own. A request without a number holds none.
pub proof fn law_newest_requests_hold_the_job(
    registry: &mut PresentationJobRegistry,
    file_id: ReviewFileId,
    generation: u64,
    result: Result<PresentationJobLease, DispatchError>,
    job: PresentationJob,
)
    requires
        old(registry).wf(),
        old(registry).next() < u64::MAX,
        call_ensures(
            PresentationJobRegistry::acquire,
            (registry, file_id, generation),
            result,
        ),
        job_of(old(registry)@, file_id) == Some(job),
    ensures
        generation == 0 ==> result is Ok && !result->Ok_0.registered && final(registry)@ == old(
            registry,
        )@,
        0 < generation < job.generation ==> result is Err && final(registry)@ == old(registry)@,
        generation > 0 && generation == job.generation ==> result is Ok && result->Ok_0.registered
            && result->Ok_0.ticket == job.ticket && final(registry)@.last() == job,
        generation > job.generation ==> {
            &&& result is Ok && result->Ok_0.registered && result->Ok_0.generation == generation
            &&& result->Ok_0.ticket == old(registry).next()
            &&& final(registry).next() == old(registry).next() + 1
            &&& final(registry)@.last() == (PresentationJob {
                file_id,
                generation,
                ticket: old(registry).next(),
            })
        },
{
}

/// A capture is taken as it is just where every name in it is in order; that of
/// the head counts only where there is one.
pub proof fn law_captures_with_bad_names_are_refused(
    capture: RemoteComparisonCapture,
    problems: CaptureProblems,
    result: Result<(), DispatchError>,
)
    requires
        call_ensures(check_capture, (&capture, &problems), result),
    ensures
        result is Ok <==> problems.requested_base is None && problems.base_tip_sha is None
            && problems.merge_base_sha is None && (capture.head_sha is Some ==> problems.head_sha
            is None) && (capture.head is Detached ==> problems.head is None),
{
}

/// A window of a source is taken just where it answers the request: the same
/// capture, repository, path and revision, from the line that was asked for.
pub proof fn law_windows_answer_their_request(
    window: RemoteSourceWindow,
    request: SourceRequest,
    start_line: u32,
    result: Result<(), DispatchError>,
)
    requires
        call_ensures(validate_remote_source_window, (&window, &request, start_line), result),
    ensures
        result is Ok ==> {
            &&& window.capture_id@ == request.capture_id@
            &&& window.capture_generation == request.capture_generation
            &&& window.repository.workspace_root@ == request.repository.workspace_root@
            &&& window.repository.relative_path@ == request.repository.relative_path@
            &&& window.path@ == request.path@ && window.revision == request.revision
            &&& window.start_line == start_line
            &&& encode_utf8(window.content_sha256_hex@).len() == 64
        },
        result matches Err(error) ==> error is Remote,
{
}

/// A source that is complete is made of the bytes that were read before and
/// those of the last window, as many as the host told; one that is not goes on
/// with both.
pub proof fn law_sources_are_made_of_their_windows(
    reader: SourceReader,
    window: RemoteSourceWindow,
    request: SourceRequest,
    progress: ReadProgress,
)
    requires
        reader.wf(),
        call_ensures(SourceReader::accept, (reader, &window, &request), progress),
    ensures
        progress matches ReadProgress::Done(text) ==> {
            &&& encode_utf8(text@) == reader@.output + window.bytes@
            &&& encode_utf8(text@).len() == window.byte_len
            &&& window.end_of_file && window.start_line == reader@.start_line
            &&& window.path@ == request.path@
        },
        progress matches ReadProgress::More(next) ==> {
            &&& next@.output == reader@.output + window.bytes@
            &&& !window.end_of_file && window.bytes@.len() > 0
            &&& next@.windows == reader@.windows + 1
            &&& next@.expected_hash == Some(window.content_sha256_hex@)
            &&& reader@.start_line + reader@.window_lines <= u32::MAX ==> next@.start_line
                == reader@.start_line + reader@.window_lines
        },
{
}

/// What a host answers about its companion is told as it is; where the one that
/// it finds does not serve, the user's own is tried.
pub proof fn law_companions_are_told_as_found(
    probe: CompanionProbe,
    found: (RemoteCompanionStatus, RemoteAgentProgram),
)
    requires
        call_ensures(companion_from_probe, (probe,), found),
    ensures
        found.0.availability == RemoteCompanionAvailability::Compatible <==> probe is Compatible,
        found.0.availability == RemoteCompanionAvailability::Incompatible <==> probe
            is Incompatible,
        found.1 == RemoteAgentProgram::PathLookup <==> probe is Compatible,
        probe matches CompanionProbe::Incompatible { platform, detail } ==> found.0.platform
            == Some(platform) && found.0.detail@ == detail@,
        probe matches CompanionProbe::MissingOrUnreachable { platform, detail }
            ==> found.0.platform == platform && found.0.detail@ == detail@,
{
}

proof fn lemma_value_of(environment: Seq<(String, String)>, name: Seq<char>, place: int)
    requires
        0 <= place < environment.len(),
        environment[place].0@ == name,
        forall|i: int| 0 <= i < place ==> (#[trigger] environment[i]).0@ != name,
    ensures
        value_of(environment, name) == Some(environment[place].1@),
    decreases environment.len(),
{
    if place > 0 {
        assert(environment[0].0@ != name);
        let rest = environment.drop_first();
        assert(rest[place - 1] == environment[place]);
        assert forall|i: int| 0 <= i < place - 1 implies (#[trigger] rest[i]).0@ != name by {
            assert(rest[i] == environment[i + 1]);
        }
        lemma_value_of(rest, name, place - 1);
    }
}

/// A managed connection is described by what the environment tells: its
/// endpoint, its token and the session that it is for.
pub proof fn law_managed_connections_are_read_from_the_environment(
    environment: Vec<(String, String)>,
    session_id: String,
    result: Result<ManagedForwardEnvironment, RemoteConnectionFailure>,
    endpoint: int,
    token: int,
)
    requires
        call_ensures(managed_forward_environment, (&environment, session_id), result),
        0 <= endpoint < environment@.len(),
        0 <= token < environment@.len(),
        environment@[endpoint].0@ == "LOCALREVIEW_MANAGED_FORWARD_ENDPOINT"@,
        environment@[token].0@ == "LOCALREVIEW_MANAGED_FORWARD_TOKEN"@,
        forall|i: int|
            0 <= i < endpoint ==> (#[trigger] environment@[i]).0@
                != "LOCALREVIEW_MANAGED_FORWARD_ENDPOINT"@,
        forall|i: int|
            0 <= i < token ==> (#[trigger] environment@[i]).0@
                != "LOCALREVIEW_MANAGED_FORWARD_TOKEN"@,
    ensures
        result matches Ok(found) && found.endpoint@ == environment@[endpoint].1@ && found.token_hex@
            == environment@[token].1@ && found.session_id@ == session_id@,
{
    lemma_value_of(environment@, "LOCALREVIEW_MANAGED_FORWARD_ENDPOINT"@, endpoint);
    lemma_value_of(environment@, "LOCALREVIEW_MANAGED_FORWARD_TOKEN"@, token);
}

/// What becomes of a connection is noted without touching what was captured: a
/// failure marks the record as out of date, a connection takes the last failure
/// back.
pub proof fn law_connections_leave_captures_alone(
    stale: &mut RemoteWorkspaceMetadata,
    connected: &mut RemoteWorkspaceMetadata,
    unconnected: &mut RemoteWorkspaceMetadata,
    error: String,
    companion: RemoteCompanionStatus,
)
    requires
        call_ensures(mark_stale, (stale, error), ()),
        call_ensures(note_connected, (connected, companion), ()),
        call_ensures(note_unconnected, (unconnected, companion, error), ()),
    ensures
        final(stale).stale && final(stale).last_error == Some(error),
        final(stale).captures == old(stale).captures,
        final(stale).generation == old(stale).generation,
        final(connected).last_error is None && final(connected).companion == Some(companion),
        final(connected).captures == old(connected).captures,
        final(connected).stale == old(connected).stale,
        final(unconnected).last_error == Some(error) && final(unconnected).companion == Some(
            companion,
        ),
        final(unconnected).captures == old(unconnected).captures,
        final(unconnected).stale == old(unconnected).stale,
{
}

/// Once a file was read, its entry says so and every other entry is as it was;
/// a text that was read also takes the failure back.
pub proof fn law_read_files_are_noted(
    metadata: &mut RemoteWorkspaceMetadata,
    capture: usize,
    file: usize,
    was_read: bool,
    other: int,
)
    requires
        capture < old(metadata).captures@.len(),
        file < old(metadata).captures@[capture as int].files@.len(),
        call_ensures(note_materialized, (metadata, capture, file, was_read), ()),
        0 <= other < old(metadata).captures@[capture as int].files@.len(),
    ensures
        ({
            let before = old(metadata).captures@[capture as int];
            let after = final(metadata).captures@[capture as int];
            &&& final(metadata).captures@.len() == old(metadata).captures@.len()
            &&& after.files@.len() == before.files@.len()
            &&& after.files@[file as int].materialized
            &&& after.files@[file as int].file == before.files@[file as int].file
            &&& after.files@[file as int].file_id == before.files@[file as int].file_id
            &&& other != file ==> after.files@[other] == before.files@[other]
            &&& after.capture == before.capture
            &&& was_read ==> !final(metadata).stale && final(metadata).last_error is None
            &&& !was_read ==> final(metadata).stale == old(metadata).stale
        }),
{
}

proof fn lemma_within_bounds_is_the_end<V>(
    entries: Seq<EntryModel<V>>,
    max_entries: nat,
    max_cost: nat,
) -> (gone: int)
    ensures
        0 <= gone <= entries.len(),
        within_bounds(entries, max_entries, max_cost) == entries.skip(gone),
        gone > 0 ==> entries.len() - gone + 1 > max_entries || cost_of(entries.skip(gone - 1))
            > max_cost,
    decreases entries.len(),
{
    if entries.len() > 0 && (entries.len() > max_entries || cost_of(entries) > max_cost) {
        let rest = entries.drop_first();
        let gone = lemma_within_bounds_is_the_end(rest, max_entries, max_cost);
        assert(rest.skip(gone) =~= entries.skip(gone + 1));
        if gone > 0 {
            assert(rest.skip(gone - 1) =~= entries.skip(gone));
        } else {
            assert(entries.skip(0) =~= entries);
        }
        gone + 1
    } else {
        assert(entries.skip(0) =~= entries);
        0
    }
}

/// Where there is no room, the entries that were not used for longest go first,
/// and no more of them than have to.
pub proof fn law_oldest_entries_go_first<V>(
    cache: &mut BoundedCache<V>,
    key: String,
    cost: usize,
    value: V,
) -> (gone: int)
    requires
        call_ensures(BoundedCache::<V>::insert, (cache, key, cost, value), ()),
        cost <= old(cache).cost_limit(),
        forall|i: int| 0 <= i < old(cache)@.len() ==> (#[trigger] old(cache)@[i]).key != key@,
    ensures
        0 <= gone <= old(cache)@.len() + 1,
        final(cache)@ == old(cache)@.push(
            (EntryModel { key: key@, cost: cost as nat, value }),
        ).skip(gone),
        gone > 0 ==> old(cache)@.len() + 1 - gone + 1 > old(cache).entry_limit() || cost_of(
            old(cache)@.push((EntryModel { key: key@, cost: cost as nat, value })).skip(gone - 1),
        ) > old(cache).cost_limit(),
{
    lemma_without_none(old(cache)@, key@);
    lemma_within_bounds_is_the_end(
        old(cache)@.push((EntryModel { key: key@, cost: cost as nat, value })),
        old(cache).entry_limit(),
        old(cache).cost_limit(),
    )
}

proof fn lemma_without_none<V>(entries: Seq<EntryModel<V>>, key: Seq<char>)
    requires
        forall|i: int| 0 <= i < entries.len() ==> (#[trigger] entries[i]).key != key,
    ensures
        without(entries, key) == entries,
    decreases entries.len(),
{
    if entries.len() > 0 {
        let before = entries.drop_last();
        assert forall|i: int| 0 <= i < before.len() implies (#[trigger] before[i]).key != key by {
            assert(before[i] == entries[i]);
        }
        lemma_without_none(before, key);
        assert(entries[entries.len() - 1].key != key);
        assert(before.push(entries.last()) =~= entries);
    }
}

/// A worker may begin just where one is free and the request still stands; it
/// is taken until it is given back, and no more are ever free than there are.
pub proof fn law_workers_are_taken_and_given_back(
    taken: &mut PresentationWorkPool,
    returned: &mut PresentationWorkPool,
    cancelled: bool,
    permit: WorkPermit,
)
    requires
        old(taken).wf(),
        old(returned).wf(),
        call_ensures(PresentationWorkPool::acquire, (taken, cancelled), permit),
        call_ensures(PresentationWorkPool::release, (returned,), ()),
    ensures
        permit == WorkPermit::Granted <==> !cancelled && old(taken).free() > 0,
        permit == WorkPermit::Cancelled <==> cancelled,
        permit == WorkPermit::Granted ==> final(taken).free() + 1 == old(taken).free(),
        permit != WorkPermit::Granted ==> final(taken).free() == old(taken).free(),
        old(returned).free() < old(returned).limit() ==> final(returned).free() == old(
            returned,
        ).free() + 1,
        final(returned).free() <= final(returned).limit(),
        final(returned).limit() == old(returned).limit(),
{
}

proof fn lemma_unmarked<V>(entries: Seq<EntryModel<V>>, marked: Seq<bool>, entry: EntryModel<V>)
    requires
        marked.len() == entries.len(),
    ensures
        unmarked(entries, marked).contains(entry) <==> exists|i: int|
            0 <= i < entries.len() && #[trigger] entries[i] == entry && !marked[i],
    decreases entries.len(),
{
    if entries.len() > 0 {
        let before = entries.drop_last();
        let flags = marked.drop_last();
        let last = entries.len() - 1;
        lemma_unmarked(before, flags, entry);
        let earlier = unmarked(before, flags);
        let all = unmarked(entries, marked);
        if all.contains(entry) {
            let k = choose|k: int| 0 <= k < all.len() && all[k] == entry;
            if k < earlier.len() {
                assert(earlier[k] == entry);
                assert(earlier.contains(entry));
                let i = choose|i: int|
                    0 <= i < before.len() && #[trigger] before[i] == entry && !flags[i];
                assert(entries[i] == entry && !marked[i]);
            } else {
                assert(entries[last] == entry && !marked[last]);
            }
        }
        if exists|i: int| 0 <= i < entries.len() && #[trigger] entries[i] == entry && !marked[i] {
            let i = choose|i: int|
                0 <= i < entries.len() && #[trigger] entries[i] == entry && !marked[i];
            if i < last {
                assert(before[i] == entry && !flags[i]);
                let k = choose|k: int| 0 <= k < earlier.len() && earlier[k] == entry;
                assert(all[k] == entry);
            } else {
                assert(all[all.len() - 1] == entry);
            }
        }
    }
}

/// Once a file is to be shown anew, nothing that was presented of it is kept,
/// and everything that was presented of other files is.
pub proof fn law_presentations_of_a_file_are_forgotten<D, S>(
    cleared: &mut PresentationCache<D, S>,
    changed: &mut PresentationCache<D, S>,
    file_id: ReviewFileId,
    entry: EntryModel<Arc<CachedCanonicalPresentation>>,
)
    requires
        old(cleared).wf(),
        old(changed).wf(),
        call_ensures(PresentationCache::<D, S>::clear_canonical, (cleared, file_id), ()),
        call_ensures(PresentationCache::<D, S>::clear_file, (changed, file_id), ()),
    ensures
        final(cleared).canonical@.contains(entry) <==> old(cleared).canonical@.contains(entry) && !(
        id_chars(file_id.0) + ":"@).is_prefix_of(entry.key),
        final(changed).canonical@.contains(entry) <==> old(changed).canonical@.contains(entry) && !(
        id_chars(file_id.0) + ":"@).is_prefix_of(entry.key),
        final(cleared).documents == old(cleared).documents,
        final(cleared).structural == old(cleared).structural,
{
    let prefix = id_chars(file_id.0) + ":"@;
    lemma_forgotten(old(cleared).canonical@, prefix, entry);
    lemma_forgotten(old(changed).canonical@, prefix, entry);
    let a = Seq::new(
        old(cleared).canonical@.len(),
        |i: int| (id_chars(file_id.0) + ":"@).is_prefix_of(old(cleared).canonical@[i].key),
    );
    assert(a =~= named_by(old(cleared).canonical@, prefix));
    let b = Seq::new(
        old(changed).canonical@.len(),
        |i: int| (id_chars(file_id.0) + ":"@).is_prefix_of(old(changed).canonical@[i].key),
    );
    assert(b =~= named_by(old(changed).canonical@, prefix));
}

/// Which entries have a key that begins with a prefix.
spec fn named_by<V>(entries: Seq<EntryModel<V>>, prefix: Seq<char>) -> Seq<bool> {
    Seq::new(entries.len(), |i: int| prefix.is_prefix_of(entries[i].key))
}

proof fn lemma_forgotten<V>(entries: Seq<EntryModel<V>>, prefix: Seq<char>, entry: EntryModel<V>)
    ensures
        unmarked(entries, named_by(entries, prefix)).contains(entry) <==> entries.contains(entry)
            && !prefix.is_prefix_of(entry.key),
{
    let marked = named_by(entries, prefix);
    lemma_unmarked(entries, marked, entry);
    if unmarked(entries, marked).contains(entry) {
        let i = choose|i: int|
            0 <= i < entries.len() && #[trigger] entries[i] == entry && !marked[i];
        assert(entries[i] == entry);
    }
    if entries.contains(entry) && !prefix.is_prefix_of(entry.key) {
        let i = choose|i: int| 0 <= i < entries.len() && entries[i] == entry;
        assert(entries[i] == entry && !marked[i]);
    }
}

/// Folds that the review no longer has are forgotten, and no others are.
pub proof fn law_stale_folds_are_forgotten(
    state: &mut ReviewUiState,
    documents: Vec<ReviewDiffDocument>,
    ids: TextSet,
    changed: bool,
    id: Seq<char>,
)
    requires
        old(state).wf(),
        call_ensures(forget_stale_blocks, (state, &documents), changed),
        call_ensures(valid_full_file_deletion_block_ids, (&documents,), ids),
    ensures
        final(state)@.expanded_full_file_deletion_blocks.contains(id) <==> old(
            state,
        )@.expanded_full_file_deletion_blocks.contains(id) && ids@.contains(id),
        final(state)@.collapsed_full_file_addition_blocks.contains(id) <==> old(
            state,
        )@.collapsed_full_file_addition_blocks.contains(id) && ids@.contains(id),
        final(state)@.viewed_file_ids == old(state)@.viewed_file_ids,
        !changed ==> final(state)@ == old(state)@,
{
    if !changed {
        let valid = ids@;
        let before = old(state)@;
        assert(before.expanded_full_file_deletion_blocks.intersect(valid)
            =~= before.expanded_full_file_deletion_blocks);
        assert(before.collapsed_full_file_addition_blocks.intersect(valid)
            =~= before.collapsed_full_file_addition_blocks);
    }
}

proof fn lemma_other_jobs(jobs: Seq<PresentationJob>, file_id: ReviewFileId, job: PresentationJob)
    requires
        job.file_id != file_id,
    ensures
        jobs_without(jobs, file_id).contains(job) <==> jobs.contains(job),
    decreases jobs.len(),
{
    if jobs.len() > 0 {
        let before = jobs.drop_last();
        let last = jobs.len() - 1;
        lemma_other_jobs(before, file_id, job);
        let left = jobs_without(jobs, file_id);
        if jobs.contains(job) {
            let i = choose|i: int| 0 <= i < jobs.len() && jobs[i] == job;
            if i < last {
                assert(before[i] == job);
                assert(before.contains(job));
            }
        }
        if before.contains(job) {
            let i = choose|i: int| 0 <= i < before.len() && before[i] == job;
            assert(jobs[i] == job);
        }
        if jobs.last().file_id != file_id {
            let rest = jobs_without(before, file_id);
            assert(left == rest.push(jobs.last()));
            assert(left[left.len() - 1] == jobs.last());
            if rest.contains(job) {
                let i = choose|i: int| 0 <= i < rest.len() && rest[i] == job;
                assert(left[i] == job);
            }
            if left.contains(job) {
                let i = choose|i: int| 0 <= i < left.len() && left[i] == job;
                if i < rest.len() {
                    assert(rest[i] == job);
                } else {
                    assert(jobs[last] == job);
                }
            }
            if job == jobs.last() {
                assert(jobs[last] == job);
            }
        }
    } else {
        assert(jobs_without(jobs, file_id) =~= jobs);
    }
}

/// A job that is cancelled is gone, so that its ticket no longer counts, and
/// the jobs of other files stay.
pub proof fn law_cancelled_files_have_no_job(
    registry: &mut PresentationJobRegistry,
    file_id: ReviewFileId,
    other: PresentationJob,
)
    requires
        old(registry).wf(),
        call_ensures(PresentationJobRegistry::cancel_file, (registry, file_id), ()),
    ensures
        other.file_id != file_id ==> (final(registry)@.contains(other) <==> old(
            registry,
        )@.contains(other)),
        job_of(old(registry)@, file_id) matches Some(job) ==> !final(registry)@.contains(job),
{
    if other.file_id != file_id {
        lemma_other_jobs(old(registry)@, file_id, other);
    }
    old(registry).law_registry_keeps_its_bounds();
    lemma_no_job_is_left(old(registry)@, file_id);
}

proof fn lemma_no_job_is_left(jobs: Seq<PresentationJob>, file_id: ReviewFileId)
    requires
        forall|i: int, j: int|
            0 <= i < j < jobs.len() ==> (#[trigger] jobs[i]).file_id != (
            #[trigger] jobs[j]).file_id,
    ensures
        forall|i: int|
            0 <= i < jobs_without(jobs, file_id).len() ==> (#[trigger] jobs_without(
                jobs,
                file_id,
            )[i]).file_id != file_id,
        job_of(jobs, file_id) matches Some(job) ==> job.file_id == file_id,
    decreases jobs.len(),
{
    if jobs.len() > 0 {
        let before = jobs.drop_last();
        let last = jobs.len() - 1;
        assert forall|i: int, j: int| 0 <= i < j < before.len() implies (
        #[trigger] before[i]).file_id != (#[trigger] before[j]).file_id by {
            assert(jobs[i] == before[i] && jobs[j] == before[j]);
        }
        lemma_no_job_is_left(before, file_id);
        let left = jobs_without(jobs, file_id);
        assert forall|i: int| 0 <= i < left.len() implies (#[trigger] left[i]).file_id
            != file_id by {
            if jobs.last().file_id == file_id {
                assert(left[i] == jobs[i]);
                assert(jobs[i].file_id != jobs[last].file_id);
            } else if i < jobs_without(before, file_id).len() {
                assert(left[i] == jobs_without(before, file_id)[i]);
            }
        }
    }
}

} // verus!
