//! Which texts of the files of another host are read, and as what the files
//! enter a review.
use crate::document::{ReviewFile, ReviewFileStatus};
use crate::errors::DispatchError;
use crate::flows::{
    next_source_action, next_watch_action, SourceAction, SourceEvent, WatchAction, WatchStart,
};
use crate::ids::{id_chars, ReviewFileId, WorkspaceId};
use crate::remote::{
    accepted_files, all_paths, known_id, known_pairs, paths_of, plan_materialization,
    remote_connection_view, remote_placeholder_files, remote_previous_file_ids,
    remote_review_file_status, stands_for, tells_untracked, untracked_files, untracked_of,
    ConnectionState, KnownFile, Materialization, PathProblems, PlaceholderFile,
    RemoteCaptureBinding, RemoteCapturedFile, RemoteComparisonCapture, RemoteFileBinding,
    RemoteFileStatus, UntrackedSeed,
};
use crate::remote_review::{
    captures_but, plan_watch, tried, watch_key, watch_keys, watched, Attempt, RunModel, WatchPlan,
};
use crate::remote_source::RemoteRepositoryRef;
use crate::repositories::Repository;
use vstd::prelude::*;
use vstd::string::*;

verus! {

/// Whether a file was there before the change.
pub open spec fn was_there(status: RemoteFileStatus) -> bool {
    match status {
        RemoteFileStatus::Added | RemoteFileStatus::Untracked => false,
        RemoteFileStatus::Modified | RemoteFileStatus::Deleted | RemoteFileStatus::Renamed => true,
        RemoteFileStatus::Copied | RemoteFileStatus::ModeChanged => true,
        RemoteFileStatus::TypeChanged | RemoteFileStatus::Submodule => true,
    }
}

/// A text file is read on every side on which it exists: a deleted one on the
/// old side alone, an added one on the new side alone, any other on both. The
/// old side is read under the former path where there is one. So at least one
/// side is read.
pub proof fn law_every_side_of_a_text_file_is_read(
    id: ReviewFileId,
    binding: RemoteFileBinding,
    problems: PathProblems,
    result: Result<Materialization, DispatchError>,
)
    requires
        call_ensures(plan_materialization, (id, &binding, &problems), result),
        !binding.materialized,
        !binding.file.binary,
        !binding.file.lfs_pointer,
        binding.file.status != RemoteFileStatus::Submodule,
        problems.path is None,
        problems.old_path is None,
    ensures
        result matches Ok(Materialization::Read { file, old_path, new_path }) && {
            let former = match binding.file.old_path {
                Some(path) => path@,
                None => binding.file.path@,
            };
            &&& file.id == id
            &&& file.path@ == binding.file.path@
            &&& old_path is Some <==> was_there(binding.file.status)
            &&& old_path matches Some(path) ==> path@ == former
            &&& new_path is Some <==> binding.file.status != RemoteFileStatus::Deleted
            &&& new_path matches Some(path) ==> path@ == binding.file.path@
            &&& old_path is Some || new_path is Some
        },
{
}

/// A file enters the review as what it is: without text where it is binary or
/// stands for a large file, and otherwise as what became of it. A file that
/// nobody tracks counts as added.
pub proof fn law_files_enter_as_what_became_of_them(
    file: RemoteCapturedFile,
    status: ReviewFileStatus,
)
    requires
        call_ensures(remote_review_file_status, (&file,), status),
    ensures
        status == ReviewFileStatus::Binary <==> file.binary,
        status == ReviewFileStatus::LfsPointer <==> file.lfs_pointer && !file.binary,
        !file.binary && !file.lfs_pointer ==> {
            &&& status == ReviewFileStatus::Added <==> file.status == RemoteFileStatus::Added
                || file.status == RemoteFileStatus::Untracked
            &&& status == ReviewFileStatus::Modified <==> file.status == RemoteFileStatus::Modified
            &&& status == ReviewFileStatus::Deleted <==> file.status == RemoteFileStatus::Deleted
            &&& status == ReviewFileStatus::Renamed <==> file.status == RemoteFileStatus::Renamed
            &&& status == ReviewFileStatus::Copied <==> file.status == RemoteFileStatus::Copied
            &&& status == ReviewFileStatus::ModeChanged <==> file.status
                == RemoteFileStatus::ModeChanged
            &&& status == ReviewFileStatus::TypeChanged <==> file.status
                == RemoteFileStatus::TypeChanged
            &&& status == ReviewFileStatus::Submodule <==> file.status
                == RemoteFileStatus::Submodule
        },
{
}

/// Whether the paths of a captured file are in order.
pub open spec fn paths_are_in_order(file: RemoteCapturedFile, problems: PathProblems) -> bool {
    problems.path is None && (file.old_path is Some ==> problems.old_path is None)
}

/// How many of the first files have paths that are in order.
pub open spec fn files_in_order(
    files: Seq<RemoteCapturedFile>,
    problems: Seq<PathProblems>,
    count: nat,
) -> nat
    decreases count,
{
    if count == 0 {
        0
    } else {
        files_in_order(files, problems, (count - 1) as nat) + if paths_are_in_order(
            files[count - 1],
            problems[count - 1],
        ) {
            1nat
        } else {
            0
        }
    }
}

proof fn lemma_accepted_files(files: Seq<RemoteCapturedFile>, problems: Seq<PathProblems>, file: int)
    requires
        problems.len() >= files.len(),
        0 <= file < files.len(),
        paths_are_in_order(files[file], problems[file]),
    ensures
        files_in_order(files, problems, file as nat) < accepted_files(files, problems).len(),
        accepted_files(files, problems)[files_in_order(files, problems, file as nat) as int]
            == file,
    decreases files.len(),
{
    let last = files.len() - 1;
    let before = files.drop_last();
    lemma_accepted_count(before, problems);
    lemma_in_order_of_head(files, problems, file as nat);
    lemma_in_order_of_head(files, problems, last as nat);
    if file < last {
        assert(before[file] == files[file]);
        lemma_accepted_files(before, problems, file);
    }
}

proof fn lemma_in_order_of_head(
    files: Seq<RemoteCapturedFile>,
    problems: Seq<PathProblems>,
    count: nat,
)
    requires
        count < files.len(),
    ensures
        files_in_order(files.drop_last(), problems, count) == files_in_order(
            files,
            problems,
            count,
        ),
    decreases count,
{
    if count > 0 {
        lemma_in_order_of_head(files, problems, (count - 1) as nat);
        assert(files.drop_last()[count - 1] == files[count - 1]);
    }
}

proof fn lemma_accepted_count(files: Seq<RemoteCapturedFile>, problems: Seq<PathProblems>)
    requires
        problems.len() >= files.len(),
    ensures
        accepted_files(files, problems).len() == files_in_order(files, problems, files.len()),
    decreases files.len(),
{
    if files.len() > 0 {
        lemma_accepted_count(files.drop_last(), problems);
        lemma_in_order_of_head(files, problems, (files.len() - 1) as nat);
    }
}

/// Every captured file whose paths are in order enters the review, at the place
/// that the files before it leave it: under its path and former path, without
/// text so far, and as read already just where it has no text to read. No other
/// file enters.
pub proof fn law_every_captured_file_enters_the_review(
    files: Vec<RemoteCapturedFile>,
    problems: Vec<PathProblems>,
    known: Vec<KnownFile>,
    fresh: Vec<ReviewFileId>,
    placeholders: Vec<PlaceholderFile>,
    file: int,
)
    requires
        problems@.len() == files@.len(),
        fresh@.len() == files@.len(),
        call_ensures(
            remote_placeholder_files,
            (&files, &problems, &known, &fresh),
            placeholders,
        ),
        0 <= file < files@.len(),
        paths_are_in_order(files@[file], problems@[file]),
    ensures
        placeholders@.len() == files_in_order(files@, problems@, files@.len()),
        files_in_order(files@, problems@, file as nat) < placeholders@.len(),
        ({
            let shown = placeholders@[files_in_order(files@, problems@, file as nat) as int];
            let remote = files@[file];
            &&& shown.file.path@ == remote.path@
            &&& shown.file.old_path is Some <==> remote.old_path is Some
            &&& shown.file.old_path matches Some(path) ==> path@ == remote.old_path->0@
            &&& shown.old_text@.len() == 0 && shown.new_text@.len() == 0
            &&& shown.binding.file == remote
            &&& shown.binding.file_id@ == id_chars(shown.file.id.0)
            &&& shown.binding.materialized <==> remote.binary || remote.lfs_pointer || remote.status
                == RemoteFileStatus::Submodule
        }),
{
    lemma_accepted_count(files@, problems@);
    lemma_accepted_files(files@, problems@, file);
    let place = files_in_order(files@, problems@, file as nat) as int;
    assert(stands_for(
        placeholders@[place],
        accepted_files(files@, problems@)[place],
        files@,
        known@,
        fresh@,
    ));
}

/// Whether a file of a review had a path, now or before.
pub open spec fn had_path(file: ReviewFile, path: Seq<char>) -> bool {
    file.path@ == path || (file.old_path matches Some(former) && former@ == path)
}

/// Whether some file of a review had a path.
pub open spec fn some_file_had(files: Seq<ReviewFile>, path: Seq<char>) -> bool {
    exists|i: int| 0 <= i < files.len() && had_path(#[trigger] files[i], path)
}

/// Whether the last file of a review that had a path has an id.
pub open spec fn last_file_had(files: Seq<ReviewFile>, path: Seq<char>, id: ReviewFileId) -> bool {
    exists|i: int|
        0 <= i < files.len() && had_path(#[trigger] files[i], path) && files[i].id == id && forall|
            j: int,
        |
            i < j < files.len() ==> !had_path(#[trigger] files[j], path)
}

/// The id that the last of some entries with a path has.
pub open spec fn last_id(entries: Seq<(Seq<char>, ReviewFileId)>, path: Seq<char>) -> Option<
    ReviewFileId,
>
    decreases entries.len(),
{
    if entries.len() == 0 {
        None
    } else if entries.last().0 == path {
        Some(entries.last().1)
    } else {
        last_id(entries.drop_last(), path)
    }
}

proof fn lemma_known_id(known: Seq<KnownFile>, path: Seq<char>)
    ensures
        known_id(known, path) == last_id(known_pairs(known), path),
    decreases known.len(),
{
    let pairs = known_pairs(known);
    if known.len() > 0 {
        lemma_known_id(known.drop_last(), path);
        assert(pairs.last() == (known.last().path@, known.last().id));
        assert(pairs.drop_last() =~= known_pairs(known.drop_last()));
    }
}

proof fn lemma_last_id_of_both(
    a: Seq<(Seq<char>, ReviewFileId)>,
    b: Seq<(Seq<char>, ReviewFileId)>,
    path: Seq<char>,
)
    ensures
        last_id(a + b, path) == if last_id(b, path) is Some {
            last_id(b, path)
        } else {
            last_id(a, path)
        },
    decreases b.len(),
{
    if b.len() == 0 {
        assert(a + b =~= a);
    } else {
        lemma_last_id_of_both(a, b.drop_last(), path);
        assert((a + b).drop_last() =~= a + b.drop_last());
        assert((a + b).last() == b.last());
    }
}

proof fn lemma_own_id(file: ReviewFile, path: Seq<char>)
    ensures
        last_id(paths_of(file), path) == if had_path(file, path) {
            Some(file.id)
        } else {
            None
        },
{
    let own = paths_of(file);
    reveal_with_fuel(last_id, 3);
    if file.old_path is Some {
        assert(own.drop_last() =~= seq![(file.path@, file.id)]);
        assert(own.drop_last().drop_last() =~= Seq::<(Seq<char>, ReviewFileId)>::empty());
    } else {
        assert(own.drop_last() =~= Seq::<(Seq<char>, ReviewFileId)>::empty());
    }
}

proof fn lemma_last_id_of_files(files: Seq<ReviewFile>, path: Seq<char>)
    ensures
        match last_id(all_paths(files), path) {
            Some(id) => some_file_had(files, path) && last_file_had(files, path, id),
            None => !some_file_had(files, path),
        },
    decreases files.len(),
{
    if files.len() > 0 {
        let before = files.drop_last();
        let last = files.len() - 1;
        lemma_last_id_of_files(before, path);
        lemma_last_id_of_both(all_paths(before), paths_of(files.last()), path);
        lemma_own_id(files.last(), path);
        assert forall|i: int| 0 <= i < before.len() implies before[i] == #[trigger] files[i] by {}
        if had_path(files[last], path) {
            assert(last_file_had(files, path, files[last].id));
        } else if last_id(all_paths(before), path) is Some {
            let id = last_id(all_paths(before), path)->0;
            let i = choose|i: int|
                0 <= i < before.len() && had_path(#[trigger] before[i], path) && before[i].id == id
                    && forall|j: int|
                    i < j < before.len() ==> !had_path(#[trigger] before[j], path);
            assert(had_path(files[i], path));
            assert forall|j: int| i < j < files.len() implies !had_path(
                #[trigger] files[j],
                path,
            ) by {
                if j < last {
                    assert(before[j] == files[j]);
                }
            }
        }
    }
}

proof fn lemma_known_files(files: Seq<ReviewFile>, known: Seq<KnownFile>, path: Seq<char>)
    requires
        known_pairs(known) == all_paths(files),
    ensures
        match known_id(known, path) {
            Some(id) => some_file_had(files, path) && last_file_had(files, path, id),
            None => !some_file_had(files, path),
        },
{
    lemma_known_id(known, path);
    lemma_last_id_of_files(files, path);
}

/// A file keeps its id from one review to the next: where the last review had a
/// file with its path, now or before, its id is that of the last such file;
/// where it had none, but one with the path from which the file was renamed, it
/// is that one's. A file of which the last review knew no path gets the id that
/// was set aside for it.
pub proof fn law_files_keep_their_ids(
    previous: Vec<ReviewFile>,
    known: Vec<KnownFile>,
    files: Vec<RemoteCapturedFile>,
    problems: Vec<PathProblems>,
    fresh: Vec<ReviewFileId>,
    placeholders: Vec<PlaceholderFile>,
    file: int,
)
    requires
        call_ensures(remote_previous_file_ids, (&previous,), known),
        problems@.len() == files@.len(),
        fresh@.len() == files@.len(),
        call_ensures(
            remote_placeholder_files,
            (&files, &problems, &known, &fresh),
            placeholders,
        ),
        0 <= file < files@.len(),
        paths_are_in_order(files@[file], problems@[file]),
    ensures
        ({
            let id = placeholders@[files_in_order(files@, problems@, file as nat) as int].file.id;
            let path = files@[file].path@;
            &&& some_file_had(previous@, path) ==> last_file_had(previous@, path, id)
            &&& !some_file_had(previous@, path) ==> match files@[file].old_path {
                Some(former) => if some_file_had(previous@, former@) {
                    last_file_had(previous@, former@, id)
                } else {
                    id == fresh@[file]
                },
                None => id == fresh@[file],
            }
        }),
{
    lemma_accepted_count(files@, problems@);
    lemma_accepted_files(files@, problems@, file);
    let place = files_in_order(files@, problems@, file as nat) as int;
    assert(stands_for(
        placeholders@[place],
        accepted_files(files@, problems@)[place],
        files@,
        known@,
        fresh@,
    ));
    lemma_known_files(previous@, known@, files@[file].path@);
    if files@[file].old_path is Some {
        lemma_known_files(previous@, known@, files@[file].old_path->0@);
    }
}

proof fn lemma_untracked(files: Seq<RemoteCapturedFile>, file: int)
    requires
        0 <= file < files.len(),
        files[file].untracked,
    ensures
        exists|k: int| 0 <= k < untracked_of(files).len() && #[trigger] untracked_of(files)[k]
            == files[file],
    decreases files.len(),
{
    let before = files.drop_last();
    if file < files.len() - 1 {
        assert(before[file] == files[file]);
        lemma_untracked(before, file);
        let k = choose|k: int|
            0 <= k < untracked_of(before).len() && #[trigger] untracked_of(before)[k]
                == files[file];
        assert(untracked_of(files)[k] == files[file]);
    } else {
        assert(untracked_of(files)[untracked_of(files).len() - 1] == files[file]);
    }
}

proof fn lemma_only_untracked(files: Seq<RemoteCapturedFile>, k: int)
    requires
        0 <= k < untracked_of(files).len(),
    ensures
        exists|i: int|
            0 <= i < files.len() && (#[trigger] files[i]).untracked && files[i] == untracked_of(
                files,
            )[k],
    decreases files.len(),
{
    let before = files.drop_last();
    if k < untracked_of(before).len() {
        lemma_only_untracked(before, k);
        let i = choose|i: int|
            0 <= i < before.len() && (#[trigger] before[i]).untracked && before[i] == untracked_of(
                before,
            )[k];
        assert(files[i] == before[i]);
    } else {
        assert(files[files.len() - 1] == untracked_of(files)[k]);
    }
}

/// Whether an entry tells of a captured file that nobody tracks.
pub open spec fn is_told_by(file: RemoteCapturedFile, entry: UntrackedSeed) -> bool {
    &&& file.untracked
    &&& entry.path@ == file.path@
    &&& entry.binary == file.binary
    &&& file.captured_byte_len matches Some(length) ==> entry.byte_len == length
    &&& file.new_object_id matches Some(id) ==> entry.seed@ == id@
}

/// Whether an entry tells of one of some captured files.
pub open spec fn tells_of_one(entry: UntrackedSeed, files: Seq<RemoteCapturedFile>) -> bool {
    exists|i: int| 0 <= i < files.len() && is_told_by(#[trigger] files[i], entry)
}

/// Every captured file that nobody tracks is told, with its path, its length,
/// its content's name and whether it is binary, and no other file is.
pub proof fn law_untracked_files_are_told(
    capture: RemoteComparisonCapture,
    entries: Vec<UntrackedSeed>,
)
    requires
        call_ensures(untracked_files, (&capture,), entries),
    ensures
        forall|i: int|
            0 <= i < capture.files@.len() && (#[trigger] capture.files@[i]).untracked
                ==> exists|k: int|
                0 <= k < entries@.len() && is_told_by(capture.files@[i], #[trigger] entries@[k]),
        forall|k: int|
            0 <= k < entries@.len() ==> tells_of_one(#[trigger] entries@[k], capture.files@),
{
    let told = untracked_of(capture.files@);
    assert forall|i: int|
        0 <= i < capture.files@.len() && (#[trigger] capture.files@[i]).untracked implies exists|
        k: int,
    |
        0 <= k < entries@.len() && is_told_by(capture.files@[i], #[trigger] entries@[k]) by {
        lemma_untracked(capture.files@, i);
        let k = choose|k: int| 0 <= k < told.len() && #[trigger] told[k] == capture.files@[i];
        assert(tells_untracked(entries@[k], told[k], capture.capture_id@));
    }
    assert forall|k: int| 0 <= k < entries@.len() implies tells_of_one(
        #[trigger] entries@[k],
        capture.files@,
    ) by {
        lemma_only_untracked(capture.files@, k);
        assert(tells_untracked(entries@[k], told[k], capture.capture_id@));
        let i = choose|i: int|
            0 <= i < capture.files@.len() && (#[trigger] capture.files@[i]).untracked
                && capture.files@[i] == told[k];
        assert(is_told_by(capture.files@[i], entries@[k]));
    }
}

/// The place of a reference, as one text.
pub open spec fn place_text(reference: RemoteRepositoryRef) -> Seq<char> {
    reference.workspace_root@ + seq![':'] + reference.relative_path@
}

proof fn lemma_watched_count(captures: Seq<RemoteCaptureBinding>)
    ensures
        watched(captures).len() <= captures.len(),
    decreases captures.len(),
{
    if captures.len() > 0 {
        lemma_watched_count(captures.drop_last());
    }
}

proof fn lemma_every_capture_is_watched(captures: Seq<RemoteCaptureBinding>, index: int)
    requires
        captures.len() <= 1024,
        0 <= index < captures.len(),
    ensures
        exists|k: int|
            0 <= k < watched(captures).len() && place_text(#[trigger] watched(captures)[k])
                == place_text(captures[index].capture.repository),
    decreases captures.len(),
{
    reveal_strlit(":");
    assert(":"@ =~= seq![':']);
    let before = captures.drop_last();
    let earlier = watched(before);
    let all = watched(captures);
    lemma_watched_count(before);
    let reference = captures.last().capture.repository;
    if index < captures.len() - 1 {
        assert(before[index] == captures[index]);
        lemma_every_capture_is_watched(before, index);
        let k = choose|k: int|
            0 <= k < earlier.len() && place_text(#[trigger] earlier[k]) == place_text(
                captures[index].capture.repository,
            );
        assert(all[k] == earlier[k]);
    } else if watch_keys(earlier).contains(watch_key(reference)) {
        let k = choose|k: int|
            0 <= k < watch_keys(earlier).len() && watch_keys(earlier)[k] == watch_key(reference);
        assert(watch_keys(earlier)[k] == watch_key(earlier[k]));
        assert(place_text(all[k]) == place_text(reference));
    } else {
        assert(all == earlier.push(reference));
        assert(all[all.len() - 1] == reference);
    }
}

proof fn lemma_watched_is_captured(captures: Seq<RemoteCaptureBinding>, k: int)
    requires
        0 <= k < watched(captures).len(),
    ensures
        exists|i: int|
            0 <= i < captures.len() && (#[trigger] captures[i]).capture.repository == watched(
                captures,
            )[k],
    decreases captures.len(),
{
    let before = captures.drop_last();
    if k < watched(before).len() {
        lemma_watched_is_captured(before, k);
        let i = choose|i: int|
            0 <= i < before.len() && (#[trigger] before[i]).capture.repository == watched(
                before,
            )[k];
        assert(captures[i] == before[i]);
    } else {
        assert(captures[captures.len() - 1].capture.repository == watched(captures)[k]);
    }
}

/// As long as there are not too many of them, every captured repository is
/// watched, and nothing else is; where none was captured there is nothing to
/// watch, which fails a caller that waits for the watcher.
pub proof fn law_every_captured_repository_is_watched(
    workspace_id: WorkspaceId,
    captures: Vec<RemoteCaptureBinding>,
    generation: u64,
    wait: bool,
    plan: WatchPlan,
)
    requires
        call_ensures(plan_watch, (workspace_id, &captures, generation, wait), plan),
        captures@.len() <= 1024,
    ensures
        captures@.len() > 0 <==> plan is Watch,
        captures@.len() == 0 && wait <==> plan is Refuse,
        plan matches WatchPlan::Watch { repositories, generation: number, .. } ==> {
            &&& forall|i: int|
                0 <= i < captures@.len() ==> exists|k: int|
                    0 <= k < repositories@.len() && place_text(#[trigger] repositories@[k])
                        == place_text((#[trigger] captures@[i]).capture.repository)
            &&& forall|k: int|
                0 <= k < repositories@.len() ==> exists|i: int|
                    0 <= i < captures@.len() && (#[trigger] captures@[i]).capture.repository
                        == #[trigger] repositories@[k]
            &&& number > 0
            &&& generation > 0 ==> number == generation
        },
{
    if captures@.len() > 0 {
        lemma_every_capture_is_watched(captures@, 0);
    }
    if plan is Watch {
        let repositories = plan->repositories@;
        assert(repositories == watched(captures@));
        assert forall|i: int| 0 <= i < captures@.len() implies exists|k: int|
            0 <= k < repositories.len() && place_text(#[trigger] repositories[k]) == place_text(
                (#[trigger] captures@[i]).capture.repository,
            ) by {
            lemma_every_capture_is_watched(captures@, i);
        }
        assert forall|k: int| 0 <= k < repositories.len() implies exists|i: int|
            0 <= i < captures@.len() && (#[trigger] captures@[i]).capture.repository
                == #[trigger] repositories[k] by {
            lemma_watched_is_captured(captures@, k);
        }
    }
}

proof fn lemma_other_captures(captures: Seq<RemoteCaptureBinding>, repository_id: Seq<char>)
    ensures
        forall|binding: RemoteCaptureBinding| #[trigger]
            captures_but(captures, repository_id).contains(binding) <==> captures.contains(binding)
                && binding.repository_id@ != repository_id,
    decreases captures.len(),
{
    let kept = captures_but(captures, repository_id);
    if captures.len() > 0 {
        let first = captures[0];
        let tail = captures.drop_first();
        let rest = captures_but(tail, repository_id);
        lemma_other_captures(tail, repository_id);
        assert forall|binding: RemoteCaptureBinding| #[trigger]
            kept.contains(binding) <==> captures.contains(binding) && binding.repository_id@
                != repository_id by {
            assert(captures =~= seq![first] + tail);
            if captures.contains(binding) {
                let i = choose|i: int| 0 <= i < captures.len() && captures[i] == binding;
                if i > 0 {
                    assert(tail[i - 1] == binding);
                    assert(tail.contains(binding));
                }
            }
            if tail.contains(binding) {
                let i = choose|i: int| 0 <= i < tail.len() && tail[i] == binding;
                assert(captures[i + 1] == binding);
            }
            if first.repository_id@ != repository_id {
                assert(kept == seq![first] + rest);
                assert(kept[0] == first);
                if kept.contains(binding) {
                    let i = choose|i: int| 0 <= i < kept.len() && kept[i] == binding;
                    if i > 0 {
                        assert(rest[i - 1] == binding);
                    } else {
                        assert(captures[0] == binding);
                    }
                }
                if rest.contains(binding) {
                    let i = choose|i: int| 0 <= i < rest.len() && rest[i] == binding;
                    assert(kept[i + 1] == binding);
                }
            }
        }
    } else {
        assert(kept =~= captures);
    }
}

/// A capture of a repository takes the place of the former one and of no other:
/// the captures of every other repository stay. The repository is stored with
/// what it was compared with and without a former failure, and the run counts
/// as one that succeeded.
pub proof fn law_captures_replace_those_of_their_repository(
    run: RunModel,
    repository: Repository,
    merge_base_sha: String,
    binding: RemoteCaptureBinding,
    other: RemoteCaptureBinding,
)
    requires
        binding.repository_id@ == id_chars(repository.id.0),
    ensures
        ({
            let after = tried(run, (Attempt::Captured { repository, merge_base_sha, binding }));
            &&& after.captures.contains(other) <==> other == binding || (run.captures.contains(
                other,
            ) && other.repository_id@ != id_chars(repository.id.0))
            &&& after.captures.last() == binding
            &&& after.staged.len() == run.staged.len() + 1
            &&& after.staged.last().id == repository.id
            &&& after.staged.last().last_resolved_base_sha == Some(merge_base_sha)
            &&& after.staged.last().discovery_error is None
            &&& after.staged.last().enabled == repository.enabled
            &&& after.staged.drop_last() == run.staged
            &&& after.succeeded
            &&& after.first_error == run.first_error
        }),
{
    let after = tried(run, (Attempt::Captured { repository, merge_base_sha, binding }));
    let kept = captures_but(run.captures, id_chars(repository.id.0));
    lemma_other_captures(run.captures, id_chars(repository.id.0));
    assert(after.captures == kept.push(binding));
    assert(after.captures[after.captures.len() - 1] == binding);
    if after.captures.contains(other) {
        let i = choose|i: int| 0 <= i < after.captures.len() && after.captures[i] == other;
        if i < kept.len() {
            assert(kept[i] == other);
            assert(kept.contains(other));
        }
    }
    if kept.contains(other) {
        let i = choose|i: int| 0 <= i < kept.len() && kept[i] == other;
        assert(after.captures[i] == other);
    }
    assert(after.staged.drop_last() =~= run.staged);
}

/// A capture that failed leaves every capture of the run as it is, and is noted
/// with its repository. The first failure is the one that is told.
pub proof fn law_failed_captures_are_noted(run: RunModel, repository: Repository, error: String)
    ensures
        ({
            let after = tried(run, (Attempt::Failed { repository, error }));
            &&& after.captures == run.captures
            &&& after.succeeded == run.succeeded
            &&& after.staged.drop_last() == run.staged
            &&& after.staged.last().id == repository.id
            &&& after.staged.last().discovery_error == Some(error)
            &&& after.staged.last().last_resolved_base_sha == repository.last_resolved_base_sha
            &&& run.first_error is Some ==> after.first_error == run.first_error
            &&& run.first_error is None ==> after.first_error == Some(error@)
        }),
{
    let after = tried(run, (Attempt::Failed { repository, error }));
    assert(after.staged.drop_last() =~= run.staged);
}

/// A document is stored only after every text that there is was read, and in
/// order: the old text first.
pub proof fn law_no_text_is_left_unread(
    event: SourceEvent,
    has_old: bool,
    has_new: bool,
    action: SourceAction,
)
    requires
        call_ensures(next_source_action, (event, has_old, has_new), action),
    ensures
        event == SourceEvent::Connected && has_old ==> action == SourceAction::ReadOld,
        event == SourceEvent::Connected && !has_old && has_new ==> action == SourceAction::ReadNew,
        event == SourceEvent::OldRead && has_new ==> action == SourceAction::ReadNew,
        event == SourceEvent::NewRead ==> action == SourceAction::Store,
        action == SourceAction::Store ==> event == SourceEvent::NewRead || (!has_new && (event
            == SourceEvent::OldRead || (event == SourceEvent::Connected && !has_old))),
        action == SourceAction::RecordRead <==> event == SourceEvent::Stored,
        action == SourceAction::MarkStaleAndFail <==> event == SourceEvent::NotRead || event
            == SourceEvent::NotConnected,
        action == SourceAction::RecordWithoutText <==> event == SourceEvent::WithoutText,
        action == SourceAction::ClearCaches <==> event == SourceEvent::Recorded,
        action == SourceAction::Connect <==> event == SourceEvent::Missing,
        action == SourceAction::Finish <==> event == SourceEvent::Known,
{
}

/// A former watcher is stopped before anything else. A caller that waits is
/// held until the watcher tells that it watches, and where it does not come to
/// that, changes are offered before the caller is told of the failure.
pub proof fn law_waiting_callers_are_not_left_without_changes(
    event: WatchStart,
    wait: bool,
    action: WatchAction,
)
    requires
        call_ensures(next_watch_action, (event, wait), action),
    ensures
        action == WatchAction::StopFormer <==> event == WatchStart::Asked,
        action == WatchAction::Start <==> event == WatchStart::Planned,
        action == WatchAction::AwaitReadiness <==> event == WatchStart::Started && wait,
        wait ==> (action == WatchAction::Finish <==> event == WatchStart::Ready),
        wait ==> action != WatchAction::Fail,
        wait && (event == WatchStart::NothingToWatch || event == WatchStart::NotStarted) ==> action
            == WatchAction::MarkAvailableAndFail,
        event == WatchStart::NotReady ==> action == WatchAction::StopMarkAvailableAndFail,
        !wait && (event == WatchStart::NothingToWatch || event == WatchStart::Started) ==> action
            == WatchAction::Finish,
        !wait && event == WatchStart::NotStarted ==> action == WatchAction::Fail,
{
}

/// A connection is shown as one just where the companion answered, and as being
/// made just while it is; a broken one is shown with the last error on record,
/// and without one with what broke it.
pub proof fn law_connections_are_shown_as_they_are(
    state: ConnectionState,
    last_error: Option<String>,
    view: (String, String),
)
    requires
        call_ensures(remote_connection_view, (&state, last_error), view),
    ensures
        view.0@ == "connected"@ <==> state is Connected,
        view.0@ == "connecting"@ <==> state is Connecting,
        state is Absent || state is Unavailable || state is Disconnected <==> view.0@ == "offline"@,
        state is Disconnected && last_error is Some ==> view.1@ == last_error->0@,
        state matches ConnectionState::Disconnected { detail } ==> last_error is None ==> view.1@
            == detail@,
{
    reveal_strlit("connected");
    reveal_strlit("connecting");
    reveal_strlit("offline");
    assert("connected"@.len() == 9);
    assert("connecting"@.len() == 10);
    assert("offline"@.len() == 7);
}

} // verus!
