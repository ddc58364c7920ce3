//! What choosing, rebasing, capturing and looking at repositories does to each
//! of them.
use crate::errors::DispatchError;
use crate::ids::{id_chars, parsed_id, RepositoryId};
use crate::repositories::{
    apply_baselines, apply_repository_base, baseline_plan, chosen, comma_joined, counted,
    failure_of, id_problem, local_capture_outcomes, local_refresh_outcome, named_repository,
    names_id, names_repository, noted, repository_setup_view, repository_view,
    reset_repository_base_overrides, selected_repositories, set_repository_inclusion, staged_count,
    status_summary, success_of, take_readings, unstaged_count, untracked_count, with_base,
    with_inclusion, with_outcome, CaptureFailure, CaptureSuccess, Repository, RepositoryComparison,
    RepositorySetupLive, RepositoryView, ResolvedBaseline, SetupReadings, SourceKind,
    WorkingTreeChange,
};
use crate::text::decimal;
use crate::views::{LocalRefreshOutcomeView, RepositoryBaseInput, RepositorySetupView};
use crate::workspace_lists::{how_many, lemma_how_many};
use vstd::prelude::*;
use vstd::string::*;

verus! {

/// Whether one of some texts names a repository.
pub open spec fn is_named_by(ids: Seq<String>, repository: Repository) -> bool {
    exists|k: int| 0 <= k < ids.len() && parsed_id(#[trigger] ids[k]@) == Some(repository.id.0)
}

proof fn lemma_chosen(repositories: Seq<Repository>, ids: Seq<String>, repository: Repository)
    ensures
        chosen(repositories, ids).contains(repository) <==> repositories.contains(repository)
            && is_named_by(ids, repository),
    decreases repositories.len(),
{
    assert(is_named_by(ids, repository) == names_id(ids, repository.id.0));
    if repositories.len() > 0 {
        let shorter = repositories.drop_last();
        let before = chosen(shorter, ids);
        let all = chosen(repositories, ids);
        lemma_chosen(shorter, ids, repository);
        if repositories.contains(repository) && is_named_by(ids, repository) {
            let k = choose|k: int| 0 <= k < repositories.len() && repositories[k] == repository;
            if k < shorter.len() {
                assert(shorter[k] == repository);
                let m = choose|m: int| 0 <= m < before.len() && before[m] == repository;
                assert(all[m] == repository);
            } else {
                assert(all[all.len() - 1] == repository);
            }
        }
        if all.contains(repository) {
            let m = choose|m: int| 0 <= m < all.len() && all[m] == repository;
            if m < before.len() {
                assert(before[m] == repository);
                let k = choose|k: int| 0 <= k < shorter.len() && shorter[k] == repository;
                assert(repositories[k] == repository);
            } else {
                assert(repositories[repositories.len() - 1] == repository);
            }
        }
    }
}

/// What is chosen are the repositories of the workspace that were named: all of
/// them, as they are, and no others; and as many as were named.
pub proof fn law_named_repositories_are_chosen(
    repositories: Vec<Repository>,
    ids: Vec<String>,
    result: Result<Vec<Repository>, DispatchError>,
    repository: Repository,
)
    requires
        call_ensures(selected_repositories, (&repositories, &ids), result),
        result is Ok,
    ensures
        result->Ok_0@.contains(repository) <==> repositories@.contains(repository) && is_named_by(
            ids@,
            repository,
        ),
        result->Ok_0@.len() == ids@.len(),
        1 <= ids@.len() <= 1000,
{
    lemma_chosen(repositories@, ids@, repository);
}

proof fn lemma_chosen_one(repositories: Seq<Repository>, ids: Seq<String>, index: int)
    requires
        0 <= index < repositories.len(),
        names_id(ids, repositories[index].id.0),
        forall|j: int|
            0 <= j < repositories.len() && j != index ==> !names_id(
                ids,
                (#[trigger] repositories[j]).id.0,
            ),
    ensures
        chosen(repositories, ids) == seq![repositories[index]],
    decreases repositories.len(),
{
    let shorter = repositories.drop_last();
    if index < shorter.len() {
        assert(!names_id(ids, repositories[repositories.len() - 1].id.0));
        lemma_chosen_one(shorter, ids, index);
    } else {
        lemma_chosen_none(shorter, ids);
        assert(chosen(repositories, ids) =~= seq![repositories[index]]);
    }
}

proof fn lemma_chosen_none(repositories: Seq<Repository>, ids: Seq<String>)
    requires
        forall|j: int|
            0 <= j < repositories.len() ==> !names_id(ids, (#[trigger] repositories[j]).id.0),
    ensures
        chosen(repositories, ids) == Seq::<Repository>::empty(),
    decreases repositories.len(),
{
    if repositories.len() > 0 {
        assert(!names_id(ids, repositories[repositories.len() - 1].id.0));
        lemma_chosen_none(repositories.drop_last(), ids);
    }
}

/// A repository of the workspace can be chosen by its id alone; an id that no
/// repository of the workspace has chooses nothing.
pub proof fn law_a_repository_is_chosen_by_its_id(
    repositories: Vec<Repository>,
    ids: Vec<String>,
    result: Result<Vec<Repository>, DispatchError>,
    index: int,
)
    requires
        call_ensures(selected_repositories, (&repositories, &ids), result),
        ids@.len() == 1,
        forall|i: int, j: int|
            0 <= i < j < repositories@.len() ==> (#[trigger] repositories@[i]).id != (
            #[trigger] repositories@[j]).id,
    ensures
        0 <= index < repositories@.len() && parsed_id(ids@[0]@) == Some(repositories@[index].id.0)
            ==> (result matches Ok(selected) && selected@ == seq![repositories@[index]]),
        (forall|j: int|
            0 <= j < repositories@.len() ==> parsed_id(ids@[0]@) != Some(
                (#[trigger] repositories@[j]).id.0,
            )) ==> result is Err,
{
    assert(ids@.drop_last() =~= Seq::<String>::empty());
    assert(id_problem(ids@.drop_last()) is None);
    if 0 <= index < repositories@.len() && parsed_id(ids@[0]@) == Some(repositories@[index].id.0) {
        assert(names_id(ids@, repositories@[index].id.0));
        assert forall|j: int| 0 <= j < repositories@.len() && j != index implies !names_id(
            ids@,
            (#[trigger] repositories@[j]).id.0,
        ) by {
            assert(repositories@[j].id != repositories@[index].id);
        }
        lemma_chosen_one(repositories@, ids@, index);
    }
    if forall|j: int|
        0 <= j < repositories@.len() ==> parsed_id(ids@[0]@) != Some(
            (#[trigger] repositories@[j]).id.0,
        ) {
        assert forall|j: int| 0 <= j < repositories@.len() implies !names_id(
            ids@,
            (#[trigger] repositories@[j]).id.0,
        ) by {}
        lemma_chosen_none(repositories@, ids@);
    }
}

/// Including or leaving out repositories changes that of the named ones, and
/// nothing else of them.
pub proof fn law_inclusion_changes_nothing_else(
    source: SourceKind,
    repositories: Vec<Repository>,
    ids: Vec<String>,
    enabled: bool,
    result: Result<Vec<Repository>, DispatchError>,
    k: int,
)
    requires
        call_ensures(set_repository_inclusion, (source, &repositories, &ids, enabled), result),
    ensures
        source != SourceKind::Local ==> result is Err,
        result matches Ok(updated) && 0 <= k < updated@.len() ==> {
            let after = result->Ok_0@[k];
            &&& after.enabled == enabled
            &&& exists|i: int|
                0 <= i < repositories@.len() && after == (Repository {
                    enabled,
                    ..(#[trigger] repositories@[i])
                }) && is_named_by(ids@, repositories@[i])
        },
        result matches Ok(updated) ==> updated@.len() == ids@.len(),
{
    if result is Ok {
        let selected = chosen(repositories@, ids@);
        let updated = result->Ok_0@;
        assert(updated.len() == selected.len());
        if 0 <= k < updated.len() {
            lemma_chosen(repositories@, ids@, selected[k]);
            assert(selected.contains(selected[k]));
            let i = choose|i: int|
                0 <= i < repositories@.len() && repositories@[i] == selected[k];
            assert(updated[k] == with_inclusion(selected[k], enabled));
            assert(updated[k] == (Repository { enabled, ..repositories@[i] }));
        }
    }
}

/// A base of their own is given to the named repositories alone, and forgets
/// what failed with the former base; taking it away leaves them to the base of
/// the workspace.
pub proof fn law_bases_are_given_to_the_named_repositories(
    source: SourceKind,
    repositories: Vec<Repository>,
    ids: Vec<String>,
    base: &str,
    given: Result<Vec<Repository>, DispatchError>,
    taken: Result<Vec<Repository>, DispatchError>,
    k: int,
)
    requires
        call_ensures(apply_repository_base, (source, &repositories, &ids, base, None), given),
        call_ensures(reset_repository_base_overrides, (source, &repositories, &ids), taken),
        given is Ok,
        0 <= k < given->Ok_0@.len(),
    ensures
        taken is Ok,
        taken->Ok_0@.len() == given->Ok_0@.len(),
        given->Ok_0@[k].base_override matches Some(reference) && reference@ == base@,
        taken->Ok_0@[k].base_override is None,
        given->Ok_0@[k].comparison_error is None,
        given->Ok_0@[k].id == taken->Ok_0@[k].id,
        exists|i: int|
            0 <= i < repositories@.len() && (#[trigger] repositories@[i]).id
                == given->Ok_0@[k].id && is_named_by(ids@, repositories@[i])
                && given->Ok_0@[k].enabled == repositories@[i].enabled
                && given->Ok_0@[k].current_branch == repositories@[i].current_branch
                && given->Ok_0@[k].relative_path == repositories@[i].relative_path,
{
    let selected = chosen(repositories@, ids@);
    let reference = choose|reference: String|
        #![trigger reference@]
        reference@ == base@ && given->Ok_0@ == selected.map_values(
            |repository: Repository| with_base(repository, Some(reference)),
        );
    assert(given->Ok_0@[k] == with_base(selected[k], Some(reference)));
    assert(taken->Ok_0@[k] == with_base(selected[k], None));
    lemma_chosen(repositories@, ids@, selected[k]);
    assert(selected.contains(selected[k]));
    let i = choose|i: int| 0 <= i < repositories@.len() && repositories@[i] == selected[k];
    assert(repositories@[i].id == given->Ok_0@[k].id);
}

proof fn lemma_named(input: RepositoryBaseInput, repositories: Seq<Repository>, index: int)
    requires
        0 <= index < repositories.len(),
        names_repository(input, repositories[index]),
        forall|j: int| 0 <= j < index ==> !names_repository(input, #[trigger] repositories[j]),
    ensures
        named_repository(input, repositories) == Some(repositories[index]),
    decreases index,
{
    if index > 0 {
        let rest = repositories.drop_first();
        assert(!names_repository(input, repositories[0]));
        assert(rest[index - 1] == repositories[index]);
        assert forall|j: int| 0 <= j < index - 1 implies !names_repository(
            input,
            #[trigger] rest[j],
        ) by {
            assert(rest[j] == repositories[j + 1]);
        }
        lemma_named(input, rest, index - 1);
    }
}

proof fn lemma_plan(
    entries: Seq<RepositoryBaseInput>,
    problems: Seq<Option<String>>,
    repositories: Seq<Repository>,
    k: int,
)
    requires
        0 <= k < entries.len(),
        baseline_plan(entries, problems, repositories).1 is None,
    ensures
        baseline_plan(entries, problems, repositories).0.len() == entries.len(),
        named_repository(entries[k], repositories) matches Some(repository) && baseline_plan(
            entries,
            problems,
            repositories,
        ).0[k] == (Repository { base_override: entries[k].base, ..repository }),
    decreases entries.len(),
{
    let shorter = entries.drop_last();
    if k < shorter.len() {
        assert(shorter[k] == entries[k]);
        lemma_plan(shorter, problems, repositories, k);
    } else if shorter.len() > 0 {
        lemma_plan(shorter, problems, repositories, 0);
    } else {
        assert(baseline_plan(shorter, problems, repositories).0.len() == 0);
    }
}

/// Each requested base is stored with the repository that it names by id or by
/// path, in order, as long as none is refused.
pub proof fn law_requested_bases_are_stored(
    entries: Vec<RepositoryBaseInput>,
    problems: Vec<Option<String>>,
    repositories: Vec<Repository>,
    plan: (Vec<Repository>, Option<DispatchError>),
    k: int,
    index: int,
)
    requires
        problems@.len() == entries@.len(),
        call_ensures(apply_baselines, (&entries, &problems, &repositories), plan),
        plan.1 is None,
        0 <= k < entries@.len(),
        0 <= index < repositories@.len(),
        entries@[k].repository_id matches Some(id) && id@ == id_chars(repositories@[index].id.0),
        entries@[k].repository_path is None,
        entries@[k].relative_path is None,
        forall|j: int|
            0 <= j < index ==> id_chars((#[trigger] repositories@[j]).id.0) != id_chars(
                repositories@[index].id.0,
            ),
    ensures
        plan.0@.len() == entries@.len(),
        plan.0@[k] == (Repository { base_override: entries@[k].base, ..repositories@[index] }),
{
    lemma_plan(entries@, problems@, repositories@, k);
    lemma_named(entries@[k], repositories@, index);
}

/// A repository is shown with the base that it was compared with, and before
/// that with its own base, or else with that of the workspace.
pub proof fn law_repositories_are_shown_with_their_base(
    repository: Repository,
    comparison: RepositoryComparison,
    default_base: &str,
    fresh: RepositoryView,
    captured: RepositoryView,
)
    requires
        call_ensures(repository_view, (&repository, None, default_base), fresh),
        call_ensures(repository_view, (&repository, Some(&comparison), default_base), captured),
    ensures
        fresh.base@ == match repository.base_override {
            Some(base) => base@,
            None => default_base@,
        },
        captured.base@ == comparison.requested_base@,
        captured.merge_base@ == comparison.merge_base_sha@,
        comparison.head_sha matches Some(sha) ==> captured.head@ == sha@,
        fresh.is_override <==> repository.base_override is Some,
        fresh.id@ == id_chars(repository.id.0) && captured.id@ == id_chars(repository.id.0),
        fresh.path@ == repository.relative_path@ && captured.path@ == repository.relative_path@,
        fresh.branch@ == captured.branch@,
        fresh.comparison_options is None && captured.comparison_options is Some,
{
}

proof fn lemma_counts(changes: Seq<WorkingTreeChange>)
    ensures
        staged_count(changes) == how_many(staged_at(changes), changes.len()),
        unstaged_count(changes) == how_many(unstaged_at(changes), changes.len()),
        untracked_count(changes) == how_many(untracked_at(changes), changes.len()),
    decreases changes.len(),
{
    if changes.len() > 0 {
        let shorter = changes.drop_last();
        lemma_counts(shorter);
        lemma_how_many(staged_at(shorter), staged_at(changes), shorter.len());
        lemma_how_many(unstaged_at(shorter), unstaged_at(changes), shorter.len());
        lemma_how_many(untracked_at(shorter), untracked_at(changes), shorter.len());
    }
}

/// Which changes are staged.
pub open spec fn staged_at(changes: Seq<WorkingTreeChange>) -> spec_fn(int) -> bool {
    |i: int| changes[i].index_status != ' ' && changes[i].index_status != '?'
}

/// Which changes are not staged.
pub open spec fn unstaged_at(changes: Seq<WorkingTreeChange>) -> spec_fn(int) -> bool {
    |i: int| changes[i].worktree_status != ' ' && changes[i].worktree_status != '?'
}

/// Which changes are of files that Git does not know.
pub open spec fn untracked_at(changes: Seq<WorkingTreeChange>) -> spec_fn(int) -> bool {
    |i: int| changes[i].untracked
}

/// A working tree is told to be clean where nothing changed; else it is told
/// how many changes are staged, not staged and unknown to Git.
pub proof fn law_working_trees_are_told_by_their_changes(
    changes: Vec<WorkingTreeChange>,
    summary: String,
)
    requires
        call_ensures(status_summary, (&changes,), summary),
    ensures
        summary@ == "Clean"@ <==> changes@.len() == 0,
        ({
            let staged = how_many(staged_at(changes@), changes@.len());
            let unstaged = how_many(unstaged_at(changes@), changes@.len());
            let untracked = how_many(untracked_at(changes@), changes@.len());
            &&& staged > 0 && unstaged > 0 && untracked > 0 ==> summary@ == "Dirty: "@ + (decimal(
                staged,
            ) + " staged"@ + ", "@ + (decimal(unstaged) + " unstaged"@) + ", "@ + (decimal(
                untracked,
            ) + " untracked"@))
            &&& staged > 0 && unstaged == 0 && untracked == 0 ==> summary@ == "Dirty: "@ + (decimal(
                staged,
            ) + " staged"@)
            &&& staged == 0 && unstaged > 0 && untracked == 0 ==> summary@ == "Dirty: "@ + (decimal(
                unstaged,
            ) + " unstaged"@)
            &&& staged == 0 && unstaged == 0 && untracked > 0 ==> summary@ == "Dirty: "@ + (decimal(
                untracked,
            ) + " untracked"@)
        }),
{
    lemma_counts(changes@);
    reveal_strlit("Clean");
    reveal_strlit("Dirty: ");
    assert("Clean"@[0] == 'C');
    if changes@.len() > 0 {
        assert("Dirty: "@.len() > 0);
        assert(summary@[0] == 'D');
    }
    let staged = staged_count(changes@);
    let unstaged = unstaged_count(changes@);
    let untracked = untracked_count(changes@);
    let segments = counted(staged, " staged"@) + counted(unstaged, " unstaged"@) + counted(
        untracked,
        " untracked"@,
    );
    let a = decimal(staged) + " staged"@;
    let b = decimal(unstaged) + " unstaged"@;
    let c = decimal(untracked) + " untracked"@;
    if staged > 0 && unstaged > 0 && untracked > 0 {
        assert(segments =~= seq![a, b, c]);
        assert(segments.drop_last() =~= seq![a, b]);
        assert(seq![a, b].drop_last() =~= seq![a]);
        assert(comma_joined(seq![a]) == a);
        assert(comma_joined(seq![a, b]) == a + ", "@ + b);
        assert(comma_joined(segments) == a + ", "@ + b + ", "@ + c);
    } else if staged > 0 && unstaged == 0 && untracked == 0 {
        assert(segments =~= seq![a]);
    } else if staged == 0 && unstaged > 0 && untracked == 0 {
        assert(segments =~= seq![b]);
    } else if staged == 0 && unstaged == 0 && untracked > 0 {
        assert(segments =~= seq![c]);
    }
}

/// Looking at a repository notes what was found of it, and an error wherever
/// something could not be found; its choices stay as they are.
pub proof fn law_looking_at_a_repository_keeps_its_choices(
    repository: Repository,
    readings: SetupReadings,
    result: (Repository, RepositorySetupLive),
)
    requires
        call_ensures(take_readings, (repository, readings), result),
    ensures
        result.0.id == repository.id,
        result.0.enabled == repository.enabled,
        result.0.base_override == repository.base_override,
        result.0.relative_path == repository.relative_path,
        readings.head matches Ok(head) ==> result.0.current_branch == head,
        readings.head is Err ==> result.0.current_branch == repository.current_branch,
        readings.comparison matches Ok(reading) ==> result.0.last_resolved_base_sha == Some(
            reading.base_tip_sha,
        ) && result.0.comparison_error is None && result.1.merge_base_sha == Some(
            reading.merge_base_sha,
        ) && result.1.head_sha == Some(reading.head_sha),
        readings.comparison matches Err(error) ==> result.0.comparison_error == Some(error)
            && result.0.last_resolved_base_sha == repository.last_resolved_base_sha,
        result.1.comparison_error is None <==> readings.head is Ok && readings.status is Ok
            && readings.comparison is Ok && readings.comparison->Ok_0.divergence is Ok,
        readings.status matches Ok(changes) ==> {
            &&& result.1.clean == Some(changes@.len() == 0)
            &&& result.1.changed_file_count matches Some(count) && count == changes@.len()
        },
        readings.status is Err ==> result.1.clean is None,
{
    assert(crate::text::opt_text(result.1.comparison_error) == crate::repositories::shown_error(
        readings,
    ));
}

/// The setup of a repository shows the base in effect and where it comes from;
/// what was just found of it goes before what is on record.
pub proof fn law_setups_show_the_base_in_effect(
    repository: Repository,
    baseline: ResolvedBaseline,
    other: ResolvedBaseline,
    live: RepositorySetupLive,
    view: RepositorySetupView,
    second: RepositorySetupView,
)
    requires
        call_ensures(repository_setup_view, (&repository, &baseline, None, live), view),
        call_ensures(repository_setup_view, (&repository, &other, None, live), second),
    ensures
        view.effective_base@ == baseline.reference@,
        view.base_source@ == second.base_source@ ==> baseline.source == other.source,
        view.enabled == repository.enabled,
        view.base_override == repository.base_override,
        view.id@ == id_chars(repository.id.0),
        live.resolved_base_sha is Some ==> view.resolved_base_sha == live.resolved_base_sha,
        live.resolved_base_sha is None ==> view.resolved_base_sha
            == repository.last_resolved_base_sha,
        live.comparison_error is Some ==> view.comparison_error == live.comparison_error,
        live.comparison_error is None ==> view.comparison_error == repository.comparison_error,
        view.ahead == live.ahead && view.behind == live.behind,
        view.clean == live.clean,
{
    reveal_strlit("temporary");
    reveal_strlit("override");
    reveal_strlit("inherited");
    reveal_strlit("application default");
    assert("temporary"@[0] == 't');
    assert("override"@[0] == 'o');
    assert("inherited"@[0] == 'i');
    assert("application default"@[0] == 'a');
}

/// A capture of repositories succeeded where none failed, failed where none
/// succeeded, and else went through in part; every failure is told.
pub proof fn law_capture_outcomes_are_told(
    captured: usize,
    failures: Vec<CaptureFailure>,
    outcome: LocalRefreshOutcomeView,
)
    requires
        call_ensures(local_refresh_outcome, (captured, &failures), outcome),
    ensures
        outcome.status@ == "success"@ <==> failures@.len() == 0,
        outcome.status@ == "failed"@ <==> failures@.len() > 0 && captured == 0,
        outcome.status@ == "partial"@ <==> failures@.len() > 0 && captured > 0,
        outcome.captured_repository_count == captured,
        outcome.failed_repository_count == failures@.len(),
        outcome.failures@.len() == failures@.len(),
        forall|i: int|
            0 <= i < failures@.len() ==> (#[trigger] outcome.failures@[i]).repository_id@
                == id_chars(failures@[i].repository_id.0) && outcome.failures@[i].error@
                == failures@[i].error@,
{
    reveal_strlit("success");
    reveal_strlit("failed");
    reveal_strlit("partial");
    assert("success"@[0] == 's');
    assert("failed"@[0] == 'f');
    assert("partial"@[0] == 'p');
    assert forall|i: int| 0 <= i < failures@.len() implies (#[trigger] outcome.failures@[i]).repository_id@
        == id_chars(failures@[i].repository_id.0) && outcome.failures@[i].error@
        == failures@[i].error@ by {
        assert(crate::repositories::tells_failure(outcome.failures@[i], failures@[i]));
    }
}

proof fn lemma_success(captures: Seq<CaptureSuccess>, id: RepositoryId, k: int)
    requires
        0 <= k < captures.len(),
        captures[k].repository_id == id,
        forall|j: int| k < j < captures.len() ==> (#[trigger] captures[j]).repository_id != id,
    ensures
        success_of(captures, id) == Some(captures[k].base_tip_sha),
    decreases captures.len(),
{
    if k < captures.len() - 1 {
        assert(captures[captures.len() - 1].repository_id != id);
        lemma_success(captures.drop_last(), id, k);
    }
}

proof fn lemma_no_success(captures: Seq<CaptureSuccess>, id: RepositoryId)
    requires
        forall|j: int| 0 <= j < captures.len() ==> (#[trigger] captures[j]).repository_id != id,
    ensures
        success_of(captures, id) is None,
    decreases captures.len(),
{
    if captures.len() > 0 {
        assert(captures[captures.len() - 1].repository_id != id);
        lemma_no_success(captures.drop_last(), id);
    }
}

proof fn lemma_failure(failures: Seq<CaptureFailure>, id: RepositoryId, k: int)
    requires
        0 <= k < failures.len(),
        failures[k].repository_id == id,
        forall|j: int| k < j < failures.len() ==> (#[trigger] failures[j]).repository_id != id,
    ensures
        failure_of(failures, id) == Some(failures[k].error),
    decreases failures.len(),
{
    if k < failures.len() - 1 {
        assert(failures[failures.len() - 1].repository_id != id);
        lemma_failure(failures.drop_last(), id, k);
    }
}

proof fn lemma_noted(
    repositories: Seq<Repository>,
    captures: Seq<CaptureSuccess>,
    failures: Seq<CaptureFailure>,
    i: int,
)
    requires
        0 <= i < repositories.len(),
        with_outcome(repositories[i], captures, failures) is Some,
    ensures
        noted(repositories, captures, failures).contains(
            with_outcome(repositories[i], captures, failures)->0,
        ),
    decreases repositories.len(),
{
    let before = noted(repositories.drop_last(), captures, failures);
    let all = noted(repositories, captures, failures);
    let wanted = with_outcome(repositories[i], captures, failures)->0;
    if i < repositories.len() - 1 {
        lemma_noted(repositories.drop_last(), captures, failures, i);
        let m = choose|m: int| 0 <= m < before.len() && before[m] == wanted;
        assert(all[m] == wanted);
    } else {
        assert(all[all.len() - 1] == wanted);
    }
}

/// A repository that was captured is noted with the base it was compared with
/// and without an error.
pub proof fn law_captured_repositories_are_noted(
    repositories: Vec<Repository>,
    captures: Vec<CaptureSuccess>,
    failures: Vec<CaptureFailure>,
    updates: Vec<Repository>,
    i: int,
    k: int,
)
    requires
        call_ensures(local_capture_outcomes, (&repositories, &captures, &failures), updates),
        0 <= i < repositories@.len(),
        0 <= k < captures@.len(),
        captures@[k].repository_id == repositories@[i].id,
        forall|j: int|
            k < j < captures@.len() ==> (#[trigger] captures@[j]).repository_id
                != repositories@[i].id,
    ensures
        updates@.contains(
            Repository {
                last_resolved_base_sha: Some(captures@[k].base_tip_sha),
                comparison_error: None,
                ..repositories@[i]
            },
        ),
{
    lemma_success(captures@, repositories@[i].id, k);
    lemma_noted(repositories@, captures@, failures@, i);
}

/// A repository that could not be captured is noted with the error and keeps
/// all else.
pub proof fn law_failed_repositories_are_noted(
    repositories: Vec<Repository>,
    captures: Vec<CaptureSuccess>,
    failures: Vec<CaptureFailure>,
    updates: Vec<Repository>,
    i: int,
    k: int,
)
    requires
        call_ensures(local_capture_outcomes, (&repositories, &captures, &failures), updates),
        0 <= i < repositories@.len(),
        0 <= k < failures@.len(),
        failures@[k].repository_id == repositories@[i].id,
        forall|j: int|
            k < j < failures@.len() ==> (#[trigger] failures@[j]).repository_id
                != repositories@[i].id,
        forall|j: int|
            0 <= j < captures@.len() ==> (#[trigger] captures@[j]).repository_id
                != repositories@[i].id,
    ensures
        updates@.contains(
            Repository { comparison_error: Some(failures@[k].error), ..repositories@[i] },
        ),
{
    lemma_no_success(captures@, repositories@[i].id);
    lemma_failure(failures@, repositories@[i].id, k);
    lemma_noted(repositories@, captures@, failures@, i);
}

} // verus!
