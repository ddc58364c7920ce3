//! What the user chose and set is kept, shown again and held within its bounds.
use crate::canonical::{requested_context, HunkContext};
use crate::document::ReviewDiffDocument;
use crate::errors::DispatchError;
use crate::full_file::valid_full_file_deletion_block_ids;
use crate::ids::{id_chars, parsed_id, AnnotationId};
use crate::presentation::{ephemeral_state, PresentationRequest};
use crate::settings::{save_settings, ReviewSettings};
use crate::text::{opt_text, texts, trimmed};
use crate::text_set::TextSet;
use crate::ui_state::{
    apply_ui_state_patch, expand_hunk_context, position_problem, workspace_ui_state_view,
    ReviewUiState, WorkspaceUiStatePatch, WorkspaceUiStateView,
};
use vstd::prelude::*;
use vstd::string::*;
use vstd::utf8::*;

verus! {

/// Whether a patch changes neither chosen annotations nor folds.
pub open spec fn changes_position_alone(patch: WorkspaceUiStatePatch) -> bool {
    &&& patch.selected_annotation_ids is None
    &&& patch.expanded_full_file_deletion_blocks is None
    &&& patch.collapsed_full_file_addition_blocks is None
}

/// Whether every choice of a patch is one that there is: a file of the review,
/// a mode, a view, a line, a side and a tab.
pub open spec fn has_known_choices(
    patch: WorkspaceUiStatePatch,
    documents: Seq<ReviewDiffDocument>,
) -> bool {
    &&& patch.active_file_id matches Some(id) ==> exists|i: int|
        0 <= i < documents.len() && parsed_id(id@) == Some((#[trigger] documents[i]).file.id.0)
    &&& patch.mode matches Some(mode) ==> mode@ == "unified"@ || mode@ == "split"@ || mode@
        == "full"@ || mode@ == "difftastic"@
    &&& patch.full_file_side matches Some(view) ==> view@ == "old"@ || view@ == "new"@ || view@
        == "both"@
    &&& patch.nearest_source_line != Some(0u32)
    &&& patch.nearest_source_side matches Some(side) ==> side@ == "old"@ || side@ == "new"@
    &&& patch.scroll_top_accepted != Some(false)
    &&& patch.split_ratio_accepted != Some(false)
    &&& patch.right_tab matches Some(tab) ==> tab@ == "files"@ || tab@ == "comments"@ || tab@
        == "outline"@
}

/// Choices that there are are kept, and any other is refused.
pub proof fn law_known_choices_are_kept(
    state: ReviewUiState,
    patch: WorkspaceUiStatePatch,
    documents: Vec<ReviewDiffDocument>,
    result: Result<ReviewUiState, DispatchError>,
)
    requires
        state.wf(),
        call_ensures(apply_ui_state_patch, (state, patch, &documents, None), result),
        changes_position_alone(patch),
    ensures
        result is Ok <==> has_known_choices(patch, documents@),
{
    reveal_strlit("old");
    reveal_strlit("new");
    reveal_strlit("both");
    assert("old"@[0] == 'o');
    assert("new"@[0] == 'n');
    assert("both"@[0] == 'b');
    if patch.active_file_id is Some {
        let id = patch.active_file_id->0@;
        if parsed_id(id) is Some && crate::ui_state::has_file(documents@, parsed_id(id)->0) {
            let i = choose|i: int|
                0 <= i < documents@.len() && (#[trigger] documents@[i]).file.id.0
                    == parsed_id(id)->0;
            assert(parsed_id(id) == Some(documents@[i].file.id.0));
        }
        if has_known_choices(patch, documents@) {
            let i = choose|i: int|
                0 <= i < documents@.len() && parsed_id(id) == Some(
                    (#[trigger] documents@[i]).file.id.0,
                );
            assert(documents@[i].file.id.0 == parsed_id(id)->0);
        }
    }
}

/// What was chosen is shown, and what was not touched is shown as before; where
/// nothing was ever chosen that is the unified mode, both sources and the list
/// of files.
pub proof fn law_kept_choices_are_shown(
    state: ReviewUiState,
    patch: WorkspaceUiStatePatch,
    documents: Vec<ReviewDiffDocument>,
    annotations: Option<&Vec<AnnotationId>>,
    result: Result<ReviewUiState, DispatchError>,
    before: WorkspaceUiStateView,
    after: WorkspaceUiStateView,
)
    requires
        state.wf(),
        call_ensures(apply_ui_state_patch, (state, patch, &documents, annotations), result),
        result is Ok,
        call_ensures(workspace_ui_state_view, (&state,), before),
        call_ensures(workspace_ui_state_view, (&result->Ok_0,), after),
    ensures
        after.mode@ == match patch.mode {
            Some(mode) => mode@,
            None => before.mode@,
        },
        after.full_file_side@ == match patch.full_file_side {
            Some(view) => view@,
            None => before.full_file_side@,
        },
        after.right_tab@ == match patch.right_tab {
            Some(tab) => tab@,
            None => before.right_tab@,
        },
        opt_text(after.active_file_id) == match patch.active_file_id {
            Some(id) => Some(id@),
            None => opt_text(before.active_file_id),
        },
        after.nearest_source_line == match patch.nearest_source_line {
            Some(line) => Some(line),
            None => before.nearest_source_line,
        },
        opt_text(after.nearest_source_side) == match patch.nearest_source_side {
            Some(side) => Some(side@),
            None => opt_text(before.nearest_source_side),
        },
        patch.selected_annotation_ids matches Some(ids) ==> (
        after.selected_annotation_ids matches Some(shown) && texts(shown@).to_set() == texts(
            ids@,
        ).to_set()),
        patch.expanded_full_file_deletion_blocks matches Some(ids) ==> texts(
            after.expanded_full_file_deletion_blocks@,
        ).to_set() == texts(ids@).to_set(),
        patch.collapsed_full_file_addition_blocks matches Some(ids) ==> texts(
            after.collapsed_full_file_addition_blocks@,
        ).to_set() == texts(ids@).to_set(),
        patch.expanded_full_file_deletion_blocks is None ==> texts(
            after.expanded_full_file_deletion_blocks@,
        ).to_set() == texts(before.expanded_full_file_deletion_blocks@).to_set(),
        patch.collapsed_full_file_addition_blocks is None ==> texts(
            after.collapsed_full_file_addition_blocks@,
        ).to_set() == texts(before.collapsed_full_file_addition_blocks@).to_set(),
        state.mode is None ==> before.mode@ == "unified"@,
        state.full_file_side is None ==> before.full_file_side@ == "both"@,
        state.right_tab is None ==> before.right_tab@ == "files"@,
        result->Ok_0@.viewed_file_ids == state@.viewed_file_ids,
        result->Ok_0@.hunk_context_lines == state@.hunk_context_lines,
{
    let changed = result->Ok_0;
    state.expanded_full_file_deletion_blocks.lemma_listed_set();
    state.collapsed_full_file_addition_blocks.lemma_listed_set();
    changed.expanded_full_file_deletion_blocks.lemma_listed_set();
    changed.collapsed_full_file_addition_blocks.lemma_listed_set();
    if changed.selected_annotation_ids is Some {
        changed.selected_annotation_ids->0.lemma_listed_set();
    }
}

/// Only annotations of the active review can be chosen.
pub proof fn law_only_annotations_of_the_review_are_chosen(
    state: ReviewUiState,
    patch: WorkspaceUiStatePatch,
    documents: Vec<ReviewDiffDocument>,
    annotations: Vec<AnnotationId>,
    result: Result<ReviewUiState, DispatchError>,
    k: int,
)
    requires
        state.wf(),
        call_ensures(apply_ui_state_patch, (state, patch, &documents, Some(&annotations)), result),
        result is Ok,
        patch.selected_annotation_ids is Some,
        0 <= k < patch.selected_annotation_ids->0@.len(),
    ensures
        exists|i: int|
            0 <= i < annotations@.len() && id_chars((#[trigger] annotations@[i]).0)
                == patch.selected_annotation_ids->0@[k]@,
{
    let values = patch.selected_annotation_ids->0@;
    let known = annotations@.map_values(|id: AnnotationId| id_chars(id.0));
    assert(texts(values)[k] == values[k]@);
    assert(texts(values).to_set().contains(values[k]@));
    assert(known.to_set().contains(values[k]@));
    let i = choose|i: int| 0 <= i < known.len() && known[i] == values[k]@;
    assert(id_chars(annotations@[i].0) == values[k]@);
}

proof fn lemma_requested_is_there(contexts: Seq<HunkContext>, hunk_id: Seq<char>)
    ensures
        requested_context(contexts, hunk_id) matches Some(lines) ==> exists|j: int|
            0 <= j < contexts.len() && (#[trigger] contexts[j]).hunk_id@ == hunk_id
                && contexts[j].lines == lines,
        requested_context(contexts, hunk_id) is None ==> forall|j: int|
            0 <= j < contexts.len() ==> (#[trigger] contexts[j]).hunk_id@ != hunk_id,
    decreases contexts.len(),
{
    if contexts.len() > 0 {
        let shorter = contexts.drop_last();
        lemma_requested_is_there(shorter, hunk_id);
        assert(contexts[contexts.len() - 1] == contexts.last());
        if requested_context(shorter, hunk_id) is Some {
            let j = choose|j: int|
                0 <= j < shorter.len() && (#[trigger] shorter[j]).hunk_id@ == hunk_id
                    && shorter[j].lines == requested_context(shorter, hunk_id)->0;
            assert(contexts[j] == shorter[j]);
        } else if requested_context(contexts, hunk_id) is None {
            assert forall|j: int| 0 <= j < contexts.len() implies (#[trigger] contexts[j]).hunk_id@
                != hunk_id by {
                if j < shorter.len() {
                    assert(shorter[j] == contexts[j]);
                }
            }
        }
    }
}

/// Asking for context around a hunk of an active review notes it for that hunk,
/// no less than three and no more than 1200 lines, and leaves what was asked
/// for around other hunks.
pub proof fn law_context_is_noted_for_its_hunk(
    state: ReviewUiState,
    document: ReviewDiffDocument,
    hunk_id: &str,
    lines: u32,
    result: Result<ReviewUiState, DispatchError>,
    h: int,
    other: int,
)
    requires
        state.wf(),
        call_ensures(expand_hunk_context, (state, &document, true, hunk_id, lines), result),
        0 <= h < document.hunks@.len(),
        document.hunks@[h].id@ == hunk_id@,
    ensures
        result is Ok,
        exists|j: int|
            0 <= j < result->Ok_0.hunk_context_lines@.len() && (
            #[trigger] result->Ok_0.hunk_context_lines@[j]).hunk_id@ == hunk_id@
                && result->Ok_0.hunk_context_lines@[j].lines == if lines < 3 {
                3
            } else if lines > 1200 {
                1200
            } else {
                lines
            },
        0 <= other < state.hunk_context_lines@.len() && state.hunk_context_lines@[other].hunk_id@
            != hunk_id@ ==> exists|j: int|
            0 <= j < result->Ok_0.hunk_context_lines@.len() && (
            #[trigger] result->Ok_0.hunk_context_lines@[j]).hunk_id@
                == state.hunk_context_lines@[other].hunk_id@
                && result->Ok_0.hunk_context_lines@[j].lines
                == state.hunk_context_lines@[other].lines,
{
    assert(document.hunks@[h].id@ == hunk_id@);
    assert(crate::ui_state::has_hunk(document, hunk_id@));
    let after = result->Ok_0.hunk_context_lines@;
    lemma_requested_is_there(after, hunk_id@);
    if 0 <= other < state.hunk_context_lines@.len() && state.hunk_context_lines@[other].hunk_id@
        != hunk_id@ {
        let contexts = state.hunk_context_lines@;
        let id = contexts[other].hunk_id@;
        lemma_requested_is_there(contexts, id);
        lemma_requested_is_there(after, id);
        assert(requested_context(contexts, id) is Some);
        let j = choose|j: int|
            0 <= j < contexts.len() && (#[trigger] contexts[j]).hunk_id@ == id && contexts[j].lines
                == requested_context(contexts, id)->0;
        assert(j == other);
        assert(requested_context(after, id) == Some(contexts[other].lines));
    }
}

/// Whether a text holds no control character that would break it.
pub open spec fn is_one_line(text: Seq<char>) -> bool {
    !text.contains('\0') && !text.contains('\n') && !text.contains('\r')
}

/// Settings within their bounds are kept as the user set them, but for white
/// space around the font; widths are held within what a panel can have.
pub proof fn law_settings_are_kept_within_their_bounds(
    settings: ReviewSettings,
    result: Result<ReviewSettings, DispatchError>,
)
    requires
        call_ensures(save_settings, (settings,), result),
        settings.last_workspace_id is None,
        settings.shortcuts@.len() == 0,
        settings.theme@ == "dark"@ || settings.theme@ == "light"@ || settings.theme@ == "system"@,
        0 < encode_utf8(trimmed(settings.code_font@)).len() <= 128,
        is_one_line(trimmed(settings.code_font@)),
        settings.external_editor@ == "system"@ || settings.external_editor@ == "vscode"@
            || settings.external_editor@ == "cursor"@ || settings.external_editor@ == "zed"@
            || settings.external_editor@ == "sublime"@ || settings.external_editor@ == "idea"@,
        settings.tab_width == 2 || settings.tab_width == 4 || settings.tab_width == 8,
        settings.prompt_path_style@ == "portable"@ || settings.prompt_path_style@ == "qualified"@
            || settings.prompt_path_style@ == "absolute"@,
    ensures
        result matches Ok(saved) && {
            &&& saved.theme == settings.theme
            &&& saved.code_font@ == trimmed(settings.code_font@)
            &&& saved.external_editor == settings.external_editor
            &&& saved.tab_width == settings.tab_width
            &&& saved.prompt_path_style == settings.prompt_path_style
            &&& saved.prompt_include_diff_hunks == settings.prompt_include_diff_hunks
            &&& saved.prompt_include_git_state == settings.prompt_include_git_state
            &&& saved.fetch_on_review == settings.fetch_on_review
            &&& saved.wrap_lines == settings.wrap_lines
            &&& saved.show_whitespace == settings.show_whitespace
            &&& saved.vim_navigation == settings.vim_navigation
            &&& saved.left_collapsed == settings.left_collapsed
            &&& saved.right_collapsed == settings.right_collapsed
            &&& 180 <= settings.left_width <= 420 ==> saved.left_width == settings.left_width
            &&& 240 <= settings.right_width <= 520 ==> saved.right_width == settings.right_width
            &&& 180 <= saved.left_width <= 420
            &&& 240 <= saved.right_width <= 520
        },
{
}

/// Settings that name no known theme, editor or path style, or a tab width that
/// there is not, are refused.
pub proof fn law_unknown_settings_are_refused(
    settings: ReviewSettings,
    result: Result<ReviewSettings, DispatchError>,
)
    requires
        call_ensures(save_settings, (settings,), result),
        !(settings.theme@ == "dark"@ || settings.theme@ == "light"@ || settings.theme@
            == "system"@) || !(settings.external_editor@ == "system"@ || settings.external_editor@
            == "vscode"@ || settings.external_editor@ == "cursor"@ || settings.external_editor@
            == "zed"@ || settings.external_editor@ == "sublime"@ || settings.external_editor@
            == "idea"@) || !(settings.tab_width == 2 || settings.tab_width == 4
            || settings.tab_width == 8) || !(settings.prompt_path_style@ == "portable"@
            || settings.prompt_path_style@ == "qualified"@ || settings.prompt_path_style@
            == "absolute"@) || encode_utf8(trimmed(settings.code_font@)).len() > 128 || !is_one_line(
            trimmed(settings.code_font@),
        ),
    ensures
        result is Err,
{
}

proof fn lemma_known_positions(patch: WorkspaceUiStatePatch, documents: Seq<ReviewDiffDocument>)
    requires
        has_known_choices(patch, documents),
    ensures
        position_problem(patch, documents) is None,
{
    reveal_strlit("old");
    reveal_strlit("new");
    reveal_strlit("both");
    assert("old"@[0] == 'o');
    assert("new"@[0] == 'n');
    assert("both"@[0] == 'b');
    if patch.active_file_id is Some {
        let id = patch.active_file_id->0@;
        let i = choose|i: int|
            0 <= i < documents.len() && parsed_id(id) == Some((#[trigger] documents[i]).file.id.0);
        assert(documents[i].file.id.0 == parsed_id(id)->0);
    }
}

proof fn lemma_named_blocks(named: Seq<String>, ids: Set<Seq<char>>)
    ensures
        texts(named).to_set().subset_of(ids) <==> forall|i: int|
            0 <= i < named.len() ==> ids.contains((#[trigger] named[i])@),
        forall|id: Seq<char>| #[trigger]
            texts(named).to_set().contains(id) <==> exists|i: int|
                0 <= i < named.len() && (#[trigger] named[i])@ == id,
{
    let list = texts(named);
    assert forall|id: Seq<char>| #[trigger] list.to_set().contains(id) <==> exists|i: int|
        0 <= i < named.len() && (#[trigger] named[i])@ == id by {
        if list.contains(id) {
            let i = choose|i: int| 0 <= i < list.len() && list[i] == id;
            assert(named[i]@ == id);
        }
        if exists|i: int| 0 <= i < named.len() && (#[trigger] named[i])@ == id {
            let i = choose|i: int| 0 <= i < named.len() && (#[trigger] named[i])@ == id;
            assert(list[i] == id);
        }
    }
    if list.to_set().subset_of(ids) {
        assert forall|i: int| 0 <= i < named.len() implies ids.contains((#[trigger] named[i])@) by {
            assert(list.to_set().contains(named[i]@));
        }
    }
    if forall|i: int| 0 <= i < named.len() ==> ids.contains((#[trigger] named[i])@) {
        assert forall|id: Seq<char>| list.to_set().contains(id) implies ids.contains(id) by {
            let i = choose|i: int| 0 <= i < named.len() && (#[trigger] named[i])@ == id;
            assert(ids.contains(named[i]@));
        }
    }
}

/// Only folds that the review has are opened and closed, and at most ten
/// thousand of them: a patch that names others is refused. What it names takes
/// the place of what was kept.
pub proof fn law_only_folds_of_the_review_are_kept(
    state: ReviewUiState,
    patch: WorkspaceUiStatePatch,
    documents: Vec<ReviewDiffDocument>,
    ids: TextSet,
    result: Result<ReviewUiState, DispatchError>,
    id: Seq<char>,
)
    requires
        state.wf(),
        call_ensures(apply_ui_state_patch, (state, patch, &documents, None), result),
        call_ensures(valid_full_file_deletion_block_ids, (&documents,), ids),
        has_known_choices(patch, documents@),
        patch.selected_annotation_ids is None,
        patch.collapsed_full_file_addition_blocks is None,
        patch.expanded_full_file_deletion_blocks is Some,
    ensures
        ({
            let named = patch.expanded_full_file_deletion_blocks->0@;
            &&& result is Ok <==> named.len() <= 10000 && forall|i: int|
                0 <= i < named.len() ==> ids@.contains((#[trigger] named[i])@)
            &&& result matches Ok(changed) ==> {
                &&& changed@.expanded_full_file_deletion_blocks.contains(id) <==> exists|i: int|
                    0 <= i < named.len() && (#[trigger] named[i])@ == id
                &&& changed@.collapsed_full_file_addition_blocks
                    == state@.collapsed_full_file_addition_blocks
            }
        }),
{
    lemma_known_positions(patch, documents@);
    lemma_named_blocks(patch.expanded_full_file_deletion_blocks->0@, ids@);
}

/// The same holds of the additions that are folded.
pub proof fn law_only_folded_additions_of_the_review_are_kept(
    state: ReviewUiState,
    patch: WorkspaceUiStatePatch,
    documents: Vec<ReviewDiffDocument>,
    ids: TextSet,
    result: Result<ReviewUiState, DispatchError>,
    id: Seq<char>,
)
    requires
        state.wf(),
        call_ensures(apply_ui_state_patch, (state, patch, &documents, None), result),
        call_ensures(valid_full_file_deletion_block_ids, (&documents,), ids),
        has_known_choices(patch, documents@),
        patch.selected_annotation_ids is None,
        patch.expanded_full_file_deletion_blocks is None,
        patch.collapsed_full_file_addition_blocks is Some,
    ensures
        ({
            let named = patch.collapsed_full_file_addition_blocks->0@;
            &&& result is Ok <==> named.len() <= 10000 && forall|i: int|
                0 <= i < named.len() ==> ids@.contains((#[trigger] named[i])@)
            &&& result matches Ok(changed) ==> {
                &&& changed@.collapsed_full_file_addition_blocks.contains(id) <==> exists|i: int|
                    0 <= i < named.len() && (#[trigger] named[i])@ == id
                &&& changed@.expanded_full_file_deletion_blocks
                    == state@.expanded_full_file_deletion_blocks
            }
        }),
{
    lemma_known_positions(patch, documents@);
    lemma_named_blocks(patch.collapsed_full_file_addition_blocks->0@, ids@);
}

/// A request that names folds of its own is refused, too, where the review has
/// no such fold.
pub proof fn law_requests_name_folds_of_the_review(
    state: ReviewUiState,
    request: PresentationRequest,
    documents: Vec<ReviewDiffDocument>,
    ids: TextSet,
    result: Result<ReviewUiState, DispatchError>,
)
    requires
        state.wf(),
        call_ensures(ephemeral_state, (state, &request, &documents), result),
        call_ensures(valid_full_file_deletion_block_ids, (&documents,), ids),
        request.ephemeral_expanded_full_file_deletion_blocks is Some,
        request.ephemeral_collapsed_full_file_addition_blocks is Some,
    ensures
        ({
            let opened = request.ephemeral_expanded_full_file_deletion_blocks->0@;
            let closed = request.ephemeral_collapsed_full_file_addition_blocks->0@;
            result is Ok <==> opened.len() <= 10000 && closed.len() <= 10000 && (forall|i: int|
                0 <= i < opened.len() ==> ids@.contains((#[trigger] opened[i])@)) && forall|i: int|
                0 <= i < closed.len() ==> ids@.contains((#[trigger] closed[i])@)
        }),
{
    lemma_named_blocks(request.ephemeral_expanded_full_file_deletion_blocks->0@, ids@);
    lemma_named_blocks(request.ephemeral_collapsed_full_file_addition_blocks->0@, ids@);
}

} // verus!
