//! What a review remembers of how it was looked at.
use crate::annotations::named_side;
use crate::canonical::{bounded_context, clamp_context, requested_context, HunkContext};
use crate::document::{lemma_side_names_differ, parse_side, ReviewDiffDocument};
use crate::errors::{invalid, not_found, DispatchError};
use crate::full_file::{
    all_block_ids, named_view, parse_full_file_view, valid_full_file_deletion_block_ids,
};
use crate::ids::{id_chars, id_text, parse_review_file_id, parsed_id, AnnotationId, ReviewFileId};
use crate::rows::{is_diff_mode, validate_diff_mode};
use crate::text::{copy_opt, opt_text, text_eq, texts};
use crate::text_set::TextSet;
use vstd::prelude::*;
use vstd::string::*;
use vstd::utf8::*;

verus! {

/// How a review round was looked at last.
#[derive(Debug)]
pub struct ReviewUiState {
    pub viewed_file_ids: TextSet,
    pub active_file_id: Option<String>,
    pub mode: Option<String>,
    pub full_file_side: Option<String>,
    pub nearest_source_line: Option<u32>,
    pub nearest_source_side: Option<String>,
    pub right_tab: Option<String>,
    /// The annotations chosen for a prompt. No choice and an empty choice
    /// differ.
    pub selected_annotation_ids: Option<TextSet>,
    pub hunk_context_lines: Vec<HunkContext>,
    pub expanded_full_file_deletion_blocks: TextSet,
    pub collapsed_full_file_addition_blocks: TextSet,
}

/// What a state says.
pub struct UiStateModel {
    pub viewed_file_ids: Set<Seq<char>>,
    pub active_file_id: Option<Seq<char>>,
    pub mode: Option<Seq<char>>,
    pub full_file_side: Option<Seq<char>>,
    pub nearest_source_line: Option<u32>,
    pub nearest_source_side: Option<Seq<char>>,
    pub right_tab: Option<Seq<char>>,
    pub selected_annotation_ids: Option<Set<Seq<char>>>,
    pub hunk_context_lines: Seq<HunkContext>,
    pub expanded_full_file_deletion_blocks: Set<Seq<char>>,
    pub collapsed_full_file_addition_blocks: Set<Seq<char>>,
}

/// The set of an optional choice.
pub open spec fn opt_set(choice: Option<TextSet>) -> Option<Set<Seq<char>>> {
    match choice {
        Some(set) => Some(set@),
        None => None,
    }
}

impl View for ReviewUiState {
    type V = UiStateModel;

    open spec fn view(&self) -> UiStateModel {
        UiStateModel {
            viewed_file_ids: self.viewed_file_ids@,
            active_file_id: opt_text(self.active_file_id),
            mode: opt_text(self.mode),
            full_file_side: opt_text(self.full_file_side),
            nearest_source_line: self.nearest_source_line,
            nearest_source_side: opt_text(self.nearest_source_side),
            right_tab: opt_text(self.right_tab),
            selected_annotation_ids: opt_set(self.selected_annotation_ids),
            hunk_context_lines: self.hunk_context_lines@,
            expanded_full_file_deletion_blocks: self.expanded_full_file_deletion_blocks@,
            collapsed_full_file_addition_blocks: self.collapsed_full_file_addition_blocks@,
        }
    }
}

/// Whether no hunk has two contexts.
pub open spec fn are_distinct(contexts: Seq<HunkContext>) -> bool {
    forall|i: int, j: int|
        0 <= i < j < contexts.len() ==> (#[trigger] contexts[i]).hunk_id@ != (
        #[trigger] contexts[j]).hunk_id@
}

impl ReviewUiState {
    /// Every set of the state is in order, and no hunk has two contexts.
    pub open spec fn wf(self) -> bool {
        &&& are_distinct(self.hunk_context_lines@)
        &&& self.viewed_file_ids.wf()
        &&& self.expanded_full_file_deletion_blocks.wf()
        &&& self.collapsed_full_file_addition_blocks.wf()
        &&& self.selected_annotation_ids matches Some(set) ==> set.wf()
    }
}

/// Nothing was looked at yet.
pub open spec fn blank_state() -> UiStateModel {
    UiStateModel {
        viewed_file_ids: Set::empty(),
        active_file_id: None,
        mode: None,
        full_file_side: None,
        nearest_source_line: None,
        nearest_source_side: None,
        right_tab: None,
        selected_annotation_ids: None,
        hunk_context_lines: Seq::empty(),
        expanded_full_file_deletion_blocks: Set::empty(),
        collapsed_full_file_addition_blocks: Set::empty(),
    }
}

impl Default for ReviewUiState {
    fn default() -> (state: ReviewUiState)
        ensures
            state.wf(),
            state@ == blank_state(),
    {
        ReviewUiState {
            viewed_file_ids: TextSet::new(),
            active_file_id: None,
            mode: None,
            full_file_side: None,
            nearest_source_line: None,
            nearest_source_side: None,
            right_tab: None,
            selected_annotation_ids: None,
            hunk_context_lines: Vec::new(),
            expanded_full_file_deletion_blocks: TextSet::new(),
            collapsed_full_file_addition_blocks: TextSet::new(),
        }
    }
}

/// A state as the user interface gets it.
#[derive(Debug)]
pub struct WorkspaceUiStateView {
    pub active_file_id: Option<String>,
    pub mode: String,
    pub full_file_side: String,
    pub nearest_source_line: Option<u32>,
    pub nearest_source_side: Option<String>,
    pub right_tab: String,
    pub selected_annotation_ids: Option<Vec<String>>,
    pub expanded_full_file_deletion_blocks: Vec<String>,
    pub collapsed_full_file_addition_blocks: Vec<String>,
}

/// A text, or else a fixed one.
pub open spec fn text_or(value: Option<Seq<char>>, fallback: Seq<char>) -> Seq<char> {
    match value {
        Some(text) => text,
        None => fallback,
    }
}

/// Whether a view shows a state: the diff is unified, both sources are shown
/// and the files are listed until something else was chosen, and every set is
/// listed in order.
pub open spec fn shows_state(view: WorkspaceUiStateView, state: ReviewUiState) -> bool {
    &&& opt_text(view.active_file_id) == opt_text(state.active_file_id)
    &&& view.mode@ == text_or(opt_text(state.mode), "unified"@)
    &&& view.full_file_side@ == text_or(opt_text(state.full_file_side), "both"@)
    &&& view.nearest_source_line == state.nearest_source_line
    &&& opt_text(view.nearest_source_side) == opt_text(state.nearest_source_side)
    &&& view.right_tab@ == text_or(opt_text(state.right_tab), "files"@)
    &&& match (view.selected_annotation_ids, state.selected_annotation_ids) {
        (Some(list), Some(set)) => texts(list@) == set.listed(),
        (None, None) => true,
        _ => false,
    }
    &&& texts(view.expanded_full_file_deletion_blocks@)
        == state.expanded_full_file_deletion_blocks.listed()
    &&& texts(view.collapsed_full_file_addition_blocks@)
        == state.collapsed_full_file_addition_blocks.listed()
}

fn copy_or(value: &Option<String>, fallback: &str) -> (text: String)
    ensures
        text@ == text_or(opt_text(*value), fallback@),
{
    match value {
        Some(text) => text.clone(),
        None => fallback.to_owned(),
    }
}

/// Builds what the user interface gets of a state.
pub fn workspace_ui_state_view(state: &ReviewUiState) -> (view: WorkspaceUiStateView)
    ensures
        shows_state(view, *state),
{
    WorkspaceUiStateView {
        active_file_id: copy_opt(&state.active_file_id),
        mode: copy_or(&state.mode, "unified"),
        full_file_side: copy_or(&state.full_file_side, "both"),
        nearest_source_line: state.nearest_source_line,
        nearest_source_side: copy_opt(&state.nearest_source_side),
        right_tab: copy_or(&state.right_tab, "files"),
        selected_annotation_ids: match &state.selected_annotation_ids {
            Some(set) => Some(set.to_list()),
            None => None,
        },
        expanded_full_file_deletion_blocks: state.expanded_full_file_deletion_blocks.to_list(),
        collapsed_full_file_addition_blocks: state.collapsed_full_file_addition_blocks.to_list(),
    }
}

/// Forgets blocks that no captured document has any more, and tells whether
/// there were any.
pub fn forget_stale_blocks(
    state: &mut ReviewUiState,
    documents: &Vec<ReviewDiffDocument>,
) -> (changed: bool)
    requires
        old(state).wf(),
    ensures
        final(state).wf(),
        ({
            let valid = all_block_ids(documents@);
            let before = old(state)@;
            &&& final(state)@ == (UiStateModel {
                expanded_full_file_deletion_blocks: before.expanded_full_file_deletion_blocks.intersect(
                    valid,
                ),
                collapsed_full_file_addition_blocks:
                    before.collapsed_full_file_addition_blocks.intersect(valid),
                ..before
            })
            &&& changed == !(before.expanded_full_file_deletion_blocks.subset_of(valid)
                && before.collapsed_full_file_addition_blocks.subset_of(valid))
        }),
{
    let valid = valid_full_file_deletion_block_ids(documents);
    let expanded_ok: bool = state.expanded_full_file_deletion_blocks.is_subset_of(&valid);
    let collapsed_ok: bool = state.collapsed_full_file_addition_blocks.is_subset_of(&valid);
    state.expanded_full_file_deletion_blocks =
    state.expanded_full_file_deletion_blocks.common_with(&valid);
    state.collapsed_full_file_addition_blocks =
    state.collapsed_full_file_addition_blocks.common_with(&valid);
    !(expanded_ok && collapsed_ok)
}

/// Changes to a state. Of the scroll offset and the split ratio it is only
/// told whether the given number is acceptable.
#[derive(Debug)]
pub struct WorkspaceUiStatePatch {
    pub active_file_id: Option<String>,
    pub mode: Option<String>,
    pub full_file_side: Option<String>,
    pub nearest_source_line: Option<u32>,
    pub nearest_source_side: Option<String>,
    pub scroll_top_accepted: Option<bool>,
    pub split_ratio_accepted: Option<bool>,
    pub right_tab: Option<String>,
    pub selected_annotation_ids: Option<Vec<String>>,
    pub expanded_full_file_deletion_blocks: Option<Vec<String>>,
    pub collapsed_full_file_addition_blocks: Option<Vec<String>>,
}

/// How many values a list of a patch may hold.
pub const MAX_PATCH_VALUES: usize = 10000;

/// Whether a file is among captured documents.
pub open spec fn has_file(documents: Seq<ReviewDiffDocument>, file_id: u128) -> bool {
    exists|i: int| 0 <= i < documents.len() && (#[trigger] documents[i]).file.id.0 == file_id
}

/// The rendered identities of annotations.
pub open spec fn annotation_id_texts(ids: Seq<AnnotationId>) -> Set<Seq<char>> {
    ids.map_values(|id: AnnotationId| id_chars(id.0)).to_set()
}

/// Whether a text names a tab.
pub open spec fn is_right_tab(value: Seq<char>) -> bool {
    value == "files"@ || value == "comments"@ || value == "outline"@
}

/// Why the part of a patch that says where the user is, is refused.
pub open spec fn position_problem(
    patch: WorkspaceUiStatePatch,
    documents: Seq<ReviewDiffDocument>,
) -> Option<Seq<char>> {
    if patch.active_file_id matches Some(value) && parsed_id(value@) is None {
        Some("activeFileId is invalid"@)
    } else if patch.active_file_id matches Some(value) && !has_file(
        documents,
        parsed_id(value@)->0,
    ) {
        Some("activeFileId is not in this review"@)
    } else if patch.mode matches Some(value) && !is_diff_mode(value@) {
        Some("unsupported diff mode"@)
    } else if patch.full_file_side matches Some(value) && named_view(value@) is None {
        Some("fullFileSide must be old, new, or both"@)
    } else if patch.nearest_source_line == Some(0u32) {
        Some("nearestSourceLine must be positive"@)
    } else if patch.nearest_source_side matches Some(value) && named_side(value@) is None {
        Some("annotation side must be old or new"@)
    } else if patch.scroll_top_accepted == Some(false) {
        Some("scrollTop is invalid"@)
    } else if patch.split_ratio_accepted == Some(false) {
        Some("splitRatio must be between 0.25 and 0.75"@)
    } else if patch.right_tab matches Some(value) && !is_right_tab(value@) {
        Some("rightTab is invalid"@)
    } else {
        None
    }
}

/// Why the part of a patch that chooses annotations is refused.
pub open spec fn selection_problem(
    selected: Option<Vec<String>>,
    annotations: Option<Seq<AnnotationId>>,
) -> Option<Seq<char>> {
    match selected {
        None => None,
        Some(values) => if values@.len() > MAX_PATCH_VALUES {
            Some("selectedAnnotationIds may contain at most 10000 values"@)
        } else if annotations is None {
            Some("active review has no annotation set"@)
        } else if !texts(values@).to_set().subset_of(annotation_id_texts(annotations->0)) {
            Some("selectedAnnotationIds contains an annotation outside the active review"@)
        } else {
            None
        },
    }
}

/// Why a list of blocks is refused.
pub open spec fn blocks_problem(
    blocks: Option<Vec<String>>,
    documents: Seq<ReviewDiffDocument>,
    too_many: Seq<char>,
    foreign: Seq<char>,
) -> Option<Seq<char>> {
    match blocks {
        None => None,
        Some(values) => if values@.len() > MAX_PATCH_VALUES {
            Some(too_many)
        } else if !texts(values@).to_set().subset_of(all_block_ids(documents)) {
            Some(foreign)
        } else {
            None
        },
    }
}

/// Why a patch is refused: the first thing that is wrong with it.
pub open spec fn patch_problem(
    patch: WorkspaceUiStatePatch,
    documents: Seq<ReviewDiffDocument>,
    annotations: Option<Seq<AnnotationId>>,
) -> Option<Seq<char>> {
    let expanded = blocks_problem(
        patch.expanded_full_file_deletion_blocks,
        documents,
        "expandedFullFileDeletionBlocks may contain at most 10000 values"@,
        "expandedFullFileDeletionBlocks contains a stale or foreign block"@,
    );
    let collapsed = blocks_problem(
        patch.collapsed_full_file_addition_blocks,
        documents,
        "collapsedFullFileAdditionBlocks may contain at most 10000 values"@,
        "collapsedFullFileAdditionBlocks contains a stale or foreign block"@,
    );
    if position_problem(patch, documents) is Some {
        position_problem(patch, documents)
    } else if selection_problem(patch.selected_annotation_ids, annotations) is Some {
        selection_problem(patch.selected_annotation_ids, annotations)
    } else if expanded is Some {
        expanded
    } else {
        collapsed
    }
}

/// A new value, or else the old one.
pub open spec fn new_or<A>(new: Option<A>, old_value: Option<A>) -> Option<A> {
    if new is Some {
        new
    } else {
        old_value
    }
}

/// The set of a list, or else the old one.
pub open spec fn set_or(new: Option<Vec<String>>, old_value: Set<Seq<char>>) -> Set<Seq<char>> {
    match new {
        Some(values) => texts(values@).to_set(),
        None => old_value,
    }
}

/// A state with the changes of a patch.
pub open spec fn patched(state: UiStateModel, patch: WorkspaceUiStatePatch) -> UiStateModel {
    UiStateModel {
        viewed_file_ids: state.viewed_file_ids,
        active_file_id: new_or(opt_text(patch.active_file_id), state.active_file_id),
        mode: new_or(opt_text(patch.mode), state.mode),
        full_file_side: new_or(opt_text(patch.full_file_side), state.full_file_side),
        nearest_source_line: new_or(patch.nearest_source_line, state.nearest_source_line),
        nearest_source_side: new_or(opt_text(patch.nearest_source_side), state.nearest_source_side),
        right_tab: new_or(opt_text(patch.right_tab), state.right_tab),
        selected_annotation_ids: match patch.selected_annotation_ids {
            Some(values) => Some(texts(values@).to_set()),
            None => state.selected_annotation_ids,
        },
        hunk_context_lines: state.hunk_context_lines,
        expanded_full_file_deletion_blocks: set_or(
            patch.expanded_full_file_deletion_blocks,
            state.expanded_full_file_deletion_blocks,
        ),
        collapsed_full_file_addition_blocks: set_or(
            patch.collapsed_full_file_addition_blocks,
            state.collapsed_full_file_addition_blocks,
        ),
    }
}

fn contains_file(documents: &Vec<ReviewDiffDocument>, file_id: ReviewFileId) -> (found: bool)
    ensures
        found == has_file(documents@, file_id.0),
{
    let mut i: usize = 0;
    while i < documents.len()
        invariant
            i <= documents.len(),
            forall|j: int| 0 <= j < i ==> (#[trigger] documents@[j]).file.id.0 != file_id.0,
        decreases documents.len() - i,
    {
        if documents[i].file.id == file_id {
            assert(documents@[i as int].file.id.0 == file_id.0);
            return true;
        }
        i += 1;
    }
    false
}

fn check_position(patch: &WorkspaceUiStatePatch, documents: &Vec<ReviewDiffDocument>) -> (result:
    Result<(), DispatchError>)
    ensures
        match position_problem(*patch, documents@) {
            Some(text) => result matches Err(error) && error.is_invalid(text),
            None => result == Ok::<(), DispatchError>(()),
        },
{
    match &patch.active_file_id {
        Some(value) => match parse_review_file_id(value.as_str()) {
            None => {
                return Err(invalid("activeFileId is invalid"));
            },
            Some(file_id) => {
                if !contains_file(documents, file_id) {
                    return Err(invalid("activeFileId is not in this review"));
                }
            },
        },
        None => {},
    }
    match &patch.mode {
        Some(value) => match validate_diff_mode(value.as_str()) {
            Ok(_) => {},
            Err(error) => {
                return Err(error);
            },
        },
        None => {},
    }
    match &patch.full_file_side {
        Some(value) => match parse_full_file_view(value.as_str()) {
            Ok(_) => {},
            Err(error) => {
                return Err(error);
            },
        },
        None => {},
    }
    match patch.nearest_source_line {
        Some(line) => {
            if line == 0 {
                return Err(invalid("nearestSourceLine must be positive"));
            }
        },
        None => {},
    }
    proof {
        lemma_side_names_differ();
    }
    match &patch.nearest_source_side {
        Some(value) => match parse_side(value.as_str()) {
            Ok(_) => {},
            Err(error) => {
                return Err(error);
            },
        },
        None => {},
    }
    match patch.scroll_top_accepted {
        Some(accepted) => {
            if !accepted {
                return Err(invalid("scrollTop is invalid"));
            }
        },
        None => {},
    }
    match patch.split_ratio_accepted {
        Some(accepted) => {
            if !accepted {
                return Err(invalid("splitRatio must be between 0.25 and 0.75"));
            }
        },
        None => {},
    }
    match &patch.right_tab {
        Some(value) => {
            let tab = value.as_str();
            if !text_eq(tab, "files") && !text_eq(tab, "comments") && !text_eq(tab, "outline") {
                return Err(invalid("rightTab is invalid"));
            }
        },
        None => {},
    }
    Ok(())
}

fn rendered_ids(ids: &Vec<AnnotationId>) -> (set: TextSet)
    ensures
        set.wf(),
        set@ == annotation_id_texts(ids@),
{
    let mut list: Vec<String> = Vec::new();
    let ghost rendered = ids@.map_values(|id: AnnotationId| id_chars(id.0));
    let mut i: usize = 0;
    while i < ids.len()
        invariant
            i <= ids.len(),
            rendered == ids@.map_values(|id: AnnotationId| id_chars(id.0)),
            texts(list@) =~= rendered.take(i as int),
        decreases ids.len() - i,
    {
        let ghost before = texts(list@);
        list.push(id_text(ids[i].0));
        assert(texts(list@) =~= before.push(rendered[i as int]));
        i += 1;
    }
    assert(texts(list@) =~= rendered);
    TextSet::from_list(&list)
}

fn check_selection(selected: &Option<Vec<String>>, annotations: Option<&Vec<AnnotationId>>) -> (result:
    Result<Option<TextSet>, DispatchError>)
    ensures
        match selection_problem(
            *selected,
            match annotations {
                Some(ids) => Some(ids@),
                None => None,
            },
        ) {
            Some(text) => result matches Err(error) && error.is_invalid(text),
            None => result matches Ok(choice) && match *selected {
                Some(values) => choice is Some && choice->0.wf() && choice->0@ == texts(
                    values@,
                ).to_set(),
                None => choice is None,
            },
        },
{
    match selected {
        None => Ok(None),
        Some(values) => {
            if values.len() > MAX_PATCH_VALUES {
                return Err(invalid("selectedAnnotationIds may contain at most 10000 values"));
            }
            let owned = match annotations {
                Some(ids) => rendered_ids(ids),
                None => {
                    return Err(invalid("active review has no annotation set"));
                },
            };
            let choice = TextSet::from_list(values);
            if !choice.is_subset_of(&owned) {
                return Err(
                    invalid(
                        "selectedAnnotationIds contains an annotation outside the active review",
                    ),
                );
            }
            Ok(Some(choice))
        },
    }
}

/// Accepts a list of blocks that captured documents have.
pub fn check_blocks(
    blocks: &Option<Vec<String>>,
    documents: &Vec<ReviewDiffDocument>,
    too_many: &str,
    foreign: &str,
) -> (result: Result<Option<TextSet>, DispatchError>)
    ensures
        match blocks_problem(*blocks, documents@, too_many@, foreign@) {
            Some(text) => result matches Err(error) && error.is_invalid(text),
            None => result matches Ok(choice) && match *blocks {
                Some(values) => choice is Some && choice->0.wf() && choice->0@ == texts(
                    values@,
                ).to_set(),
                None => choice is None,
            },
        },
{
    match blocks {
        None => Ok(None),
        Some(values) => {
            if values.len() > MAX_PATCH_VALUES {
                return Err(invalid(too_many));
            }
            let choice = TextSet::from_list(values);
            let valid = valid_full_file_deletion_block_ids(documents);
            if !choice.is_subset_of(&valid) {
                return Err(invalid(foreign));
            }
            Ok(Some(choice))
        },
    }
}

/// Applies a patch to a state, or says what is wrong with it. `annotations`
/// are those of the active set, if there is one.
pub fn apply_ui_state_patch(
    state: ReviewUiState,
    patch: WorkspaceUiStatePatch,
    documents: &Vec<ReviewDiffDocument>,
    annotations: Option<&Vec<AnnotationId>>,
) -> (result: Result<ReviewUiState, DispatchError>)
    requires
        state.wf(),
    ensures
        match patch_problem(
            patch,
            documents@,
            match annotations {
                Some(ids) => Some(ids@),
                None => None,
            },
        ) {
            Some(text) => result matches Err(error) && error.is_invalid(text),
            None => result matches Ok(changed) && changed.wf() && changed@ == patched(
                state@,
                patch,
            ),
        },
{
    match check_position(&patch, documents) {
        Ok(_) => {},
        Err(error) => {
            return Err(error);
        },
    }
    let selected = match check_selection(&patch.selected_annotation_ids, annotations) {
        Ok(selected) => selected,
        Err(error) => {
            return Err(error);
        },
    };
    let expanded = match check_blocks(
        &patch.expanded_full_file_deletion_blocks,
        documents,
        "expandedFullFileDeletionBlocks may contain at most 10000 values",
        "expandedFullFileDeletionBlocks contains a stale or foreign block",
    ) {
        Ok(expanded) => expanded,
        Err(error) => {
            return Err(error);
        },
    };
    let collapsed = match check_blocks(
        &patch.collapsed_full_file_addition_blocks,
        documents,
        "collapsedFullFileAdditionBlocks may contain at most 10000 values",
        "collapsedFullFileAdditionBlocks contains a stale or foreign block",
    ) {
        Ok(collapsed) => collapsed,
        Err(error) => {
            return Err(error);
        },
    };
    let mut changed = state;
    if patch.active_file_id.is_some() {
        changed.active_file_id = patch.active_file_id;
    }
    if patch.mode.is_some() {
        changed.mode = patch.mode;
    }
    if patch.full_file_side.is_some() {
        changed.full_file_side = patch.full_file_side;
    }
    if patch.nearest_source_line.is_some() {
        changed.nearest_source_line = patch.nearest_source_line;
    }
    if patch.nearest_source_side.is_some() {
        changed.nearest_source_side = patch.nearest_source_side;
    }
    if patch.right_tab.is_some() {
        changed.right_tab = patch.right_tab;
    }
    if selected.is_some() {
        changed.selected_annotation_ids = selected;
    }
    match expanded {
        Some(set) => {
            changed.expanded_full_file_deletion_blocks = set;
        },
        None => {},
    }
    match collapsed {
        Some(set) => {
            changed.collapsed_full_file_addition_blocks = set;
        },
        None => {},
    }
    Ok(changed)
}

/// Whether a document has a hunk.
pub open spec fn has_hunk(document: ReviewDiffDocument, hunk_id: Seq<char>) -> bool {
    exists|i: int| 0 <= i < document.hunks@.len() && (#[trigger] document.hunks@[i]).id@ == hunk_id
}

/// The longest name of a hunk, in bytes.
pub const MAX_HUNK_ID_BYTES: usize = 1024;

/// Refuses a hunk name that cannot be one.
pub fn check_hunk_id(hunk_id: &str) -> (result: Result<(), DispatchError>)
    ensures
        if hunk_id@.len() == 0 || encode_utf8(hunk_id@).len() > MAX_HUNK_ID_BYTES {
            result matches Err(error) && error.is_invalid("hunk id is invalid"@)
        } else {
            result == Ok::<(), DispatchError>(())
        },
{
    if hunk_id.is_empty() || hunk_id.as_bytes().len() > MAX_HUNK_ID_BYTES {
        Err(invalid("hunk id is invalid"))
    } else {
        Ok(())
    }
}

/// Whether contexts are the given ones, with that of one hunk set.
pub open spec fn with_context(
    contexts: Seq<HunkContext>,
    hunk_id: Seq<char>,
    after: Seq<HunkContext>,
    lines: u32,
) -> bool {
    &&& are_distinct(after)
    &&& requested_context(after, hunk_id) == Some(bounded_context(lines))
    &&& forall|other: Seq<char>|
        other != hunk_id ==> #[trigger] requested_context(after, other) == requested_context(
            contexts,
            other,
        )
}

proof fn lemma_context_after_push(
    contexts: Seq<HunkContext>,
    added: HunkContext,
    hunk_id: Seq<char>,
)
    ensures
        requested_context(contexts.push(added), hunk_id) == if (
        requested_context(contexts, hunk_id) is None) && added.hunk_id@
            == hunk_id {
            Some(added.lines)
        } else {
            requested_context(contexts, hunk_id)
        },
{
    assert(contexts.push(added).drop_last() =~= contexts);
}

/// Sets the context of a hunk of a document of the active review.
pub fn expand_hunk_context(
    state: ReviewUiState,
    document: &ReviewDiffDocument,
    active: bool,
    hunk_id: &str,
    context_lines: u32,
) -> (result: Result<ReviewUiState, DispatchError>)
    requires
        state.wf(),
    ensures
        if !has_hunk(*document, hunk_id@) {
            result matches Err(error) && error.is_not_found(hunk_id@)
        } else if !active {
            result matches Err(error) && error.is_invalid(
                "hunk expansion is unavailable while browsing an archived review"@,
            )
        } else {
            result matches Ok(changed) && changed.wf() && changed@ == (UiStateModel {
                hunk_context_lines: changed.hunk_context_lines@,
                ..state@
            }) && with_context(
                state.hunk_context_lines@,
                hunk_id@,
                changed.hunk_context_lines@,
                context_lines,
            )
        },
{
    let mut known: bool = false;
    let mut i: usize = 0;
    while i < document.hunks.len()
        invariant
            i <= document.hunks.len(),
            known <==> exists|j: int|
                0 <= j < i && (#[trigger] document.hunks@[j]).id@ == hunk_id@,
        decreases document.hunks.len() - i,
    {
        if text_eq(document.hunks[i].id.as_str(), hunk_id) {
            assert(document.hunks@[i as int].id@ == hunk_id@);
            known = true;
        }
        i += 1;
    }
    if !known {
        return Err(not_found(hunk_id));
    }
    if !active {
        return Err(invalid("hunk expansion is unavailable while browsing an archived review"));
    }
    let lines: u32 = clamp_context(context_lines);
    let ghost before = state.hunk_context_lines@;
    let mut contexts: Vec<HunkContext> = Vec::new();
    contexts.push(HunkContext { hunk_id: hunk_id.to_owned(), lines });
    let ghost added = contexts@[0];
    proof {
        assert(contexts@ =~= Seq::<HunkContext>::empty().push(added));
        assert forall|other: Seq<char>|
            #[trigger] requested_context(contexts@, other) == (if other
                == hunk_id@ {
                Some(lines)
            } else {
                None
            }) by {
            lemma_context_after_push(Seq::<HunkContext>::empty(), added, other);
        }
        assert(before.take(0) =~= Seq::<HunkContext>::empty());
    }
    let mut k: usize = 0;
    while k < state.hunk_context_lines.len()
        invariant
            k <= state.hunk_context_lines.len(),
            before == state.hunk_context_lines@,
            are_distinct(before),
            are_distinct(contexts@),
            forall|i: int|
                0 <= i < contexts@.len() ==> (#[trigger] contexts@[i]).hunk_id@ == hunk_id@
                    || exists|j: int|
                    0 <= j < k && (#[trigger] before[j]).hunk_id@ == contexts@[i].hunk_id@,
            forall|other: Seq<char>| #[trigger]
                requested_context(contexts@, other) == (if other == hunk_id@ {
                    Some(lines)
                } else {
                    requested_context(before.take(k as int), other)
                }),
        decreases state.hunk_context_lines.len() - k,
    {
        let entry = &state.hunk_context_lines[k];
        let ghost now = contexts@;
        assert(before.take(k + 1) =~= before.take(k as int).push(*entry));
        if !text_eq(entry.hunk_id.as_str(), hunk_id) {
            let copy = HunkContext { hunk_id: entry.hunk_id.clone(), lines: entry.lines };
            contexts.push(copy);
            assert(before[k as int].hunk_id@ == copy.hunk_id@);
            assert forall|other: Seq<char>|
                #[trigger] requested_context(contexts@, other) == (if other
                    == hunk_id@ {
                    Some(lines)
                } else {
                    requested_context(before.take(k + 1), other)
                }) by {
                lemma_context_after_push(now, copy, other);
                lemma_context_after_push(before.take(k as int), *entry, other);
            }
        } else {
            assert forall|other: Seq<char>|
                #[trigger] requested_context(contexts@, other) == (if other
                    == hunk_id@ {
                    Some(lines)
                } else {
                    requested_context(before.take(k + 1), other)
                }) by {
                lemma_context_after_push(before.take(k as int), *entry, other);
            }
        }
        k += 1;
    }
    proof {
        assert(before.take(before.len() as int) =~= before);
        assert(requested_context(contexts@, hunk_id@) == Some(lines));
    }
    let mut changed = state;
    changed.hunk_context_lines = contexts;
    Ok(changed)
}

/// Marks a file as viewed or not.
pub fn set_viewed(state: &mut ReviewUiState, file_id: ReviewFileId, viewed: bool)
    requires
        old(state).wf(),
    ensures
        final(state).wf(),
        final(state)@ == (UiStateModel {
            viewed_file_ids: if viewed {
                old(state)@.viewed_file_ids.insert(id_chars(file_id.0))
            } else {
                old(state)@.viewed_file_ids.remove(id_chars(file_id.0))
            },
            ..old(state)@
        }),
{
    let id = id_text(file_id.0);
    if viewed {
        let _ = state.viewed_file_ids.insert(id);
    } else {
        state.viewed_file_ids.remove(id.as_str());
    }
}

} // verus!
