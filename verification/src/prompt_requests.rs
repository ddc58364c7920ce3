//! What a prompt is made of, what it says of itself, and what stays on record
//! of it.
use crate::annotations::Annotation;
use crate::document::ReviewDiffDocument;
use crate::errors::DispatchError;
use crate::ids::{
    id_chars, parsed_id, AnnotationId, AnnotationSetId, PromptExportId, RepositoryId,
    ReviewSessionId, WorkspaceId,
};
use crate::prompt::{
    choose_sets, comparison_position, document_of, export_file_name, first_bad_id,
    has_annotation_id, hunk_for_annotation, is_context, named_ids, parse_annotation_ids,
    prepare_prompt, prompt_contexts, prompt_export_file, prompt_path_style, prompt_preview,
    prompt_preview_from_record, prompt_scope, prompt_sets_for_session, read_ids, regeneration_input,
    repository_position, resolve_prompt_source, scope_is_known, set_position, source_sets,
    PreparedPrompt, PromptContext, PromptExportFile, PromptExportRecord, PromptFindings,
    PromptPathStyle, PromptScope, PromptSource, ScopeModel,
};
use crate::repositories::{Repository, RepositoryComparison};
use crate::sessions::{AnnotationSet, ReviewSession};
use crate::text::{opt_text, texts};
use crate::views::{PromptExportSaveFormat, PromptInput, PromptPreview};
use vstd::prelude::*;
use vstd::string::*;
use vstd::utf8::*;

verus! {

proof fn lemma_scope_names_differ()
    ensures
        "feedback"@ != "questions"@,
        "feedback"@ != "all"@,
        "feedback"@ != "selected"@,
        "feedback"@ != "focused_question"@,
        "questions"@ != "all"@,
        "questions"@ != "selected"@,
        "questions"@ != "focused_question"@,
        "all"@ != "selected"@,
        "all"@ != "focused_question"@,
        "selected"@ != "focused_question"@,
{
    reveal_strlit("feedback");
    reveal_strlit("questions");
    reveal_strlit("all");
    reveal_strlit("selected");
    reveal_strlit("focused_question");
    assert("feedback"@.len() == 8);
    assert("questions"@.len() == 9);
    assert("all"@.len() == 3);
    assert("selected"@.len() == 8);
    assert("focused_question"@.len() == 16);
    assert("feedback"@[0] == 'f');
    assert("selected"@[0] == 's');
}

/// A scope stands for what its name says: feedback for what asks for action,
/// questions for questions, all for both, selected for the annotations that
/// were named, in their order, and a focused question for the one annotation
/// that was named. Any other name, and a focused question that is not one, is
/// refused.
pub proof fn law_scopes_stand_for_what_they_name(
    scope: &str,
    selected: Vec<AnnotationId>,
    result: Result<PromptScope, DispatchError>,
)
    requires
        call_ensures(prompt_scope, (scope, selected), result),
    ensures
        scope@ == "feedback"@ <==> result matches Ok(PromptScope::AllActionable),
        scope@ == "questions"@ <==> result matches Ok(PromptScope::AllQuestions),
        scope@ == "all"@ <==> result matches Ok(PromptScope::CommentsAndQuestions),
        scope@ == "selected"@ <==> (result matches Ok(PromptScope::Selected(ids)) && ids@
            == selected@),
        scope@ == "focused_question"@ && selected@.len() == 1 <==> (result matches Ok(
            PromptScope::FocusedQuestion(id),
        ) && selected@ == seq![id]),
        result is Err <==> !(scope@ == "feedback"@ || scope@ == "questions"@ || scope@ == "all"@
            || scope@ == "selected"@ || (scope@ == "focused_question"@ && selected@.len() == 1)),
        result matches Err(error) ==> error is Invalid,
{
    lemma_scope_names_differ();
    if selected@.len() == 1 {
        assert(selected@ =~= seq![selected@[0]]);
    }
}

proof fn lemma_style_names_differ()
    ensures
        "portable"@ != "qualified"@,
        "portable"@ != "absolute"@,
        "qualified"@ != "absolute"@,
{
    reveal_strlit("portable");
    reveal_strlit("qualified");
    reveal_strlit("absolute");
    assert("portable"@[0] == 'p');
    assert("qualified"@[0] == 'q');
    assert("absolute"@[0] == 'a');
}

/// Paths are written in the style that was named, whatever the flag says. The
/// flag decides where no style was named, and without it paths are absolute.
/// An unknown style is refused.
pub proof fn law_paths_are_written_in_the_named_style(
    path_style: Option<&str>,
    portable: Option<bool>,
    result: Result<PromptPathStyle, DispatchError>,
)
    requires
        call_ensures(prompt_path_style, (path_style, portable), result),
    ensures
        path_style matches Some(name) ==> {
            &&& name@ == "portable"@ <==> result == Ok::<PromptPathStyle, DispatchError>(
                PromptPathStyle::Portable,
            )
            &&& name@ == "qualified"@ <==> result == Ok::<PromptPathStyle, DispatchError>(
                PromptPathStyle::Qualified,
            )
            &&& name@ == "absolute"@ <==> result == Ok::<PromptPathStyle, DispatchError>(
                PromptPathStyle::Absolute,
            )
        },
        path_style is None ==> result is Ok,
        path_style is None && portable == Some(true) ==> result->Ok_0 == PromptPathStyle::Portable,
        path_style is None && portable == Some(false) ==> result->Ok_0
            == PromptPathStyle::Qualified,
        path_style is None && portable is None ==> result->Ok_0 == PromptPathStyle::Absolute,
{
    lemma_style_names_differ();
}

proof fn lemma_bad_id(ids: Seq<String>)
    ensures
        first_bad_id(ids) is Some <==> exists|i: int|
            0 <= i < ids.len() && parsed_id((#[trigger] ids[i])@) is None,
    decreases ids.len(),
{
    if ids.len() > 0 {
        lemma_bad_id(ids.drop_last());
        let n = ids.len() - 1;
        if first_bad_id(ids.drop_last()) is Some {
            let i = choose|i: int|
                0 <= i < ids.drop_last().len() && parsed_id((#[trigger] ids.drop_last()[i])@)
                    is None;
            assert(parsed_id(ids[i]@) is None);
        } else if parsed_id(ids.last()@) is None {
            assert(parsed_id(ids[n]@) is None);
        } else {
            assert forall|i: int| 0 <= i < ids.len() implies parsed_id(
                (#[trigger] ids[i])@,
            ) is Some by {
                if i < n {
                    assert(ids.drop_last()[i] == ids[i]);
                }
            }
        }
    }
}

/// Whether there is an annotation with an id.
pub open spec fn is_there(annotations: Seq<Annotation>, id: AnnotationId) -> bool {
    exists|i: int| 0 <= i < annotations.len() && (#[trigger] annotations[i]).id == id
}

/// The ids that a request names are read one for one and in their order; a
/// single one that is none fails the request.
pub proof fn law_ids_are_read_in_their_order(
    ids: Vec<String>,
    result: Result<Vec<AnnotationId>, DispatchError>,
)
    requires
        call_ensures(parse_annotation_ids, (&ids,), result),
    ensures
        result is Ok <==> forall|i: int|
            0 <= i < ids@.len() ==> parsed_id((#[trigger] ids@[i])@) is Some,
        result matches Ok(read) ==> {
            &&& read@.len() == ids@.len()
            &&& forall|i: int|
                0 <= i < read@.len() ==> parsed_id(ids@[i]@) == Some((#[trigger] read@[i]).0)
        },
{
    lemma_bad_id(ids@);
}

/// A prompt of chosen annotations is made of exactly those that were named, in
/// their order, where each of them is there; a name that is none, and an
/// annotation that is not there, is refused.
pub proof fn law_chosen_annotations_make_the_prompt(
    input: PromptInput,
    annotations: Vec<Annotation>,
    result: Result<PreparedPrompt, DispatchError>,
)
    requires
        call_ensures(prepare_prompt, (&input, None::<PromptScope>, &annotations), result),
        input.scope@ == "selected"@,
        input.path_style is None,
    ensures
        result is Ok <==> forall|i: int|
            0 <= i < input.annotation_ids@.len() ==> (parsed_id(
                (#[trigger] input.annotation_ids@[i])@,
            ) matches Some(id) && is_there(annotations@, AnnotationId(id))),
        result matches Ok(prepared) ==> {
            &&& prepared.scope matches PromptScope::Selected(ids) && ids@.len()
                == input.annotation_ids@.len() && forall|i: int|
                0 <= i < ids@.len() ==> parsed_id(input.annotation_ids@[i]@) == Some(
                    (#[trigger] ids@[i]).0,
                )
            &&& prepared.include_diff_hunks <==> input.include_diff_hunks == Some(true)
            &&& prepared.include_git_state <==> input.include_git_state == Some(true)
        },
{
    lemma_scope_names_differ();
    lemma_bad_id(input.annotation_ids@);
    let ids = read_ids(input.annotation_ids@);
    let scope = ScopeModel::Selected(ids);
    if first_bad_id(input.annotation_ids@) is None {
        assert(named_ids(scope) == ids);
        if scope_is_known(scope, annotations@) {
            assert forall|i: int| 0 <= i < input.annotation_ids@.len() implies (parsed_id(
                (#[trigger] input.annotation_ids@[i])@,
            ) matches Some(id) && is_there(annotations@, AnnotationId(id))) by {
                assert(has_annotation_id(
                    annotations@,
                    named_ids(scope)[i],
                ));
            }
        } else {
            let i = choose|i: int|
                0 <= i < named_ids(scope).len()
                    && !has_annotation_id(
                    annotations@,
                    #[trigger] named_ids(scope)[i],
                );
            let id = AnnotationId(parsed_id(input.annotation_ids@[i]@)->0);
            assert(ids[i] == id);
            assert(!is_there(annotations@, id));
        }
    } else {
        let i = choose|i: int|
            0 <= i < input.annotation_ids@.len() && parsed_id(
                (#[trigger] input.annotation_ids@[i])@,
            ) is None;
        assert(parsed_id(input.annotation_ids@[i]@) is None);
    }
}

/// A prompt about a single question is made of an annotation that is there.
pub proof fn law_focused_questions_are_there(
    input: PromptInput,
    annotations: Vec<Annotation>,
    result: Result<PreparedPrompt, DispatchError>,
)
    requires
        call_ensures(prepare_prompt, (&input, None::<PromptScope>, &annotations), result),
        input.scope@ == "focused_question"@,
        result is Ok,
    ensures
        result->Ok_0.scope matches PromptScope::FocusedQuestion(id) && is_there(annotations@, id)
            && input.annotation_ids@.len() == 1 && parsed_id(input.annotation_ids@[0]@) == Some(
            id.0,
        ),
{
    lemma_scope_names_differ();
    lemma_bad_id(input.annotation_ids@);
    let ids = read_ids(input.annotation_ids@);
    let scope = ScopeModel::FocusedQuestion(ids[0]);
    assert(result->Ok_0.scope@ == scope);
    assert(named_ids(scope)[0] == ids[0]);
    assert(has_annotation_id(annotations@, ids[0]));
}

/// A prompt that is made anew keeps the scope that is on record, whatever the
/// request names.
pub proof fn law_recorded_scopes_are_kept(
    input: PromptInput,
    stored: PromptScope,
    annotations: Vec<Annotation>,
    result: Result<PreparedPrompt, DispatchError>,
)
    requires
        call_ensures(prepare_prompt, (&input, Some(stored), &annotations), result),
        result is Ok,
    ensures
        match (stored, result->Ok_0.scope) {
            (PromptScope::AllActionable, PromptScope::AllActionable) => true,
            (PromptScope::AllQuestions, PromptScope::AllQuestions) => true,
            (PromptScope::CommentsAndQuestions, PromptScope::CommentsAndQuestions) => true,
            (PromptScope::Selected(before), PromptScope::Selected(after)) => before@ == after@,
            (PromptScope::FocusedQuestion(before), PromptScope::FocusedQuestion(after)) => before
                == after,
            _ => false,
        },
{
}

proof fn lemma_repository_position(repositories: Seq<Repository>, id: RepositoryId)
    ensures
        match repository_position(repositories, id) {
            Some(place) => {
                &&& 0 <= place < repositories.len()
                &&& repositories[place].id == id
                &&& forall|i: int| 0 <= i < place ==> (#[trigger] repositories[i]).id != id
            },
            None => forall|i: int|
                0 <= i < repositories.len() ==> (#[trigger] repositories[i]).id != id,
        },
    decreases repositories.len(),
{
    if repositories.len() > 0 {
        let before = repositories.drop_last();
        lemma_repository_position(before, id);
        assert forall|i: int| 0 <= i < before.len() implies before[i]
            == #[trigger] repositories[i] by {}
    }
}

proof fn lemma_comparison_position(comparisons: Seq<RepositoryComparison>, id: RepositoryId)
    ensures
        match comparison_position(comparisons, id) {
            Some(place) => {
                &&& 0 <= place < comparisons.len()
                &&& comparisons[place].repository_id == id
                &&& forall|i: int|
                    place < i < comparisons.len() ==> (#[trigger] comparisons[i]).repository_id
                        != id
            },
            None => forall|i: int|
                0 <= i < comparisons.len() ==> (#[trigger] comparisons[i]).repository_id != id,
        },
    decreases comparisons.len(),
{
    if comparisons.len() > 0 {
        let before = comparisons.drop_last();
        lemma_comparison_position(before, id);
        assert forall|i: int| 0 <= i < before.len() implies before[i]
            == #[trigger] comparisons[i] by {}
    }
}

proof fn lemma_document_of(annotation: Annotation, documents: Seq<ReviewDiffDocument>, place: int)
    requires
        0 <= place < documents.len(),
        shows_file(annotation, documents[place]),
        forall|i: int| 0 <= i < place ==> !shows_file(annotation, #[trigger] documents[i]),
    ensures
        document_of(annotation, documents) == Some(documents[place]),
    decreases documents.len(),
{
    if place > 0 {
        assert(!shows_file(annotation, documents[0]));
        let rest = documents.drop_first();
        assert(rest[place - 1] == documents[place]);
        assert forall|i: int| 0 <= i < place - 1 implies !shows_file(
            annotation,
            #[trigger] rest[i],
        ) by {
            assert(rest[i] == documents[i + 1]);
        }
        lemma_document_of(annotation, rest, place - 1);
    }
}

/// Whether a document is the captured file that an annotation is about.
pub open spec fn shows_file(annotation: Annotation, document: ReviewDiffDocument) -> bool {
    annotation.anchor matches Some(anchor) && anchor.comparison_id == document.comparison_id
        && anchor.file_path@ == document.file.path@
}

/// A context shows of the file that its annotation is about the hunk that the
/// annotation stands at: the text that the two of them give on their own.
pub proof fn law_contexts_show_the_hunk_of_the_annotation(
    annotations: Vec<Annotation>,
    repositories: Vec<Repository>,
    comparisons: Vec<RepositoryComparison>,
    documents: Vec<ReviewDiffDocument>,
    contexts: Vec<Option<PromptContext>>,
    index: int,
    place: int,
    text: Option<String>,
)
    requires
        call_ensures(
            prompt_contexts,
            (&annotations, &repositories, &comparisons, &documents),
            contexts,
        ),
        0 <= index < annotations@.len(),
        0 <= place < documents@.len(),
        shows_file(annotations@[index], documents@[place]),
        forall|i: int|
            0 <= i < place ==> !shows_file(annotations@[index], #[trigger] documents@[i]),
        call_ensures(hunk_for_annotation, (&annotations@[index], &documents@[place]), text),
    ensures
        contexts@.len() == annotations@.len(),
        contexts@[index] is Some ==> opt_text(contexts@[index]->0.relevant_hunk) == opt_text(text),
{
    assert(is_context(
        contexts@[index],
        annotations@[index],
        repositories@,
        comparisons@,
        documents@,
    ));
    lemma_document_of(annotations@[index], documents@, place);
}

/// An annotation has a context just where its repository and a comparison of it
/// are on record: the context names that repository and the last of its
/// comparisons.
pub proof fn law_contexts_name_the_repository(
    annotations: Vec<Annotation>,
    repositories: Vec<Repository>,
    comparisons: Vec<RepositoryComparison>,
    documents: Vec<ReviewDiffDocument>,
    contexts: Vec<Option<PromptContext>>,
    index: int,
)
    requires
        call_ensures(
            prompt_contexts,
            (&annotations, &repositories, &comparisons, &documents),
            contexts,
        ),
        0 <= index < annotations@.len(),
    ensures
        contexts@.len() == annotations@.len(),
        contexts@[index] is Some <==> (annotations@[index].anchor matches Some(anchor) && (exists|
            r: int,
            c: int,
        |
            0 <= r < repositories@.len() && 0 <= c < comparisons@.len()
                && #[trigger] repositories@[r].id == anchor.repository_id
                && #[trigger] comparisons@[c].repository_id == anchor.repository_id)),
        contexts@[index] matches Some(found) ==> {
            let id = annotations@[index].anchor->0.repository_id;
            &&& found.repository < repositories@.len()
            &&& repositories@[found.repository as int].id == id
            &&& found.comparison < comparisons@.len()
            &&& comparisons@[found.comparison as int].repository_id == id
            &&& forall|c: int|
                found.comparison < c < comparisons@.len()
                    ==> (#[trigger] comparisons@[c]).repository_id != id
        },
{
    assert(is_context(
        contexts@[index],
        annotations@[index],
        repositories@,
        comparisons@,
        documents@,
    ));
    if annotations@[index].anchor is Some {
        let id = annotations@[index].anchor->0.repository_id;
        lemma_repository_position(repositories@, id);
        lemma_comparison_position(comparisons@, id);
        if repository_position(repositories@, id) is Some && comparison_position(comparisons@, id)
            is Some {
            let r = repository_position(repositories@, id)->0;
            let c = comparison_position(comparisons@, id)->0;
            assert(repositories@[r].id == id && comparisons@[c].repository_id == id);
        }
    }
}

/// Where no estimate is on record, a prompt is taken to have a token for every
/// four bytes, the last of them perhaps not full. What is on record stands.
pub proof fn law_a_token_is_four_bytes(
    record: PromptExportRecord,
    scope_title: &str,
    markdown: String,
    annotation_count: usize,
    preview: PromptPreview,
)
    requires
        call_ensures(prompt_preview, (&record, scope_title, markdown, annotation_count), preview),
    ensures
        preview.content@ == markdown@,
        preview.export_id@ == id_chars(record.id.0),
        record.title matches Some(title) ==> preview.title@ == title@,
        record.title is None ==> preview.title@ == scope_title@,
        record.annotation_count matches Some(count) ==> preview.annotation_count == count,
        record.annotation_count is None ==> preview.annotation_count == annotation_count,
        record.estimated_tokens matches Some(count) ==> preview.estimated_tokens == count,
        record.estimated_tokens is None ==> {
            let bytes = encode_utf8(markdown@).len();
            bytes <= 4 * preview.estimated_tokens < bytes + 4
        },
{
}

/// A prompt on record is shown as it was written, and counts its annotations
/// where no count is on record.
pub proof fn law_recorded_prompts_are_shown_as_written(
    record: PromptExportRecord,
    scope_title: &str,
    preview: PromptPreview,
)
    requires
        record.rendered_markdown is Some,
        call_ensures(prompt_preview_from_record, (&record, scope_title), preview),
    ensures
        preview.content@ == record.rendered_markdown->0@,
        preview.export_id@ == id_chars(record.id.0),
        record.title matches Some(title) ==> preview.title@ == title@,
        record.annotation_count matches Some(count) ==> preview.annotation_count == count,
        record.annotation_count is None ==> preview.annotation_count
            == record.annotation_ids@.len(),
        record.estimated_tokens matches Some(count) ==> preview.estimated_tokens == count,
{
}

proof fn lemma_set_position(sets: Seq<AnnotationSet>, id: AnnotationSetId)
    ensures
        match set_position(sets, id) {
            Some(place) => {
                &&& 0 <= place < sets.len()
                &&& sets[place].id == id
                &&& forall|i: int| 0 <= i < place ==> (#[trigger] sets[i]).id != id
            },
            None => forall|i: int| 0 <= i < sets.len() ==> (#[trigger] sets[i]).id != id,
        },
    decreases sets.len(),
{
    if sets.len() > 0 {
        let before = sets.drop_last();
        lemma_set_position(before, id);
        assert forall|i: int| 0 <= i < before.len() implies before[i] == #[trigger] sets[i] by {}
    }
}

/// Whether the sets with an id, of which there is one, are of a review round.
pub open spec fn is_of_round(
    sets: Seq<AnnotationSet>,
    id: AnnotationSetId,
    session: ReviewSessionId,
) -> bool {
    &&& exists|i: int| 0 <= i < sets.len() && (#[trigger] sets[i]).id == id
    &&& forall|i: int|
        0 <= i < sets.len() && (#[trigger] sets[i]).id == id ==> sets[i].review_session_id
            == session
}

proof fn lemma_sets_of_the_round(
    ids: Seq<AnnotationSetId>,
    sets: Seq<AnnotationSet>,
    session: ReviewSessionId,
)
    requires
        forall|i: int| 0 <= i < ids.len() ==> is_of_round(sets, #[trigger] ids[i], session),
    ensures
        choose_sets(ids, sets, session) is Chosen,
    decreases ids.len(),
{
    if ids.len() > 0 {
        assert forall|i: int| 0 <= i < ids.drop_last().len() implies is_of_round(
            sets,
            #[trigger] ids.drop_last()[i],
            session,
        ) by {
            assert(ids.drop_last()[i] == ids[i]);
        }
        lemma_sets_of_the_round(ids.drop_last(), sets, session);
        assert(is_of_round(sets, ids[ids.len() - 1], session));
        lemma_set_position(sets, ids.last());
    }
}

proof fn lemma_chosen_sets(
    ids: Seq<AnnotationSetId>,
    sets: Seq<AnnotationSet>,
    session: ReviewSessionId,
)
    requires
        choose_sets(ids, sets, session) is Chosen,
    ensures
        ({
            let chosen = choose_sets(ids, sets, session)->Chosen_0;
            &&& chosen.no_duplicates()
            &&& forall|id: AnnotationSetId| #[trigger] chosen.contains(id) <==> ids.contains(id)
            &&& forall|id: AnnotationSetId| #[trigger]
                chosen.contains(id) ==> exists|i: int|
                    0 <= i < sets.len() && (#[trigger] sets[i]).id == id
                        && sets[i].review_session_id == session
        }),
    decreases ids.len(),
{
    let chosen = choose_sets(ids, sets, session)->Chosen_0;
    if ids.len() == 0 {
        assert(chosen.len() == 0);
    } else {
        let before = choose_sets(ids.drop_last(), sets, session)->Chosen_0;
        assert(choose_sets(ids.drop_last(), sets, session) is Chosen);
        lemma_chosen_sets(ids.drop_last(), sets, session);
        lemma_set_position(sets, ids.last());
        assert forall|id: AnnotationSetId| ids.contains(id) <==> (id == ids.last()
            || ids.drop_last().contains(id)) by {
            if ids.contains(id) {
                let i = choose|i: int| 0 <= i < ids.len() && ids[i] == id;
                if i < ids.len() - 1 {
                    assert(ids.drop_last()[i] == id);
                }
            }
            if ids.drop_last().contains(id) {
                let i = choose|i: int| 0 <= i < ids.drop_last().len() && ids.drop_last()[i] == id;
                assert(ids[i] == id);
            }
            assert(ids[ids.len() - 1] == ids.last());
        }
        if !before.contains(ids.last()) {
            assert(chosen == before.push(ids.last()));
            assert forall|id: AnnotationSetId| chosen.contains(id) <==> (id == ids.last()
                || before.contains(id)) by {
                if chosen.contains(id) {
                    let i = choose|i: int| 0 <= i < chosen.len() && chosen[i] == id;
                    if i < before.len() {
                        assert(before[i] == id);
                    }
                }
                if before.contains(id) {
                    let i = choose|i: int| 0 <= i < before.len() && before[i] == id;
                    assert(chosen[i] == id);
                }
                assert(chosen[chosen.len() - 1] == ids.last());
            }
            assert(sets[set_position(sets, ids.last())->0].id == ids.last());
        }
    }
}

/// A prompt is made of every set that was named, of each once, and of no other;
/// all of them are sets of the review round. It is made wherever each set that
/// was named is one of the round.
pub proof fn law_prompts_draw_on_the_named_sets(
    session: ReviewSessionId,
    ids: Vec<AnnotationSetId>,
    sets: Vec<AnnotationSet>,
    result: Result<Vec<AnnotationSetId>, DispatchError>,
)
    requires
        call_ensures(prompt_sets_for_session, (session, &ids, &sets), result),
    ensures
        ids@.len() == 0 ==> result is Err,
        ids@.len() > 0 && (forall|i: int|
            0 <= i < ids@.len() ==> is_of_round(sets@, #[trigger] ids@[i], session))
            ==> result is Ok,
        result matches Ok(chosen) ==> {
            &&& chosen@.no_duplicates()
            &&& forall|id: AnnotationSetId| #[trigger]
                chosen@.contains(id) <==> ids@.contains(id)
            &&& forall|id: AnnotationSetId| #[trigger]
                chosen@.contains(id) ==> exists|i: int|
                    0 <= i < sets@.len() && (#[trigger] sets@[i]).id == id
                        && sets@[i].review_session_id == session
        },
{
    if ids@.len() > 0 {
        if forall|i: int| 0 <= i < ids@.len() ==> is_of_round(sets@, #[trigger] ids@[i], session) {
            lemma_sets_of_the_round(ids@, sets@, session);
        }
        if choose_sets(ids@, sets@, session) is Chosen {
            lemma_chosen_sets(ids@, sets@, session);
        }
    }
}

/// A prompt of the active review draws on its set of annotations, and there is
/// none without a review or without a set.
pub proof fn law_current_prompts_draw_on_the_active_set(
    workspace_id: WorkspaceId,
    session: Option<ReviewSession>,
    set: Option<AnnotationSet>,
    result: Result<PromptSource, DispatchError>,
)
    requires
        call_ensures(
            resolve_prompt_source,
            (workspace_id, (PromptFindings::Current { session, set })),
            result,
        ),
    ensures
        result is Ok <==> session is Some && set is Some,
        result matches Ok(source) ==> source matches PromptSource::Fresh {
            session: round,
            sets,
            scope,
        } && round == session->0.id && sets@ == seq![set->0.id] && scope is None,
{
}

/// A prompt of a past round draws on every set of the round, in their order, in
/// its own workspace alone.
pub proof fn law_past_prompts_draw_on_their_round(
    workspace_id: WorkspaceId,
    id: ReviewSessionId,
    session: ReviewSession,
    sets: Vec<AnnotationSet>,
    result: Result<PromptSource, DispatchError>,
)
    requires
        call_ensures(
            resolve_prompt_source,
            (workspace_id, (PromptFindings::Review { id, session: Some(session), sets })),
            result,
        ),
    ensures
        result is Ok <==> session.workspace_id == workspace_id && sets@.len() > 0,
        result matches Ok(source) ==> source matches PromptSource::Fresh {
            session: round,
            sets: drawn,
            scope,
        } && round == session.id && scope is None && drawn@.len() == sets@.len() && forall|i: int|
            0 <= i < drawn@.len() ==> #[trigger] drawn@[i] == sets@[i].id,
{
}

/// A prompt of a checkpoint draws on that set, in its own workspace alone.
pub proof fn law_checkpoint_prompts_draw_on_the_set(
    workspace_id: WorkspaceId,
    id: AnnotationSetId,
    set: AnnotationSet,
    session: ReviewSession,
    result: Result<PromptSource, DispatchError>,
)
    requires
        call_ensures(
            resolve_prompt_source,
            (
                workspace_id,
                (PromptFindings::Checkpoint { id, set: Some(set), session: Some(session) }),
            ),
            result,
        ),
    ensures
        result is Ok <==> session.workspace_id == workspace_id,
        result matches Ok(source) ==> source matches PromptSource::Fresh {
            session: round,
            sets,
            scope,
        } && round == session.id && sets@ == seq![set.id] && scope is None,
{
}

/// What is written to a file tells of the prompt what is on record of it: the
/// text word for word, every annotation and every set by its id, and where no
/// sets are on record the one set that it was made of.
pub proof fn law_export_files_hold_the_record(
    record: PromptExportRecord,
    scope_title: &str,
    result: Result<PromptExportFile, DispatchError>,
)
    requires
        call_ensures(prompt_export_file, (&record, scope_title), result),
    ensures
        result is Ok <==> record.rendered_markdown is Some,
        result matches Ok(file) ==> {
            &&& file.rendered_markdown@ == record.rendered_markdown->0@
            &&& file.export_id@ == id_chars(record.id.0)
            &&& file.template_version == record.template_version
            &&& file.annotation_ids@.len() == record.annotation_ids@.len()
            &&& forall|i: int|
                0 <= i < file.annotation_ids@.len() ==> (#[trigger] file.annotation_ids@[i])@
                    == id_chars(record.annotation_ids@[i].0)
            &&& record.annotation_set_ids@.len() > 0 ==> file.annotation_set_ids@.len()
                == record.annotation_set_ids@.len() && forall|i: int|
                0 <= i < file.annotation_set_ids@.len() ==> (
                #[trigger] file.annotation_set_ids@[i])@ == id_chars(
                    record.annotation_set_ids@[i].0,
                )
            &&& record.annotation_set_ids@.len() == 0 ==> file.annotation_set_ids@.len() == 1
                && file.annotation_set_ids@[0]@ == id_chars(record.annotation_set_id.0)
            &&& record.title matches Some(title) ==> file.title@ == title@
            &&& record.annotation_count is None ==> file.annotation_count
                == record.annotation_ids@.len()
            &&& file.created_at@ == record.created_at.chars()
        },
{
    if result is Ok {
        let file = result->Ok_0;
        let ids = record.annotation_ids@.map_values(|id: AnnotationId| id_chars(id.0));
        assert(texts(file.annotation_ids@) == ids);
        assert(texts(file.annotation_ids@).len() == file.annotation_ids@.len());
        assert forall|i: int| 0 <= i < file.annotation_ids@.len() implies (
        #[trigger] file.annotation_ids@[i])@ == id_chars(record.annotation_ids@[i].0) by {
            assert(texts(file.annotation_ids@)[i] == file.annotation_ids@[i]@);
            assert(ids[i] == id_chars(record.annotation_ids@[i].0));
        }
        let from = source_sets(record);
        let sets = from.map_values(|id: AnnotationSetId| id_chars(id.0));
        assert(texts(file.annotation_set_ids@) == sets);
        assert(texts(file.annotation_set_ids@).len() == file.annotation_set_ids@.len());
        assert forall|i: int| 0 <= i < file.annotation_set_ids@.len() implies (
        #[trigger] file.annotation_set_ids@[i])@ == id_chars(from[i].0) by {
            assert(texts(file.annotation_set_ids@)[i] == file.annotation_set_ids@[i]@);
            assert(sets[i] == id_chars(from[i].0));
        }
    }
}

/// A prompt is offered under a name that tells its id and ends as its format
/// asks: text ends in `.md`, structured data in `.json`.
pub proof fn law_export_files_are_named_by_their_prompt(
    id: PromptExportId,
    text_name: String,
    data_name: String,
)
    requires
        call_ensures(export_file_name, (id, PromptExportSaveFormat::Markdown), text_name),
        call_ensures(export_file_name, (id, PromptExportSaveFormat::Json), data_name),
    ensures
        text_name@ == "localreview-prompt-"@ + id_chars(id.0) + ".md"@,
        data_name@ == "localreview-prompt-"@ + id_chars(id.0) + ".json"@,
{
    reveal_strlit(".");
    reveal_strlit("md");
    reveal_strlit("json");
    reveal_strlit(".md");
    reveal_strlit(".json");
    assert("."@ + "md"@ =~= ".md"@);
    assert("."@ + "json"@ =~= ".json"@);
    let head = "localreview-prompt-"@ + id_chars(id.0);
    assert(text_name@ =~= head + ("."@ + "md"@));
    assert(data_name@ =~= head + ("."@ + "json"@));
}

/// What is asked to make a prompt anew names the prompt on record and no
/// annotation of its own.
pub proof fn law_prompts_are_made_anew_from_the_record(id: PromptExportId, input: PromptInput)
    requires
        call_ensures(regeneration_input, (id,), input),
    ensures
        input.history_id matches Some(history) && history@ == "export:"@ + id_chars(id.0),
        input.annotation_ids@.len() == 0,
        input.path_style is None && input.portable == Some(true),
{
}

} // verus!
