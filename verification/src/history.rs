//! The history of a workspace: checkpoints, prompts and former reviews.
use crate::annotations::{
    annotation_models, annotation_views, shown_annotation, Annotation, AnnotationModel,
};
use crate::document::ReviewDiffDocument;
use crate::ids::{id_chars, id_text, PromptExportId};
use crate::sessions::{AnnotationSet, ReviewSession, ReviewSessionStatus};
use crate::text_set::{
    lemma_before_irreflexive, lemma_before_total, lemma_before_transitive, order_texts, text_before,
    TextOrder,
};
use crate::time::Timestamp;
use crate::views::ReviewHistoryItem;
use vstd::prelude::*;
use vstd::string::*;

verus! {

/// What an entry of the history says.
pub struct HistoryModel {
    pub id: Seq<char>,
    pub label: Seq<char>,
    pub created_at: Seq<char>,
    pub annotation_count: usize,
    pub item_type: Seq<char>,
    pub annotations: Option<Seq<AnnotationModel>>,
}

impl View for ReviewHistoryItem {
    type V = HistoryModel;

    open spec fn view(&self) -> HistoryModel {
        HistoryModel {
            id: self.id@,
            label: self.label@,
            created_at: self.created_at@,
            annotation_count: self.annotation_count,
            item_type: self.item_type@,
            annotations: match self.annotations {
                Some(annotations) => Some(annotation_models(annotations@)),
                None => None,
            },
        }
    }
}

/// What the entries of a list say, in order.
pub open spec fn history_models(items: Seq<ReviewHistoryItem>) -> Seq<HistoryModel> {
    items.map_values(|item: ReviewHistoryItem| item@)
}

/// A set of annotations with the annotations in it.
#[derive(Debug)]
pub struct RecordedSet {
    pub set: AnnotationSet,
    pub annotations: Vec<Annotation>,
}

/// A prompt on record, with the title that it is shown under.
#[derive(Debug)]
pub struct RecordedExport {
    pub id: PromptExportId,
    pub title: String,
    pub annotation_count: usize,
    pub created_at: Timestamp,
}

/// What is on record of a review round.
#[derive(Debug)]
pub struct RecordedSession {
    pub session: ReviewSession,
    pub documents: Vec<ReviewDiffDocument>,
    pub sets: Vec<RecordedSet>,
    pub exports: Vec<RecordedExport>,
}

/// The time of a checkpoint: when it was archived, or else made.
pub open spec fn set_time(set: AnnotationSet) -> Timestamp {
    match set.archived_at {
        Some(time) => time,
        None => set.created_at,
    }
}

/// The entry of a checkpoint.
pub open spec fn set_entry(recorded: RecordedSet, documents: Seq<ReviewDiffDocument>, label: Seq<char>) -> HistoryModel {
    HistoryModel {
        id: "set:"@ + id_chars(recorded.set.id.0),
        label,
        created_at: set_time(recorded.set).chars(),
        annotation_count: recorded.annotations@.len() as usize,
        item_type: "clear"@,
        annotations: Some(
            recorded.annotations@.map_values(
                |annotation: Annotation| shown_annotation(annotation, documents),
            ),
        ),
    }
}

/// The entry of a prompt.
pub open spec fn export_entry(export: RecordedExport) -> HistoryModel {
    HistoryModel {
        id: "export:"@ + id_chars(export.id.0),
        label: export.title@,
        created_at: export.created_at.chars(),
        annotation_count: export.annotation_count,
        item_type: "export"@,
        annotations: None,
    }
}

/// How many annotations all sets have.
pub open spec fn annotation_total(sets: Seq<RecordedSet>) -> nat
    decreases sets.len(),
{
    if sets.len() == 0 {
        0
    } else {
        annotation_total(sets.drop_last()) + sets.last().annotations@.len()
    }
}

/// The entry of a review round that is over.
pub open spec fn review_entry(recorded: RecordedSession) -> HistoryModel {
    HistoryModel {
        id: "review:"@ + id_chars(recorded.session.id.0),
        label: "Archived review"@,
        created_at: (match recorded.session.archived_at {
            Some(time) => time,
            None => recorded.session.started_at,
        }).chars(),
        annotation_count: annotation_total(recorded.sets@) as usize,
        item_type: "review"@,
        annotations: None,
    }
}

/// Whether the set is the one that the user works on.
pub open spec fn is_current_set(set: AnnotationSet, session: ReviewSession) -> bool {
    set.active && session.status == ReviewSessionStatus::Active
}

/// The entries of the first `count` sets of a review round, without the one
/// that the user works on.
pub open spec fn set_entries(recorded: RecordedSession, count: nat) -> Seq<HistoryModel>
    decreases count,
{
    if count == 0 {
        Seq::empty()
    } else {
        let before = set_entries(recorded, (count - 1) as nat);
        let set = recorded.sets@[count - 1];
        if is_current_set(set.set, recorded.session) {
            before
        } else {
            before.push(set_entry(set, recorded.documents@, "Annotation checkpoint"@))
        }
    }
}

/// The entries of a review round: its checkpoints, its prompts, and itself
/// where it is over.
pub open spec fn session_entries(recorded: RecordedSession) -> Seq<HistoryModel> {
    set_entries(recorded, recorded.sets@.len()) + recorded.exports@.map_values(
        |export: RecordedExport| export_entry(export),
    ) + if recorded.session.status != ReviewSessionStatus::Active {
        seq![review_entry(recorded)]
    } else {
        Seq::empty()
    }
}

/// The entries of some review rounds, in order.
pub open spec fn all_entries(sessions: Seq<RecordedSession>) -> Seq<HistoryModel>
    decreases sessions.len(),
{
    if sessions.len() == 0 {
        Seq::empty()
    } else {
        all_entries(sessions.drop_last()) + session_entries(sessions.last())
    }
}

/// How many annotations the sets of a review round have fits a machine word.
pub open spec fn totals_fit(sessions: Seq<RecordedSession>) -> bool {
    forall|i: int|
        0 <= i < sessions.len() ==> annotation_total((#[trigger] sessions[i]).sets@) <= usize::MAX
}

/// Entries with one more in its place: behind those that are not older.
pub open spec fn placed(entries: Seq<HistoryModel>, entry: HistoryModel) -> Seq<HistoryModel>
    decreases entries.len(),
{
    if entries.len() > 0 && text_before(entries.last().created_at, entry.created_at) {
        placed(entries.drop_last(), entry).push(entries.last())
    } else {
        entries.push(entry)
    }
}

/// Entries with the newest ones first. Of equally old ones the order stays.
pub open spec fn newest_first(entries: Seq<HistoryModel>) -> Seq<HistoryModel>
    decreases entries.len(),
{
    if entries.len() == 0 {
        Seq::empty()
    } else {
        placed(newest_first(entries.drop_last()), entries.last())
    }
}

/// Whether no entry is newer than one in front of it.
pub open spec fn is_newest_first(entries: Seq<HistoryModel>) -> bool {
    forall|i: int, j: int|
        0 <= i < j < entries.len() ==> !text_before(
            (#[trigger] entries[i]).created_at,
            (#[trigger] entries[j]).created_at,
        )
}

proof fn lemma_placed(entries: Seq<HistoryModel>, entry: HistoryModel)
    requires
        is_newest_first(entries),
    ensures
        is_newest_first(placed(entries, entry)),
        placed(entries, entry).to_multiset() == entries.to_multiset().insert(entry),
        forall|k: int|
            0 <= k < placed(entries, entry).len() ==> #[trigger] placed(entries, entry)[k] == entry
                || entries.contains(placed(entries, entry)[k]),
    decreases entries.len(),
{
    broadcast use vstd::seq_lib::group_to_multiset_ensures;

    let result = placed(entries, entry);
    if entries.len() > 0 && text_before(entries.last().created_at, entry.created_at) {
        let shorter = entries.drop_last();
        let last = entries.last();
        assert forall|i: int, j: int| 0 <= i < j < shorter.len() implies !text_before(
            (#[trigger] shorter[i]).created_at,
            (#[trigger] shorter[j]).created_at,
        ) by {
            assert(entries[i] == shorter[i] && entries[j] == shorter[j]);
        }
        lemma_placed(shorter, entry);
        let inner = placed(shorter, entry);
        assert(result == inner.push(last));
        assert(entries =~= shorter.push(last));
        assert(result.to_multiset() =~= entries.to_multiset().insert(entry));
        assert forall|i: int, j: int| 0 <= i < j < result.len() implies !text_before(
            (#[trigger] result[i]).created_at,
            (#[trigger] result[j]).created_at,
        ) by {
            if j == inner.len() {
                assert(result[j] == last);
                assert(result[i] == inner[i]);
                if inner[i] == entry {
                    if text_before(entry.created_at, last.created_at) {
                        lemma_before_transitive(
                            entry.created_at,
                            last.created_at,
                            entry.created_at,
                        );
                        lemma_before_irreflexive(entry.created_at);
                    }
                } else {
                    let k = choose|k: int| 0 <= k < shorter.len() && shorter[k] == inner[i];
                    assert(entries[k] == inner[i]);
                    assert(entries[entries.len() - 1] == last);
                }
            } else {
                assert(result[i] == inner[i] && result[j] == inner[j]);
            }
        }
        assert forall|k: int| 0 <= k < result.len() implies #[trigger] result[k] == entry
            || entries.contains(result[k]) by {
            if k < inner.len() {
                assert(result[k] == inner[k]);
                if inner[k] != entry {
                    let m = choose|m: int| 0 <= m < shorter.len() && shorter[m] == inner[k];
                    assert(entries[m] == result[k]);
                }
            } else {
                assert(entries[entries.len() - 1] == result[k]);
            }
        }
    } else {
        assert(result =~= entries.push(entry));
        assert forall|i: int, j: int| 0 <= i < j < result.len() implies !text_before(
            (#[trigger] result[i]).created_at,
            (#[trigger] result[j]).created_at,
        ) by {
            if j == entries.len() {
                assert(result[i] == entries[i]);
                let last = entries[entries.len() - 1];
                if text_before(entries[i].created_at, entry.created_at) {
                    lemma_before_total(last.created_at, entry.created_at);
                    if text_before(entry.created_at, last.created_at) {
                        lemma_before_transitive(
                            entries[i].created_at,
                            entry.created_at,
                            last.created_at,
                        );
                    }
                    if i < entries.len() - 1 {
                        assert(!text_before(entries[i].created_at, last.created_at));
                    } else {
                        lemma_before_irreflexive(last.created_at);
                    }
                }
            } else {
                assert(result[i] == entries[i] && result[j] == entries[j]);
            }
        }
        assert forall|k: int| 0 <= k < result.len() implies #[trigger] result[k] == entry
            || entries.contains(result[k]) by {
            if k < entries.len() {
                assert(entries[k] == result[k]);
            }
        }
    }
}

/// The history has every entry once, and no entry is newer than one in front
/// of it.
pub proof fn law_history_is_complete_and_newest_first(entries: Seq<HistoryModel>)
    ensures
        is_newest_first(newest_first(entries)),
        newest_first(entries).to_multiset() == entries.to_multiset(),
        newest_first(entries).len() == entries.len(),
    decreases entries.len(),
{
    broadcast use vstd::seq_lib::group_to_multiset_ensures;

    if entries.len() > 0 {
        law_history_is_complete_and_newest_first(entries.drop_last());
        lemma_placed(newest_first(entries.drop_last()), entries.last());
        assert(entries =~= entries.drop_last().push(entries.last()));
    }
    assert(newest_first(entries).to_multiset().len() == newest_first(entries).len());
    assert(entries.to_multiset().len() == entries.len());
}

fn labelled(prefix: &str, id: u128) -> (text: String)
    ensures
        text@ == prefix@ + id_chars(id),
{
    let mut text = prefix.to_owned();
    text.append(id_text(id).as_str());
    text
}

/// The entry of a checkpoint under a label.
pub fn checkpoint_item(recorded: &RecordedSet, documents: &Vec<ReviewDiffDocument>, label: &str) -> (item:
    ReviewHistoryItem)
    ensures
        item@ == set_entry(*recorded, documents@, label@),
{
    let time: Timestamp = match recorded.set.archived_at {
        Some(time) => time,
        None => recorded.set.created_at,
    };
    ReviewHistoryItem {
        id: labelled("set:", recorded.set.id.0),
        label: label.to_owned(),
        created_at: time.to_rfc3339(),
        annotation_count: recorded.annotations.len(),
        item_type: "clear".to_owned(),
        annotations: Some(annotation_views(&recorded.annotations, documents)),
    }
}

fn export_item(export: &RecordedExport) -> (item: ReviewHistoryItem)
    ensures
        item@ == export_entry(*export),
{
    ReviewHistoryItem {
        id: labelled("export:", export.id.0),
        label: export.title.clone(),
        created_at: export.created_at.to_rfc3339(),
        annotation_count: export.annotation_count,
        item_type: "export".to_owned(),
        annotations: None,
    }
}

proof fn lemma_total_grows(sets: Seq<RecordedSet>, count: int)
    requires
        0 <= count <= sets.len(),
    ensures
        annotation_total(sets.take(count)) <= annotation_total(sets),
    decreases sets.len() - count,
{
    if count < sets.len() {
        assert(sets.take(count + 1).drop_last() =~= sets.take(count));
        lemma_total_grows(sets, count + 1);
    } else {
        assert(sets.take(count) =~= sets);
    }
}

/// How many annotations all sets of a review round have.
pub fn sets_annotation_count(sets: &Vec<RecordedSet>) -> (count: usize)
    requires
        annotation_total(sets@) <= usize::MAX,
    ensures
        count == annotation_total(sets@),
{
    let mut count: usize = 0;
    let mut i: usize = 0;
    assert(sets@.take(0) =~= Seq::<RecordedSet>::empty());
    while i < sets.len()
        invariant
            i <= sets.len(),
            annotation_total(sets@) <= usize::MAX,
            count == annotation_total(sets@.take(i as int)),
        decreases sets.len() - i,
    {
        proof {
            assert(sets@.take(i + 1).drop_last() =~= sets@.take(i as int));
            lemma_total_grows(sets@, i + 1);
        }
        count += sets[i].annotations.len();
        i += 1;
    }
    assert(sets@.take(sets.len() as int) =~= sets@);
    count
}

fn review_item(recorded: &RecordedSession) -> (item: ReviewHistoryItem)
    requires
        annotation_total(recorded.sets@) <= usize::MAX,
    ensures
        item@ == review_entry(*recorded),
{
    let time: Timestamp = match recorded.session.archived_at {
        Some(time) => time,
        None => recorded.session.started_at,
    };
    ReviewHistoryItem {
        id: labelled("review:", recorded.session.id.0),
        label: "Archived review".to_owned(),
        created_at: time.to_rfc3339(),
        annotation_count: sets_annotation_count(&recorded.sets),
        item_type: "review".to_owned(),
        annotations: None,
    }
}

fn push_item(items: &mut Vec<ReviewHistoryItem>, item: ReviewHistoryItem)
    ensures
        history_models(final(items)@) == history_models(old(items)@).push(item@),
{
    let ghost before = history_models(items@);
    let ghost model = item@;
    items.push(item);
    assert(history_models(items@) =~= before.push(model));
}

fn push_session(items: &mut Vec<ReviewHistoryItem>, recorded: &RecordedSession)
    requires
        annotation_total(recorded.sets@) <= usize::MAX,
    ensures
        history_models(final(items)@) == history_models(old(items)@) + session_entries(*recorded),
{
    let ghost start = history_models(items@);
    let mut i: usize = 0;
    assert(start + set_entries(*recorded, 0) =~= start);
    while i < recorded.sets.len()
        invariant
            i <= recorded.sets.len(),
            history_models(items@) == start + set_entries(*recorded, i as nat),
        decreases recorded.sets.len() - i,
    {
        let ghost before = set_entries(*recorded, i as nat);
        let set = &recorded.sets[i];
        if !(set.set.active && recorded.session.status == ReviewSessionStatus::Active) {
            push_item(items, checkpoint_item(set, &recorded.documents, "Annotation checkpoint"));
            assert(history_models(items@) =~= start + before.push(
                set_entry(*set, recorded.documents@, "Annotation checkpoint"@),
            ));
        }
        i += 1;
    }
    let ghost checkpoints = history_models(items@);
    let ghost exported = recorded.exports@.map_values(|export: RecordedExport| export_entry(export));
    let mut e: usize = 0;
    assert(checkpoints + exported.take(0) =~= checkpoints);
    while e < recorded.exports.len()
        invariant
            e <= recorded.exports.len(),
            exported == recorded.exports@.map_values(
                |export: RecordedExport| export_entry(export),
            ),
            history_models(items@) == checkpoints + exported.take(e as int),
        decreases recorded.exports.len() - e,
    {
        push_item(items, export_item(&recorded.exports[e]));
        assert(exported.take(e + 1) =~= exported.take(e as int).push(exported[e as int]));
        assert(history_models(items@) =~= checkpoints + exported.take(e + 1));
        e += 1;
    }
    assert(exported.take(exported.len() as int) =~= exported);
    if recorded.session.status != ReviewSessionStatus::Active {
        push_item(items, review_item(recorded));
        assert(history_models(items@) =~= start + session_entries(*recorded));
    } else {
        assert(history_models(items@) =~= start + session_entries(*recorded));
    }
}

fn place_item(items: &mut Vec<ReviewHistoryItem>, item: ReviewHistoryItem)
    ensures
        history_models(final(items)@) == placed(history_models(old(items)@), item@),
{
    let ghost start = items@;
    let ghost all = history_models(start);
    let ghost model = item@;
    let mut position: usize = items.len();
    assert(all.take(all.len() as int) =~= all);
    assert(all.skip(all.len() as int) =~= Seq::<HistoryModel>::empty());
    assert(placed(all, model) =~= placed(all.take(all.len() as int), model) + all.skip(
        all.len() as int,
    ));
    let mut searching: bool = true;
    while searching && position > 0
        invariant
            position <= items.len(),
            items@ == start,
            all == history_models(start),
            model == item@,
            placed(all, model) == placed(all.take(position as int), model) + all.skip(
                position as int,
            ),
            !searching ==> position > 0 && !text_before(
                all[position - 1].created_at,
                model.created_at,
            ),
        decreases position, searching as int,
    {
        let order = order_texts(items[position - 1].created_at.as_str(), item.created_at.as_str());
        assert(all[position - 1] == items@[position - 1]@);
        let ghost prefix = all.take(position as int);
        assert(prefix.last() == all[position - 1]);
        assert(prefix.drop_last() =~= all.take(position - 1));
        if order == TextOrder::Before {
            assert(placed(prefix, model) == placed(all.take(position - 1), model).push(
                all[position - 1],
            ));
            assert(placed(all.take(position - 1), model).push(all[position - 1]) + all.skip(
                position as int,
            ) =~= placed(all.take(position - 1), model) + all.skip(position - 1));
            position -= 1;
        } else {
            searching = false;
        }
    }
    assert(placed(all.take(position as int), model) == all.take(position as int).push(model)) by {
        if position > 0 {
            assert(all.take(position as int).last() == all[position - 1]);
        } else {
            assert(all.take(0).len() == 0);
        }
    }
    items.insert(position, item);
    assert(history_models(items@) =~= all.take(position as int).push(model) + all.skip(
        position as int,
    ));
}

/// Lists what happened to a workspace, the newest first.
pub fn history(sessions: &Vec<RecordedSession>) -> (items: Vec<ReviewHistoryItem>)
    requires
        totals_fit(sessions@),
    ensures
        history_models(items@) == newest_first(all_entries(sessions@)),
{
    let mut listed: Vec<ReviewHistoryItem> = Vec::new();
    let mut i: usize = 0;
    assert(sessions@.take(0) =~= Seq::<RecordedSession>::empty());
    assert(history_models(listed@) =~= all_entries(sessions@.take(0)));
    while i < sessions.len()
        invariant
            i <= sessions.len(),
            totals_fit(sessions@),
            history_models(listed@) == all_entries(sessions@.take(i as int)),
        decreases sessions.len() - i,
    {
        assert(sessions@.take(i + 1).drop_last() =~= sessions@.take(i as int));
        assert(annotation_total(sessions@[i as int].sets@) <= usize::MAX);
        push_session(&mut listed, &sessions[i]);
        i += 1;
    }
    assert(sessions@.take(sessions.len() as int) =~= sessions@);
    let ghost entries = history_models(listed@);
    let mut items: Vec<ReviewHistoryItem> = Vec::new();
    let mut done: usize = 0;
    assert(entries.take(0) =~= Seq::<HistoryModel>::empty());
    assert(history_models(items@) =~= newest_first(entries.take(0)));
    assert(entries.skip(0) =~= entries);
    let ghost total = listed.len();
    while listed.len() > 0
        invariant
            done + listed.len() == total,
            total == entries.len(),
            history_models(listed@) == entries.skip(done as int),
            history_models(items@) == newest_first(entries.take(done as int)),
        decreases listed.len(),
    {
        let ghost rest = history_models(listed@);
        let item = listed.remove(0);
        assert(history_models(listed@) =~= rest.drop_first());
        assert(rest.drop_first() =~= entries.skip(done + 1));
        assert(item@ == rest[0]);
        assert(rest[0] == entries[done as int]);
        assert(entries.take(done + 1).drop_last() =~= entries.take(done as int));
        assert(entries.take(done + 1).last() == entries[done as int]);
        place_item(&mut items, item);
        done += 1;
    }
    assert(entries.take(entries.len() as int) =~= entries);
    items
}

} // verus!
