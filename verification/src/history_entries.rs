//! What the history lists: every review round that is over, every checkpoint
//! and every prompt, each once.
use crate::history::{
    all_entries, annotation_total, export_entry, history, history_models, is_current_set,
    newest_first, placed, review_entry, session_entries, set_entries, set_entry, totals_fit,
    HistoryModel, RecordedExport, RecordedSession, RecordedSet,
};
use crate::ids::{id_chars, ReviewSessionId};
use crate::sessions::ReviewSessionStatus;
use crate::views::ReviewHistoryItem;
use vstd::prelude::*;
use vstd::string::*;

verus! {

/// How many entries have an id.
pub open spec fn entries_with_id(items: Seq<HistoryModel>, id: Seq<char>) -> nat
    decreases items.len(),
{
    if items.len() == 0 {
        0
    } else {
        entries_with_id(items.drop_last(), id) + if items.last().id == id {
            1nat
        } else {
            0
        }
    }
}

/// How many review rounds with an id are over.
pub open spec fn rounds_over(sessions: Seq<RecordedSession>, id: ReviewSessionId) -> nat
    decreases sessions.len(),
{
    if sessions.len() == 0 {
        0
    } else {
        rounds_over(sessions.drop_last(), id) + if sessions.last().session.id == id
            && sessions.last().session.status != ReviewSessionStatus::Active {
            1nat
        } else {
            0
        }
    }
}

/// How many annotations the first `count` sets have.
pub open spec fn annotations_in(sets: Seq<RecordedSet>, count: nat) -> nat
    decreases count,
{
    if count == 0 {
        0
    } else {
        annotations_in(sets, (count - 1) as nat) + sets[count - 1].annotations@.len()
    }
}

proof fn lemma_total(sets: Seq<RecordedSet>, count: nat)
    requires
        count <= sets.len(),
    ensures
        annotation_total(sets.take(count as int)) == annotations_in(sets, count),
    decreases count,
{
    if count > 0 {
        assert(sets.take(count as int).drop_last() =~= sets.take(count - 1));
        lemma_total(sets, (count - 1) as nat);
    }
}

proof fn lemma_placed_counts(entries: Seq<HistoryModel>, entry: HistoryModel, id: Seq<char>)
    ensures
        entries_with_id(placed(entries, entry), id) == entries_with_id(entries.push(entry), id),
        forall|k: int|
            0 <= k < placed(entries, entry).len() ==> (#[trigger] placed(entries, entry)[k])
                == entry || entries.contains(placed(entries, entry)[k]),
        placed(entries, entry).contains(entry),
        forall|other: HistoryModel|
            entries.contains(other) ==> #[trigger] placed(entries, entry).contains(other),
    decreases entries.len(),
{
    assert(entries.push(entry).drop_last() =~= entries);
    let result = placed(entries, entry);
    if result.len() != entries.len() + 1 || result != entries.push(entry) {
        let shorter = entries.drop_last();
        let last = entries.last();
        lemma_placed_counts(shorter, entry, id);
        assert(shorter.push(entry).drop_last() =~= shorter);
        let inner = placed(shorter, entry);
        assert(result == inner.push(last));
        assert(result.drop_last() =~= inner);
        assert(entries_with_id(entries, id) == entries_with_id(shorter, id) + if last.id == id {
            1nat
        } else {
            0
        });
        assert(entries_with_id(shorter.push(entry), id) == entries_with_id(shorter, id)
            + if entry.id == id {
            1nat
        } else {
            0
        });
        assert forall|k: int| 0 <= k < result.len() implies (#[trigger] result[k]) == entry
            || entries.contains(result[k]) by {
            if k < inner.len() {
                assert(result[k] == inner[k]);
                if inner[k] != entry {
                    let m = choose|m: int| 0 <= m < shorter.len() && shorter[m] == inner[k];
                    assert(entries[m] == result[k]);
                }
            } else {
                assert(entries[entries.len() - 1] == result[k]);
            }
        }
        let w = choose|w: int| 0 <= w < inner.len() && inner[w] == entry;
        assert(result[w] == entry);
        assert forall|other: HistoryModel| entries.contains(other) implies #[trigger] result.contains(
            other,
        ) by {
            let m = choose|m: int| 0 <= m < entries.len() && entries[m] == other;
            if m < shorter.len() {
                assert(shorter[m] == other);
                assert(inner.contains(other));
                let v = choose|v: int| 0 <= v < inner.len() && inner[v] == other;
                assert(result[v] == other);
            } else {
                assert(result[result.len() - 1] == other);
            }
        }
    } else {
        assert forall|k: int| 0 <= k < result.len() implies (#[trigger] result[k]) == entry
            || entries.contains(result[k]) by {
            if k < entries.len() {
                assert(entries[k] == result[k]);
            }
        }
        assert(result[entries.len() as int] == entry);
        assert forall|other: HistoryModel| entries.contains(other) implies #[trigger] result.contains(
            other,
        ) by {
            let m = choose|m: int| 0 <= m < entries.len() && entries[m] == other;
            assert(result[m] == other);
        }
    }
}

/// Ordering the entries changes neither which there are nor how many.
proof fn lemma_ordered_entries(entries: Seq<HistoryModel>, id: Seq<char>)
    ensures
        entries_with_id(newest_first(entries), id) == entries_with_id(entries, id),
        forall|entry: HistoryModel|
            newest_first(entries).contains(entry) <==> #[trigger] entries.contains(entry),
    decreases entries.len(),
{
    if entries.len() > 0 {
        let shorter = entries.drop_last();
        let last = entries.last();
        let sorted = newest_first(shorter);
        lemma_ordered_entries(shorter, id);
        lemma_placed_counts(sorted, last, id);
        assert(sorted.push(last).drop_last() =~= sorted);
        let result = newest_first(entries);
        assert(result == placed(sorted, last));
        assert forall|entry: HistoryModel|
            result.contains(entry) <==> #[trigger] entries.contains(entry) by {
            if entries.contains(entry) {
                let m = choose|m: int| 0 <= m < entries.len() && entries[m] == entry;
                if m < shorter.len() {
                    assert(shorter[m] == entry);
                    assert(shorter.contains(entry));
                    assert(sorted.contains(entry));
                }
            }
            if result.contains(entry) {
                let k = choose|k: int| 0 <= k < result.len() && result[k] == entry;
                if entry == last {
                    assert(entries[entries.len() - 1] == entry);
                } else {
                    assert(sorted.contains(result[k]));
                    assert(shorter.contains(entry));
                    let m = choose|m: int| 0 <= m < shorter.len() && shorter[m] == entry;
                    assert(entries[m] == entry);
                }
            }
        }
    } else {
        assert forall|entry: HistoryModel|
            newest_first(entries).contains(entry) <==> #[trigger] entries.contains(entry) by {}
    }
}

proof fn lemma_counts_concat(a: Seq<HistoryModel>, b: Seq<HistoryModel>, id: Seq<char>)
    ensures
        entries_with_id(a + b, id) == entries_with_id(a, id) + entries_with_id(b, id),
    decreases b.len(),
{
    if b.len() == 0 {
        assert(a + b =~= a);
    } else {
        assert((a + b).drop_last() =~= a + b.drop_last());
        lemma_counts_concat(a, b.drop_last(), id);
    }
}

proof fn lemma_none_with_id(entries: Seq<HistoryModel>, id: Seq<char>)
    requires
        forall|k: int| 0 <= k < entries.len() ==> (#[trigger] entries[k]).id != id,
    ensures
        entries_with_id(entries, id) == 0,
    decreases entries.len(),
{
    if entries.len() > 0 {
        assert(entries[entries.len() - 1].id != id);
        assert forall|k: int| 0 <= k < entries.drop_last().len() implies (
        #[trigger] entries.drop_last()[k]).id != id by {
            assert(entries[k].id != id);
        }
        lemma_none_with_id(entries.drop_last(), id);
    }
}

/// The checkpoints of a round: those that the user does not work on.
proof fn lemma_set_entries(recorded: RecordedSession, count: nat)
    requires
        count <= recorded.sets@.len(),
    ensures
        forall|k: int|
            0 <= k < set_entries(recorded, count).len() ==> exists|j: int|
                0 <= j < count && !is_current_set(
                    recorded.sets@[j].set,
                    recorded.session,
                ) && (#[trigger] set_entries(recorded, count)[k]) == set_entry(
                    #[trigger] recorded.sets@[j],
                    recorded.documents@,
                    "Annotation checkpoint"@,
                ),
        forall|j: int|
            0 <= j < count && !is_current_set(recorded.sets@[j].set, recorded.session)
                ==> set_entries(recorded, count).contains(
                set_entry(
                    #[trigger] recorded.sets@[j],
                    recorded.documents@,
                    "Annotation checkpoint"@,
                ),
            ),
    decreases count,
{
    if count > 0 {
        let less = (count - 1) as nat;
        lemma_set_entries(recorded, less);
        let before = set_entries(recorded, less);
        let after = set_entries(recorded, count);
        let last = recorded.sets@[count - 1];
        assert forall|k: int| 0 <= k < after.len() implies exists|j: int|
            0 <= j < count && !is_current_set(recorded.sets@[j].set, recorded.session) && (
            #[trigger] after[k]) == set_entry(
                #[trigger] recorded.sets@[j],
                recorded.documents@,
                "Annotation checkpoint"@,
            ) by {
            if k < before.len() {
                assert(after[k] == before[k]);
                let j = choose|j: int|
                    0 <= j < less && !is_current_set(recorded.sets@[j].set, recorded.session)
                        && before[k] == set_entry(
                        #[trigger] recorded.sets@[j],
                        recorded.documents@,
                        "Annotation checkpoint"@,
                    );
                assert(recorded.sets@[j] == recorded.sets@[j]);
            } else {
                assert(recorded.sets@[count - 1] == last);
            }
        }
        assert forall|j: int|
            0 <= j < count && !is_current_set(
                recorded.sets@[j].set,
                recorded.session,
            ) implies after.contains(
            set_entry(#[trigger] recorded.sets@[j], recorded.documents@, "Annotation checkpoint"@),
        ) by {
            let entry = set_entry(
                recorded.sets@[j],
                recorded.documents@,
                "Annotation checkpoint"@,
            );
            if j < less {
                assert(before.contains(entry));
                let k = choose|k: int| 0 <= k < before.len() && before[k] == entry;
                assert(after[k] == entry);
            } else {
                assert(after[after.len() - 1] == entry);
            }
        }
    }
}

proof fn lemma_id_prefixes_differ(a: u128, b: u128)
    ensures
        "review:"@ + id_chars(a) != "set:"@ + id_chars(b),
        "review:"@ + id_chars(a) != "export:"@ + id_chars(b),
        "set:"@ + id_chars(a) != "export:"@ + id_chars(b),
        "review:"@ + id_chars(a) == "review:"@ + id_chars(b) ==> a == b,
{
    reveal_strlit("review:");
    reveal_strlit("set:");
    reveal_strlit("export:");
    assert(("review:"@ + id_chars(a))[0] == 'r');
    assert(("set:"@ + id_chars(a))[0] == 's');
    assert(("set:"@ + id_chars(b))[0] == 's');
    assert(("export:"@ + id_chars(b))[0] == 'e');
    if "review:"@ + id_chars(a) == "review:"@ + id_chars(b) {
        let whole = "review:"@ + id_chars(a);
        assert(whole.skip(7) =~= id_chars(a));
        assert(whole.skip(7) =~= id_chars(b));
        crate::cache_keys::law_rendered_ids_tell_apart(a, b);
    }
}

/// Of one round, only the entry of the round itself has an id of a review.
proof fn lemma_review_entries_of_one(recorded: RecordedSession, id: ReviewSessionId)
    ensures
        entries_with_id(session_entries(recorded), "review:"@ + id_chars(id.0)) == if recorded.session.id
            == id && recorded.session.status != ReviewSessionStatus::Active {
            1nat
        } else {
            0
        },
{
    let wanted = "review:"@ + id_chars(id.0);
    let sets = set_entries(recorded, recorded.sets@.len());
    let exports = recorded.exports@.map_values(|export: RecordedExport| export_entry(export));
    let own = if recorded.session.status != ReviewSessionStatus::Active {
        seq![review_entry(recorded)]
    } else {
        Seq::empty()
    };
    assert(session_entries(recorded) == sets + exports + own);
    lemma_counts_concat(sets + exports, own, wanted);
    lemma_counts_concat(sets, exports, wanted);
    lemma_set_entries(recorded, recorded.sets@.len());
    assert forall|k: int| 0 <= k < sets.len() implies (#[trigger] sets[k]).id != wanted by {
        let j = choose|j: int|
            0 <= j < recorded.sets@.len() && sets[k] == set_entry(
                #[trigger] recorded.sets@[j],
                recorded.documents@,
                "Annotation checkpoint"@,
            );
        lemma_id_prefixes_differ(id.0, recorded.sets@[j].set.id.0);
    }
    lemma_none_with_id(sets, wanted);
    assert forall|k: int| 0 <= k < exports.len() implies (#[trigger] exports[k]).id != wanted by {
        lemma_id_prefixes_differ(id.0, recorded.exports@[k].id.0);
    }
    lemma_none_with_id(exports, wanted);
    if recorded.session.status != ReviewSessionStatus::Active {
        lemma_id_prefixes_differ(id.0, recorded.session.id.0);
        assert(own.drop_last() =~= Seq::<HistoryModel>::empty());
        assert(entries_with_id(own.drop_last(), wanted) == 0);
    }
}

proof fn lemma_review_entries(sessions: Seq<RecordedSession>, id: ReviewSessionId)
    ensures
        entries_with_id(all_entries(sessions), "review:"@ + id_chars(id.0)) == rounds_over(
            sessions,
            id,
        ),
    decreases sessions.len(),
{
    if sessions.len() > 0 {
        lemma_review_entries(sessions.drop_last(), id);
        lemma_review_entries_of_one(sessions.last(), id);
        lemma_counts_concat(
            all_entries(sessions.drop_last()),
            session_entries(sessions.last()),
            "review:"@ + id_chars(id.0),
        );
    }
}

/// The entries of every round are among all entries, and there are no others.
proof fn lemma_entries_of_rounds(sessions: Seq<RecordedSession>)
    ensures
        forall|i: int, entry: HistoryModel|
            #![trigger session_entries(sessions[i]).contains(entry)]
            0 <= i < sessions.len() && session_entries(sessions[i]).contains(entry)
                ==> all_entries(sessions).contains(entry),
        forall|entry: HistoryModel|
            #[trigger] all_entries(sessions).contains(entry) ==> exists|i: int|
                0 <= i < sessions.len() && session_entries(#[trigger] sessions[i]).contains(entry),
    decreases sessions.len(),
{
    if sessions.len() > 0 {
        let shorter = sessions.drop_last();
        let last = sessions.len() - 1;
        lemma_entries_of_rounds(shorter);
        let before = all_entries(shorter);
        let own = session_entries(sessions[last]);
        let all = all_entries(sessions);
        assert(all == before + own);
        assert forall|i: int, entry: HistoryModel|
            #![trigger session_entries(sessions[i]).contains(entry)]
            0 <= i < sessions.len() && session_entries(sessions[i]).contains(
                entry,
            ) implies all.contains(entry) by {
            if i < last {
                assert(shorter[i] == sessions[i]);
                assert(session_entries(shorter[i]).contains(entry));
                let k = choose|k: int| 0 <= k < before.len() && before[k] == entry;
                assert(all[k] == entry);
            } else {
                let k = choose|k: int| 0 <= k < own.len() && own[k] == entry;
                assert(all[before.len() + k] == entry);
            }
        }
        assert forall|entry: HistoryModel| #[trigger] all.contains(entry) implies exists|i: int|
            0 <= i < sessions.len() && session_entries(#[trigger] sessions[i]).contains(entry) by {
            let k = choose|k: int| 0 <= k < all.len() && all[k] == entry;
            if k < before.len() {
                assert(before[k] == entry);
                assert(before.contains(entry));
                let i = choose|i: int|
                    0 <= i < shorter.len() && session_entries(#[trigger] shorter[i]).contains(
                        entry,
                    );
                assert(sessions[i] == shorter[i]);
            } else {
                assert(own[k - before.len()] == entry);
                assert(session_entries(sessions[last]).contains(entry));
            }
        }
    }
}

/// The history has an entry with the id of a review round as often as there is
/// a round with that id that is over: once for a round that is over, and not at
/// all for the active one.
pub proof fn law_rounds_that_are_over_are_listed_once(
    sessions: Vec<RecordedSession>,
    items: Vec<ReviewHistoryItem>,
    id: ReviewSessionId,
)
    requires
        totals_fit(sessions@),
        call_ensures(history, (&sessions,), items),
    ensures
        entries_with_id(history_models(items@), "review:"@ + id_chars(id.0)) == rounds_over(
            sessions@,
            id,
        ),
{
    lemma_review_entries(sessions@, id);
    lemma_ordered_entries(all_entries(sessions@), "review:"@ + id_chars(id.0));
}

/// Whether an entry is that of a review round that is over.
pub open spec fn tells_of_round(item: ReviewHistoryItem, recorded: RecordedSession) -> bool {
    &&& item.id@ == "review:"@ + id_chars(recorded.session.id.0)
    &&& item.item_type@ == "review"@
    &&& item.label@ == "Archived review"@
    &&& item.annotation_count == annotations_in(recorded.sets@, recorded.sets@.len())
    &&& item.created_at@ == (match recorded.session.archived_at {
        Some(time) => time.chars(),
        None => recorded.session.started_at.chars(),
    })
}

/// Whether an entry is that of a checkpoint.
pub open spec fn tells_of_set(item: ReviewHistoryItem, recorded: RecordedSet) -> bool {
    &&& item.id@ == "set:"@ + id_chars(recorded.set.id.0)
    &&& item.item_type@ == "clear"@
    &&& item.annotation_count == recorded.annotations@.len()
    &&& item.annotations matches Some(shown) && shown@.len() == recorded.annotations@.len()
    &&& item.created_at@ == (match recorded.set.archived_at {
        Some(time) => time.chars(),
        None => recorded.set.created_at.chars(),
    })
}

/// Whether an entry is that of a prompt.
pub open spec fn tells_of_export(item: ReviewHistoryItem, export: RecordedExport) -> bool {
    &&& item.id@ == "export:"@ + id_chars(export.id.0)
    &&& item.item_type@ == "export"@
    &&& item.label@ == export.title@
    &&& item.annotation_count == export.annotation_count
    &&& item.created_at@ == export.created_at.chars()
}

/// Whether the history has an entry of a kind for something on record.
pub open spec fn lists_round(items: Seq<ReviewHistoryItem>, recorded: RecordedSession) -> bool {
    exists|k: int| 0 <= k < items.len() && tells_of_round(#[trigger] items[k], recorded)
}

/// Whether the history has the entry of a checkpoint.
pub open spec fn lists_set(items: Seq<ReviewHistoryItem>, recorded: RecordedSet) -> bool {
    exists|k: int| 0 <= k < items.len() && tells_of_set(#[trigger] items[k], recorded)
}

/// Whether the history has the entry of a prompt.
pub open spec fn lists_export(items: Seq<ReviewHistoryItem>, export: RecordedExport) -> bool {
    exists|k: int| 0 <= k < items.len() && tells_of_export(#[trigger] items[k], export)
}

proof fn lemma_listed(sessions: Vec<RecordedSession>, items: Vec<ReviewHistoryItem>, entry: HistoryModel) -> (k:
    int)
    requires
        totals_fit(sessions@),
        call_ensures(history, (&sessions,), items),
        all_entries(sessions@).contains(entry),
    ensures
        0 <= k < items@.len(),
        items@[k]@ == entry,
{
    lemma_ordered_entries(all_entries(sessions@), entry.id);
    let models = history_models(items@);
    assert(models.contains(entry));
    let k = choose|k: int| 0 <= k < models.len() && models[k] == entry;
    assert(models[k] == items@[k]@);
    k
}

/// Everything on record is listed with what is on record of it: a round that is
/// over with the annotations of all of its sets, each checkpoint that the user
/// does not work on with its annotations, and each prompt under its title.
pub proof fn law_everything_on_record_is_listed(
    sessions: Vec<RecordedSession>,
    items: Vec<ReviewHistoryItem>,
    i: int,
)
    requires
        totals_fit(sessions@),
        call_ensures(history, (&sessions,), items),
        0 <= i < sessions@.len(),
    ensures
        sessions@[i].session.status != ReviewSessionStatus::Active ==> lists_round(
            items@,
            sessions@[i],
        ),
        forall|j: int|
            0 <= j < sessions@[i].sets@.len() && (!(#[trigger] sessions@[i].sets@[j]).set.active
                || sessions@[i].session.status != ReviewSessionStatus::Active) ==> lists_set(
                items@,
                sessions@[i].sets@[j],
            ),
        forall|e: int|
            0 <= e < sessions@[i].exports@.len() ==> lists_export(
                items@,
                #[trigger] sessions@[i].exports@[e],
            ),
{
    let recorded = sessions@[i];
    let own = session_entries(recorded);
    let sets = set_entries(recorded, recorded.sets@.len());
    let exports = recorded.exports@.map_values(|export: RecordedExport| export_entry(export));
    lemma_entries_of_rounds(sessions@);
    lemma_set_entries(recorded, recorded.sets@.len());
    lemma_total(recorded.sets@, recorded.sets@.len());
    assert(recorded.sets@.take(recorded.sets@.len() as int) =~= recorded.sets@);
    assert(annotation_total(recorded.sets@) <= usize::MAX);
    if recorded.session.status != ReviewSessionStatus::Active {
        let entry = review_entry(recorded);
        assert(own[own.len() - 1] == entry);
        assert(session_entries(sessions@[i]).contains(entry));
        let k = lemma_listed(sessions, items, entry);
        assert(tells_of_round(items@[k], recorded));
    }
    assert forall|j: int|
        0 <= j < recorded.sets@.len() && (!(#[trigger] recorded.sets@[j]).set.active
            || recorded.session.status != ReviewSessionStatus::Active) implies lists_set(
        items@,
        recorded.sets@[j],
    ) by {
        let entry = set_entry(recorded.sets@[j], recorded.documents@, "Annotation checkpoint"@);
        assert(sets.contains(entry));
        let m = choose|m: int| 0 <= m < sets.len() && sets[m] == entry;
        assert(own[m] == entry);
        assert(session_entries(sessions@[i]).contains(entry));
        let k = lemma_listed(sessions, items, entry);
        let shown = items@[k].annotations;
        assert(items@[k]@.annotations == entry.annotations);
        assert(crate::annotations::annotation_models(shown->0@).len() == shown->0@.len());
        assert(recorded.sets@[j].annotations.len() == recorded.sets@[j].annotations@.len());
        assert(tells_of_set(items@[k], recorded.sets@[j]));
    }
    assert forall|e: int| 0 <= e < recorded.exports@.len() implies lists_export(
        items@,
        #[trigger] recorded.exports@[e],
    ) by {
        let entry = export_entry(recorded.exports@[e]);
        assert(exports[e] == entry);
        assert(own[sets.len() + e] == entry);
        assert(session_entries(sessions@[i]).contains(entry));
        let k = lemma_listed(sessions, items, entry);
        assert(tells_of_export(items@[k], recorded.exports@[e]));
    }
}

/// How many entries a review round has.
pub open spec fn entries_due(recorded: RecordedSession, count: nat) -> nat
    decreases count,
{
    if count == 0 {
        recorded.exports@.len() + if recorded.session.status != ReviewSessionStatus::Active {
            1nat
        } else {
            0
        }
    } else {
        let set = recorded.sets@[count - 1].set;
        entries_due(recorded, (count - 1) as nat) + if set.active && recorded.session.status
            == ReviewSessionStatus::Active {
            0nat
        } else {
            1
        }
    }
}

/// How many entries some review rounds have.
pub open spec fn all_entries_due(sessions: Seq<RecordedSession>) -> nat
    decreases sessions.len(),
{
    if sessions.len() == 0 {
        0
    } else {
        all_entries_due(sessions.drop_last()) + entries_due(
            sessions.last(),
            sessions.last().sets@.len(),
        )
    }
}

proof fn lemma_entries_due(recorded: RecordedSession, count: nat)
    requires
        count <= recorded.sets@.len(),
    ensures
        entries_due(recorded, count) == set_entries(recorded, count).len()
            + recorded.exports@.len() + if recorded.session.status != ReviewSessionStatus::Active {
            1nat
        } else {
            0
        },
    decreases count,
{
    if count > 0 {
        lemma_entries_due(recorded, (count - 1) as nat);
    }
}

proof fn lemma_all_entries_due(sessions: Seq<RecordedSession>)
    ensures
        all_entries_due(sessions) == all_entries(sessions).len(),
    decreases sessions.len(),
{
    if sessions.len() > 0 {
        lemma_all_entries_due(sessions.drop_last());
        lemma_entries_due(sessions.last(), sessions.last().sets@.len());
    }
}

/// Nothing else is listed: there are as many entries as there are rounds that
/// are over, checkpoints that the user does not work on, and prompts; and no
/// entry is newer than one in front of it.
pub proof fn law_nothing_else_is_listed(
    sessions: Vec<RecordedSession>,
    items: Vec<ReviewHistoryItem>,
    first: int,
    second: int,
)
    requires
        totals_fit(sessions@),
        call_ensures(history, (&sessions,), items),
    ensures
        items@.len() == all_entries_due(sessions@),
        0 <= first < second < items@.len() ==> !crate::text_set::text_before(
            items@[first].created_at@,
            items@[second].created_at@,
        ),
{
    lemma_all_entries_due(sessions@);
    crate::history::law_history_is_complete_and_newest_first(all_entries(sessions@));
    let models = history_models(items@);
    assert(models.len() == items@.len());
    if 0 <= first < second < items@.len() {
        assert(models[first] == items@[first]@);
        assert(models[second] == items@[second]@);
    }
}

} // verus!
