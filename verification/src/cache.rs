//! A bounded cache that forgets what was used least recently.
use crate::text::text_eq;
use vstd::prelude::*;
use vstd::string::*;

verus! {

/// A cached value with its key and what it costs to keep.
#[derive(Debug)]
pub struct CacheEntry<V> {
    key: String,
    cost: usize,
    value: V,
}

/// What a cached value is: its key, its cost and the value.
pub struct EntryModel<V> {
    pub key: Seq<char>,
    pub cost: nat,
    pub value: V,
}

impl<V> CacheEntry<V> {
    /// What the entry is.
    pub closed spec fn model(self) -> EntryModel<V> {
        EntryModel { key: self.key@, cost: self.cost as nat, value: self.value }
    }
}

/// A cache of at most `max_entries` values that cost at most `max_cost`
/// together. The entries stand in the order of their last use.
#[derive(Debug)]
pub struct BoundedCache<V> {
    entries: Vec<CacheEntry<V>>,
    total: usize,
    max_entries: usize,
    max_cost: usize,
}

/// What some entries cost together.
pub open spec fn cost_of<V>(entries: Seq<EntryModel<V>>) -> nat
    decreases entries.len(),
{
    if entries.len() == 0 {
        0
    } else {
        cost_of(entries.drop_last()) + entries.last().cost
    }
}

/// The entries without the one with this key.
pub open spec fn without<V>(entries: Seq<EntryModel<V>>, key: Seq<char>) -> Seq<EntryModel<V>>
    decreases entries.len(),
{
    if entries.len() == 0 {
        entries
    } else if entries.last().key == key {
        entries.drop_last()
    } else {
        without(entries.drop_last(), key).push(entries.last())
    }
}

/// The entries that are left once the least recently used ones have gone that
/// are too many or cost too much.
pub open spec fn within_bounds<V>(
    entries: Seq<EntryModel<V>>,
    max_entries: nat,
    max_cost: nat,
) -> Seq<EntryModel<V>>
    decreases entries.len(),
{
    if entries.len() > 0 && (entries.len() > max_entries || cost_of(entries) > max_cost) {
        within_bounds(entries.drop_first(), max_entries, max_cost)
    } else {
        entries
    }
}

/// Whether no two entries have the same key.
pub open spec fn keys_differ<V>(entries: Seq<EntryModel<V>>) -> bool {
    forall|i: int, j: int|
        0 <= i < j < entries.len() ==> (#[trigger] entries[i]).key != (#[trigger] entries[j]).key
}

/// The entry with a key.
pub open spec fn lookup<V>(entries: Seq<EntryModel<V>>, key: Seq<char>) -> Option<EntryModel<V>>
    decreases entries.len(),
{
    if entries.len() == 0 {
        None
    } else if entries.last().key == key {
        Some(entries.last())
    } else {
        lookup(entries.drop_last(), key)
    }
}

proof fn lemma_cost_drop_first<V>(entries: Seq<EntryModel<V>>)
    requires
        entries.len() > 0,
    ensures
        cost_of(entries) == entries[0].cost + cost_of(entries.drop_first()),
    decreases entries.len(),
{
    if entries.len() == 1 {
        assert(entries.drop_last() =~= Seq::<EntryModel<V>>::empty());
        assert(entries.drop_first() =~= Seq::<EntryModel<V>>::empty());
    } else {
        lemma_cost_drop_first(entries.drop_last());
        assert(entries.drop_first().drop_last() =~= entries.drop_last().drop_first());
    }
}

proof fn lemma_cost_remove<V>(entries: Seq<EntryModel<V>>, index: int)
    requires
        0 <= index < entries.len(),
    ensures
        cost_of(entries.remove(index)) + entries[index].cost == cost_of(entries),
    decreases entries.len(),
{
    if index == entries.len() - 1 {
        assert(entries.remove(index) =~= entries.drop_last());
    } else {
        assert(entries.remove(index).drop_last() =~= entries.drop_last().remove(index));
        lemma_cost_remove(entries.drop_last(), index);
    }
}

/// The only entry with a key is the one that is left out and the one found.
proof fn lemma_without_at<V>(entries: Seq<EntryModel<V>>, index: int)
    requires
        0 <= index < entries.len(),
        keys_differ(entries),
    ensures
        without(entries, entries[index].key) == entries.remove(index),
        lookup(entries, entries[index].key) == Some(entries[index]),
    decreases entries.len(),
{
    let key = entries[index].key;
    if index == entries.len() - 1 {
        assert(entries.remove(index) =~= entries.drop_last());
    } else {
        assert(entries.drop_last()[index] == entries[index]);
        lemma_without_at(entries.drop_last(), index);
        assert(entries.last().key != key);
        assert(entries.remove(index) =~= entries.drop_last().remove(index).push(entries.last()));
    }
}

proof fn lemma_without_absent<V>(entries: Seq<EntryModel<V>>, key: Seq<char>)
    requires
        forall|i: int| 0 <= i < entries.len() ==> (#[trigger] entries[i]).key != key,
    ensures
        without(entries, key) == entries,
        lookup(entries, key) is None,
    decreases entries.len(),
{
    if entries.len() > 0 {
        lemma_without_absent(entries.drop_last(), key);
        assert(entries.drop_last().push(entries.last()) =~= entries);
    }
}

/// Leaving out what is too much keeps the latest entries, within the bounds.
proof fn lemma_within_bounds<V>(entries: Seq<EntryModel<V>>, max_entries: nat, max_cost: nat)
    ensures
        ({
            let kept = within_bounds(entries, max_entries, max_cost);
            &&& kept.len() <= entries.len()
            &&& kept == entries.skip(entries.len() - kept.len())
            &&& kept.len() <= max_entries || kept.len() == 0
            &&& cost_of(kept) <= max_cost || kept.len() == 0
        }),
    decreases entries.len(),
{
    if entries.len() > 0 && (entries.len() > max_entries || cost_of(entries) > max_cost) {
        lemma_within_bounds(entries.drop_first(), max_entries, max_cost);
        let kept = within_bounds(entries, max_entries, max_cost);
        assert(entries.drop_first().skip(entries.drop_first().len() - kept.len()) =~= entries.skip(
            entries.len() - kept.len(),
        ));
    } else {
        assert(entries.skip(0) =~= entries);
    }
}

impl<V> View for BoundedCache<V> {
    type V = Seq<EntryModel<V>>;

    closed spec fn view(&self) -> Seq<EntryModel<V>> {
        self.entries@.map_values(|entry: CacheEntry<V>| entry.model())
    }
}

impl<V> BoundedCache<V> {
    /// How many values the cache keeps at most.
    pub closed spec fn entry_limit(self) -> nat {
        self.max_entries as nat
    }

    /// How much the values may cost together.
    pub closed spec fn cost_limit(self) -> nat {
        self.max_cost as nat
    }

    /// No key occurs twice, and the cache is within its bounds.
    pub closed spec fn wf(self) -> bool {
        &&& keys_differ(self@)
        &&& self@.len() <= self.max_entries
        &&& cost_of(self@) <= self.max_cost
        &&& self.total == cost_of(self@)
        &&& self.max_cost <= usize::MAX / 2
    }

    /// A cache in order keeps every key once, and no more entries or cost than its bounds.
    pub proof fn law_cache_keeps_its_bounds(self)
        requires
            self.wf(),
        ensures
            keys_differ(self@),
            self@.len() <= self.entry_limit(),
            cost_of(self@) <= self.cost_limit(),
    {
    }

    /// An empty cache with these bounds.
    pub fn new(max_entries: usize, max_cost: usize) -> (cache: BoundedCache<V>)
        requires
            max_cost <= usize::MAX / 2,
        ensures
            cache.wf(),
            cache@ == Seq::<EntryModel<V>>::empty(),
            cache.entry_limit() == max_entries,
            cache.cost_limit() == max_cost,
    {
        let cache = BoundedCache { entries: Vec::new(), total: 0, max_entries, max_cost };
        assert(cache@ =~= Seq::<EntryModel<V>>::empty());
        cache
    }

    /// How many values the cache keeps.
    pub fn len(&self) -> (count: usize)
        ensures
            count == self@.len(),
    {
        self.entries.len()
    }

    /// What the kept values cost together.
    pub fn cost(&self) -> (cost: usize)
        requires
            self.wf(),
        ensures
            cost == cost_of(self@),
    {
        self.total
    }

    fn position(&self, key: &str) -> (found: Option<usize>)
        ensures
            match found {
                Some(index) => index < self.entries.len() && self@[index as int].key == key@,
                None => forall|i: int| 0 <= i < self@.len() ==> (#[trigger] self@[i]).key != key@,
            },
    {
        let mut i: usize = 0;
        while i < self.entries.len()
            invariant
                i <= self.entries.len(),
                forall|j: int| 0 <= j < i ==> (#[trigger] self@[j]).key != key@,
            decreases self.entries.len() - i,
        {
            if text_eq(self.entries[i].key.as_str(), key) {
                return Some(i);
            }
            assert(self@[i as int].key == self.entries@[i as int].key@);
            i += 1;
        }
        None
    }

    /// The value with a key, which is now the most recently used one.
    pub fn get(&mut self, key: &str) -> (value: Option<&V>)
        requires
            old(self).wf(),
        ensures
            final(self).wf(),
            final(self).entry_limit() == old(self).entry_limit(),
            final(self).cost_limit() == old(self).cost_limit(),
            match lookup(old(self)@, key@) {
                Some(entry) => value == Some(&entry.value) && final(self)@ == without(
                    old(self)@,
                    key@,
                ).push(entry),
                None => value is None && final(self)@ == old(self)@,
            },
    {
        match self.position(key) {
            None => {
                proof {
                    lemma_without_absent(self@, key@);
                }
                None
            },
            Some(index) => {
                let ghost before = self@;
                proof {
                    lemma_without_at(before, index as int);
                    lemma_cost_remove(before, index as int);
                }
                let entry = self.entries.remove(index);
                let ghost model = entry.model();
                assert(model == before[index as int]);
                assert(self@ =~= before.remove(index as int));
                self.entries.push(entry);
                proof {
                    let after = before.remove(index as int).push(model);
                    assert(self@ =~= after);
                    assert(after.drop_last() =~= before.remove(index as int));
                    assert(keys_differ(after)) by {
                        assert forall|i: int, j: int| 0 <= i < j < after.len() implies (
                        #[trigger] after[i]).key != (#[trigger] after[j]).key by {
                            let x = if i < index {
                                i
                            } else {
                                i + 1
                            };
                            if j < after.len() - 1 {
                                let y = if j < index {
                                    j
                                } else {
                                    j + 1
                                };
                                assert(before[x].key != before[y].key);
                            } else if x < index {
                                assert(before[x].key != before[index as int].key);
                            } else {
                                assert(before[index as int].key != before[x].key);
                            }
                        }
                    }
                }
                let last: usize = self.entries.len() - 1;
                Some(&self.entries[last].value)
            },
        }
    }

    /// Takes a value in under a key, in place of what was there, and leaves
    /// out what is too much. A value that costs more than the cache may hold
    /// is not taken in.
    pub fn insert(&mut self, key: String, cost: usize, value: V)
        requires
            old(self).wf(),
        ensures
            final(self).wf(),
            final(self).entry_limit() == old(self).entry_limit(),
            final(self).cost_limit() == old(self).cost_limit(),
            final(self)@ == if cost <= old(self).cost_limit() {
                within_bounds(
                    without(old(self)@, key@).push(EntryModel { key: key@, cost: cost as nat, value }),
                    old(self).entry_limit(),
                    old(self).cost_limit(),
                )
            } else {
                old(self)@
            },
    {
        if cost > self.max_cost {
            return ;
        }
        let ghost before = self@;
        match self.position(key.as_str()) {
            Some(index) => {
                proof {
                    lemma_without_at(before, index as int);
                    lemma_cost_remove(before, index as int);
                }
                let previous = self.entries.remove(index);
                assert(previous.model() == before[index as int]);
                assert(self@ =~= before.remove(index as int));
                self.total = self.total - previous.cost;
            },
            None => {
                proof {
                    lemma_without_absent(before, key@);
                }
            },
        }
        let ghost kept = without(before, key@);
        let ghost added = EntryModel { key: key@, cost: cost as nat, value };
        assert(self@ == kept);
        assert(keys_differ(kept)) by {
            assert forall|i: int, j: int| 0 <= i < j < kept.len() implies (#[trigger] kept[i]).key
                != (#[trigger] kept[j]).key by {
                if kept.len() < before.len() {
                    let index = choose|index: int|
                        0 <= index < before.len() && before[index].key == key@ && kept
                            == before.remove(index);
                    let x = if i < index {
                        i
                    } else {
                        i + 1
                    };
                    let y = if j < index {
                        j
                    } else {
                        j + 1
                    };
                    assert(before[x].key != before[y].key);
                }
            }
        }
        assert(forall|i: int| 0 <= i < kept.len() ==> (#[trigger] kept[i]).key != key@);
        self.entries.push(CacheEntry { key, cost, value });
        self.total = self.total + cost;
        let ghost full = kept.push(added);
        assert(self@ =~= full);
        assert(full.drop_last() =~= kept);
        while self.entries.len() > self.max_entries || self.total > self.max_cost
            invariant
                keys_differ(self@),
                self.total == cost_of(self@),
                self.max_entries == old(self).max_entries,
                self.max_cost == old(self).max_cost,
                self.max_cost <= usize::MAX / 2,
                within_bounds(self@, self.max_entries as nat, self.max_cost as nat)
                    == within_bounds(full, self.max_entries as nat, self.max_cost as nat),
            decreases self.entries.len(),
        {
            let ghost now = self@;
            assert(now.len() > 0) by {
                if now.len() == 0 {
                    assert(cost_of(now) == 0);
                }
            }
            proof {
                lemma_cost_drop_first(now);
            }
            let expired = self.entries.remove(0);
            assert(expired.model() == now[0]);
            assert(self@ =~= now.drop_first());
            self.total = self.total - expired.cost;
        }
    }

    /// Leaves out the entries that the flags mark. There is one flag for each
    /// entry.
    pub fn remove_marked(&mut self, marked: &Vec<bool>)
        requires
            old(self).wf(),
            marked.len() == old(self)@.len(),
        ensures
            final(self).wf(),
            final(self).entry_limit() == old(self).entry_limit(),
            final(self).cost_limit() == old(self).cost_limit(),
            final(self)@ == unmarked(old(self)@, marked@),
    {
        let ghost before = self@;
        let mut i: usize = self.entries.len();
        assert(before.take(i as int) =~= before);
        assert(marked@.take(i as int) =~= marked@);
        assert(unmarked(before.skip(i as int), marked@.skip(i as int)) =~= Seq::empty());
        assert(self@ =~= before.take(i as int) + unmarked(
            before.skip(i as int),
            marked@.skip(i as int),
        ));
        while i > 0
            invariant
                i <= before.len(),
                marked.len() == before.len(),
                before == old(self)@,
                self.wf(),
                self.max_entries == old(self).max_entries,
                self.max_cost == old(self).max_cost,
                self@ == before.take(i as int) + unmarked(
                    before.skip(i as int),
                    marked@.skip(i as int),
                ),
            decreases i,
        {
            i -= 1;
            let ghost now = self@;
            let ghost tail = unmarked(before.skip(i + 1), marked@.skip(i + 1));
            proof {
                lemma_unmarked_first(before.skip(i as int), marked@.skip(i as int));
                assert(before.skip(i as int).drop_first() =~= before.skip(i + 1));
                assert(marked@.skip(i as int).drop_first() =~= marked@.skip(i + 1));
                assert(before.take(i + 1) =~= before.take(i as int).push(before[i as int]));
                assert(now[i as int] == before[i as int]);
            }
            if marked[i] {
                proof {
                    lemma_cost_remove(now, i as int);
                }
                let removed = self.entries.remove(i);
                assert(removed.model() == now[i as int]);
                self.total = self.total - removed.cost;
                assert(self@ =~= now.remove(i as int));
                assert(self@ =~= before.take(i as int) + tail);
                assert forall|a: int, b: int| 0 <= a < b < self@.len() implies (
                #[trigger] self@[a]).key != (#[trigger] self@[b]).key by {
                    let x = if a < i {
                        a
                    } else {
                        a + 1
                    };
                    let y = if b < i {
                        b
                    } else {
                        b + 1
                    };
                    assert(now[x].key != now[y].key);
                }
            } else {
                assert(self@ =~= before.take(i as int) + (seq![before[i as int]] + tail));
            }
        }
        assert(before.skip(0) =~= before);
        assert(marked@.skip(0) =~= marked@);
        assert(before.take(0) + unmarked(before, marked@) =~= unmarked(before, marked@));
    }

    /// The key of an entry.
    pub fn key_at(&self, index: usize) -> (key: &String)
        requires
            index < self@.len(),
        ensures
            key@ == self@[index as int].key,
    {
        &self.entries[index].key
    }
}

/// The entries that the flags do not mark, in order.
pub open spec fn unmarked<V>(entries: Seq<EntryModel<V>>, marked: Seq<bool>) -> Seq<EntryModel<V>>
    decreases entries.len(),
{
    if entries.len() == 0 || marked.len() == 0 {
        Seq::empty()
    } else {
        let earlier = unmarked(entries.drop_last(), marked.drop_last());
        if marked.last() {
            earlier
        } else {
            earlier.push(entries.last())
        }
    }
}

proof fn lemma_unmarked_first<V>(entries: Seq<EntryModel<V>>, marked: Seq<bool>)
    requires
        entries.len() == marked.len(),
        entries.len() > 0,
    ensures
        unmarked(entries, marked) == if marked[0] {
            unmarked(entries.drop_first(), marked.drop_first())
        } else {
            seq![entries[0]] + unmarked(entries.drop_first(), marked.drop_first())
        },
    decreases entries.len(),
{
    if entries.len() == 1 {
        assert(entries.drop_last() =~= Seq::<EntryModel<V>>::empty());
        assert(unmarked(entries.drop_last(), marked.drop_last()) =~= Seq::<EntryModel<V>>::empty());
        assert(unmarked(entries.drop_first(), marked.drop_first()) =~= Seq::<
            EntryModel<V>,
        >::empty());
        assert(unmarked(entries, marked) =~= if marked[0] {
            Seq::empty()
        } else {
            seq![entries[0]]
        });
        assert(seq![entries[0]] + Seq::<EntryModel<V>>::empty() =~= seq![entries[0]]);
    } else {
        lemma_unmarked_first(entries.drop_last(), marked.drop_last());
        assert(entries.drop_first().drop_last() =~= entries.drop_last().drop_first());
        assert(marked.drop_first().drop_last() =~= marked.drop_last().drop_first());
        let rest = unmarked(entries.drop_first(), marked.drop_first());
        assert(unmarked(entries, marked) =~= if marked[0] {
            rest
        } else {
            seq![entries[0]] + rest
        });
    }
}

/// What was taken in last is found again, as long as a value may be kept at
/// all and this one does not cost too much.
pub proof fn law_inserted_value_is_found<V>(
    entries: Seq<EntryModel<V>>,
    added: EntryModel<V>,
    max_entries: nat,
    max_cost: nat,
)
    requires
        max_entries >= 1,
        added.cost <= max_cost,
    ensures
        lookup(
            within_bounds(without(entries, added.key).push(added), max_entries, max_cost),
            added.key,
        ) == Some(added),
{
    let full = without(entries, added.key).push(added);
    lemma_newest_stays(full, max_entries, max_cost);
}

proof fn lemma_newest_stays<V>(entries: Seq<EntryModel<V>>, max_entries: nat, max_cost: nat)
    requires
        entries.len() > 0,
        max_entries >= 1,
        entries.last().cost <= max_cost,
    ensures
        within_bounds(entries, max_entries, max_cost).len() > 0,
        within_bounds(entries, max_entries, max_cost).last() == entries.last(),
    decreases entries.len(),
{
    if entries.len() > max_entries || cost_of(entries) > max_cost {
        if entries.len() == 1 {
            assert(entries.drop_last() =~= Seq::<EntryModel<V>>::empty());
            assert(cost_of(entries.drop_last()) == 0);
        } else {
            lemma_newest_stays(entries.drop_first(), max_entries, max_cost);
        }
    }
}

/// Taking a value in never pushes the cache over its bounds.
pub proof fn law_cache_stays_within_bounds<V>(
    entries: Seq<EntryModel<V>>,
    max_entries: nat,
    max_cost: nat,
)
    ensures
        within_bounds(entries, max_entries, max_cost).len() <= max_entries,
        cost_of(within_bounds(entries, max_entries, max_cost)) <= max_cost,
{
    lemma_within_bounds(entries, max_entries, max_cost);
    let kept = within_bounds(entries, max_entries, max_cost);
    if kept.len() == 0 {
        assert(cost_of(kept) == 0);
    }
}

} // verus!
