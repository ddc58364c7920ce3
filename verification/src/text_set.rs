//! Ordered sets of texts.
use crate::text::{copy_texts, texts};
use vstd::prelude::*;
use vstd::string::*;
use vstd::utf8::*;

verus! {

/// Whether byte string `a` comes before `b` in dictionary order: they agree
/// on their first `k` bytes, and then `a` ends or has the smaller byte.
pub open spec fn bytes_before(a: Seq<u8>, b: Seq<u8>) -> bool {
    exists|k: int| #[trigger] differ_at(a, b, k)
}

/// Whether `a` comes before `b` because of position `k`.
pub open spec fn differ_at(a: Seq<u8>, b: Seq<u8>, k: int) -> bool {
    &&& 0 <= k <= a.len()
    &&& k < b.len()
    &&& forall|j: int| 0 <= j < k ==> a[j] == b[j]
    &&& k < a.len() ==> a[k] < b[k]
}

/// Whether text `a` comes before `b` in the order of their encodings.
pub open spec fn text_before(a: Seq<char>, b: Seq<char>) -> bool {
    bytes_before(encode_utf8(a), encode_utf8(b))
}

/// The dictionary order is transitive.
pub proof fn lemma_before_transitive(a: Seq<char>, b: Seq<char>, c: Seq<char>)
    requires
        text_before(a, b),
        text_before(b, c),
    ensures
        text_before(a, c),
{
    let (x, y, z) = (encode_utf8(a), encode_utf8(b), encode_utf8(c));
    let i = choose|k: int| differ_at(x, y, k);
    let j = choose|k: int| differ_at(y, z, k);
    let k = if i <= j {
        i
    } else {
        j
    };
    assert(differ_at(x, z, k));
}

/// No text comes before itself.
pub proof fn lemma_before_irreflexive(a: Seq<char>)
    ensures
        !text_before(a, a),
{
}

/// Distinct texts are ordered one way or the other.
pub proof fn lemma_before_total(a: Seq<char>, b: Seq<char>)
    ensures
        a == b || text_before(a, b) || text_before(b, a),
{
    let (x, y) = (encode_utf8(a), encode_utf8(b));
    encode_utf8_decode_utf8(a);
    encode_utf8_decode_utf8(b);
    if a != b {
        let shorter = if x.len() <= y.len() {
            x.len()
        } else {
            y.len()
        };
        if forall|j: int| 0 <= j < shorter ==> x[j] == y[j] {
            if x.len() == y.len() {
                assert(x =~= y);
            } else if x.len() < y.len() {
                assert(differ_at(x, y, shorter as int));
            } else {
                assert(differ_at(y, x, shorter as int));
            }
        } else {
            let k = lemma_first_difference(x, y, shorter as int);
            if x[k] < y[k] {
                assert(differ_at(x, y, k));
            } else {
                assert(differ_at(y, x, k));
            }
        }
    }
}

proof fn lemma_first_difference(x: Seq<u8>, y: Seq<u8>, limit: int) -> (k: int)
    requires
        0 <= limit <= x.len(),
        limit <= y.len(),
        exists|j: int| 0 <= j < limit && x[j] != y[j],
    ensures
        0 <= k < limit,
        x[k] != y[k],
        forall|j: int| 0 <= j < k ==> x[j] == y[j],
    decreases limit,
{
    if exists|j: int| 0 <= j < limit - 1 && x[j] != y[j] {
        lemma_first_difference(x, y, limit - 1)
    } else {
        limit - 1
    }
}

/// How two texts are ordered.
#[derive(Clone, Copy, Debug, PartialEq, Eq, Structural)]
pub enum TextOrder {
    Before,
    Same,
    After,
}

/// Orders two texts.
pub fn order_texts(a: &str, b: &str) -> (order: TextOrder)
    ensures
        order == TextOrder::Before <==> text_before(a@, b@),
        order == TextOrder::Same <==> a@ == b@,
        order == TextOrder::After <==> text_before(b@, a@),
{
    let x = a.as_bytes();
    let y = b.as_bytes();
    proof {
        encode_utf8_decode_utf8(a@);
        encode_utf8_decode_utf8(b@);
        lemma_before_irreflexive(a@);
        if text_before(a@, b@) && text_before(b@, a@) {
            lemma_before_transitive(a@, b@, a@);
        }
    }
    let mut k: usize = 0;
    while k < x.len() && k < y.len() && x[k] == y[k]
        invariant
            k <= x.len(),
            k <= y.len(),
            x@ == a.spec_bytes(),
            y@ == b.spec_bytes(),
            forall|j: int| 0 <= j < k ==> x@[j] == y@[j],
        decreases x.len() - k,
    {
        k += 1;
    }
    if k == x.len() && k == y.len() {
        assert(x@ =~= y@);
        TextOrder::Same
    } else if k == x.len() || (k < y.len() && x[k] < y[k]) {
        assert(differ_at(x@, y@, k as int));
        TextOrder::Before
    } else {
        assert(differ_at(y@, x@, k as int));
        TextOrder::After
    }
}

/// A set of texts that is listed in dictionary order.
#[derive(Debug)]
pub struct TextSet {
    items: Vec<String>,
}

/// Whether texts stand in dictionary order, each once.
pub open spec fn is_ordered(list: Seq<Seq<char>>) -> bool {
    forall|i: int, j: int| 0 <= i < j < list.len() ==> text_before(#[trigger] list[i], #[trigger] list[j])
}

impl View for TextSet {
    type V = Set<Seq<char>>;

    closed spec fn view(&self) -> Set<Seq<char>> {
        texts(self.items@).to_set()
    }
}

impl TextSet {
    /// The texts stand in dictionary order, each once.
    pub closed spec fn wf(self) -> bool {
        is_ordered(texts(self.items@))
    }

    /// The texts in the order in which they are listed.
    pub closed spec fn listed(self) -> Seq<Seq<char>> {
        texts(self.items@)
    }

    /// What is listed is the set.
    pub proof fn lemma_listed_set(self)
        ensures
            self.listed().to_set() == self@,
    {
    }

    /// What is listed is the set, in order.
    pub proof fn lemma_listed(self)
        requires
            self.wf(),
        ensures
            is_ordered(self.listed()),
            self.listed().to_set() == self@,
            self.listed().no_duplicates(),
    {
        assert forall|i: int, j: int|
            0 <= i < self.listed().len() && 0 <= j < self.listed().len() && i
                != j implies self.listed()[i] != self.listed()[j] by {
            if i < j {
                lemma_before_irreflexive(self.listed()[i]);
                assert(text_before(self.listed()[i], self.listed()[j]));
            } else {
                lemma_before_irreflexive(self.listed()[j]);
                assert(text_before(self.listed()[j], self.listed()[i]));
            }
        }
    }

    /// An empty set.
    pub fn new() -> (set: TextSet)
        ensures
            set.wf(),
            set@ == Set::<Seq<char>>::empty(),
            set.listed() == Seq::<Seq<char>>::empty(),
    {
        let set = TextSet { items: Vec::new() };
        assert(texts(set.items@) =~= Seq::<Seq<char>>::empty());
        assert(set@ =~= Set::<Seq<char>>::empty());
        set
    }

    /// How many texts the set holds.
    pub fn len(&self) -> (count: usize)
        ensures
            count == self.listed().len(),
    {
        self.items.len()
    }

    /// Whether the set holds `text`.
    pub fn contains(&self, text: &str) -> (found: bool)
        ensures
            found == self@.contains(text@),
    {
        let found = crate::text::list_contains(&self.items, text);
        proof {
            let listed = texts(self.items@);
            if found {
                let i = choose|i: int|
                    0 <= i < self.items@.len() && #[trigger] self.items@[i]@ == text@;
                assert(listed[i] == text@);
            }
            if self@.contains(text@) {
                let i = choose|i: int| 0 <= i < listed.len() && listed[i] == text@;
                assert(self.items@[i]@ == text@);
            }
        }
        found
    }

    /// Takes a text into the set. Tells whether it was new.
    pub fn insert(&mut self, text: String) -> (new: bool)
        requires
            old(self).wf(),
        ensures
            final(self).wf(),
            final(self)@ == old(self)@.insert(text@),
            new == !old(self)@.contains(text@),
    {
        let ghost before = texts(self.items@);
        let mut position: usize = 0;
        while position < self.items.len()
            invariant_except_break
                position <= self.items.len(),
                forall|j: int| 0 <= j < position ==> text_before(#[trigger] before[j], text@),
            invariant
                before == texts(self.items@),
                before == texts(old(self).items@),
                is_ordered(before),
            ensures
                position <= self.items.len(),
                forall|j: int| 0 <= j < position ==> text_before(#[trigger] before[j], text@),
                position < before.len() ==> text_before(text@, before[position as int]),
            decreases self.items.len() - position,
        {
            match order_texts(self.items[position].as_str(), text.as_str()) {
                TextOrder::Same => {
                    assert(before[position as int] == text@);
                    assert(self@ =~= old(self)@.insert(text@));
                    return false;
                },
                TextOrder::After => {
                    assert(text_before(text@, before[position as int]));
                    break ;
                },
                TextOrder::Before => {
                    assert(text_before(before[position as int], text@));
                },
            }
            position += 1;
        }
        let ghost value = text@;
        self.items.insert(position, text);
        proof {
            let after = texts(self.items@);
            assert(after =~= before.insert(position as int, value));
            assert forall|i: int, j: int| 0 <= i < j < after.len() implies text_before(
                #[trigger] after[i],
                #[trigger] after[j],
            ) by {
                if i < position && j > position {
                    assert(text_before(before[i], before[j - 1]));
                } else if i == position {
                    assert(after[j] == before[j - 1]);
                    if j - 1 > position {
                        assert(text_before(before[position as int], before[j - 1]));
                        lemma_before_transitive(value, before[position as int], before[j - 1]);
                    }
                } else if i > position {
                    assert(text_before(before[i - 1], before[j - 1]));
                } else if j < position {
                    assert(text_before(before[i], before[j]));
                }
            }
            if before.to_set().contains(value) {
                let k = choose|k: int| 0 <= k < before.len() && before[k] == value;
                lemma_before_irreflexive(value);
                if k >= position {
                    if k > position {
                        assert(text_before(before[position as int], before[k]));
                        lemma_before_transitive(value, before[position as int], before[k]);
                    }
                    assert(text_before(value, value));
                }
                assert(false);
            }
            assert forall|t: Seq<char>| after.to_set().contains(t) == before.to_set().insert(
                value,
            ).contains(t) by {
                if after.to_set().contains(t) {
                    let k = choose|k: int| 0 <= k < after.len() && after[k] == t;
                    if k < position {
                        assert(before[k] == t);
                    } else if k > position {
                        assert(before[k - 1] == t);
                    }
                }
                if before.to_set().contains(t) {
                    let k = choose|k: int| 0 <= k < before.len() && before[k] == t;
                    if k < position {
                        assert(after[k] == t);
                    } else {
                        assert(after[k + 1] == t);
                    }
                }
                assert(after[position as int] == value);
            }
            assert(self@ =~= old(self)@.insert(value));
        }
        true
    }

    /// Takes a text out of the set.
    pub fn remove(&mut self, text: &str)
        requires
            old(self).wf(),
        ensures
            final(self).wf(),
            final(self)@ == old(self)@.remove(text@),
    {
        let ghost before = texts(self.items@);
        let ghost start = self.items@;
        let mut i: usize = 0;
        while i < self.items.len()
            invariant
                i <= self.items.len(),
                self.items@ == start,
                before == texts(start),
                before == texts(old(self).items@),
                is_ordered(before),
                old(self).wf(),
                forall|j: int| 0 <= j < i ==> #[trigger] before[j] != text@,
            decreases self.items.len() - i,
        {
            if crate::text::text_eq(self.items[i].as_str(), text) {
                let _ = self.items.remove(i);
                proof {
                    let after = texts(self.items@);
                    assert(after =~= before.remove(i as int));
                    assert forall|a: int, b: int| 0 <= a < b < after.len() implies text_before(
                        #[trigger] after[a],
                        #[trigger] after[b],
                    ) by {
                        let x = if a < i {
                            a
                        } else {
                            a + 1
                        };
                        let y = if b < i {
                            b
                        } else {
                            b + 1
                        };
                        assert(text_before(before[x], before[y]));
                    }
                    assert forall|t: Seq<char>| after.to_set().contains(t)
                        == before.to_set().remove(text@).contains(t) by {
                        if after.to_set().contains(t) {
                            let k = choose|k: int| 0 <= k < after.len() && after[k] == t;
                            let x = if k < i {
                                k
                            } else {
                                k + 1
                            };
                            assert(before[x] == t);
                            assert(before[i as int] == text@);
                            lemma_before_irreflexive(t);
                            if t == text@ {
                                if x < i {
                                    assert(text_before(before[x], before[i as int]));
                                } else {
                                    assert(text_before(before[i as int], before[x]));
                                }
                            }
                        }
                        if before.to_set().contains(t) && t != text@ {
                            let k = choose|k: int| 0 <= k < before.len() && before[k] == t;
                            if k < i {
                                assert(after[k] == t);
                            } else {
                                assert(after[k - 1] == t);
                            }
                        }
                    }
                    assert(self@ =~= old(self)@.remove(text@));
                }
                return ;
            }
            assert(before[i as int] == self.items@[i as int]@);
            i += 1;
        }
        assert(self@ =~= old(self)@.remove(text@));
    }

    /// The set of the texts of a list.
    pub fn from_list(list: &Vec<String>) -> (set: TextSet)
        ensures
            set.wf(),
            set@ == texts(list@).to_set(),
    {
        let mut set = TextSet::new();
        let mut i: usize = 0;
        assert(texts(list@).take(0).to_set() =~= Set::<Seq<char>>::empty());
        while i < list.len()
            invariant
                i <= list.len(),
                set.wf(),
                set@ == texts(list@).take(i as int).to_set(),
            decreases list.len() - i,
        {
            let _ = set.insert(list[i].clone());
            proof {
                let all = texts(list@);
                assert(all.take(i + 1) =~= all.take(i as int).push(all[i as int]));
                all.take(i as int).lemma_push_to_set_commute(all[i as int]);
            }
            i += 1;
        }
        assert(texts(list@).take(list.len() as int) =~= texts(list@));
        set
    }

    /// Whether every text of the set is in another.
    pub fn is_subset_of(&self, other: &TextSet) -> (subset: bool)
        requires
            self.wf(),
        ensures
            subset == self@.subset_of(other@),
    {
        proof {
            self.lemma_listed();
        }
        let mut i: usize = 0;
        while i < self.items.len()
            invariant
                i <= self.items.len(),
                self.items@.len() == self.listed().len(),
                self.listed().to_set() == self@,
                forall|j: int| 0 <= j < i ==> other@.contains(#[trigger] self.listed()[j]),
            decreases self.items.len() - i,
        {
            assert(self.listed()[i as int] == self.items@[i as int]@);
            if !other.contains(self.items[i].as_str()) {
                assert(self.listed().to_set().contains(self.listed()[i as int]));
                return false;
            }
            i += 1;
        }
        assert forall|text: Seq<char>| self@.contains(text) implies other@.contains(text) by {
            let j = choose|j: int| 0 <= j < self.listed().len() && self.listed()[j] == text;
            assert(other@.contains(self.listed()[j]));
        }
        true
    }

    /// The texts of the set that are in another.
    pub fn common_with(&self, other: &TextSet) -> (common: TextSet)
        requires
            self.wf(),
        ensures
            common.wf(),
            common@ == self@.intersect(other@),
    {
        proof {
            self.lemma_listed();
        }
        let mut common = TextSet::new();
        let mut i: usize = 0;
        while i < self.items.len()
            invariant
                i <= self.items.len(),
                common.wf(),
                self.items@.len() == self.listed().len(),
                self.listed().to_set() == self@,
                forall|text: Seq<char>| #[trigger]
                    common@.contains(text) <==> other@.contains(text) && self.listed().take(
                        i as int,
                    ).contains(text),
            decreases self.items.len() - i,
        {
            let ghost text = self.listed()[i as int];
            let ghost done = self.listed().take(i as int);
            assert(text == self.items@[i as int]@);
            assert(self.listed().take(i + 1) =~= done.push(text));
            assert forall|t: Seq<char>| done.push(text).contains(t) <==> done.contains(t) || t
                == text by {
                if done.contains(t) {
                    let k = choose|k: int| 0 <= k < done.len() && done[k] == t;
                    assert(done.push(text)[k] == t);
                }
                if done.push(text).contains(t) && t != text {
                    let k = choose|k: int|
                        0 <= k < done.push(text).len() && done.push(text)[k] == t;
                    assert(done[k] == t);
                }
                assert(done.push(text)[done.len() as int] == text);
            }
            if other.contains(self.items[i].as_str()) {
                let _ = common.insert(self.items[i].clone());
            }
            i += 1;
        }
        assert(self.listed().take(self.items.len() as int) =~= self.listed());
        assert(common@ =~= self@.intersect(other@)) by {
            assert forall|t: Seq<char>| self@.contains(t) <==> self.listed().contains(t) by {
                assert(self.listed().to_set().contains(t) <==> self.listed().contains(t));
            }
        }
        common
    }

    /// Copies the set.
    pub fn copy(&self) -> (copy: TextSet)
        ensures
            copy.wf() == self.wf(),
            copy@ == self@,
            copy.listed() == self.listed(),
    {
        TextSet { items: copy_texts(&self.items) }
    }

    /// Lists the texts in order.
    pub fn to_list(&self) -> (list: Vec<String>)
        ensures
            texts(list@) == self.listed(),
    {
        copy_texts(&self.items)
    }

    /// The text at a position of the list.
    pub fn get(&self, index: usize) -> (text: &String)
        requires
            index < self.listed().len(),
        ensures
            text@ == self.listed()[index as int],
    {
        &self.items[index]
    }
}

} // verus!
