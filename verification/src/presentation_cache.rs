//! The caches behind presentations, and their keys.
use crate::cache::{lookup, unmarked, without, within_bounds, BoundedCache, EntryModel};
use crate::cache_keys::law_kept_presentations_answer_their_requests;
use crate::canonical::HunkContext;
use crate::document::ReviewDiffDocument;
use crate::errors::DispatchError;
use crate::full_file::{view_chars, FullFileView};
use crate::ids::{id_chars, id_text, ComparisonId, ReviewFileId};
use crate::presentation::{
    build_canonical_presentation, is_canonical, CachedCanonicalPresentation,
};
use crate::text::{
    ends_with, ends_with_text, holds, holds_text, opt_text, starts_with, texts,
};
use crate::text_set::TextSet;
use crate::ui_state::{ReviewUiState, UiStateModel};
use std::sync::Arc;
use vstd::prelude::*;
use vstd::string::*;
use vstd::utf8::*;

verus! {

/// How many documents are kept.
pub const MAX_DOCUMENT_ENTRIES: usize = 16;

/// How many bytes of source the kept documents may have together.
pub const MAX_DOCUMENT_BYTES: usize = 33554432;

/// How many canonical presentations are kept.
pub const MAX_CANONICAL_ENTRIES: usize = 16;

/// How many rows the kept canonical presentations may have together.
pub const MAX_CANONICAL_ROWS: usize = 100000;

/// How many structural presentations are kept.
pub const MAX_STRUCTURAL_ENTRIES: usize = 6;

/// The contexts as pairs of a hunk and its lines.
pub open spec fn context_pairs(contexts: Seq<(String, u32)>) -> Seq<(Seq<char>, u32)> {
    contexts.map_values(|pair: (String, u32)| (pair.0@, pair.1))
}

/// The text that `serde_json` renders for what the user unfolded.
pub uninterp spec fn expansion_json(
    contexts: Seq<(Seq<char>, u32)>,
    expanded: Seq<Seq<char>>,
    collapsed: Seq<Seq<char>>,
) -> Seq<char>;

/// Whether a text is rendered for these values and no others.
pub open spec fn comes_only_of(
    text: Seq<char>,
    contexts: Seq<(Seq<char>, u32)>,
    expanded: Seq<Seq<char>>,
    collapsed: Seq<Seq<char>>,
) -> bool {
    forall|
        other_contexts: Seq<(Seq<char>, u32)>,
        other_expanded: Seq<Seq<char>>,
        other_collapsed: Seq<Seq<char>>,
    | #[trigger]
        expansion_json(other_contexts, other_expanded, other_collapsed) == text ==> other_contexts
            == contexts && other_expanded == expanded && other_collapsed == collapsed
}

/// Renders what the user unfolded with `serde_json::to_string`. It depends on
/// the values alone; lists of texts and numbers are always rendered, since only
/// a value that refuses to be written or a map without text keys is not; and as
/// JSON can be read back, no two values are rendered alike.
#[verifier::external_body]
fn render_expansion(
    contexts: &Vec<(String, u32)>,
    expanded: &Vec<String>,
    collapsed: &Vec<String>,
) -> (text: Option<String>)
    ensures
        opt_text(text) == Some(
            expansion_json(context_pairs(contexts@), texts(expanded@), texts(collapsed@)),
        ),
        comes_only_of(
            text->0@,
            context_pairs(contexts@),
            texts(expanded@),
            texts(collapsed@),
        ),
{
    serde_json::to_string(&(contexts, expanded, collapsed)).ok()
}

/// The contexts of a state as pairs.
pub open spec fn state_pairs(contexts: Seq<HunkContext>) -> Seq<(Seq<char>, u32)> {
    contexts.map_values(|context: HunkContext| (context.hunk_id@, context.lines))
}

/// What a state unfolds, as text.
pub open spec fn state_expansion(state: ReviewUiState) -> Seq<char> {
    expansion_json(
        state_pairs(state.hunk_context_lines@),
        state.expanded_full_file_deletion_blocks.listed(),
        state.collapsed_full_file_addition_blocks.listed(),
    )
}

/// Whether what a state unfolds is rendered unlike anything else.
pub open spec fn is_told_apart(state: ReviewUiState) -> bool {
    comes_only_of(
        state_expansion(state),
        state_pairs(state.hunk_context_lines@),
        state.expanded_full_file_deletion_blocks.listed(),
        state.collapsed_full_file_addition_blocks.listed(),
    )
}

/// The key of a document.
pub fn document_key(file_id: ReviewFileId, comparison_id: Option<ComparisonId>) -> (key: String)
    ensures
        key@ == document_key_chars(file_id, comparison_id),
{
    let mut key = match comparison_id {
        Some(id) => id_text(id.0),
        None => "latest".to_owned(),
    };
    key.append(":");
    key.append(id_text(file_id.0).as_str());
    key
}

/// The key of a canonical presentation.
pub open spec fn canonical_key_chars(
    document: ReviewDiffDocument,
    mode: Seq<char>,
    view: FullFileView,
    expansion: Seq<char>,
) -> Seq<char> {
    id_chars(document.file.id.0) + ":"@ + id_chars(document.comparison_id.0) + ":"@ + mode + ":"@
        + view_chars(view) + ":"@ + expansion
}

/// The key of a canonical presentation.
pub fn canonical_key(
    document: &ReviewDiffDocument,
    mode: &str,
    view: FullFileView,
    state: &ReviewUiState,
) -> (key: String)
    ensures
        key@ == canonical_key_chars(*document, mode@, view, state_expansion(*state)),
        is_told_apart(*state),
{
    let mut contexts: Vec<(String, u32)> = Vec::new();
    let ghost pairs = state_pairs(state.hunk_context_lines@);
    let mut i: usize = 0;
    while i < state.hunk_context_lines.len()
        invariant
            i <= state.hunk_context_lines.len(),
            pairs == state_pairs(state.hunk_context_lines@),
            context_pairs(contexts@) =~= pairs.take(i as int),
        decreases state.hunk_context_lines.len() - i,
    {
        let context = &state.hunk_context_lines[i];
        let ghost before = context_pairs(contexts@);
        contexts.push((context.hunk_id.clone(), context.lines));
        assert(context_pairs(contexts@) =~= before.push(pairs[i as int]));
        i += 1;
    }
    assert(context_pairs(contexts@) =~= pairs);
    let expanded = state.expanded_full_file_deletion_blocks.to_list();
    let collapsed = state.collapsed_full_file_addition_blocks.to_list();
    let expansion = render_expansion(&contexts, &expanded, &collapsed).unwrap();
    let mut key = id_text(document.file.id.0);
    key.append(":");
    key.append(id_text(document.comparison_id.0).as_str());
    key.append(":");
    key.append(mode);
    key.append(":");
    key.append(view.name());
    key.append(":");
    key.append(expansion.as_str());
    key
}

/// The key of a structural presentation.
pub open spec fn structural_key_chars(document: ReviewDiffDocument, theme: Seq<char>) -> Seq<char> {
    id_chars(document.file.id.0) + ":"@ + document.old.fingerprint@ + ":"@
        + document.new.fingerprint@ + ":"@ + theme
}

/// The key of a structural presentation.
pub fn structural_cache_key(document: &ReviewDiffDocument, theme: &str) -> (key: String)
    ensures
        key@ == structural_key_chars(*document, theme@),
{
    let mut key = id_text(document.file.id.0);
    key.append(":");
    key.append(document.old.fingerprint.as_str());
    key.append(":");
    key.append(document.new.fingerprint.as_str());
    key.append(":");
    key.append(theme);
    key
}

/// The key of a document.
pub open spec fn document_key_chars(file_id: ReviewFileId, comparison_id: Option<ComparisonId>) -> Seq<
    char,
> {
    (match comparison_id {
        Some(id) => id_chars(id.0),
        None => "latest"@,
    }) + ":"@ + id_chars(file_id.0)
}

/// How many bytes of source a document has, as far as that can be counted.
pub open spec fn bytes_of(document: ReviewDiffDocument) -> nat {
    let bytes = encode_utf8(document.old.content@).len() + encode_utf8(
        document.new.content@,
    ).len();
    if bytes > usize::MAX {
        usize::MAX as nat
    } else {
        bytes
    }
}

/// How many bytes of source a document has.
pub fn source_bytes(document: &ReviewDiffDocument) -> (bytes: usize)
    ensures
        bytes == bytes_of(*document),
{
    let old_bytes: usize = document.old.content.as_str().as_bytes().len();
    let new_bytes: usize = document.new.content.as_str().as_bytes().len();
    if old_bytes > usize::MAX - new_bytes {
        usize::MAX
    } else {
        old_bytes + new_bytes
    }
}

/// The caches behind presentations: documents of type `D`, canonical
/// presentations, and structural presentations of type `S`.
#[derive(Debug)]
pub struct PresentationCache<D, S> {
    pub documents: BoundedCache<D>,
    pub canonical: BoundedCache<Arc<CachedCanonicalPresentation>>,
    pub structural: BoundedCache<S>,
    pub verified_sidecars: TextSet,
}

/// What is kept once a presentation has been served under a key: it is now the
/// most recently used one, unless it has too many rows to be kept, and what is
/// too much is forgotten.
pub open spec fn after_serving(
    kept: Seq<EntryModel<Arc<CachedCanonicalPresentation>>>,
    key: Seq<char>,
    served: Arc<CachedCanonicalPresentation>,
) -> Seq<EntryModel<Arc<CachedCanonicalPresentation>>> {
    match lookup(kept, key) {
        Some(entry) => without(kept, key).push(entry),
        None => if served.rows@.len() <= MAX_CANONICAL_ROWS {
            within_bounds(
                without(kept, key).push(
                    EntryModel { key, cost: served.rows@.len(), value: served },
                ),
                MAX_CANONICAL_ENTRIES as nat,
                MAX_CANONICAL_ROWS as nat,
            )
        } else {
            kept
        },
    }
}

impl<D, S> PresentationCache<D, S> {
    /// Every cache is in order and has the bounds that it is meant to have, and
    /// every kept canonical presentation is one of a document that has its key.
    pub open spec fn wf(self) -> bool {
        &&& self.documents.wf()
        &&& self.documents.entry_limit() == MAX_DOCUMENT_ENTRIES
        &&& self.documents.cost_limit() == MAX_DOCUMENT_BYTES
        &&& self.canonical.wf()
        &&& self.canonical.entry_limit() == MAX_CANONICAL_ENTRIES
        &&& self.canonical.cost_limit() == MAX_CANONICAL_ROWS
        &&& keeps_presentations(self.canonical@)
        &&& self.structural.wf()
        &&& self.structural.entry_limit() == MAX_STRUCTURAL_ENTRIES
        &&& self.structural.cost_limit() == MAX_STRUCTURAL_ENTRIES
        &&& self.verified_sidecars.wf()
    }

    /// Empty caches.
    pub fn new() -> (cache: PresentationCache<D, S>)
        ensures
            cache.wf(),
            cache.documents@.len() == 0,
            cache.canonical@.len() == 0,
            cache.structural@.len() == 0,
            cache.verified_sidecars@ == Set::<Seq<char>>::empty(),
    {
        PresentationCache {
            documents: BoundedCache::new(MAX_DOCUMENT_ENTRIES, MAX_DOCUMENT_BYTES),
            canonical: BoundedCache::new(MAX_CANONICAL_ENTRIES, MAX_CANONICAL_ROWS),
            structural: BoundedCache::new(MAX_STRUCTURAL_ENTRIES, MAX_STRUCTURAL_ENTRIES),
            verified_sidecars: TextSet::new(),
        }
    }

    /// The kept document of a file, which is now the most recently used one.
    pub fn find_document(&mut self, file_id: ReviewFileId, comparison_id: Option<ComparisonId>) -> (found:
        Option<&D>)
        requires
            old(self).wf(),
        ensures
            final(self).wf(),
            final(self).canonical == old(self).canonical,
            final(self).structural == old(self).structural,
            final(self).verified_sidecars == old(self).verified_sidecars,
            ({
                let key = document_key_chars(file_id, comparison_id);
                match lookup(old(self).documents@, key) {
                    Some(entry) => found == Some(&entry.value) && final(self).documents@
                        == without(old(self).documents@, key).push(entry),
                    None => found is None && final(self).documents@ == old(self).documents@,
                }
            }),
    {
        self.documents.get(document_key(file_id, comparison_id).as_str())
    }

    /// Keeps the document of a file, unless it has too many bytes, and forgets
    /// what is too much.
    pub fn keep_document(
        &mut self,
        file_id: ReviewFileId,
        comparison_id: Option<ComparisonId>,
        bytes: usize,
        document: D,
    )
        requires
            old(self).wf(),
        ensures
            final(self).wf(),
            final(self).canonical == old(self).canonical,
            final(self).structural == old(self).structural,
            final(self).verified_sidecars == old(self).verified_sidecars,
            ({
                let key = document_key_chars(file_id, comparison_id);
                final(self).documents@ == if bytes <= MAX_DOCUMENT_BYTES {
                    within_bounds(
                        without(old(self).documents@, key).push(
                            EntryModel { key, cost: bytes as nat, value: document },
                        ),
                        MAX_DOCUMENT_ENTRIES as nat,
                        MAX_DOCUMENT_BYTES as nat,
                    )
                } else {
                    old(self).documents@
                }
            }),
    {
        self.documents.insert(document_key(file_id, comparison_id), bytes, document);
    }

    /// The canonical presentation of a document: the kept one where there is
    /// one, else a new one, which is kept unless it has too many rows.
    pub fn cached_canonical_rows(
        &mut self,
        document: &ReviewDiffDocument,
        mode: &str,
        view: FullFileView,
        state: &ReviewUiState,
    ) -> (result: Result<Arc<CachedCanonicalPresentation>, DispatchError>)
        requires
            old(self).wf(),
        ensures
            final(self).wf(),
            final(self).documents == old(self).documents,
            final(self).structural == old(self).structural,
            final(self).verified_sidecars == old(self).verified_sidecars,
            ({
                let key = canonical_key_chars(*document, mode@, view, state_expansion(*state));
                match lookup(old(self).canonical@, key) {
                    Some(entry) => {
                        &&& result == Ok::<Arc<CachedCanonicalPresentation>, DispatchError>(
                            entry.value,
                        )
                        &&& is_canonical_mode(mode@) ==> is_of_that_file(
                            *entry.value,
                            *document,
                            mode@,
                            view,
                            state@,
                        )
                        &&& final(self).canonical@ == after_serving(
                            old(self).canonical@,
                            key,
                            entry.value,
                        )
                    },
                    None => if is_canonical_mode(mode@) {
                        result matches Ok(built) && {
                            &&& is_canonical(*built, *document, mode@, view, state@)
                            &&& final(self).canonical@ == after_serving(
                                old(self).canonical@,
                                key,
                                built,
                            )
                        }
                    } else {
                        &&& result matches Err(error) && error.is_invalid(
                            "unsupported canonical diff mode"@,
                        )
                        &&& final(self).canonical@ == old(self).canonical@
                    },
                }
            }),
    {
        let key = canonical_key(document, mode, view, state);
        let ghost kept = self.canonical@;
        proof {
            lemma_without_keeps(kept, key@);
        }
        match self.canonical.get(key.as_str()) {
            Some(cached) => {
                proof {
                    let entry = lookup(kept, key@)->0;
                    lemma_push_keeps(without(kept, key@), entry);
                    if is_canonical_mode(mode@) {
                        law_kept_presentations_answer_their_requests(
                            entry,
                            *document,
                            mode@,
                            view,
                            *state,
                        );
                    }
                }
                return Ok(cached.clone());
            },
            None => {},
        }
        let built = match build_canonical_presentation(document, mode, view, state) {
            Ok(built) => Arc::new(built),
            Err(error) => {
                return Err(error);
            },
        };
        let rows: usize = built.rows.len();
        proof {
            law_kept_presentations_fit_their_keys(
                kept,
                built,
                *document,
                mode@,
                view,
                *state,
                Seq::empty(),
            );
        }
        self.canonical.insert(key, rows, built.clone());
        Ok(built)
    }

    /// Forgets everything that was kept of a file.
    pub fn clear_file(&mut self, file_id: ReviewFileId)
        requires
            old(self).wf(),
        ensures
            final(self).wf(),
            final(self).verified_sidecars == old(self).verified_sidecars,
            final(self).documents@ == unmarked(
                old(self).documents@,
                Seq::new(
                    old(self).documents@.len(),
                    |i: int|
                        ends_with_text(
                            old(self).documents@[i].key,
                            ":"@ + id_chars(file_id.0),
                        ),
                ),
            ),
            final(self).canonical@ == unmarked(
                old(self).canonical@,
                Seq::new(
                    old(self).canonical@.len(),
                    |i: int|
                        (id_chars(file_id.0) + ":"@).is_prefix_of(old(self).canonical@[i].key),
                ),
            ),
            final(self).structural@ == unmarked(
                old(self).structural@,
                Seq::new(
                    old(self).structural@.len(),
                    |i: int| holds_text(old(self).structural@[i].key, id_chars(file_id.0)),
                ),
            ),
    {
        let id = id_text(file_id.0);
        let mut suffix = ":".to_owned();
        suffix.append(id.as_str());
        let mut marks: Vec<bool> = Vec::new();
        let ghost wanted = Seq::new(
            self.documents@.len(),
            |i: int| ends_with_text(self.documents@[i].key, suffix@),
        );
        while marks.len() < self.documents.len()
            invariant
                marks.len() <= self.documents@.len(),
                wanted == Seq::new(
                    self.documents@.len(),
                    |i: int| ends_with_text(self.documents@[i].key, suffix@),
                ),
                marks@ =~= wanted.take(marks.len() as int),
            decreases self.documents@.len() - marks.len(),
        {
            marks.push(ends_with(self.documents.key_at(marks.len()).as_str(), suffix.as_str()));
        }
        assert(marks@ =~= wanted);
        self.documents.remove_marked(&marks);
        self.clear_canonical(file_id);
        let mut flags: Vec<bool> = Vec::new();
        let ghost inside = Seq::new(
            self.structural@.len(),
            |i: int| holds_text(self.structural@[i].key, id@),
        );
        while flags.len() < self.structural.len()
            invariant
                flags.len() <= self.structural@.len(),
                inside == Seq::new(
                    self.structural@.len(),
                    |i: int| holds_text(self.structural@[i].key, id@),
                ),
                flags@ =~= inside.take(flags.len() as int),
            decreases self.structural@.len() - flags.len(),
        {
            flags.push(holds(self.structural.key_at(flags.len()).as_str(), id.as_str()));
        }
        assert(flags@ =~= inside);
        self.structural.remove_marked(&flags);
    }

    /// Forgets the canonical presentations of a file.
    pub fn clear_canonical(&mut self, file_id: ReviewFileId)
        requires
            old(self).wf(),
        ensures
            final(self).wf(),
            final(self).documents == old(self).documents,
            final(self).structural == old(self).structural,
            final(self).verified_sidecars == old(self).verified_sidecars,
            final(self).canonical@ == unmarked(
                old(self).canonical@,
                Seq::new(
                    old(self).canonical@.len(),
                    |i: int|
                        (id_chars(file_id.0) + ":"@).is_prefix_of(old(self).canonical@[i].key),
                ),
            ),
    {
        let mut prefix = id_text(file_id.0);
        prefix.append(":");
        let mut marks: Vec<bool> = Vec::new();
        let ghost wanted = Seq::new(
            self.canonical@.len(),
            |i: int| prefix@.is_prefix_of(self.canonical@[i].key),
        );
        while marks.len() < self.canonical.len()
            invariant
                marks.len() <= self.canonical@.len(),
                wanted == Seq::new(
                    self.canonical@.len(),
                    |i: int| prefix@.is_prefix_of(self.canonical@[i].key),
                ),
                marks@ =~= wanted.take(marks.len() as int),
            decreases self.canonical@.len() - marks.len(),
        {
            marks.push(starts_with(self.canonical.key_at(marks.len()).as_str(), prefix.as_str()));
        }
        assert(marks@ =~= wanted);
        proof {
            lemma_unmarked_keeps(self.canonical@, marks@);
        }
        self.canonical.remove_marked(&marks);
    }
}

/// Whether a mode is one that canonical presentations have.
pub open spec fn is_canonical_mode(mode: Seq<char>) -> bool {
    mode == "unified"@ || mode == "split"@ || mode == "full"@
}

/// Whether an entry is a presentation of a document that has its key.
pub open spec fn presents(
    entry: EntryModel<Arc<CachedCanonicalPresentation>>,
    document: ReviewDiffDocument,
    mode: Seq<char>,
    view: FullFileView,
    state: ReviewUiState,
) -> bool {
    &&& is_canonical_mode(mode)
    &&& is_told_apart(state)
    &&& entry.key == canonical_key_chars(document, mode, view, state_expansion(state))
    &&& is_canonical(*entry.value, document, mode, view, state@)
}

/// Whether an entry is a presentation of some document that has its key.
pub open spec fn fits_its_key(entry: EntryModel<Arc<CachedCanonicalPresentation>>) -> bool {
    exists|document: ReviewDiffDocument, mode: Seq<char>, view: FullFileView, state: ReviewUiState|
        presents(entry, document, mode, view, state)
}

/// Whether a presentation is that of a document with the same identity: of the
/// same file of the same comparison, in a mode, a view and a state.
pub open spec fn is_of_that_file(
    presentation: CachedCanonicalPresentation,
    document: ReviewDiffDocument,
    mode: Seq<char>,
    view: FullFileView,
    state: UiStateModel,
) -> bool {
    exists|made_of: ReviewDiffDocument|
        made_of.file.id == document.file.id && made_of.comparison_id == document.comparison_id
            && #[trigger] is_canonical(presentation, made_of, mode, view, state)
}

/// Whether every kept presentation is one of a document that has its key.
pub open spec fn keeps_presentations(
    entries: Seq<EntryModel<Arc<CachedCanonicalPresentation>>>,
) -> bool {
    forall|i: int| 0 <= i < entries.len() ==> fits_its_key(#[trigger] entries[i])
}

proof fn lemma_push_keeps(
    entries: Seq<EntryModel<Arc<CachedCanonicalPresentation>>>,
    entry: EntryModel<Arc<CachedCanonicalPresentation>>,
)
    requires
        keeps_presentations(entries),
        fits_its_key(entry),
    ensures
        keeps_presentations(entries.push(entry)),
{
}

proof fn lemma_drop_last_keeps(entries: Seq<EntryModel<Arc<CachedCanonicalPresentation>>>)
    requires
        keeps_presentations(entries),
        entries.len() > 0,
    ensures
        keeps_presentations(entries.drop_last()),
        fits_its_key(entries.last()),
{
    assert(entries.last() == entries[entries.len() - 1]);
}

proof fn lemma_without_keeps(
    entries: Seq<EntryModel<Arc<CachedCanonicalPresentation>>>,
    key: Seq<char>,
)
    requires
        keeps_presentations(entries),
    ensures
        keeps_presentations(without(entries, key)),
        lookup(entries, key) matches Some(found) ==> fits_its_key(found) && found.key == key,
    decreases entries.len(),
{
    if entries.len() > 0 {
        lemma_drop_last_keeps(entries);
        lemma_without_keeps(entries.drop_last(), key);
        lemma_push_keeps(without(entries.drop_last(), key), entries.last());
    }
}

proof fn lemma_within_bounds_keeps(
    entries: Seq<EntryModel<Arc<CachedCanonicalPresentation>>>,
    max_entries: nat,
    max_cost: nat,
)
    requires
        keeps_presentations(entries),
    ensures
        keeps_presentations(within_bounds(entries, max_entries, max_cost)),
    decreases entries.len(),
{
    if entries.len() > 0 {
        let rest = entries.drop_first();
        assert forall|i: int| 0 <= i < rest.len() implies fits_its_key(#[trigger] rest[i]) by {
            assert(rest[i] == entries[i + 1]);
        }
        lemma_within_bounds_keeps(rest, max_entries, max_cost);
    }
}

proof fn lemma_unmarked_keeps(
    entries: Seq<EntryModel<Arc<CachedCanonicalPresentation>>>,
    marks: Seq<bool>,
)
    requires
        keeps_presentations(entries),
    ensures
        keeps_presentations(unmarked(entries, marks)),
    decreases entries.len(),
{
    if entries.len() > 0 && marks.len() > 0 {
        lemma_drop_last_keeps(entries);
        lemma_unmarked_keeps(entries.drop_last(), marks.drop_last());
        lemma_push_keeps(unmarked(entries.drop_last(), marks.drop_last()), entries.last());
    }
}

/// Whatever is served, kept or forgotten, every kept presentation stays one of
/// a document that has its key.
pub proof fn law_kept_presentations_fit_their_keys(
    entries: Seq<EntryModel<Arc<CachedCanonicalPresentation>>>,
    served: Arc<CachedCanonicalPresentation>,
    document: ReviewDiffDocument,
    mode: Seq<char>,
    view: FullFileView,
    state: ReviewUiState,
    marks: Seq<bool>,
)
    requires
        keeps_presentations(entries),
        is_canonical_mode(mode),
        is_told_apart(state),
        match lookup(entries, canonical_key_chars(document, mode, view, state_expansion(state))) {
            Some(entry) => served == entry.value,
            None => is_canonical(*served, document, mode, view, state@),
        },
    ensures
        keeps_presentations(Seq::empty()),
        keeps_presentations(
            after_serving(
                entries,
                canonical_key_chars(document, mode, view, state_expansion(state)),
                served,
            ),
        ),
        keeps_presentations(unmarked(entries, marks)),
{
    let key = canonical_key_chars(document, mode, view, state_expansion(state));
    let left = without(entries, key);
    lemma_without_keeps(entries, key);
    match lookup(entries, key) {
        Some(entry) => {
            lemma_push_keeps(left, entry);
        },
        None => {
            let entry = EntryModel { key, cost: served.rows@.len(), value: served };
            assert(presents(entry, document, mode, view, state));
            lemma_push_keeps(left, entry);
            lemma_within_bounds_keeps(
                left.push(entry),
                MAX_CANONICAL_ENTRIES as nat,
                MAX_CANONICAL_ROWS as nat,
            );
        },
    }
    lemma_unmarked_keeps(entries, marks);
}

} // verus!
