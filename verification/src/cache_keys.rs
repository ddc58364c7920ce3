//! What the keys of kept presentations tell apart.
use crate::cache::EntryModel;
use crate::canonical::{
    hunk_location_model, requested_context, rows_of_hunks, HunkContext,
};
use crate::document::ReviewDiffDocument;
use crate::full_file::{view_chars, FullFileView};
use crate::ids::{hyphens_before, id_chars, lower_hex};
use crate::presentation::{is_canonical, CachedCanonicalPresentation};
use crate::presentation_cache::{
    canonical_key_chars, fits_its_key, is_canonical_mode, is_of_that_file, presents,
    state_expansion, state_pairs,
};
use crate::ui_state::{ReviewUiState, UiStateModel};
use std::sync::Arc;
use vstd::arithmetic::div_mod::{lemma_mod_breakdown, lemma_small_mod};
use vstd::arithmetic::power::{lemma_pow_positive, pow};
use vstd::prelude::*;

verus! {

/// The hexadecimal digit of a number at a place, counted from the last one.
pub open spec fn digit_at(value: u128, place: nat) -> int {
    (value as int / pow(16, place)) % 16
}

proof fn lemma_hex_digits_differ(a: int, b: int)
    requires
        0 <= a < 16,
        0 <= b < 16,
        lower_hex(a) == lower_hex(b),
    ensures
        a == b,
{
}

/// Where the digit of a place stands in a rendered identity.
spec fn position_of(place: int) -> int {
    if place >= 24 {
        31 - place
    } else if place >= 20 {
        32 - place
    } else if place >= 16 {
        33 - place
    } else if place >= 12 {
        34 - place
    } else {
        35 - place
    }
}

proof fn lemma_digits_are_shown(a: u128, b: u128, place: nat)
    requires
        id_chars(a) == id_chars(b),
        place < 32,
    ensures
        digit_at(a, place) == digit_at(b, place),
{
    let position = position_of(place as int);
    assert(0 <= position < 36);
    assert(31 - position + hyphens_before(position) == place);
    assert(id_chars(a)[position] == lower_hex(digit_at(a, place)));
    assert(id_chars(b)[position] == lower_hex(digit_at(b, place)));
    lemma_hex_digits_differ(digit_at(a, place), digit_at(b, place));
}

proof fn lemma_low_digits_agree(a: u128, b: u128, count: nat)
    requires
        id_chars(a) == id_chars(b),
        count <= 32,
    ensures
        a as int % pow(16, count) == b as int % pow(16, count),
    decreases count,
{
    if count == 0 {
        reveal(pow);
        assert(pow(16, 0) == 1);
    } else {
        let place = (count - 1) as nat;
        lemma_low_digits_agree(a, b, place);
        lemma_digits_are_shown(a, b, place);
        lemma_pow_positive(16, place);
        lemma_mod_breakdown(a as int, pow(16, place), 16);
        lemma_mod_breakdown(b as int, pow(16, place), 16);
        reveal(pow);
        assert(pow(16, count) == 16 * pow(16, place));
        assert(pow(16, place) * 16 == pow(16, count)) by (nonlinear_arith)
            requires
                pow(16, count) == 16 * pow(16, place),
        ;
    }
}

proof fn lemma_all_ids_are_below()
    ensures
        pow(16, 32) == u128::MAX + 1,
{
    reveal_with_fuel(pow, 33);
}

/// Identities that are rendered alike are the same.
pub proof fn law_rendered_ids_tell_apart(a: u128, b: u128)
    requires
        id_chars(a) == id_chars(b),
    ensures
        a == b,
{
    lemma_low_digits_agree(a, b, 32);
    lemma_all_ids_are_below();
    lemma_small_mod(a as nat, pow(16, 32) as nat);
    lemma_small_mod(b as nat, pow(16, 32) as nat);
}

proof fn lemma_same_front(a: Seq<char>, x: Seq<char>, b: Seq<char>, y: Seq<char>)
    requires
        a + x == b + y,
        a.len() == b.len(),
    ensures
        a == b,
        x == y,
{
    assert(a =~= (a + x).take(a.len() as int));
    assert(b =~= (b + y).take(b.len() as int));
    assert(x =~= (a + x).skip(a.len() as int));
    assert(y =~= (b + y).skip(b.len() as int));
}

proof fn lemma_same_mode(a: Seq<char>, x: Seq<char>, b: Seq<char>, y: Seq<char>)
    requires
        is_canonical_mode(a),
        is_canonical_mode(b),
        a + x == b + y,
    ensures
        a == b,
        x == y,
{
    reveal_strlit("unified");
    reveal_strlit("split");
    reveal_strlit("full");
    assert((a + x)[0] == a[0]);
    assert((b + y)[0] == b[0]);
    lemma_same_front(a, x, b, y);
}

proof fn lemma_same_view(a: FullFileView, x: Seq<char>, b: FullFileView, y: Seq<char>)
    requires
        view_chars(a) + x == view_chars(b) + y,
    ensures
        a == b,
        x == y,
{
    reveal_strlit("old");
    reveal_strlit("new");
    reveal_strlit("both");
    assert((view_chars(a) + x)[0] == view_chars(a)[0]);
    assert((view_chars(b) + y)[0] == view_chars(b)[0]);
    lemma_same_front(view_chars(a), x, view_chars(b), y);
}

proof fn lemma_regrouped(a: Seq<char>, b: Seq<char>, c: Seq<char>)
    ensures
        a + b + c == a + (b + c),
{
    assert(a + b + c =~= a + (b + c));
}

/// A key, part by part.
proof fn lemma_key_shape(
    file: Seq<char>,
    pair: Seq<char>,
    mode: Seq<char>,
    view: Seq<char>,
    expansion: Seq<char>,
    colon: Seq<char>,
)
    ensures
        file + colon + pair + colon + mode + colon + view + colon + expansion == file + (colon + (
        pair + (colon + (mode + (colon + (view + (colon + expansion))))))),
{
    let tail = colon + expansion;
    lemma_regrouped(file + colon + pair + colon + mode + colon + view, colon, expansion);
    lemma_regrouped(file + colon + pair + colon + mode + colon, view, tail);
    lemma_regrouped(file + colon + pair + colon + mode, colon, view + tail);
    let end = colon + (view + tail);
    lemma_regrouped(file + colon + pair + colon, mode, end);
    lemma_regrouped(file + colon + pair, colon, mode + end);
    let rest = colon + (mode + end);
    lemma_regrouped(file + colon, pair, rest);
    lemma_regrouped(file, colon, pair + rest);
}

/// Two presentations have one key only where they are of the same file of the
/// same comparison, in the same mode and view, and what is unfolded is rendered
/// the same.
pub proof fn law_keys_tell_presentations_apart(
    first: ReviewDiffDocument,
    first_mode: Seq<char>,
    first_view: FullFileView,
    first_expansion: Seq<char>,
    second: ReviewDiffDocument,
    second_mode: Seq<char>,
    second_view: FullFileView,
    second_expansion: Seq<char>,
)
    requires
        is_canonical_mode(first_mode),
        is_canonical_mode(second_mode),
        canonical_key_chars(first, first_mode, first_view, first_expansion)
            == canonical_key_chars(second, second_mode, second_view, second_expansion),
    ensures
        first.file.id == second.file.id,
        first.comparison_id == second.comparison_id,
        first_mode == second_mode,
        first_view == second_view,
        first_expansion == second_expansion,
{
    let colon = ":"@;
    let (file_a, file_b) = (id_chars(first.file.id.0), id_chars(second.file.id.0));
    let (pair_a, pair_b) = (id_chars(first.comparison_id.0), id_chars(second.comparison_id.0));
    let (view_a, view_b) = (view_chars(first_view), view_chars(second_view));
    lemma_key_shape(file_a, pair_a, first_mode, view_a, first_expansion, colon);
    lemma_key_shape(file_b, pair_b, second_mode, view_b, second_expansion, colon);
    let tail_a = colon + first_expansion;
    let tail_b = colon + second_expansion;
    let end_a = colon + (view_a + tail_a);
    let end_b = colon + (view_b + tail_b);
    let rest_a = colon + (first_mode + end_a);
    let rest_b = colon + (second_mode + end_b);
    lemma_same_front(file_a, colon + (pair_a + rest_a), file_b, colon + (pair_b + rest_b));
    lemma_same_front(colon, pair_a + rest_a, colon, pair_b + rest_b);
    lemma_same_front(pair_a, rest_a, pair_b, rest_b);
    lemma_same_front(colon, first_mode + end_a, colon, second_mode + end_b);
    lemma_same_mode(first_mode, end_a, second_mode, end_b);
    lemma_same_front(colon, view_a + tail_a, colon, view_b + tail_b);
    lemma_same_view(first_view, tail_a, second_view, tail_b);
    lemma_same_front(colon, first_expansion, colon, second_expansion);
    law_rendered_ids_tell_apart(first.file.id.0, second.file.id.0);
    law_rendered_ids_tell_apart(first.comparison_id.0, second.comparison_id.0);
}

proof fn lemma_same_requests(a: Seq<HunkContext>, b: Seq<HunkContext>, hunk_id: Seq<char>)
    requires
        state_pairs(a) == state_pairs(b),
    ensures
        requested_context(a, hunk_id) == requested_context(b, hunk_id),
    decreases a.len(),
{
    assert(a.len() == state_pairs(a).len());
    assert(b.len() == state_pairs(b).len());
    if a.len() > 0 {
        assert(state_pairs(a.drop_last()) =~= state_pairs(a).drop_last());
        assert(state_pairs(b.drop_last()) =~= state_pairs(b).drop_last());
        lemma_same_requests(a.drop_last(), b.drop_last(), hunk_id);
        assert(state_pairs(a).last() == (a.last().hunk_id@, a.last().lines));
        assert(state_pairs(b).last() == (b.last().hunk_id@, b.last().lines));
    }
}

proof fn lemma_same_rows(
    document: ReviewDiffDocument,
    split: bool,
    a: Seq<HunkContext>,
    b: Seq<HunkContext>,
    count: nat,
)
    requires
        state_pairs(a) == state_pairs(b),
    ensures
        rows_of_hunks(document, split, a, count) == rows_of_hunks(document, split, b, count),
    decreases count,
{
    if count > 0 {
        lemma_same_rows(document, split, a, b, (count - 1) as nat);
        lemma_same_requests(a, b, document.hunks@[count - 1].id@);
    }
}

/// States that unfold the same have the same presentations.
proof fn lemma_same_presentation(
    presentation: Arc<CachedCanonicalPresentation>,
    document: ReviewDiffDocument,
    mode: Seq<char>,
    view: FullFileView,
    a: UiStateModel,
    b: UiStateModel,
)
    requires
        state_pairs(a.hunk_context_lines) == state_pairs(b.hunk_context_lines),
        a.expanded_full_file_deletion_blocks == b.expanded_full_file_deletion_blocks,
        a.collapsed_full_file_addition_blocks == b.collapsed_full_file_addition_blocks,
        is_canonical(*presentation, document, mode, view, a),
    ensures
        is_canonical(*presentation, document, mode, view, b),
{
    if mode != "full"@ {
        let split = mode == "split"@;
        let count = document.hunks@.len();
        let (first, second) = (a.hunk_context_lines, b.hunk_context_lines);
        lemma_same_rows(document, split, first, second, count);
        assert forall|i: int| 0 <= i < count implies #[trigger] hunk_location_model(
            document,
            split,
            first,
            i as nat,
        ) == hunk_location_model(document, split, second, i as nat) by {
            lemma_same_rows(document, split, first, second, i as nat);
            lemma_same_requests(first, second, document.hunks@[i].id@);
        }
        assert(Seq::new(count, |i: int| hunk_location_model(document, split, first, i as nat))
            =~= Seq::new(count, |i: int| hunk_location_model(document, split, second, i as nat)));
    }
}

/// What is kept under the key of a request is the presentation, in the mode,
/// the view and the state that were asked for, of the same file of the same
/// comparison. So as long as what was captured stays as it is, it is what would
/// be made anew.
pub proof fn law_kept_presentations_answer_their_requests(
    entry: EntryModel<Arc<CachedCanonicalPresentation>>,
    document: ReviewDiffDocument,
    mode: Seq<char>,
    view: FullFileView,
    state: ReviewUiState,
)
    requires
        fits_its_key(entry),
        is_canonical_mode(mode),
        entry.key == canonical_key_chars(document, mode, view, state_expansion(state)),
    ensures
        is_of_that_file(*entry.value, document, mode, view, state@),
{
    let (made_of, made_mode, made_view, made_with) = choose|
        made_of: ReviewDiffDocument,
        made_mode: Seq<char>,
        made_view: FullFileView,
        made_with: ReviewUiState,
    |
        presents(entry, made_of, made_mode, made_view, made_with);
    law_keys_tell_presentations_apart(
        made_of,
        made_mode,
        made_view,
        state_expansion(made_with),
        document,
        mode,
        view,
        state_expansion(state),
    );
    made_with.expanded_full_file_deletion_blocks.lemma_listed_set();
    made_with.collapsed_full_file_addition_blocks.lemma_listed_set();
    state.expanded_full_file_deletion_blocks.lemma_listed_set();
    state.collapsed_full_file_addition_blocks.lemma_listed_set();
    lemma_same_presentation(entry.value, made_of, mode, view, made_with@, state@);
}

} // verus!
