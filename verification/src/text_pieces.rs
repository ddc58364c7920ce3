//! What is done to texts loses and adds nothing.
use crate::split::{law_cut_loses_only_the_separator, pieces, split_first, split_pieces};
use crate::text::{
    decimal, decimal_text, is_white, join_lines, joined, take_chars, texts, trim_text, trimmed_end,
    trimmed_start,
};
use vstd::prelude::*;
use vstd::string::*;

verus! {

/// The number that some digits read as.
pub open spec fn number_read(digits: Seq<char>) -> nat
    decreases digits.len(),
{
    if digits.len() == 0 {
        0
    } else {
        10 * number_read(digits.drop_last()) + (digits.last() as nat - '0' as nat) as nat
    }
}

/// Whether every character is a digit, and the first is none that could be left
/// out.
pub open spec fn is_plain_number(digits: Seq<char>) -> bool {
    &&& digits.len() > 0
    &&& forall|i: int| 0 <= i < digits.len() ==> '0' <= #[trigger] digits[i] <= '9'
    &&& digits.len() > 1 ==> digits[0] != '0'
}

proof fn lemma_decimal(value: nat)
    ensures
        number_read(decimal(value)) == value,
        is_plain_number(decimal(value)),
        value > 0 ==> decimal(value)[0] != '0',
    decreases value,
{
    if value < 10 {
        let digits = decimal(value);
        assert(digits.drop_last() =~= Seq::<char>::empty());
        assert(number_read(digits.drop_last()) == 0);
    } else {
        lemma_decimal(value / 10);
        let digits = decimal(value);
        assert(digits.drop_last() =~= decimal(value / 10));
        assert(10 * (value / 10) + value % 10 == value);
        assert(digits[0] == decimal(value / 10)[0]);
        assert forall|i: int| 0 <= i < digits.len() implies '0' <= #[trigger] digits[i] <= '9' by {
            if i < digits.len() - 1 {
                assert(digits[i] == decimal(value / 10)[i]);
            }
        }
    }
}

/// A number is written with digits that read as that number, and with no digit
/// too many.
pub proof fn law_numbers_read_back(value: u64, text: String)
    requires
        call_ensures(decimal_text, (value,), text),
    ensures
        number_read(text@) == value,
        is_plain_number(text@),
{
    lemma_decimal(value as nat);
}

/// Whether every character is white space.
pub open spec fn all_white(text: Seq<char>) -> bool {
    forall|i: int| 0 <= i < text.len() ==> is_white(#[trigger] text[i])
}

proof fn lemma_trimmed_start(text: Seq<char>) -> (cut: int)
    ensures
        0 <= cut <= text.len(),
        trimmed_start(text) == text.skip(cut),
        all_white(text.take(cut)),
        cut < text.len() ==> !is_white(text[cut]),
    decreases text.len(),
{
    if text.len() > 0 && is_white(text[0]) {
        let rest = lemma_trimmed_start(text.drop_first());
        assert(text.drop_first().skip(rest) =~= text.skip(rest + 1));
        assert forall|i: int| 0 <= i < rest + 1 implies is_white(
            #[trigger] text.take(rest + 1)[i],
        ) by {
            if i > 0 {
                assert(text.drop_first().take(rest)[i - 1] == text[i]);
            }
        }
        if rest + 1 < text.len() {
            assert(text.drop_first()[rest] == text[rest + 1]);
        }
        rest + 1
    } else {
        assert(text.skip(0) =~= text);
        0
    }
}

proof fn lemma_trimmed_end(text: Seq<char>) -> (cut: int)
    ensures
        0 <= cut <= text.len(),
        trimmed_end(text) == text.take(cut),
        all_white(text.skip(cut)),
        cut > 0 ==> !is_white(text[cut - 1]),
    decreases text.len(),
{
    if text.len() > 0 && is_white(text.last()) {
        let cut = lemma_trimmed_end(text.drop_last());
        assert(text.drop_last().take(cut) =~= text.take(cut));
        assert forall|i: int| 0 <= i < text.len() - cut implies is_white(
            #[trigger] text.skip(cut)[i],
        ) by {
            if i < text.len() - cut - 1 {
                assert(text.drop_last().skip(cut)[i] == text[cut + i]);
            }
        }
        cut
    } else {
        assert(text.take(text.len() as int) =~= text);
        text.len() as int
    }
}

/// Trimming takes away white space at both ends and nothing else, and leaves
/// none there.
pub proof fn law_trimming_takes_white_space_alone(text: &str, result: String) -> (cut: (int, int))
    requires
        call_ensures(trim_text, (text,), result),
    ensures
        0 <= cut.0 <= cut.1 <= text@.len(),
        result@ == text@.subrange(cut.0, cut.1),
        all_white(text@.take(cut.0)),
        all_white(text@.skip(cut.1)),
        result@.len() > 0 ==> !is_white(result@[0]) && !is_white(result@.last()),
{
    let first = lemma_trimmed_start(text@);
    let rest = text@.skip(first);
    let last = lemma_trimmed_end(rest);
    assert(rest.take(last) =~= text@.subrange(first, first + last));
    assert(text@.skip(first + last) =~= rest.skip(last));
    if last > 0 {
        assert(rest[0] == text@[first]);
        assert(result@[0] == text@[first]);
        assert(result@.last() == rest[last - 1]);
    }
    (first, first + last)
}

/// Some texts with a separator between each two.
pub open spec fn with_separators(parts: Seq<Seq<char>>, separator: char) -> Seq<char>
    decreases parts.len(),
{
    if parts.len() == 0 {
        Seq::empty()
    } else if parts.len() == 1 {
        parts[0]
    } else {
        with_separators(parts.drop_last(), separator) + seq![separator] + parts.last()
    }
}

proof fn lemma_longer_last(parts: Seq<Seq<char>>, separator: char, c: char)
    requires
        parts.len() > 0,
    ensures
        with_separators(parts.drop_last().push(parts.last().push(c)), separator)
            == with_separators(parts, separator).push(c),
{
    let longer = parts.drop_last().push(parts.last().push(c));
    assert(longer.drop_last() =~= parts.drop_last());
    if parts.len() == 1 {
        assert(longer =~= seq![parts[0].push(c)]);
        assert(with_separators(longer, separator) == parts[0].push(c));
    } else {
        assert(with_separators(longer, separator) =~= with_separators(parts, separator).push(c));
    }
}

proof fn lemma_pieces(text: Seq<char>, separator: char)
    ensures
        pieces(text, separator).len() > 0,
        with_separators(pieces(text, separator), separator) == text,
        forall|i: int, j: int|
            0 <= i < pieces(text, separator).len() && 0 <= j < pieces(text, separator)[i].len()
                ==> #[trigger] pieces(text, separator)[i][j] != separator,
    decreases text.len(),
{
    let all = pieces(text, separator);
    if text.len() == 0 {
        assert(with_separators(all, separator) =~= text);
    } else {
        let head = text.drop_last();
        let before = pieces(head, separator);
        lemma_pieces(head, separator);
        if text.last() == separator {
            assert(all.drop_last() =~= before);
            assert(with_separators(all, separator) =~= head + seq![separator]);
            assert(text =~= head + seq![separator]);
        } else {
            lemma_longer_last(before, separator, text.last());
            assert(text =~= head.push(text.last()));
        }
        assert forall|i: int, j: int| 0 <= i < all.len() && 0 <= j < all[i].len() implies
            #[trigger] all[i][j] != separator by {
            if i < before.len() - 1 {
                assert(all[i] == before[i]);
                assert(before[i][j] != separator);
            } else if i == before.len() - 1 {
                if text.last() == separator {
                    assert(all[i] == before[i]);
                    assert(before[i][j] != separator);
                } else if j < before[i].len() {
                    assert(all[i][j] == before[i][j]);
                }
            }
        }
    }
}

/// A text that is split makes up the text again with its separators, and no
/// piece holds one.
pub proof fn law_pieces_make_up_the_text(text: &str, separator: char, parts: Vec<String>)
    requires
        call_ensures(split_pieces, (text, separator), parts),
    ensures
        with_separators(texts(parts@), separator) == text@,
        forall|i: int| 0 <= i < parts@.len() ==> !(#[trigger] parts@[i])@.contains(separator),
{
    lemma_pieces(text@, separator);
    assert forall|i: int| 0 <= i < parts@.len() implies !(#[trigger] parts@[i])@.contains(
        separator,
    ) by {
        assert(texts(parts@)[i] == parts@[i]@);
        if parts@[i]@.contains(separator) {
            let j = choose|j: int| 0 <= j < parts@[i]@.len() && parts@[i]@[j] == separator;
            assert(pieces(text@, separator)[i][j] != separator);
        }
    }
}

/// The first separator parts a text: in front of it there is none, and what
/// stands behind it is kept whole. A text without one stays as it is.
pub proof fn law_first_separator_parts_the_text(
    text: &str,
    separator: char,
    parts: (String, Option<String>),
)
    requires
        call_ensures(split_first, (text, separator), parts),
    ensures
        !parts.0@.contains(separator),
        parts.1 matches Some(tail) ==> text@ == parts.0@ + seq![separator] + tail@,
        parts.1 is None ==> text@ == parts.0@,
{
    law_cut_loses_only_the_separator(text@, separator);
}

/// Lines are joined in their order, with a line end between each two.
pub proof fn law_lines_are_joined_with_line_ends(
    lines: Vec<String>,
    start: usize,
    end: usize,
    text: String,
)
    requires
        start <= end <= lines@.len(),
        call_ensures(join_lines, (&lines, start, end), text),
        start < end,
    ensures
        text@ == with_separators(texts(lines@).subrange(start as int, end as int), '\n'),
{
    lemma_joined(texts(lines@).subrange(start as int, end as int));
}

proof fn lemma_joined(lines: Seq<Seq<char>>)
    ensures
        joined(lines) == with_separators(lines, '\n'),
    decreases lines.len(),
{
    if lines.len() > 1 {
        lemma_joined(lines.drop_last());
    }
}

/// A text that is cut to a length keeps its beginning, and all of it where it
/// is short enough.
pub proof fn law_cut_texts_keep_their_beginning(text: &str, limit: usize, taken: String)
    requires
        call_ensures(take_chars, (text, limit), taken),
    ensures
        text@.len() <= limit ==> taken@ == text@,
        text@.len() > limit ==> taken@.len() == limit && taken@ == text@.subrange(
            0,
            limit as int,
        ),
{
    if text@.len() > limit {
        assert(text@.take(limit as int) =~= text@.subrange(0, limit as int));
    }
}

} // verus!
