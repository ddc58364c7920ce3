//! How the lines of a text make it up, and how line numbers, byte ranges and
//! texts belong together.
use crate::canonical::{lines_of, without_ending};
use crate::source_lines::{
    as_offsets, lemma_newline_encoding, lemma_newlines_of_encoding, line_starts, lines_inclusive,
    newline_bytes, offset_of, range_of_lines, starts_within, NEWLINE,
};
use crate::text::lemma_encode_concat;
use vstd::prelude::*;
use vstd::utf8::*;

verus! {

/// Texts behind one another.
pub open spec fn joined(parts: Seq<Seq<char>>) -> Seq<char>
    decreases parts.len(),
{
    if parts.len() == 0 {
        Seq::empty()
    } else {
        joined(parts.drop_last()) + parts.last()
    }
}

proof fn lemma_joined_concat(a: Seq<Seq<char>>, b: Seq<Seq<char>>)
    ensures
        joined(a + b) == joined(a) + joined(b),
    decreases b.len(),
{
    if b.len() == 0 {
        assert(a + b =~= a);
        assert(joined(a) + joined(b) =~= joined(a));
    } else {
        assert((a + b).drop_last() =~= a + b.drop_last());
        lemma_joined_concat(a, b.drop_last());
        assert(joined(a + b) =~= joined(a) + joined(b));
    }
}

/// The lines of a text with their newlines, behind one another, are the text.
pub proof fn law_lines_make_up_the_text(text: Seq<char>)
    ensures
        joined(lines_inclusive(text)) == text,
    decreases text.len(),
{
    if text.len() > 0 {
        let head = text.drop_last();
        let lines = lines_inclusive(head);
        law_lines_make_up_the_text(head);
        if text.len() == 1 || text[text.len() - 2] == '\n' {
            assert(lines.push(seq![text.last()]).drop_last() =~= lines);
            assert(joined(lines_inclusive(text)) =~= text);
        } else {
            assert(lines.len() > 0) by {
                if lines.len() == 0 {
                    assert(head.len() == 0);
                }
            }
            let grown = lines.update(lines.len() - 1, lines.last().push(text.last()));
            assert(grown.drop_last() =~= lines.drop_last());
            assert(joined(grown) == joined(lines.drop_last()) + lines.last().push(text.last()));
            assert(joined(grown) =~= joined(lines).push(text.last()));
            assert(text =~= head.push(text.last()));
        }
    }
}

proof fn lemma_lines_of_head(text: Seq<char>, count: int)
    requires
        text.len() > 0,
        0 <= count < lines_inclusive(text).len(),
    ensures
        count <= lines_inclusive(text.drop_last()).len(),
        lines_inclusive(text).take(count) == lines_inclusive(text.drop_last()).take(count),
        count == lines_inclusive(text.drop_last()).len() && count > 0 ==> text.drop_last().last()
            == '\n',
{
    let lines = lines_inclusive(text.drop_last());
    if text.len() == 1 || text[text.len() - 2] == '\n' {
        assert(lines_inclusive(text).take(count) =~= lines.take(count));
        if text.len() == 1 {
            assert(lines.len() == 0);
        }
    } else {
        law_lines_make_up_the_text(text.drop_last());
        assert(lines.len() > 0) by {
            if lines.len() == 0 {
                assert(text.drop_last().len() == 0);
            }
        }
        assert(lines_inclusive(text).take(count) =~= lines.take(count));
    }
}

/// The first lines of a text, behind one another, have those lines, and end
/// with a newline where other lines follow.
pub proof fn lemma_lines_of_first_lines(text: Seq<char>, count: int)
    requires
        0 <= count <= lines_inclusive(text).len(),
    ensures
        lines_inclusive(joined(lines_inclusive(text).take(count))) == lines_inclusive(text).take(
            count,
        ),
        0 < count < lines_inclusive(text).len() ==> joined(
            lines_inclusive(text).take(count),
        ).len() > 0 && joined(lines_inclusive(text).take(count)).last() == '\n',
    decreases text.len(),
{
    law_lines_make_up_the_text(text);
    if count == lines_inclusive(text).len() {
        assert(lines_inclusive(text).take(count) =~= lines_inclusive(text));
    } else {
        let head = text.drop_last();
        lemma_lines_of_head(text, count);
        lemma_lines_of_first_lines(head, count);
        if count == lines_inclusive(head).len() && count > 0 {
            law_lines_make_up_the_text(head);
            assert(lines_inclusive(head).take(count) =~= lines_inclusive(head));
            if head.len() == 0 {
                assert(lines_inclusive(head).len() == 0);
            }
        }
    }
}

/// The lines of two texts, of which the first ends with a newline or is empty,
/// are the lines of both.
proof fn lemma_lines_concat(a: Seq<char>, b: Seq<char>)
    requires
        a.len() == 0 || a.last() == '\n',
    ensures
        lines_inclusive(a + b) == lines_inclusive(a) + lines_inclusive(b),
    decreases b.len(),
{
    if b.len() == 0 {
        assert(a + b =~= a);
        assert(lines_inclusive(a) + lines_inclusive(b) =~= lines_inclusive(a));
    } else {
        let whole = a + b;
        let rest = b.drop_last();
        lemma_lines_concat(a, rest);
        assert(whole.drop_last() =~= a + rest);
        assert(whole.last() == b.last());
        if b.len() == 1 {
            assert(rest =~= Seq::<char>::empty());
            assert(whole.len() == 1 || whole[whole.len() - 2] == a.last());
            assert(lines_inclusive(whole) =~= lines_inclusive(a) + lines_inclusive(b));
        } else {
            assert(whole[whole.len() - 2] == b[b.len() - 2]);
            law_lines_make_up_the_text(rest);
            assert(lines_inclusive(rest).len() > 0) by {
                if lines_inclusive(rest).len() == 0 {
                    assert(rest.len() == 0);
                }
            }
            assert(lines_inclusive(whole) =~= lines_inclusive(a) + lines_inclusive(b));
        }
    }
}

/// A text falls apart into its first lines and its other lines.
pub proof fn lemma_cut_behind_lines(text: Seq<char>, count: int)
    requires
        0 <= count < lines_inclusive(text).len(),
    ensures
        text == joined(lines_inclusive(text).take(count)) + joined(
            lines_inclusive(text).skip(count),
        ),
        lines_inclusive(joined(lines_inclusive(text).skip(count))) == lines_inclusive(text).skip(
            count,
        ),
{
    let lines = lines_inclusive(text);
    let a = joined(lines.take(count));
    let b = joined(lines.skip(count));
    law_lines_make_up_the_text(text);
    assert(lines.take(count) + lines.skip(count) =~= lines);
    lemma_joined_concat(lines.take(count), lines.skip(count));
    lemma_lines_of_first_lines(text, count);
    if count == 0 {
        assert(lines.take(0) =~= Seq::<Seq<char>>::empty());
    }
    lemma_lines_concat(a, b);
    assert(lines_inclusive(b) =~= lines.skip(count)) by {
        assert(lines == lines.take(count) + lines_inclusive(b));
        assert(forall|i: int|
            0 <= i < lines_inclusive(b).len() ==> lines_inclusive(b)[i] == (lines.take(count)
                + lines_inclusive(b))[count + i]);
    }
}

proof fn lemma_starts_of_head(head: Seq<u8>, tail: Seq<u8>, count: nat)
    requires
        count < head.len(),
        tail.len() > 0,
    ensures
        starts_within(head + tail, count) == starts_within(head, count),
    decreases count,
{
    if count > 0 {
        lemma_starts_of_head(head, tail, (count - 1) as nat);
    }
}

proof fn lemma_no_starts_in_tail(head: Seq<u8>, tail: Seq<u8>, count: nat)
    requires
        head.len() <= count <= head.len() + tail.len(),
        tail.len() > 0,
        newline_bytes(tail.drop_last()) == 0,
    ensures
        starts_within(head + tail, count) == starts_within(head + tail, head.len()),
    decreases count,
{
    if count > head.len() {
        lemma_no_starts_in_tail(head, tail, (count - 1) as nat);
        if count < head.len() + tail.len() {
            let index = count - 1 - head.len();
            assert((head + tail)[count - 1] == tail.drop_last()[index]);
            lemma_no_newline_at(tail.drop_last(), index);
        }
    }
}

proof fn lemma_no_newline_at(bytes: Seq<u8>, index: int)
    requires
        newline_bytes(bytes) == 0,
        0 <= index < bytes.len(),
    ensures
        bytes[index] != NEWLINE,
    decreases bytes.len(),
{
    if index < bytes.len() - 1 {
        lemma_no_newline_at(bytes.drop_last(), index);
    }
}

/// One character more starts a line where a newline stands before it.
proof fn lemma_starts_of_one_more(head: Seq<char>, c: char)
    requires
        head.len() > 0,
    ensures
        line_starts(encode_utf8(head.push(c))) == if head.last() == '\n' {
            line_starts(encode_utf8(head)).push(encode_utf8(head).len())
        } else {
            line_starts(encode_utf8(head))
        },
{
    let bytes = encode_utf8(head);
    let tail = encode_utf8(seq![c]);
    assert(head.push(c) =~= head + seq![c]);
    lemma_encode_concat(head, seq![c]);
    lemma_newline_encoding(c);
    lemma_newlines_of_encoding(head);
    lemma_starts_of_head(bytes, tail, (bytes.len() - 1) as nat);
    lemma_no_starts_in_tail(bytes, tail, bytes.len() + tail.len());
    assert((bytes + tail)[bytes.len() - 1] == bytes.last());
}

/// A line starts behind the bytes of the lines before it.
proof fn lemma_start_of_line(text: Seq<char>, index: int)
    requires
        0 <= index < lines_inclusive(text).len(),
    ensures
        index < line_starts(encode_utf8(text)).len(),
        line_starts(encode_utf8(text))[index] == encode_utf8(
            joined(lines_inclusive(text).take(index)),
        ).len(),
    decreases text.len(),
{
    let head = text.drop_last();
    crate::source_lines::law_lines_match_line_starts(text);
    lemma_lines_of_head(text, index);
    if head.len() == 0 {
        assert(lines_inclusive(head).len() == 0);
        assert(lines_inclusive(text).take(0) =~= Seq::<Seq<char>>::empty());
        crate::source_lines::law_line_starts_follow_newlines(encode_utf8(text));
    } else {
        assert(text =~= head.push(text.last()));
        lemma_starts_of_one_more(head, text.last());
        crate::source_lines::law_lines_match_line_starts(head);
        if index < lines_inclusive(head).len() {
            lemma_start_of_line(head, index);
        } else {
            law_lines_make_up_the_text(head);
            assert(lines_inclusive(head).take(index) =~= lines_inclusive(head));
        }
    }
}

/// The text of the bytes behind those of some first lines is that of the other
/// lines.
proof fn lemma_text_behind_lines(text: Seq<char>, index: int)
    requires
        0 <= index < lines_inclusive(text).len(),
    ensures
        ({
            let bytes = encode_utf8(text);
            let start = line_starts(bytes)[index] as int;
            &&& 0 <= start <= bytes.len()
            &&& bytes.take(start) == encode_utf8(joined(lines_inclusive(text).take(index)))
            &&& bytes.skip(start) == encode_utf8(joined(lines_inclusive(text).skip(index)))
            &&& decode_utf8(bytes.skip(start)) == joined(lines_inclusive(text).skip(index))
        }),
{
    let lines = lines_inclusive(text);
    lemma_start_of_line(text, index);
    lemma_cut_behind_lines(text, index);
    let a = joined(lines.take(index));
    let b = joined(lines.skip(index));
    lemma_encode_concat(a, b);
    let start = line_starts(encode_utf8(text))[index] as int;
    assert(encode_utf8(text).take(start) =~= encode_utf8(a));
    assert(encode_utf8(text).skip(start) =~= encode_utf8(b));
    encode_utf8_decode_utf8(b);
}

proof fn lemma_offset_is_start(text: Seq<char>, line: u32)
    requires
        encode_utf8(text).len() <= u32::MAX,
        1 <= line <= lines_inclusive(text).len(),
    ensures
        line <= line_starts(encode_utf8(text)).len(),
        offset_of(as_offsets(line_starts(encode_utf8(text))), line) == line_starts(
            encode_utf8(text),
        )[line - 1],
{
    lemma_text_behind_lines(text, line - 1);
    crate::source_lines::law_lines_match_line_starts(text);
}

/// The text from the offset of a line on begins with that line; where there is
/// no such line the offset is zero.
pub proof fn law_text_from_an_offset_begins_with_its_line(text: Seq<char>, line: u32)
    requires
        encode_utf8(text).len() <= u32::MAX,
    ensures
        ({
            let bytes = encode_utf8(text);
            let offsets = as_offsets(line_starts(bytes));
            let offset = offset_of(offsets, line) as int;
            &&& 1 <= line <= lines_of(text).len() ==> {
                &&& 0 <= offset <= bytes.len()
                &&& lines_of(decode_utf8(bytes.skip(offset))).len() > 0
                &&& lines_of(decode_utf8(bytes.skip(offset)))[0] == lines_of(text)[line - 1]
            }
            &&& line == 0 || line > offsets.len() ==> offset == 0
        }),
{
    if 1 <= line <= lines_of(text).len() {
        let rest = lines_inclusive(text).skip(line - 1);
        lemma_offset_is_start(text, line);
        lemma_text_behind_lines(text, line - 1);
        lemma_cut_behind_lines(text, line - 1);
        assert(rest[0] == lines_inclusive(text)[line - 1]);
        assert(lines_of(joined(rest))[0] == without_ending(rest[0]));
    }
}

/// The bytes of a range of lines are those of the lines with their newlines,
/// behind one another.
pub proof fn law_line_ranges_hold_their_lines(text: Seq<char>, first: u32, last: u32)
    requires
        encode_utf8(text).len() <= u32::MAX,
        1 <= first <= last <= lines_inclusive(text).len(),
    ensures
        ({
            let bytes = encode_utf8(text);
            let (start, end) = range_of_lines(bytes, first, last);
            &&& 0 <= start <= end <= bytes.len()
            &&& bytes.subrange(start, end) == encode_utf8(
                joined(lines_inclusive(text).subrange(first - 1, last as int)),
            )
            &&& decode_utf8(bytes.subrange(start, end)) == joined(
                lines_inclusive(text).subrange(first - 1, last as int),
            )
        }),
{
    let bytes = encode_utf8(text);
    let lines = lines_inclusive(text);
    let (start, end) = range_of_lines(bytes, first, last);
    let cut = lines.subrange(first - 1, last as int);
    lemma_offset_is_start(text, first);
    lemma_text_behind_lines(text, first - 1);
    crate::source_lines::law_lines_match_line_starts(text);
    let before = joined(lines.take(first - 1));
    assert(bytes.take(start) == encode_utf8(before));
    assert(lines.take(last as int) =~= lines.take(first - 1) + cut);
    lemma_joined_concat(lines.take(first - 1), cut);
    lemma_encode_concat(before, joined(cut));
    if last < lines.len() {
        lemma_text_behind_lines(text, last as int);
        assert(end == line_starts(bytes)[last as int]);
    } else {
        law_lines_make_up_the_text(text);
        assert(lines.take(last as int) =~= lines);
        assert(bytes.take(end) =~= bytes);
    }
    assert(bytes.take(end) == encode_utf8(before) + encode_utf8(joined(cut)));
    assert(bytes.take(start).len() == start);
    assert(bytes.subrange(start, end) =~= bytes.take(end).skip(start));
    assert(bytes.subrange(start, end) =~= encode_utf8(joined(cut)));
    encode_utf8_decode_utf8(joined(cut));
}

/// Ranges of adjacent lines join without a gap, and a range up to the last
/// line ends at the end of the source.
pub proof fn law_adjacent_line_ranges_join(text: Seq<char>, first: u32, last: u32)
    requires
        encode_utf8(text).len() <= u32::MAX,
        1 <= first <= last < lines_inclusive(text).len(),
    ensures
        ({
            let bytes = encode_utf8(text);
            let count = lines_inclusive(text).len() as u32;
            let before = range_of_lines(bytes, first, last);
            let behind = range_of_lines(bytes, (last + 1) as u32, count);
            &&& before.1 == behind.0
            &&& behind.1 == bytes.len()
        }),
{
    crate::source_lines::law_lines_match_line_starts(text);
    lemma_lines_bound(text);
}

/// A text has no more lines than characters, and no more characters than
/// bytes.
proof fn lemma_lines_bound(text: Seq<char>)
    ensures
        lines_inclusive(text).len() <= text.len() <= encode_utf8(text).len(),
    decreases text.len(),
{
    if text.len() > 0 {
        lemma_lines_bound(text.drop_last());
        law_lines_make_up_the_text(text.drop_last());
        if text.len() > 1 && lines_inclusive(text.drop_last()).len() == 0 {
            assert(text.drop_last().len() == 0);
        }
        assert(text =~= text.drop_last() + seq![text.last()]);
        lemma_encode_concat(text.drop_last(), seq![text.last()]);
        lemma_newline_encoding(text.last());
    }
}

} // verus!
