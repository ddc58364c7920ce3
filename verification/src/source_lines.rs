//! Line structure of captured source text: line starts, line ranges,
//! numbered excerpts and the byte, UTF-16 and URL forms of positions.
use crate::errors::{invalid, DispatchError};
use crate::text::{decimal, lemma_encode_concat, push_decimal, row_number, to_row_number};
use std::ops::Range;
use vstd::prelude::*;
use vstd::string::*;
use vstd::utf8::*;

verus! {

/// The byte that ends a line.
pub const NEWLINE: u8 = 10;

/// The byte positions at which lines start among the first `count` bytes:
/// zero, and every position behind a newline that is not the last byte.
pub open spec fn starts_within(bytes: Seq<u8>, count: nat) -> Seq<nat>
    decreases count,
{
    if count == 0 {
        seq![0nat]
    } else {
        let earlier = starts_within(bytes, (count - 1) as nat);
        if bytes[count - 1] == NEWLINE && count < bytes.len() {
            earlier.push(count)
        } else {
            earlier
        }
    }
}

/// The byte positions at which the lines of a source start.
pub open spec fn line_starts(bytes: Seq<u8>) -> Seq<nat> {
    starts_within(bytes, bytes.len())
}

/// Line starts as 32-bit offsets.
pub open spec fn as_offsets(starts: Seq<nat>) -> Seq<u32> {
    starts.map_values(|start: nat| row_number(start))
}

/// The 32-bit offset at which each line of `source` starts.
pub fn source_line_offsets(source: &str) -> (offsets: Vec<u32>)
    ensures
        offsets@ == as_offsets(line_starts(source.spec_bytes())),
        offsets.len() >= 1,
{
    let bytes = source.as_bytes();
    let mut offsets: Vec<u32> = Vec::new();
    offsets.push(0);
    let mut index: usize = 0;
    assert(offsets@ =~= as_offsets(starts_within(bytes@, 0)));
    while index < bytes.len()
        invariant
            index <= bytes.len(),
            bytes@ == source.spec_bytes(),
            offsets@ == as_offsets(starts_within(bytes@, index as nat)),
            offsets.len() >= 1,
        decreases bytes.len() - index,
    {
        let ghost earlier = starts_within(bytes@, index as nat);
        if bytes[index] == NEWLINE && index + 1 < bytes.len() {
            offsets.push(to_row_number(index + 1));
            assert(offsets@ =~= as_offsets(earlier.push((index + 1) as nat)));
        }
        index += 1;
    }
    offsets
}

/// The offset at which a one-based line starts, or zero where there is none.
pub open spec fn offset_of(offsets: Seq<u32>, line: u32) -> u32 {
    if 1 <= line <= offsets.len() {
        offsets[line - 1]
    } else {
        0
    }
}

/// Looks the start of a one-based line up; zero where there is no such line.
pub fn source_offset(offsets: &Vec<u32>, line: u32) -> (offset: u32)
    ensures
        offset == offset_of(offsets@, line),
{
    if line == 0 {
        return 0;
    }
    let index: usize = (line - 1) as usize;
    if index < offsets.len() {
        offsets[index]
    } else {
        0
    }
}

/// The byte range of the lines `first..=last` of a source that is not empty:
/// from the start of the first line to the start of the line behind the last
/// one, or to the end of the source.
pub open spec fn range_of_lines(bytes: Seq<u8>, first: u32, last: u32) -> (int, int) {
    let offsets = as_offsets(line_starts(bytes));
    let end = if last < offsets.len() {
        offsets[last as int] as int
    } else {
        bytes.len() as int
    };
    (offsets[first - 1] as int, end)
}

/// Resolves one-based lines of a captured source to the bytes they cover.
pub fn source_line_range(
    source: &str,
    requested_start: Option<u32>,
    requested_end: Option<u32>,
) -> (result: Result<Range<usize>, DispatchError>)
    ensures
        ({
            let bytes = source.spec_bytes();
            let count = line_starts(bytes).len();
            let first = match requested_start {
                Some(line) => line,
                None => 1u32,
            };
            let last = match requested_end {
                Some(line) => line,
                None => first,
            };
            if source@.len() == 0 {
                result matches Ok(range) && range.start == 0 && range.end == 0
            } else if first == 0 || last < first {
                result matches Err(error) && error.is_invalid("source line range is invalid"@)
            } else if first > count {
                result matches Err(error) && error.is_invalid(
                    "source line is outside captured snapshot"@,
                )
            } else {
                result matches Ok(range) && (range.start as int, range.end as int)
                    == range_of_lines(bytes, first, last)
            }
        }),
{
    if source.is_empty() {
        return Ok(0..0);
    }
    let offsets = source_line_offsets(source);
    let start_line: u32 = match requested_start {
        Some(line) => line,
        None => 1,
    };
    let end_line: u32 = match requested_end {
        Some(line) => line,
        None => start_line,
    };
    if start_line == 0 || end_line < start_line {
        return Err(invalid("source line range is invalid"));
    }
    let start_index: usize = (start_line - 1) as usize;
    let end_index: usize = end_line as usize;
    if start_index >= offsets.len() {
        return Err(invalid("source line is outside captured snapshot"));
    }
    let start: usize = offsets[start_index] as usize;
    let end: usize = if end_index < offsets.len() {
        offsets[end_index] as usize
    } else {
        source.as_bytes().len()
    };
    Ok(start..end)
}

/// The lines of a text, each with the newline that ends it.
pub open spec fn lines_inclusive(text: Seq<char>) -> Seq<Seq<char>>
    decreases text.len(),
{
    if text.len() == 0 {
        Seq::empty()
    } else {
        let earlier = lines_inclusive(text.drop_last());
        if text.len() == 1 || text[text.len() - 2] == '\n' {
            earlier.push(seq![text.last()])
        } else {
            earlier.update(earlier.len() - 1, earlier.last().push(text.last()))
        }
    }
}

/// A line number `offset` lines behind `start`, at most the largest number.
pub open spec fn line_behind(start: u32, offset: nat) -> nat {
    if start + offset <= u32::MAX {
        (start + offset) as nat
    } else {
        u32::MAX as nat
    }
}

/// The lines, each behind its number and a tab.
pub open spec fn numbered(lines: Seq<Seq<char>>, start: u32) -> Seq<char>
    decreases lines.len(),
{
    if lines.len() == 0 {
        Seq::empty()
    } else {
        numbered(lines.drop_last(), start) + decimal(
            line_behind(start, (lines.len() - 1) as nat),
        ) + seq!['\t'] + lines.last()
    }
}

proof fn lemma_lines_nonempty(text: Seq<char>)
    requires
        text.len() > 0,
    ensures
        lines_inclusive(text).len() > 0,
    decreases text.len(),
{
    if text.len() > 1 && text[text.len() - 2] != '\n' {
        lemma_lines_nonempty(text.drop_last());
    }
}

/// The characters of a byte range of a text that starts and ends between
/// characters.
pub open spec fn chars_between(text: &str, start: int, end: int) -> Seq<char> {
    decode_utf8(text.spec_bytes().subrange(start, end))
}

/// A text decodes to no more characters than it has bytes.
proof fn lemma_decode_len(bytes: Seq<u8>)
    requires
        valid_utf8(bytes),
    ensures
        decode_utf8(bytes).len() <= bytes.len(),
    decreases bytes.len(),
{
    if bytes.len() > 0 {
        lemma_decode_len(pop_first_scalar(bytes));
    }
}

/// A boundary of a text no further than `end` is a boundary of the prefix
/// that ends at the boundary `end`.
proof fn lemma_boundary_of_prefix(bytes: Seq<u8>, start: int, end: int)
    requires
        valid_utf8(bytes),
        0 <= start <= end <= bytes.len(),
        is_char_boundary(bytes, start),
        is_char_boundary(bytes, end),
    ensures
        valid_utf8(bytes.subrange(0, end)),
        is_char_boundary(bytes.subrange(0, end), start),
{
    let prefix = bytes.subrange(0, end);
    valid_utf8_split(bytes, end);
    if start == end {
        is_char_boundary_start_end_of_seq(prefix);
    } else {
        is_char_boundary_iff_not_is_continuation_byte(bytes, start);
        is_char_boundary_iff_not_is_continuation_byte(prefix, start);
    }
}

proof fn lemma_boundary_in_range(bytes: Seq<u8>, index: int)
    requires
        valid_utf8(bytes),
        is_char_boundary(bytes, index),
    ensures
        0 <= index <= bytes.len(),
    decreases bytes.len(),
{
}

/// The slice `text[start..end]`.
pub fn slice_bytes(text: &str, start: usize, end: usize) -> (slice: &str)
    requires
        start <= end,
        is_char_boundary(text.spec_bytes(), start as int),
        is_char_boundary(text.spec_bytes(), end as int),
    ensures
        slice@ == chars_between(text, start as int, end as int),
        slice.spec_bytes() == text.spec_bytes().subrange(start as int, end as int),
{
    proof {
        encode_utf8_valid_utf8(text@);
        lemma_boundary_in_range(text.spec_bytes(), end as int);
        lemma_boundary_of_prefix(text.spec_bytes(), start as int, end as int);
    }
    let (head, _) = text.split_at(end);
    let (_, slice) = head.split_at(start);
    proof {
        encode_utf8_decode_utf8(slice@);
        assert(slice.spec_bytes() =~= text.spec_bytes().subrange(start as int, end as int));
    }
    slice
}

/// The lines in a byte range of a source, numbered from `start_line`.
pub fn numbered_source(source: &str, range: Range<usize>, start_line: u32) -> (output: String)
    requires
        range.start <= range.end,
        is_char_boundary(source.spec_bytes(), range.start as int),
        is_char_boundary(source.spec_bytes(), range.end as int),
    ensures
        output@ == numbered(
            lines_inclusive(chars_between(source, range.start as int, range.end as int)),
            start_line,
        ),
{
    let slice = slice_bytes(source, range.start, range.end);
    let mut output = String::new();
    let mut line: u32 = start_line;
    let mut at_start: bool = true;
    let ghost chars = slice@;
    proof {
        assert(chars.take(0) =~= Seq::<char>::empty());
    }
    for c in iter: slice.chars()
        invariant
            iter.seq() == chars,
            at_start <==> (iter.index() == 0 || chars[iter.index() - 1] == '\n'),
            output@ == numbered(lines_inclusive(chars.take(iter.index() as int)), start_line),
            line == line_behind(
                start_line,
                if at_start {
                    lines_inclusive(chars.take(iter.index() as int)).len()
                } else {
                    (lines_inclusive(chars.take(iter.index() as int)).len() - 1) as nat
                },
            ),
    {
        let ghost done = chars.take(iter.index() as int);
        let ghost lines = lines_inclusive(done);
        let ghost next = chars.take(iter.index() as int + 1);
        assert(next.drop_last() =~= done);
        assert(next.last() == c);
        if at_start {
            push_decimal(&mut output, line as u64);
            output.push('\t');
            output.push(c);
            assert(lines_inclusive(next) == lines.push(seq![c]));
            assert(lines.push(seq![c]).drop_last() =~= lines);
            assert(output@ =~= numbered(lines_inclusive(next), start_line));
        } else {
            proof {
                lemma_lines_nonempty(done);
            }
            let ghost grown = lines.update(lines.len() - 1, lines.last().push(c));
            assert(lines_inclusive(next) == grown);
            assert(grown.drop_last() =~= lines.drop_last());
            output.push(c);
            assert(output@ =~= numbered(grown, start_line));
        }
        at_start = c == '\n';
        if at_start && line < u32::MAX {
            line += 1;
        }
    }
    assert(chars.take(chars.len() as int) =~= chars);
    output
}

/// How many UTF-16 code units a text takes.
pub open spec fn utf16_units(text: Seq<char>) -> nat
    decreases text.len(),
{
    if text.len() == 0 {
        0
    } else {
        utf16_units(text.drop_last()) + if text.last() as u32 >= 0x10000 {
            2nat
        } else {
            1nat
        }
    }
}

/// The UTF-16 position of a byte position in a text. There is none behind the
/// end or inside a character.
pub open spec fn utf16_index(text: Seq<char>, byte: u32) -> Option<u32> {
    if !is_char_boundary(encode_utf8(text), byte as int) {
        None
    } else {
        let units = utf16_units(decode_utf8(encode_utf8(text).subrange(0, byte as int)));
        if units <= u32::MAX {
            Some(units as u32)
        } else {
            None
        }
    }
}

/// Converts a byte position in `text` to a UTF-16 position.
pub fn byte_to_utf16_index(text: &str, byte: u32) -> (index: Option<u32>)
    ensures
        index == utf16_index(text@, byte),
{
    let position: usize = byte as usize;
    proof {
        encode_utf8_valid_utf8(text@);
        is_char_boundary_start_end_of_seq(text.spec_bytes());
        if is_char_boundary(text.spec_bytes(), byte as int) {
            lemma_boundary_in_range(text.spec_bytes(), byte as int);
        }
    }
    if position > text.as_bytes().len() || !text.is_char_boundary(position) {
        return None;
    }
    let prefix = slice_bytes(text, 0, position);
    proof {
        encode_utf8_valid_utf8(prefix@);
        encode_utf8_decode_utf8(prefix@);
        lemma_decode_len(prefix.spec_bytes());
    }
    let mut units: u64 = 0;
    let ghost chars = prefix@;
    assert(chars.take(0) =~= Seq::<char>::empty());
    for c in iter: prefix.chars()
        invariant
            iter.seq() == chars,
            units == utf16_units(chars.take(iter.index() as int)),
            units <= 2 * iter.index(),
            chars.len() <= u32::MAX,
    {
        assert(chars.take(iter.index() as int + 1).drop_last() =~= chars.take(iter.index() as int));
        units += if c as u32 >= 0x10000 {
            2
        } else {
            1
        };
    }
    assert(chars.take(chars.len() as int) =~= chars);
    if units <= 0xffff_ffff {
        Some(units as u32)
    } else {
        None
    }
}

proof fn lemma_units_concat(a: Seq<char>, b: Seq<char>)
    ensures
        utf16_units(a + b) == utf16_units(a) + utf16_units(b),
        b.len() > 0 ==> utf16_units(b) > 0,
    decreases b.len(),
{
    if b.len() == 0 {
        assert(a + b =~= a);
    } else {
        assert((a + b).drop_last() =~= a + b.drop_last());
        lemma_units_concat(a, b.drop_last());
    }
}

/// A text takes no more UTF-16 code units than bytes.
proof fn lemma_units_fit(text: Seq<char>)
    ensures
        utf16_units(text) <= encode_utf8(text).len(),
    decreases text.len(),
{
    if text.len() > 0 {
        let c = text.last();
        lemma_units_fit(text.drop_last());
        assert(text =~= text.drop_last() + seq![c]);
        lemma_encode_concat(text.drop_last(), seq![c]);
        char_is_scalar(c);
        assert(seq![c].drop_first() =~= Seq::<char>::empty());
        assert(encode_utf8(seq![c].drop_first()) =~= Seq::<u8>::empty());
        assert(encode_utf8(seq![c]) =~= encode_scalar(c as u32));
    }
}

/// In a text of at most `u32::MAX` bytes every boundary between characters has
/// a UTF-16 position, which is the number of code units before it, and no other
/// position has one.
pub proof fn law_boundaries_have_utf16_positions(text: Seq<char>, byte: u32)
    requires
        encode_utf8(text).len() <= u32::MAX,
    ensures
        utf16_index(text, byte) is Some <==> is_char_boundary(encode_utf8(text), byte as int),
        utf16_index(text, byte) matches Some(index) ==> byte <= encode_utf8(text).len() && index
            == utf16_units(decode_utf8(encode_utf8(text).subrange(0, byte as int))),
        utf16_index(text, 0) == Some(0u32),
        utf16_index(text, encode_utf8(text).len() as u32) == Some(utf16_units(text) as u32),
        utf16_units(text) <= u32::MAX,
{
    let bytes = encode_utf8(text);
    encode_utf8_valid_utf8(text);
    is_char_boundary_start_end_of_seq(bytes);
    lemma_units_fit(text);
    encode_utf8_decode_utf8(text);
    assert(bytes.subrange(0, bytes.len() as int) =~= bytes);
    assert(bytes.subrange(0, 0) =~= Seq::<u8>::empty());
    if is_char_boundary(bytes, byte as int) {
        lemma_boundary_in_range(bytes, byte as int);
        lemma_prefix_at_boundary(text, byte as int);
        lemma_units_fit(decode_utf8(bytes.subrange(0, byte as int)));
    }
}

/// The bytes before a boundary are those of the characters that they decode
/// to.
proof fn lemma_prefix_at_boundary(text: Seq<char>, index: int)
    requires
        is_char_boundary(encode_utf8(text), index),
    ensures
        0 <= index <= encode_utf8(text).len(),
        encode_utf8(decode_utf8(encode_utf8(text).subrange(0, index))) == encode_utf8(
            text,
        ).subrange(0, index),
{
    let bytes = encode_utf8(text);
    encode_utf8_valid_utf8(text);
    lemma_boundary_in_range(bytes, index);
    valid_utf8_split(bytes, index);
    decode_utf8_encode_utf8(bytes.subrange(0, index));
}

/// UTF-16 positions grow with the boundaries between characters.
pub proof fn law_utf16_positions_grow(text: Seq<char>, first: u32, second: u32)
    requires
        encode_utf8(text).len() <= u32::MAX,
        is_char_boundary(encode_utf8(text), first as int),
        is_char_boundary(encode_utf8(text), second as int),
        first < second,
    ensures
        utf16_index(text, first) is Some,
        utf16_index(text, second) is Some,
        utf16_index(text, first)->0 < utf16_index(text, second)->0,
{
    let bytes = encode_utf8(text);
    law_boundaries_have_utf16_positions(text, first);
    law_boundaries_have_utf16_positions(text, second);
    encode_utf8_valid_utf8(text);
    let prefix = bytes.subrange(0, second as int);
    lemma_boundary_of_prefix(bytes, first as int, second as int);
    decode_utf8_split(prefix, first as int);
    let head = prefix.subrange(0, first as int);
    let tail = prefix.subrange(first as int, prefix.len() as int);
    assert(head =~= bytes.subrange(0, first as int));
    valid_utf8_split(prefix, first as int);
    assert(tail.len() > 0);
    assert(decode_utf8(tail).len() > 0);
    lemma_units_concat(decode_utf8(head), decode_utf8(tail));
}

/// Line starts grow, and every one but the first stands behind a newline
/// inside the source.
pub proof fn law_line_starts_follow_newlines(bytes: Seq<u8>)
    ensures
        line_starts(bytes).len() >= 1,
        line_starts(bytes)[0] == 0,
        forall|i: int, j: int|
            0 <= i < j < line_starts(bytes).len() ==> line_starts(bytes)[i] < line_starts(
                bytes,
            )[j],
        forall|i: int|
            1 <= i < line_starts(bytes).len() ==> 0 < #[trigger] line_starts(bytes)[i]
                < bytes.len() && bytes[line_starts(bytes)[i] - 1] == NEWLINE,
        forall|p: int|
            0 < p < bytes.len() && #[trigger] bytes[p - 1] == NEWLINE ==> line_starts(
                bytes,
            ).contains(p as nat),
{
    lemma_starts_within(bytes, bytes.len());
    assert forall|p: int| 0 < p < bytes.len() && #[trigger] bytes[p - 1] == NEWLINE implies line_starts(
        bytes,
    ).contains(p as nat) by {
        lemma_newline_starts_line(bytes, bytes.len(), p as nat);
    }
}

proof fn lemma_starts_within(bytes: Seq<u8>, count: nat)
    requires
        count <= bytes.len(),
    ensures
        starts_within(bytes, count).len() >= 1,
        starts_within(bytes, count)[0] == 0,
        forall|i: int|
            0 <= i < starts_within(bytes, count).len() ==> #[trigger] starts_within(
                bytes,
                count,
            )[i] <= count,
        forall|i: int, j: int|
            0 <= i < j < starts_within(bytes, count).len() ==> starts_within(bytes, count)[i]
                < starts_within(bytes, count)[j],
        forall|i: int|
            1 <= i < starts_within(bytes, count).len() ==> 0 < #[trigger] starts_within(
                bytes,
                count,
            )[i] < bytes.len() && bytes[starts_within(bytes, count)[i] - 1] == NEWLINE,
    decreases count,
{
    if count > 0 {
        lemma_starts_within(bytes, (count - 1) as nat);
    }
}

proof fn lemma_newline_starts_line(bytes: Seq<u8>, count: nat, position: nat)
    requires
        count <= bytes.len(),
        0 < position <= count,
        position < bytes.len(),
        bytes[position - 1] == NEWLINE,
    ensures
        starts_within(bytes, count).contains(position),
    decreases count,
{
    let earlier = starts_within(bytes, (count - 1) as nat);
    if position == count {
        assert(earlier.push(count)[earlier.len() as int] == count);
    } else {
        lemma_newline_starts_line(bytes, (count - 1) as nat, position);
        let i = choose|i: int| 0 <= i < earlier.len() && earlier[i] == position;
        assert(earlier.push(count)[i] == position);
    }
}

/// The position behind a newline byte is a boundary between characters.
proof fn lemma_boundary_behind_newline(bytes: Seq<u8>, position: int)
    requires
        valid_utf8(bytes),
        0 < position < bytes.len(),
        bytes[position - 1] == NEWLINE,
    ensures
        is_char_boundary(bytes, position),
    decreases bytes.len(),
{
    let first = length_of_first_scalar(bytes);
    let rest = pop_first_scalar(bytes);
    if position < first {
        assert(is_leading_byte_width_1(bytes[0]));
        assert(is_continuation_byte(bytes[position]) || position == 0);
        assert(false);
    } else if position == first {
        assert(is_char_boundary(rest, 0));
    } else {
        assert(rest[position - first - 1] == bytes[position - 1]);
        lemma_boundary_behind_newline(rest, position - first);
    }
}

/// In a source of at most `u32::MAX` bytes every range of existing lines is a
/// range of whole characters that is not empty and ends behind a newline or
/// at the end of the source, so that cutting it out never yields partial text.
pub proof fn law_line_ranges_cut_whole_lines(text: Seq<char>, first: u32, last: u32)
    requires
        0 < encode_utf8(text).len() <= u32::MAX,
        1 <= first <= last,
        first <= line_starts(encode_utf8(text)).len(),
    ensures
        ({
            let bytes = encode_utf8(text);
            let (start, end) = range_of_lines(bytes, first, last);
            &&& 0 <= start < end <= bytes.len()
            &&& is_char_boundary(bytes, start)
            &&& is_char_boundary(bytes, end)
            &&& start == 0 || bytes[start - 1] == NEWLINE
            &&& end == bytes.len() || bytes[end - 1] == NEWLINE
        }),
{
    let bytes = encode_utf8(text);
    let starts = line_starts(bytes);
    let (start, end) = range_of_lines(bytes, first, last);
    encode_utf8_valid_utf8(text);
    law_line_starts_follow_newlines(bytes);
    is_char_boundary_start_end_of_seq(bytes);
    assert(starts[first - 1] < bytes.len());
    assert(start == starts[first - 1]);
    if last < starts.len() {
        assert(starts[last as int] < bytes.len());
        assert(end == starts[last as int]);
        assert(starts[first - 1] < starts[last as int]);
        lemma_boundary_behind_newline(bytes, end);
    }
    if first > 1 {
        lemma_boundary_behind_newline(bytes, start);
    }
}

/// Bytes that stand for themselves in a URL path.
pub open spec fn is_plain_path_byte(byte: u8) -> bool {
    ||| 48 <= byte <= 57
    ||| 65 <= byte <= 90
    ||| 97 <= byte <= 122
    ||| byte == 45
    ||| byte == 95
    ||| byte == 46
    ||| byte == 126
    ||| byte == 47
}

/// One hexadecimal digit, in upper case.
pub open spec fn upper_hex(value: u8) -> char {
    if value < 10 {
        (48 + value) as char
    } else {
        (55 + value) as char
    }
}

/// The form of one byte in a URL path.
pub open spec fn path_byte(byte: u8) -> Seq<char> {
    if is_plain_path_byte(byte) {
        seq![byte as char]
    } else {
        seq!['%', upper_hex(byte / 16), upper_hex(byte % 16)]
    }
}

/// The percent-encoded form of path bytes.
pub open spec fn path_bytes(bytes: Seq<u8>) -> Seq<char>
    decreases bytes.len(),
{
    if bytes.len() == 0 {
        Seq::empty()
    } else {
        path_bytes(bytes.drop_last()) + path_byte(bytes.last())
    }
}

fn upper_hex_digit(value: u8) -> (c: char)
    requires
        value < 16,
    ensures
        c == upper_hex(value),
{
    if value < 10 {
        (48 + value) as char
    } else {
        (55 + value) as char
    }
}

/// Percent-encodes a path for a provider URL, keeping its slashes.
pub fn github_path(path: &str) -> (output: String)
    ensures
        output@ == path_bytes(path.spec_bytes()),
{
    let bytes = path.as_bytes();
    let mut output = String::new();
    let mut index: usize = 0;
    assert(bytes@.take(0) =~= Seq::<u8>::empty());
    while index < bytes.len()
        invariant
            index <= bytes.len(),
            bytes@ == path.spec_bytes(),
            output@ == path_bytes(bytes@.take(index as int)),
        decreases bytes.len() - index,
    {
        let byte: u8 = bytes[index];
        let ghost before = output@;
        assert(bytes@.take(index + 1).drop_last() =~= bytes@.take(index as int));
        if (byte >= 48 && byte <= 57) || (byte >= 65 && byte <= 90) || (byte >= 97 && byte <= 122)
            || byte == 45 || byte == 95 || byte == 46 || byte == 126 || byte == 47 {
            output.push(byte as char);
        } else {
            output.push('%');
            output.push(upper_hex_digit(byte / 16));
            output.push(upper_hex_digit(byte % 16));
        }
        assert(output@ =~= before + path_byte(byte));
        index += 1;
    }
    assert(bytes@.take(bytes.len() as int) =~= bytes@);
    output
}

/// The value of a hexadecimal digit in upper case.
pub open spec fn upper_hex_value(c: char) -> int {
    if c as u32 <= 57 {
        c as u32 - 48
    } else {
        c as u32 - 55
    }
}

/// The bytes that a percent-encoded text stands for.
pub open spec fn percent_decoded(text: Seq<char>) -> Seq<u8>
    decreases text.len(),
{
    if text.len() == 0 {
        Seq::empty()
    } else if text[0] == '%' && text.len() >= 3 {
        seq![(upper_hex_value(text[1]) * 16 + upper_hex_value(text[2])) as u8] + percent_decoded(
            text.skip(3),
        )
    } else {
        seq![text[0] as u8] + percent_decoded(text.skip(1))
    }
}

/// Whether a character can stand in a URL path.
pub open spec fn is_path_char(c: char) -> bool {
    c == '%' || (c as u32) < 128 && is_plain_path_byte(c as u8)
}

/// The URL form of a path distributes over its parts, so that a slash stays
/// where it is.
pub proof fn law_url_paths_concatenate(a: Seq<u8>, b: Seq<u8>)
    ensures
        path_bytes(a + b) == path_bytes(a) + path_bytes(b),
        path_bytes(a + seq![47u8] + b) == path_bytes(a) + seq!['/'] + path_bytes(b),
{
    lemma_path_concat(a, b);
    lemma_path_concat(a, seq![47u8]);
    lemma_path_concat(a + seq![47u8], b);
    lemma_path_single(47);
    assert(path_byte(47) =~= seq!['/']);
}

proof fn lemma_path_single(byte: u8)
    ensures
        path_bytes(seq![byte]) == path_byte(byte),
{
    assert(seq![byte].drop_last() =~= Seq::<u8>::empty());
    assert(path_bytes(seq![byte].drop_last()) =~= Seq::<char>::empty());
    assert(path_bytes(seq![byte]) =~= path_byte(byte));
}

proof fn lemma_path_concat(a: Seq<u8>, b: Seq<u8>)
    ensures
        path_bytes(a + b) == path_bytes(a) + path_bytes(b),
    decreases b.len(),
{
    if b.len() == 0 {
        assert(a + b =~= a);
        assert(path_bytes(a) + path_bytes(b) =~= path_bytes(a));
    } else {
        assert((a + b).drop_last() =~= a + b.drop_last());
        lemma_path_concat(a, b.drop_last());
        assert(path_bytes(a + b) =~= path_bytes(a) + path_bytes(b));
    }
}

/// Decoding the URL form of a path gives its bytes back.
pub proof fn law_url_path_decodes_back(bytes: Seq<u8>)
    ensures
        percent_decoded(path_bytes(bytes)) == bytes,
    decreases bytes.len(),
{
    if bytes.len() > 0 {
        let byte = bytes[0];
        let rest = bytes.drop_first();
        assert(bytes =~= seq![byte] + rest);
        lemma_path_concat(seq![byte], rest);
        lemma_path_single(byte);
        law_url_path_decodes_back(rest);
        let text = path_bytes(bytes);
        let tail = path_bytes(rest);
        if is_plain_path_byte(byte) {
            assert(text[0] == byte as char);
            assert(text.skip(1) =~= tail);
            assert(percent_decoded(text) =~= bytes);
        } else {
            assert(text[0] == '%');
            assert(text[1] == upper_hex(byte / 16));
            assert(text[2] == upper_hex(byte % 16));
            assert(text.skip(3) =~= tail);
            assert(upper_hex_value(text[1]) == byte / 16);
            assert(upper_hex_value(text[2]) == byte % 16);
            assert(percent_decoded(text) =~= bytes);
        }
    }
}

/// Different paths have different URL forms.
pub proof fn law_url_paths_differ(a: Seq<char>, b: Seq<char>)
    requires
        a != b,
    ensures
        path_bytes(encode_utf8(a)) != path_bytes(encode_utf8(b)),
{
    law_url_path_decodes_back(encode_utf8(a));
    law_url_path_decodes_back(encode_utf8(b));
    encode_utf8_decode_utf8(a);
    encode_utf8_decode_utf8(b);
}

/// The URL form of a path holds only characters that can stand in a URL path,
/// and a slash only where the path has one.
pub proof fn law_url_paths_are_plain(bytes: Seq<u8>)
    ensures
        forall|i: int| 0 <= i < path_bytes(bytes).len() ==> is_path_char(
            #[trigger] path_bytes(bytes)[i],
        ),
        path_bytes(bytes).contains('/') <==> bytes.contains(47u8),
    decreases bytes.len(),
{
    if bytes.len() > 0 {
        let head = bytes.drop_last();
        let byte = bytes.last();
        let before = path_bytes(head);
        law_url_paths_are_plain(head);
        assert forall|i: int| 0 <= i < path_byte(byte).len() implies is_path_char(
            #[trigger] path_byte(byte)[i],
        ) && (path_byte(byte)[i] == '/' ==> byte == 47) by {}
        assert forall|i: int| 0 <= i < path_bytes(bytes).len() implies is_path_char(
            #[trigger] path_bytes(bytes)[i],
        ) by {
            if i < before.len() {
                assert(path_bytes(bytes)[i] == before[i]);
            } else {
                assert(path_bytes(bytes)[i] == path_byte(byte)[i - before.len()]);
            }
        }
        if path_bytes(bytes).contains('/') {
            let i = choose|i: int| 0 <= i < path_bytes(bytes).len() && path_bytes(bytes)[i] == '/';
            if i < before.len() {
                assert(before[i] == '/');
                let k = choose|k: int| 0 <= k < head.len() && head[k] == 47u8;
                assert(bytes[k] == 47u8);
            } else {
                assert(path_byte(byte)[i - before.len()] == '/');
                assert(bytes[bytes.len() - 1] == 47u8);
            }
        }
        if bytes.contains(47u8) {
            let k = choose|k: int| 0 <= k < bytes.len() && bytes[k] == 47u8;
            if k < head.len() {
                assert(head[k] == 47u8);
                let i = choose|i: int| 0 <= i < before.len() && before[i] == '/';
                assert(path_bytes(bytes)[i] == '/');
            } else {
                assert(path_byte(47)[0] == '/');
                assert(path_bytes(bytes)[before.len() as int] == '/');
            }
        }
    }
}

/// Whether the half-open span `start..end` meets the half-open range.
pub fn token_overlaps(start: u32, end: u32, range: Option<(u32, u32)>) -> (overlaps: bool)
    ensures
        overlaps == (range matches Some(bounds) && end > bounds.0 && start < bounds.1),
{
    match range {
        Some((range_start, range_end)) => end > range_start && start < range_end,
        None => false,
    }
}

/// How many newline bytes there are.
pub open spec fn newline_bytes(bytes: Seq<u8>) -> nat
    decreases bytes.len(),
{
    if bytes.len() == 0 {
        0
    } else {
        newline_bytes(bytes.drop_last()) + if bytes.last() == NEWLINE {
            1nat
        } else {
            0nat
        }
    }
}

/// How many newline characters there are.
pub open spec fn newline_chars(text: Seq<char>) -> nat
    decreases text.len(),
{
    if text.len() == 0 {
        0
    } else {
        newline_chars(text.drop_last()) + if text.last() == '\n' {
            1nat
        } else {
            0nat
        }
    }
}

proof fn lemma_newline_bytes_concat(a: Seq<u8>, b: Seq<u8>)
    ensures
        newline_bytes(a + b) == newline_bytes(a) + newline_bytes(b),
    decreases b.len(),
{
    if b.len() == 0 {
        assert(a + b =~= a);
    } else {
        assert((a + b).drop_last() =~= a + b.drop_last());
        lemma_newline_bytes_concat(a, b.drop_last());
    }
}

proof fn lemma_no_newline_bytes(bytes: Seq<u8>)
    requires
        forall|i: int| 0 <= i < bytes.len() ==> #[trigger] bytes[i] != NEWLINE,
    ensures
        newline_bytes(bytes) == 0,
    decreases bytes.len(),
{
    if bytes.len() > 0 {
        lemma_no_newline_bytes(bytes.drop_last());
    }
}

/// A newline is encoded as the newline byte, and no other character has it in
/// its encoding.
pub proof fn lemma_newline_encoding(c: char)
    ensures
        encode_utf8(seq![c]).len() > 0,
        newline_bytes(encode_utf8(seq![c])) == newline_chars(seq![c]),
        newline_bytes(encode_utf8(seq![c]).drop_last()) == 0,
{
    let scalar = c as u32;
    let bytes = encode_scalar(scalar);
    assert(seq![c].drop_first() =~= Seq::<char>::empty());
    assert(encode_utf8(seq![c].drop_first()) =~= Seq::<u8>::empty());
    assert(encode_utf8(seq![c]) =~= bytes);
    assert(seq![c].drop_last() =~= Seq::<char>::empty());
    assert(newline_chars(seq![c].drop_last()) == 0);
    char_is_scalar(c);
    if has_width_1_encoding(scalar) {
        assert(bytes.drop_last() =~= Seq::<u8>::empty());
        assert(newline_bytes(bytes.drop_last()) == 0);
        assert(bytes[0] == leading_byte_width_1(scalar));
        assert(leading_byte_width_1(scalar) == scalar) by {
            assert((scalar & 0x7F) as u8 == scalar) by (bit_vector)
                requires
                    scalar <= 0x7F,
            ;
        }
    } else {
        assert forall|i: int| 0 <= i < bytes.len() implies #[trigger] bytes[i] != NEWLINE by {
            assert(0xC0u8 | ((scalar >> 6) & 0x1F) as u8 >= 0x80) by (bit_vector);
            assert(0xE0u8 | ((scalar >> 12) & 0x0F) as u8 >= 0x80) by (bit_vector);
            assert(0xF0u8 | ((scalar >> 18) & 0x07) as u8 >= 0x80) by (bit_vector);
            assert(0x80u8 | (scalar & 0x3F) as u8 >= 0x80) by (bit_vector);
            assert(0x80u8 | ((scalar >> 6) & 0x3F) as u8 >= 0x80) by (bit_vector);
            assert(0x80u8 | ((scalar >> 12) & 0x3F) as u8 >= 0x80) by (bit_vector);
        }
        lemma_no_newline_bytes(bytes);
        lemma_no_newline_bytes(bytes.drop_last());
        assert(c != '\n');
    }
}

pub proof fn lemma_newlines_of_encoding(text: Seq<char>)
    ensures
        newline_bytes(encode_utf8(text)) == newline_chars(text),
        text.len() > 0 ==> encode_utf8(text).len() > 0 && newline_bytes(
            encode_utf8(text).drop_last(),
        ) == newline_chars(text.drop_last()),
    decreases text.len(),
{
    if text.len() > 0 {
        let head = text.drop_last();
        let tail = seq![text.last()];
        lemma_newlines_of_encoding(head);
        assert(text =~= head + tail);
        lemma_encode_concat(head, tail);
        lemma_newline_encoding(text.last());
        lemma_newline_bytes_concat(encode_utf8(head), encode_utf8(tail));
        assert(tail.drop_last() =~= Seq::<char>::empty());
        assert(newline_chars(tail.drop_last()) == 0);
        assert(encode_utf8(text).drop_last() =~= encode_utf8(head) + encode_utf8(
            tail,
        ).drop_last());
        lemma_newline_bytes_concat(encode_utf8(head), encode_utf8(tail).drop_last());
    }
}

proof fn lemma_starts_count(bytes: Seq<u8>, count: nat)
    requires
        count < bytes.len(),
    ensures
        starts_within(bytes, count).len() == 1 + newline_bytes(bytes.take(count as int)),
    decreases count,
{
    if count == 0 {
        assert(bytes.take(0) =~= Seq::<u8>::empty());
    } else {
        lemma_starts_count(bytes, (count - 1) as nat);
        assert(bytes.take(count as int).drop_last() =~= bytes.take(count - 1));
    }
}

proof fn lemma_lines_count(text: Seq<char>)
    requires
        text.len() > 0,
    ensures
        lines_inclusive(text).len() == 1 + newline_chars(text.drop_last()),
    decreases text.len(),
{
    if text.len() == 1 {
        assert(text.drop_last() =~= Seq::<char>::empty());
        assert(lines_inclusive(text.drop_last()).len() == 0);
        assert(newline_chars(text.drop_last()) == 0);
    } else {
        lemma_lines_count(text.drop_last());
    }
}

/// A text that is not empty has as many lines as line starts.
pub proof fn law_lines_match_line_starts(text: Seq<char>)
    requires
        text.len() > 0,
    ensures
        lines_inclusive(text).len() == line_starts(encode_utf8(text)).len(),
{
    let bytes = encode_utf8(text);
    lemma_newlines_of_encoding(text);
    lemma_lines_count(text);
    lemma_starts_count(bytes, (bytes.len() - 1) as nat);
    assert(bytes.take(bytes.len() - 1) =~= bytes.drop_last());
}

} // verus!
