//! Text primitives: equality, decimal rendering, trimming and lists of texts.
use vstd::prelude::*;
use vstd::string::*;
use vstd::utf8::*;

verus! {

/// `String::push` appends one character to the end of the text.
pub assume_specification[ String::push ](s: &mut String, c: char)
    ensures
        final(s)@ == old(s)@.push(c),
;

/// The text an optional value holds, if it holds one.
pub open spec fn opt_text(value: Option<String>) -> Option<Seq<char>> {
    match value {
        Some(text) => Some(text@),
        None => None,
    }
}

/// The texts of a list, in order.
pub open spec fn texts(list: Seq<String>) -> Seq<Seq<char>> {
    list.map_values(|item: String| item@)
}

/// Whether `text` occurs in `list`.
pub open spec fn lists(list: Seq<String>, text: Seq<char>) -> bool {
    exists|i: int| 0 <= i < list.len() && #[trigger] list[i]@ == text
}

/// Compares two texts for equality, byte by byte.
pub fn text_eq(a: &str, b: &str) -> (equal: bool)
    ensures
        equal == (a@ == b@),
{
    let left = a.as_bytes();
    let right = b.as_bytes();
    proof {
        broadcast use encode_utf8_decode_utf8;

        assert(decode_utf8(left@) == a@);
        assert(decode_utf8(right@) == b@);
    }
    if left.len() != right.len() {
        return false;
    }
    let mut i: usize = 0;
    while i < left.len()
        invariant
            left.len() == right.len(),
            i <= left.len(),
            left@ == a.spec_bytes(),
            right@ == b.spec_bytes(),
            forall|j: int| 0 <= j < i ==> left@[j] == right@[j],
        decreases left.len() - i,
    {
        if left[i] != right[i] {
            return false;
        }
        i += 1;
    }
    assert(left@ =~= right@);
    true
}

/// Whether `list` holds `text`.
pub fn list_contains(list: &Vec<String>, text: &str) -> (found: bool)
    ensures
        found == lists(list@, text@),
{
    let mut i: usize = 0;
    while i < list.len()
        invariant
            i <= list.len(),
            forall|j: int| 0 <= j < i ==> #[trigger] list@[j]@ != text@,
        decreases list.len() - i,
    {
        if text_eq(list[i].as_str(), text) {
            return true;
        }
        i += 1;
    }
    false
}

/// Copies a list of texts.
pub fn copy_texts(list: &Vec<String>) -> (copy: Vec<String>)
    ensures
        copy@ == list@,
{
    let mut copy: Vec<String> = Vec::new();
    let mut i: usize = 0;
    while i < list.len()
        invariant
            i <= list.len(),
            copy@ == list@.take(i as int),
        decreases list.len() - i,
    {
        copy.push(list[i].clone());
        i += 1;
        assert(list@.take(i as int) =~= list@.take(i as int - 1).push(list@[i as int - 1]));
    }
    assert(list@.take(i as int) =~= list@);
    copy
}

/// Copies an optional text.
pub fn copy_opt(value: &Option<String>) -> (copy: Option<String>)
    ensures
        copy == *value,
{
    match value {
        Some(text) => Some(text.clone()),
        None => None,
    }
}

/// The character of one decimal digit.
pub open spec fn digit(value: nat) -> char {
    (48 + value) as char
}

/// The decimal digits of a number, without leading zeros.
pub open spec fn decimal(value: nat) -> Seq<char>
    decreases value,
{
    if value < 10 {
        seq![digit(value)]
    } else {
        decimal(value / 10).push(digit(value % 10))
    }
}

fn push_digit(output: &mut String, value: u128)
    requires
        value < 10,
    ensures
        final(output)@ == old(output)@.push(digit(value as nat)),
{
    output.push((48u8 + value as u8) as char);
}

/// Appends the decimal digits of a large number.
pub fn push_wide_decimal(output: &mut String, value: u128)
    ensures
        final(output)@ == old(output)@ + decimal(value as nat),
    decreases value,
{
    if value < 10 {
        push_digit(output, value);
        assert(old(output)@.push(digit(value as nat)) =~= old(output)@ + decimal(value as nat));
    } else {
        let ghost before = output@;
        push_wide_decimal(output, value / 10);
        push_digit(output, value % 10);
        assert(output@ =~= before + decimal(value as nat));
    }
}

/// Appends the decimal digits of `value`.
pub fn push_decimal(output: &mut String, value: u64)
    ensures
        final(output)@ == old(output)@ + decimal(value as nat),
{
    push_wide_decimal(output, value as u128);
}

/// Renders a number in decimal.
pub fn decimal_text(value: u64) -> (text: String)
    ensures
        text@ == decimal(value as nat),
{
    let mut text = String::new();
    push_decimal(&mut text, value);
    assert(text@ =~= decimal(value as nat));
    text
}

/// A count as a 32-bit row number, at most the largest one.
pub open spec fn row_number(value: nat) -> u32 {
    if value <= u32::MAX {
        value as u32
    } else {
        u32::MAX
    }
}

/// Converts a count to a 32-bit row number, saturating.
pub fn to_row_number(value: usize) -> (number: u32)
    ensures
        number == row_number(value as nat),
{
    if value <= 0xffff_ffff {
        value as u32
    } else {
        u32::MAX
    }
}

/// A valid encoding that begins a valid encoding ends between characters.
proof fn lemma_valid_prefix_is_boundary(bytes: Seq<u8>, length: int)
    requires
        0 <= length <= bytes.len(),
        valid_utf8(bytes),
        valid_utf8(bytes.subrange(0, length)),
    ensures
        is_char_boundary(bytes, length),
    decreases bytes.len(),
{
    if length > 0 {
        let prefix = bytes.subrange(0, length);
        let first = length_of_first_scalar(bytes);
        assert(prefix[0] == bytes[0]);
        assert(length_of_first_scalar(prefix) == first);
        assert(pop_first_scalar(prefix) =~= pop_first_scalar(bytes).subrange(0, length - first));
        lemma_valid_prefix_is_boundary(pop_first_scalar(bytes), length - first);
    }
}

/// Encoding a concatenation concatenates the encodings.
pub proof fn lemma_encode_concat(a: Seq<char>, b: Seq<char>)
    ensures
        encode_utf8(a + b) == encode_utf8(a) + encode_utf8(b),
    decreases a.len(),
{
    if a.len() == 0 {
        assert(a + b =~= b);
        assert(encode_utf8(a) + encode_utf8(b) =~= encode_utf8(b));
    } else {
        lemma_encode_concat(a.drop_first(), b);
        assert((a + b).drop_first() =~= a.drop_first() + b);
        assert((a + b)[0] == a[0]);
        assert(encode_utf8(a + b) =~= encode_utf8(a) + encode_utf8(b));
    }
}

/// What follows `prefix` in `text`, if `text` starts with it.
pub fn strip_prefix<'a>(text: &'a str, prefix: &str) -> (rest: Option<&'a str>)
    ensures
        match rest {
            Some(tail) => text@ == prefix@ + tail@,
            None => !prefix@.is_prefix_of(text@),
        },
{
    let bytes = text.as_bytes();
    let head = prefix.as_bytes();
    proof {
        encode_utf8_valid_utf8(text@);
        encode_utf8_valid_utf8(prefix@);
        encode_utf8_decode_utf8(text@);
        encode_utf8_decode_utf8(prefix@);
        if prefix@.is_prefix_of(text@) {
            let tail = text@.subrange(prefix@.len() as int, text@.len() as int);
            assert(text@ =~= prefix@ + tail);
            lemma_encode_concat(prefix@, tail);
        }
    }
    if head.len() > bytes.len() {
        return None;
    }
    let mut i: usize = 0;
    while i < head.len()
        invariant
            i <= head.len() <= bytes.len(),
            head@ == prefix.spec_bytes(),
            bytes@ == text.spec_bytes(),
            forall|j: int| 0 <= j < i ==> head@[j] == bytes@[j],
            prefix@.is_prefix_of(text@) ==> head@ == bytes@.subrange(0, head@.len() as int),
        decreases head.len() - i,
    {
        if head[i] != bytes[i] {
            assert(prefix@.is_prefix_of(text@) ==> bytes@.subrange(0, head@.len() as int)[i as int]
                == bytes@[i as int]);
            return None;
        }
        i += 1;
    }
    proof {
        assert(bytes@.subrange(0, head@.len() as int) =~= head@);
        lemma_valid_prefix_is_boundary(bytes@, head@.len() as int);
        decode_utf8_split(bytes@, head@.len() as int);
    }
    let (_, tail) = text.split_at(head.len());
    proof {
        encode_utf8_decode_utf8(tail@);
    }
    Some(tail)
}

/// Whether byte string `part` stands in `whole` at a position.
pub open spec fn stands_at(whole: Seq<u8>, part: Seq<u8>, position: int) -> bool {
    &&& 0 <= position <= whole.len() - part.len()
    &&& whole.subrange(position, position + part.len()) == part
}

/// Whether the encoding of a text holds the encoding of another.
pub open spec fn holds_text(text: Seq<char>, part: Seq<char>) -> bool {
    exists|position: int| #[trigger] stands_at(encode_utf8(text), encode_utf8(part), position)
}

/// Whether the encoding of a text ends with the encoding of another.
pub open spec fn ends_with_text(text: Seq<char>, part: Seq<char>) -> bool {
    stands_at(
        encode_utf8(text),
        encode_utf8(part),
        encode_utf8(text).len() - encode_utf8(part).len(),
    )
}

fn bytes_stand_at(whole: &[u8], part: &[u8], position: usize) -> (found: bool)
    requires
        position + part.len() <= whole.len(),
    ensures
        found == stands_at(whole@, part@, position as int),
{
    let mut i: usize = 0;
    while i < part.len()
        invariant
            i <= part.len(),
            position + part.len() <= whole.len(),
            forall|j: int| 0 <= j < i ==> whole@[position + j] == part@[j],
        decreases part.len() - i,
    {
        if whole[position + i] != part[i] {
            assert(whole@.subrange(position as int, position + part@.len())[i as int]
                == whole@[position + i]);
            return false;
        }
        i += 1;
    }
    assert(whole@.subrange(position as int, position + part@.len()) =~= part@);
    true
}

/// Whether a text ends with another.
pub fn ends_with(text: &str, part: &str) -> (found: bool)
    ensures
        found == ends_with_text(text@, part@),
{
    let whole = text.as_bytes();
    let end = part.as_bytes();
    if end.len() > whole.len() {
        false
    } else {
        bytes_stand_at(whole, end, whole.len() - end.len())
    }
}

/// Whether a text holds another.
pub fn holds(text: &str, part: &str) -> (found: bool)
    ensures
        found == holds_text(text@, part@),
{
    let whole = text.as_bytes();
    let inner = part.as_bytes();
    if inner.len() > whole.len() {
        return false;
    }
    let mut position: usize = 0;
    let last: usize = whole.len() - inner.len();
    while position <= last
        invariant
            last + inner.len() == whole.len(),
            position <= last + 1,
            whole@ == text.spec_bytes(),
            inner@ == part.spec_bytes(),
            forall|p: int| 0 <= p < position ==> !#[trigger] stands_at(whole@, inner@, p),
        decreases last + 1 - position,
    {
        if bytes_stand_at(whole, inner, position) {
            return true;
        }
        if position == last {
            return false;
        }
        position += 1;
    }
    false
}

/// Whether a text starts with another.
pub fn starts_with(text: &str, part: &str) -> (found: bool)
    ensures
        found == part@.is_prefix_of(text@),
{
    match strip_prefix(text, part) {
        Some(_) => true,
        None => false,
    }
}

/// Whether a character is white space, as Unicode has it.
pub open spec fn is_white(c: char) -> bool {
    let code = c as u32;
    ||| 0x9 <= code <= 0xd
    ||| code == 0x20
    ||| code == 0x85
    ||| code == 0xa0
    ||| code == 0x1680
    ||| 0x2000 <= code <= 0x200a
    ||| code == 0x2028
    ||| code == 0x2029
    ||| code == 0x202f
    ||| code == 0x205f
    ||| code == 0x3000
}

fn char_is_white(c: char) -> (white: bool)
    ensures
        white == is_white(c),
{
    let code: u32 = c as u32;
    (0x9 <= code && code <= 0xd) || code == 0x20 || code == 0x85 || code == 0xa0 || code == 0x1680
        || (0x2000 <= code && code <= 0x200a) || code == 0x2028 || code == 0x2029 || code == 0x202f
        || code == 0x205f || code == 0x3000
}

/// Whether a character is a control code, as Unicode has it.
pub open spec fn is_control_code(c: char) -> bool {
    c as u32 <= 0x1f || 0x7f <= c as u32 <= 0x9f
}

fn char_is_control(c: char) -> (control: bool)
    ensures
        control == is_control_code(c),
{
    let code: u32 = c as u32;
    code <= 0x1f || (0x7f <= code && code <= 0x9f)
}

/// A text without the white space at its start.
pub open spec fn trimmed_start(text: Seq<char>) -> Seq<char>
    decreases text.len(),
{
    if text.len() > 0 && is_white(text[0]) {
        trimmed_start(text.drop_first())
    } else {
        text
    }
}

/// A text without the white space at its end.
pub open spec fn trimmed_end(text: Seq<char>) -> Seq<char>
    decreases text.len(),
{
    if text.len() > 0 && is_white(text.last()) {
        trimmed_end(text.drop_last())
    } else {
        text
    }
}

/// A text without the white space around it.
pub open spec fn trimmed(text: Seq<char>) -> Seq<char> {
    trimmed_end(trimmed_start(text))
}

proof fn lemma_trimmed_start_first(text: Seq<char>)
    ensures
        trimmed_start(text).len() > 0 ==> !is_white(trimmed_start(text)[0]),
    decreases text.len(),
{
    if text.len() > 0 && is_white(text[0]) {
        lemma_trimmed_start_first(text.drop_first());
    }
}

proof fn lemma_trimmed_end_ends(text: Seq<char>)
    ensures
        trimmed_end(text).len() > 0 ==> !is_white(trimmed_end(text).last()),
        trimmed_end(text).len() > 0 ==> trimmed_end(text)[0] == text[0],
    decreases text.len(),
{
    if text.len() > 0 && is_white(text.last()) {
        lemma_trimmed_end_ends(text.drop_last());
    }
}

/// Trimming a text a second time changes nothing.
pub proof fn lemma_trimmed_twice(text: Seq<char>)
    ensures
        trimmed(trimmed(text)) == trimmed(text),
{
    lemma_trimmed_start_first(text);
    lemma_trimmed_end_ends(trimmed_start(text));
    if trimmed_start(text).len() == 0 {
        assert(trimmed(text).len() == 0);
    }
}

proof fn lemma_trimmed_start_push(text: Seq<char>, c: char)
    ensures
        trimmed_start(text.push(c)) == if trimmed_start(text).len() == 0 && is_white(c) {
            Seq::empty()
        } else {
            trimmed_start(text).push(c)
        },
    decreases text.len(),
{
    if text.len() == 0 {
        assert(text.push(c).drop_first() =~= text);
        assert(trimmed_start(text) =~= Seq::<char>::empty());
        if is_white(c) {
            assert(trimmed_start(text.push(c)) == trimmed_start(text));
        }
    } else if is_white(text[0]) {
        lemma_trimmed_start_push(text.drop_first(), c);
        assert(text.push(c).drop_first() =~= text.drop_first().push(c));
    }
}

proof fn lemma_trimmed_end_of_white(text: Seq<char>, white: Seq<char>)
    requires
        forall|i: int| 0 <= i < white.len() ==> is_white(#[trigger] white[i]),
        text.len() > 0 ==> !is_white(text.last()),
    ensures
        trimmed_end(text + white) == text,
    decreases white.len(),
{
    if white.len() == 0 {
        assert(text + white =~= text);
    } else {
        assert((text + white).last() == white.last());
        assert((text + white).drop_last() =~= text + white.drop_last());
        lemma_trimmed_end_of_white(text, white.drop_last());
    }
}

/// Copies a text without the white space around it.
pub fn trim_text(text: &str) -> (result: String)
    ensures
        result@ == trimmed(text@),
{
    let mut result = String::new();
    let mut held = String::new();
    let ghost chars = text@;
    assert(chars.take(0) =~= Seq::<char>::empty());
    assert(result@ + held@ =~= trimmed_start(chars.take(0)));
    for c in iter: text.chars()
        invariant
            iter.seq() == chars,
            result@ + held@ == trimmed_start(chars.take(iter.index() as int)),
            forall|i: int| 0 <= i < held@.len() ==> is_white(#[trigger] held@[i]),
            result@.len() > 0 ==> !is_white(result@.last()),
            result@.len() == 0 ==> held@.len() == 0,
    {
        let ghost done = chars.take(iter.index() as int);
        let ghost shown = result@;
        let ghost waiting = held@;
        assert(chars.take(iter.index() as int + 1) =~= done.push(c));
        proof {
            lemma_trimmed_start_push(done, c);
        }
        if char_is_white(c) {
            if !result.as_str().is_empty() {
                held.push(c);
                assert(result@ + held@ =~= (shown + waiting).push(c));
            } else {
                assert(shown + waiting =~= Seq::<char>::empty());
            }
        } else {
            result.append(held.as_str());
            result.push(c);
            held = String::new();
            assert(result@ + held@ =~= (shown + waiting).push(c));
        }
    }
    assert(chars.take(chars.len() as int) =~= chars);
    proof {
        lemma_trimmed_end_of_white(result@, held@);
    }
    result
}

/// Whether a text holds a character.
pub fn holds_char(text: &str, wanted: char) -> (found: bool)
    ensures
        found == text@.contains(wanted),
{
    let ghost chars = text@;
    let mut found: bool = false;
    for c in iter: text.chars()
        invariant
            iter.seq() == chars,
            found <==> chars.take(iter.index() as int).contains(wanted),
    {
        let ghost done = chars.take(iter.index() as int);
        let ghost next = chars.take(iter.index() as int + 1);
        assert(next =~= done.push(c));
        proof {
            if done.contains(wanted) {
                let i = choose|i: int| 0 <= i < done.len() && done[i] == wanted;
                assert(next[i] == wanted);
            }
            if next.contains(wanted) && c != wanted {
                let i = choose|i: int| 0 <= i < next.len() && next[i] == wanted;
                assert(done[i] == wanted);
            }
            assert(next[next.len() - 1] == c);
        }
        if c == wanted {
            found = true;
        }
    }
    assert(chars.take(chars.len() as int) =~= chars);
    found
}

/// Whether a text holds a control code.
pub open spec fn has_control_code(text: Seq<char>) -> bool {
    exists|i: int| 0 <= i < text.len() && is_control_code(#[trigger] text[i])
}

/// Whether a text holds a control code.
pub fn holds_control_code(text: &str) -> (found: bool)
    ensures
        found == has_control_code(text@),
{
    let ghost chars = text@;
    let mut found: bool = false;
    for c in iter: text.chars()
        invariant
            iter.seq() == chars,
            found <==> exists|i: int|
                0 <= i < iter.index() && is_control_code(#[trigger] chars[i]),
    {
        assert(chars[iter.index() as int] == c);
        if char_is_control(c) {
            found = true;
        }
    }
    found
}

/// How many characters a text has.
pub fn char_count(text: &str) -> (count: usize)
    ensures
        count == text@.len(),
{
    text.unicode_len()
}

/// The texts of a list, joined by newlines.
pub open spec fn joined(lines: Seq<Seq<char>>) -> Seq<char>
    decreases lines.len(),
{
    if lines.len() == 0 {
        Seq::empty()
    } else if lines.len() == 1 {
        lines[0]
    } else {
        joined(lines.drop_last()) + seq!['\n'] + lines.last()
    }
}

/// Joins the texts `start..end` of a list by newlines.
pub fn join_lines(lines: &Vec<String>, start: usize, end: usize) -> (text: String)
    requires
        start <= end <= lines.len(),
    ensures
        text@ == joined(texts(lines@).subrange(start as int, end as int)),
{
    let mut text = String::new();
    let ghost all = texts(lines@);
    let mut i: usize = start;
    assert(all.subrange(start as int, i as int) =~= Seq::<Seq<char>>::empty());
    while i < end
        invariant
            start <= i <= end <= lines.len(),
            all == texts(lines@),
            text@ == joined(all.subrange(start as int, i as int)),
        decreases end - i,
    {
        let ghost next = all.subrange(start as int, i + 1);
        assert(next.drop_last() =~= all.subrange(start as int, i as int));
        let ghost before = text@;
        if i > start {
            text.push('\n');
        }
        text.append(lines[i].as_str());
        if i == start {
            assert(text@ =~= next[0]);
        } else {
            assert(text@ =~= before + seq!['\n'] + next.last());
        }
        i += 1;
    }
    text
}

/// The texts of a list but one.
pub open spec fn texts_but(list: Seq<Seq<char>>, text: Seq<char>) -> Seq<Seq<char>>
    decreases list.len(),
{
    if list.len() == 0 {
        list
    } else if list.last() == text {
        texts_but(list.drop_last(), text)
    } else {
        texts_but(list.drop_last(), text).push(list.last())
    }
}

/// The first entries of a list, at most `limit` of them.
pub open spec fn at_most<A>(list: Seq<A>, limit: nat) -> Seq<A> {
    if list.len() > limit {
        list.take(limit as int)
    } else {
        list
    }
}

/// Copies the first texts of a list that are not `text`, at most `limit`.
pub fn copy_texts_but(list: &Vec<String>, text: &str, limit: usize) -> (copy: Vec<String>)
    ensures
        texts(copy@) == at_most(texts_but(texts(list@), text@), limit as nat),
{
    let mut copy: Vec<String> = Vec::new();
    let ghost all = texts(list@);
    let mut i: usize = 0;
    assert(all.take(0) =~= Seq::<Seq<char>>::empty());
    assert(texts(copy@) =~= Seq::<Seq<char>>::empty());
    while i < list.len()
        invariant
            i <= list.len(),
            all == texts(list@),
            texts(copy@) == at_most(texts_but(all.take(i as int), text@), limit as nat),
        decreases list.len() - i,
    {
        let ghost kept = texts_but(all.take(i as int), text@);
        let ghost before = texts(copy@);
        assert(all.take(i + 1).drop_last() =~= all.take(i as int));
        if !text_eq(list[i].as_str(), text) {
            if copy.len() < limit {
                copy.push(list[i].clone());
                assert(texts(copy@) =~= before.push(all[i as int]));
            } else {
                assert(at_most(kept.push(all[i as int]), limit as nat) =~= at_most(
                    kept,
                    limit as nat,
                ));
            }
        }
        i += 1;
    }
    assert(all.take(list.len() as int) =~= all);
    copy
}

/// The first `limit` characters of a text.
pub fn take_chars(text: &str, limit: usize) -> (taken: String)
    ensures
        taken@ == at_most(text@, limit as nat),
{
    let mut taken = String::new();
    let mut count: usize = 0;
    let ghost chars = text@;
    assert(at_most(chars.take(0), limit as nat) =~= Seq::<char>::empty());
    for c in iter: text.chars()
        invariant
            iter.seq() == chars,
            count <= limit,
            count == if iter.index() <= limit {
                iter.index() as int
            } else {
                limit as int
            },
            taken@ == at_most(chars.take(iter.index() as int), limit as nat),
    {
        let ghost done = chars.take(iter.index() as int);
        assert(chars.take(iter.index() as int + 1) =~= done.push(c));
        if count < limit {
            taken.push(c);
            count += 1;
            assert(at_most(done.push(c), limit as nat) =~= done.push(c));
            assert(at_most(done, limit as nat) =~= done);
        } else {
            assert(at_most(done.push(c), limit as nat) =~= at_most(done, limit as nat));
        }
    }
    assert(chars.take(chars.len() as int) =~= chars);
    taken
}

} // verus!
