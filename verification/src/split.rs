//! Cutting texts at a character.
use crate::text::texts;
use vstd::prelude::*;
use vstd::string::*;

verus! {

/// The pieces of a text between the separators, empty ones included. There is
/// always at least one.
pub open spec fn pieces(text: Seq<char>, separator: char) -> Seq<Seq<char>>
    decreases text.len(),
{
    if text.len() == 0 {
        seq![Seq::empty()]
    } else {
        let before = pieces(text.drop_last(), separator);
        if text.last() == separator {
            before.push(Seq::empty())
        } else {
            before.drop_last().push(before.last().push(text.last()))
        }
    }
}

/// A text has at least one piece.
pub proof fn lemma_pieces_nonempty(text: Seq<char>, separator: char)
    ensures
        pieces(text, separator).len() >= 1,
    decreases text.len(),
{
    if text.len() > 0 {
        lemma_pieces_nonempty(text.drop_last(), separator);
    }
}

/// Cuts a text into its pieces between the separators.
pub fn split_pieces(text: &str, separator: char) -> (parts: Vec<String>)
    ensures
        texts(parts@) == pieces(text@, separator),
{
    let mut parts: Vec<String> = Vec::new();
    let mut open = String::new();
    let ghost chars = text@;
    assert(chars.take(0) =~= Seq::<char>::empty());
    assert(texts(parts@).push(open@) =~= pieces(chars.take(0), separator));
    for c in iter: text.chars()
        invariant
            iter.seq() == chars,
            texts(parts@).push(open@) == pieces(chars.take(iter.index() as int), separator),
    {
        let ghost done = chars.take(iter.index() as int);
        assert(chars.take(iter.index() as int + 1).drop_last() =~= done);
        let ghost before = texts(parts@);
        let ghost current = open@;
        assert(pieces(done, separator).drop_last() =~= before);
        if c == separator {
            parts.push(open);
            open = String::new();
            assert(texts(parts@) =~= before.push(current));
        } else {
            open.push(c);
        }
    }
    assert(chars.take(chars.len() as int) =~= chars);
    let ghost before = texts(parts@);
    let ghost current = open@;
    parts.push(open);
    assert(texts(parts@) =~= before.push(current));
    parts
}

/// What stands in front of the first separator, and what stands behind it, if
/// there is one.
pub open spec fn cut(text: Seq<char>, separator: char) -> (Seq<char>, Option<Seq<char>>)
    decreases text.len(),
{
    if text.len() == 0 {
        (Seq::empty(), None)
    } else {
        let (head, tail) = cut(text.drop_last(), separator);
        match tail {
            Some(rest) => (head, Some(rest.push(text.last()))),
            None => if text.last() == separator {
                (head, Some(Seq::empty()))
            } else {
                (head.push(text.last()), None)
            },
        }
    }
}

/// A cut takes away one separator and nothing else, and none stands in front
/// of it.
pub proof fn law_cut_loses_only_the_separator(text: Seq<char>, separator: char)
    ensures
        match cut(text, separator).1 {
            Some(tail) => text == cut(text, separator).0.push(separator) + tail,
            None => text == cut(text, separator).0,
        },
        !cut(text, separator).0.contains(separator),
    decreases text.len(),
{
    if text.len() > 0 {
        law_cut_loses_only_the_separator(text.drop_last(), separator);
        let (head, tail) = cut(text.drop_last(), separator);
        assert(text =~= text.drop_last().push(text.last()));
        match tail {
            Some(rest) => {
                assert(text =~= head.push(separator) + rest.push(text.last()));
            },
            None => {
                if text.last() == separator {
                    assert(text =~= head.push(separator) + Seq::<char>::empty());
                } else {
                    assert(!head.push(text.last()).contains(separator)) by {
                        assert forall|i: int| 0 <= i < head.len() + 1 implies head.push(
                            text.last(),
                        )[i] != separator by {
                            if i < head.len() {
                                assert(head.contains(head[i]));
                            }
                        }
                    }
                }
            },
        }
    }
}

/// Cuts a text at the first separator.
pub fn split_first(text: &str, separator: char) -> (parts: (String, Option<String>))
    ensures
        (
            parts.0@,
            match parts.1 {
                Some(tail) => Some(tail@),
                None => None,
            },
        ) == cut(text@, separator),
{
    let mut head = String::new();
    let mut tail = String::new();
    let mut found: bool = false;
    let ghost chars = text@;
    assert(chars.take(0) =~= Seq::<char>::empty());
    for c in iter: text.chars()
        invariant
            iter.seq() == chars,
            cut(chars.take(iter.index() as int), separator) == (
                head@,
                if found {
                    Some(tail@)
                } else {
                    None
                },
            ),
            !found ==> tail@.len() == 0,
    {
        assert(chars.take(iter.index() as int + 1).drop_last() =~= chars.take(iter.index() as int));
        if found {
            tail.push(c);
        } else if c == separator {
            found = true;
            assert(tail@ =~= Seq::<char>::empty());
        } else {
            head.push(c);
        }
    }
    assert(chars.take(chars.len() as int) =~= chars);
    if found {
        (head, Some(tail))
    } else {
        (head, None)
    }
}

} // verus!
