//! Cutting a line of text into its fields.

use vstd::prelude::*;
use vstd::std_specs::iter::IteratorSpec;

verus! {

/// The character that parts one field of a line from the next.
pub const FIELD_SEPARATOR: char = '|';

/// `String::push` of the standard library: the string afterwards is the
/// string before with `c` appended, as its documentation says. Nothing is
/// proved of this.
pub assume_specification[ String::push ](s: &mut String, c: char)
    ensures
        final(s)@ == old(s)@.push(c),
;

/// The pieces of `text` between the occurrences of `separator`, in order.
/// A text without a separator is one piece, the empty text too.
pub open spec fn pieces(text: Seq<char>, separator: char) -> Seq<Seq<char>>
    decreases text.len(),
{
    if text.len() == 0 {
        seq![Seq::empty()]
    } else {
        let before = pieces(text.drop_last(), separator);
        if text.last() == separator {
            before.push(Seq::empty())
        } else {
            before.drop_last().push(before.last().push(text.last()))
        }
    }
}

/// The parts put together again, with `separator` between each two.
pub open spec fn joined(parts: Seq<Seq<char>>, separator: char) -> Seq<char>
    decreases parts.len(),
{
    if parts.len() == 0 {
        Seq::empty()
    } else if parts.len() == 1 {
        parts[0]
    } else {
        joined(parts.drop_last(), separator).push(separator) + parts.last()
    }
}

/// A text has at least one piece, no piece holds the separator, and the
/// pieces joined by the separator are the text again.
pub proof fn lemma_pieces(text: Seq<char>, separator: char)
    ensures
        pieces(text, separator).len() >= 1,
        joined(pieces(text, separator), separator) == text,
        forall|i: int, j: int|
            0 <= i < pieces(text, separator).len() && 0 <= j < pieces(text, separator)[i].len()
                ==> #[trigger] pieces(text, separator)[i][j] != separator,
    decreases text.len(),
{
    let parts = pieces(text, separator);
    if text.len() == 0 {
        assert(joined(parts, separator) == text);
    } else {
        let shorter = text.drop_last();
        let before = pieces(shorter, separator);
        lemma_pieces(shorter, separator);
        assert(text == shorter.push(text.last()));
        if text.last() == separator {
            assert(parts.drop_last() == before);
            assert(joined(before, separator).push(separator) + Seq::<char>::empty() == text);
        } else {
            let grown = before.last().push(text.last());
            assert(parts.last() == grown);
            if before.len() == 1 {
                assert(before.last() == before[0]);
                assert(parts[0] == grown);
            } else {
                assert(parts.drop_last() == before.drop_last());
                assert(joined(before.drop_last(), separator).push(separator) + grown == (joined(
                    before.drop_last(),
                    separator,
                ).push(separator) + before.last()).push(text.last()));
            }
            assert forall|i: int, j: int|
                0 <= i < parts.len() && 0 <= j < parts[i].len() implies #[trigger] parts[i][j]
                != separator by {
                if i < parts.len() - 1 {
                    assert(parts[i] == before[i]);
                } else if j < before.last().len() {
                    assert(parts[i][j] == before[before.len() - 1][j]);
                }
            }
        }
    }
}

/// The texts of a list of strings.
pub open spec fn texts_of(list: Seq<String>) -> Seq<Seq<char>> {
    list.map_values(|s: String| s@)
}

/// Cuts a line at every `FIELD_SEPARATOR` and returns the fields in order.
pub fn split_fields(line: &str) -> (fields: Vec<String>)
    ensures
        texts_of(fields@) == pieces(line@, FIELD_SEPARATOR),
{
    let mut done: Vec<String> = Vec::new();
    let mut current = String::new();
    let mut rest = line.chars();
    let ghost mut seen: Seq<char> = Seq::empty();
    loop
        invariant
            rest.obeys_prophetic_iter_laws(),
            rest.decrease() is Some,
            seen + rest.remaining() == line@,
            texts_of(done@).push(current@) == pieces(seen, FIELD_SEPARATOR),
        decreases rest.decrease()->0,
    {
        match rest.next() {
            Some(c) => {
                proof {
                    let grown = seen.push(c);
                    assert(grown.drop_last() == seen);
                    assert(grown + rest.remaining() == line@);
                    seen = grown;
                }
                if c == FIELD_SEPARATOR {
                    let ghost held = texts_of(done@);
                    done.push(current);
                    assert(texts_of(done@) == held.push(current@));
                    current = String::new();
                } else {
                    let ghost last = current@;
                    current.push(c);
                    assert(texts_of(done@).push(last).drop_last() == texts_of(done@));
                }
            },
            None => {
                assert(seen == line@);
                let ghost held = texts_of(done@);
                done.push(current);
                assert(texts_of(done@) == held.push(current@));
                return done;
            },
        }
    }
}

} // verus!
