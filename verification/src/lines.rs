//! The lines and fields of CSV in which nothing is quoted.
//!
//! Without quotes a record is a line, and a field is what stands between two
//! commas. A line ends at a carriage return, at a line feed or at both, and an
//! empty line is no record.
use vstd::prelude::*;

use crate::text;

verus! {

/// Whether a byte ends a line.
pub open spec fn is_line_end(byte: u8) -> bool {
    byte == 0x0d || byte == 0x0a
}

/// Whether an input has no quotes, and no byte order mark before its first line.
pub open spec fn is_unquoted(input: Seq<u8>) -> bool {
    &&& !input.contains(0x22)
    &&& !(input.len() >= 3 && input[0] == 0xef && input[1] == 0xbb && input[2] == 0xbf)
}

/// The lines of an input that have ended, without the empty ones, and what has come
/// since the last line end.
pub open spec fn split(input: Seq<u8>) -> (Seq<Seq<u8>>, Seq<u8>)
    decreases input.len(),
{
    if input.len() == 0 {
        (seq![], seq![])
    } else {
        let (ended, open) = split(input.drop_last());
        if !is_line_end(input.last()) {
            (ended, open.push(input.last()))
        } else if open.len() == 0 {
            (ended, open)
        } else {
            (ended.push(open), seq![])
        }
    }
}

/// The lines of an input, without the empty ones.
pub open spec fn lines(input: Seq<u8>) -> Seq<Seq<u8>> {
    let (ended, open) = split(input);
    if open.len() == 0 {
        ended
    } else {
        ended.push(open)
    }
}

/// The pieces of a line between its commas.
pub open spec fn pieces(line: Seq<u8>) -> Seq<Seq<u8>>
    decreases line.len(),
{
    if line.len() == 0 {
        seq![seq![]]
    } else {
        let front = pieces(line.drop_last());
        if line.last() == 0x2c {
            front.push(seq![])
        } else {
            front.drop_last().push(front.last().push(line.last()))
        }
    }
}

/// Whether every piece of a line is text.
pub open spec fn is_text(line: Seq<u8>) -> bool {
    forall|i: int|
        0 <= i < pieces(line).len() ==> vstd::utf8::valid_utf8(#[trigger] pieces(line)[i])
}

/// The fields of a line: its pieces as text, without the whitespace around them.
pub open spec fn fields(line: Seq<u8>) -> Seq<Seq<char>> {
    pieces(line).map_values(|piece: Seq<u8>| text::trimmed(vstd::utf8::decode_utf8(piece)))
}

/// An input with a carriage return before every line feed.
pub open spec fn with_carriage_returns(input: Seq<u8>) -> Seq<u8>
    decreases input.len(),
{
    if input.len() == 0 {
        seq![]
    } else {
        let front = with_carriage_returns(input.drop_last());
        if input.last() == 0x0a {
            front.push(0x0d).push(0x0a)
        } else {
            front.push(input.last())
        }
    }
}

/// Inputs that are split alike so far are split alike with the same added to both.
proof fn lemma_split_alike(left: Seq<u8>, right: Seq<u8>, rest: Seq<u8>)
    requires
        split(left) == split(right),
    ensures
        split(left + rest) == split(right + rest),
    decreases rest.len(),
{
    if rest.len() == 0 {
        assert(left + rest =~= left);
        assert(right + rest =~= right);
    } else {
        lemma_split_alike(left, right, rest.drop_last());
        assert((left + rest).drop_last() =~= left + rest.drop_last());
        assert((right + rest).drop_last() =~= right + rest.drop_last());
    }
}

/// A blank line makes no difference: a line end at the very start of an input, or
/// right behind another line end, adds no line and changes none.
pub proof fn blank_lines_are_no_lines(before: Seq<u8>, end: u8, after: Seq<u8>)
    requires
        is_line_end(end),
        before.len() == 0 || is_line_end(before.last()),
    ensures
        lines(before.push(end) + after) == lines(before + after),
{
    assert(before.push(end).drop_last() =~= before);
    assert(split(before).1.len() == 0);
    lemma_split_alike(before.push(end), before, after);
}

/// Line endings make no difference: an input has the same lines whether they end in
/// a line feed or in a carriage return and a line feed.
pub proof fn line_endings_do_not_matter(input: Seq<u8>)
    ensures
        split(with_carriage_returns(input)) == split(input),
        lines(with_carriage_returns(input)) == lines(input),
    decreases input.len(),
{
    if input.len() > 0 {
        line_endings_do_not_matter(input.drop_last());
        let front = with_carriage_returns(input.drop_last());
        if input.last() == 0x0a {
            let returned = front.push(0x0d);
            assert(returned.drop_last() =~= front);
            assert(returned.push(0x0a).drop_last() =~= returned);
            assert(is_line_end(returned.last()));
            assert(split(returned) == split(input));
            assert(split(returned).1.len() == 0);
            assert(split(returned.push(0x0a)) == split(returned));
        } else {
            assert(front.push(input.last()).drop_last() =~= front);
        }
    }
}

} // verus!
