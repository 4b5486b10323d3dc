//! Resolving byte offsets to positions that a person can find in an editor.

use vstd::prelude::*;
use crate::text::byte_offset;
use crate::text::lemma_byte_offset_increasing;
use crate::text::lemma_byte_offset_step;
use crate::text::utf8_width_of;

verus! {

/// Number of line breaks among the first `n` characters of `text`.
pub open spec fn newlines_before(text: Seq<char>, n: nat) -> nat
    decreases n,
{
    if n == 0 {
        0
    } else if text[n - 1] == '\n' {
        newlines_before(text, (n - 1) as nat) + 1
    } else {
        newlines_before(text, (n - 1) as nat)
    }
}

/// Line of the character of index `i`. Lines count from one, and a line
/// break belongs to the line that it opens.
pub open spec fn line_at(text: Seq<char>, i: int) -> nat {
    1 + newlines_before(text, (i + 1) as nat)
}

/// Column of the character of index `i`: its distance from the closest line
/// break at or before it, or from the start of the text where there is none.
pub open spec fn column_at(text: Seq<char>, i: int) -> nat
    decreases i,
{
    if i <= 0 || text[i] == '\n' {
        0
    } else {
        column_at(text, i - 1) + 1
    }
}

/// Whether a character of `text` starts at byte `offset`; `i` is its index.
pub open spec fn starts_at(text: Seq<char>, i: int, offset: int) -> bool {
    0 <= i < text.len() && byte_offset(text, i) == offset
}

/// No line or column exceeds the number of characters before it.
pub proof fn lemma_position_bounds(text: Seq<char>, i: int)
    requires
        0 <= i,
    ensures
        newlines_before(text, i as nat) <= i,
        column_at(text, i) <= i,
    decreases i,
{
    if i > 0 {
        lemma_position_bounds(text, i - 1);
    }
}

/// `n`, or the largest number that the machine holds where `n` is larger.
pub open spec fn clipped(n: nat) -> nat {
    if n > usize::MAX {
        usize::MAX as nat
    } else {
        n
    }
}

/// The line of a character is at most two more than the byte at which it
/// starts.
pub proof fn lemma_line_fits(text: Seq<char>, i: int, offset: int)
    requires
        starts_at(text, i, offset),
    ensures
        line_at(text, i) <= offset + 2,
        column_at(text, i) <= offset,
{
    lemma_position_bounds(text, i + 1);
    lemma_position_bounds(text, i);
    lemma_byte_offset_increasing(text, 0, i);
    assert(text.take(0) =~= Seq::<char>::empty());
}

/// Line and column of the character that starts at byte `target_offset` of
/// `file_contents`, or `(0, 0)` when no character starts there. A line
/// number that the machine cannot hold is given as the largest that it
/// can.
pub fn span_offset_to_line_and_column(target_offset: usize, file_contents: &str) -> (r: (
    usize,
    usize,
))
    ensures
        forall|i: int|
            starts_at(file_contents@, i, target_offset as int) ==> r.0 == clipped(
                line_at(file_contents@, i),
            ) && r.1 == column_at(file_contents@, i),
        (forall|i: int| !starts_at(file_contents@, i, target_offset as int)) ==> r == (
            0usize,
            0usize,
        ),
{
    let ghost text = file_contents@;
    let mut line: usize = 1;
    let mut column: usize = 0;
    let mut offset: usize = 0;
    assert(text.take(0) =~= Seq::<char>::empty());
    for c in it: file_contents.chars()
        invariant
            it.seq() == text,
            text == file_contents@,
            offset == byte_offset(text, it.index() as int),
            offset <= target_offset,
            it.index() <= offset,
            line == clipped(1 + newlines_before(text, it.index() as nat)),
            column == if it.index() == 0 {
                0
            } else {
                column_at(text, it.index() - 1) + 1
            },
            forall|j: int| 0 <= j < it.index() ==> byte_offset(text, j) != target_offset,
    {
        let ghost i = it.index() as int;
        proof {
            lemma_position_bounds(text, i);
            if i > 0 {
                lemma_position_bounds(text, i - 1);
            }
            lemma_byte_offset_step(text, i);
        }
        if c == '\n' {
            if line < usize::MAX {
                line += 1;
            }
            column = 0;
        }
        if offset == target_offset {
            proof {
                assert forall|j: int| starts_at(text, j, target_offset as int) implies j == i by {
                    if j > i {
                        lemma_byte_offset_increasing(text, i + 1, j);
                    }
                }
                assert(starts_at(text, i, target_offset as int));
            }
            return (line, column);
        }
        let width = utf8_width_of(c);
        if target_offset - offset < width {
            proof {
                assert forall|j: int| !starts_at(text, j, target_offset as int) by {
                    if i < j < text.len() {
                        lemma_byte_offset_increasing(text, i + 1, j);
                    }
                }
            }
            return (0, 0);
        }
        column += 1;
        offset += width;
    }
    (0, 0)
}

} // verus!
