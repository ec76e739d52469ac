//! Where an index of the text lies in its lines: column and row.

use crate::wrap::view_lines;
use vstd::prelude::*;

verus! {

/// The number of bytes in the lines before `row`: the index at which `row`
/// begins.
pub open spec fn line_start(lines: Seq<Seq<u8>>, row: nat) -> nat
    decreases row,
{
    if row == 0 {
        0
    } else {
        line_start(lines, (row - 1) as nat) + lines[row - 1].len()
    }
}

/// The number of bytes in all the lines.
pub open spec fn total_len(lines: Seq<Seq<u8>>) -> nat {
    line_start(lines, lines.len())
}

/// Column `col` of row `row` is where the byte at `index` stands.
pub open spec fn is_position(lines: Seq<Seq<u8>>, index: nat, col: nat, row: nat) -> bool {
    &&& row < lines.len()
    &&& col < lines[row as int].len()
    &&& line_start(lines, row) + col == index
}

/// The walk over the line lengths that finds a position: `index` counts from
/// the start of `row`, and each line that it reaches past is left behind.
pub open spec fn locate_from(lines: Seq<Seq<u8>>, index: nat, row: nat) -> (nat, nat)
    decreases lines.len() - row,
{
    if row < lines.len() && index >= lines[row as int].len() {
        locate_from(lines, (index - lines[row as int].len()) as nat, row + 1)
    } else {
        (index, row)
    }
}

/// The column and row of the byte at `index`.
pub open spec fn locate(lines: Seq<Seq<u8>>, index: nat) -> (nat, nat) {
    locate_from(lines, index, 0)
}

/// Every line and every row count fits the sixteen bits of a screen
/// coordinate.
pub open spec fn in_range(lines: Seq<Seq<u8>>) -> bool {
    &&& lines.len() <= 0x1_0000
    &&& forall|i: int| 0 <= i < lines.len() ==> (#[trigger] lines[i]).len() <= 0x1_0000
}

/// Later rows begin later.
pub proof fn lemma_line_start_grows(lines: Seq<Seq<u8>>, row: nat, later: nat)
    requires
        row <= later,
    ensures
        line_start(lines, row) <= line_start(lines, later),
    decreases later,
{
    if row < later {
        lemma_line_start_grows(lines, row, (later - 1) as nat);
    }
}

/// The lines before `row`, joined, are as long as [`line_start`] says.
pub proof fn lemma_line_start_is_joined_len(lines: Seq<Seq<u8>>, row: nat)
    requires
        row <= lines.len(),
    ensures
        line_start(lines, row) == lines.take(row as int).flatten().len(),
    decreases row,
{
    if row > 0 {
        lemma_line_start_is_joined_len(lines, (row - 1) as nat);
        let shorter = lines.take(row as int - 1);
        assert(lines.take(row as int) == shorter.push(lines[row as int - 1]));
        shorter.lemma_flatten_push(lines[row as int - 1]);
    }
}

/// The lines hold as many bytes as their joining.
pub proof fn lemma_total_len_is_joined_len(lines: Seq<Seq<u8>>)
    ensures
        total_len(lines) == lines.flatten().len(),
{
    lemma_line_start_is_joined_len(lines, lines.len());
    assert(lines.take(lines.len() as int) == lines);
}

proof fn lemma_locate_from(lines: Seq<Seq<u8>>, index: nat, row: nat)
    requires
        row <= lines.len(),
        line_start(lines, row) + index < total_len(lines),
    ensures
        is_position(
            lines,
            line_start(lines, row) + index,
            locate_from(lines, index, row).0,
            locate_from(lines, index, row).1,
        ),
    decreases lines.len() - row,
{
    if row < lines.len() && index >= lines[row as int].len() {
        lemma_locate_from(lines, (index - lines[row as int].len()) as nat, row + 1);
    }
}

/// Cursor law: the position of an index that lies in the lines is a place in
/// those lines, and the lengths of the rows before it plus its column give
/// the index back.
pub proof fn lemma_locate_is_position(lines: Seq<Seq<u8>>, index: nat)
    requires
        index < total_len(lines),
    ensures
        is_position(lines, index, locate(lines, index).0, locate(lines, index).1),
{
    lemma_locate_from(lines, index, 0);
}

proof fn lemma_locate_from_unique(lines: Seq<Seq<u8>>, index: nat, from: nat, col: nat, row: nat)
    requires
        from <= row < lines.len(),
        col < lines[row as int].len(),
        line_start(lines, row) + col == line_start(lines, from) + index,
    ensures
        locate_from(lines, index, from) == (col, row),
    decreases row - from,
{
    if from < row {
        lemma_line_start_grows(lines, from + 1, row);
        lemma_locate_from_unique(
            lines,
            (index - lines[from as int].len()) as nat,
            from + 1,
            col,
            row,
        );
    }
}

/// An index has one position only.
pub proof fn lemma_position_is_unique(lines: Seq<Seq<u8>>, index: nat, col: nat, row: nat)
    requires
        is_position(lines, index, col, row),
    ensures
        locate(lines, index) == (col, row),
{
    lemma_locate_from_unique(lines, index, 0, col, row);
}

/// The position after a position: the next column, or the first column of
/// the next row where the line is at its end.
pub proof fn lemma_next_position(lines: Seq<Seq<u8>>, index: nat, col: nat, row: nat)
    requires
        is_position(lines, index, col, row),
        index + 1 < total_len(lines),
        forall|i: int| 0 <= i < lines.len() ==> (#[trigger] lines[i]).len() > 0,
    ensures
        col + 1 < lines[row as int].len() ==> is_position(lines, index + 1, col + 1, row),
        col + 1 == lines[row as int].len() ==> is_position(lines, index + 1, 0, row + 1),
{
    if col + 1 == lines[row as int].len() {
        assert(line_start(lines, row + 1) == index + 1);
        if row + 1 >= lines.len() {
            assert(row + 1 == lines.len());
        }
    }
}

/// The position before a position: the column before, or the last column of
/// the row before where the line is at its start.
pub proof fn lemma_previous_position(lines: Seq<Seq<u8>>, index: nat, col: nat, row: nat)
    requires
        is_position(lines, index, col, row),
        index > 0,
        forall|i: int| 0 <= i < lines.len() ==> (#[trigger] lines[i]).len() > 0,
    ensures
        col > 0 ==> is_position(lines, (index - 1) as nat, (col - 1) as nat, row),
        col == 0 ==> row > 0 && is_position(
            lines,
            (index - 1) as nat,
            (lines[row - 1].len() - 1) as nat,
            (row - 1) as nat,
        ),
{
}

/// Projects an index of the text into the lines: walks the line lengths from
/// the top and returns the column and row at which the byte at `index`
/// stands.
pub fn project(lines: &Vec<Vec<u8>>, index: usize) -> (pos: (u16, u16))
    requires
        index < total_len(view_lines(*lines)),
        in_range(view_lines(*lines)),
    ensures
        (pos.0 as nat, pos.1 as nat) == locate(view_lines(*lines), index as nat),
        is_position(view_lines(*lines), index as nat, pos.0 as nat, pos.1 as nat),
{
    let ghost all = view_lines(*lines);
    let mut rest: usize = index;
    let mut row: usize = 0;
    proof {
        lemma_locate_is_position(all, index as nat);
    }
    while row < lines.len() && rest >= lines[row].len()
        invariant
            all == view_lines(*lines),
            row <= lines.len(),
            line_start(all, row as nat) + rest == index,
            index < total_len(all),
            locate_from(all, rest as nat, row as nat) == locate(all, index as nat),
        decreases lines.len() - row,
    {
        rest -= lines[row].len();
        row += 1;
    }
    assert(row < lines.len());
    assert(all[row as int].len() <= 0x1_0000);
    (rest as u16, row as u16)
}

/// The place after `pos`, which is not the last place of the lines: the
/// next column, or the first column of the next row.
pub fn step_right(lines: &Vec<Vec<u8>>, pos: (u16, u16)) -> (next: (u16, u16))
    requires
        in_range(view_lines(*lines)),
        forall|i: int|
            0 <= i < view_lines(*lines).len() ==> (#[trigger] view_lines(*lines)[i]).len() > 0,
        pos.1 < lines.len(),
        pos.0 < lines[pos.1 as int].len(),
        line_start(view_lines(*lines), pos.1 as nat) + pos.0 + 1 < total_len(view_lines(*lines)),
    ensures
        is_position(
            view_lines(*lines),
            (line_start(view_lines(*lines), pos.1 as nat) + pos.0 + 1) as nat,
            next.0 as nat,
            next.1 as nat,
        ),
        next == if pos.0 + 1 < lines[pos.1 as int].len() {
            ((pos.0 + 1) as u16, pos.1)
        } else {
            (0u16, (pos.1 + 1) as u16)
        },
{
    let ghost all = view_lines(*lines);
    proof {
        lemma_next_position(
            all,
            (line_start(all, pos.1 as nat) + pos.0) as nat,
            pos.0 as nat,
            pos.1 as nat,
        );
        assert(all[pos.1 as int].len() <= 0x1_0000);
    }
    if (pos.0 as usize) + 1 < lines[pos.1 as usize].len() {
        (pos.0 + 1, pos.1)
    } else {
        (0, pos.1 + 1)
    }
}

/// The place before `pos`, which is not the first place of the lines: the
/// column before, or the last column of the row before.
pub fn step_left(lines: &Vec<Vec<u8>>, pos: (u16, u16)) -> (previous: (u16, u16))
    requires
        in_range(view_lines(*lines)),
        forall|i: int|
            0 <= i < view_lines(*lines).len() ==> (#[trigger] view_lines(*lines)[i]).len() > 0,
        pos.1 < lines.len(),
        pos.0 < lines[pos.1 as int].len(),
        pos.0 > 0 || pos.1 > 0,
    ensures
        is_position(
            view_lines(*lines),
            (line_start(view_lines(*lines), pos.1 as nat) + pos.0 - 1) as nat,
            previous.0 as nat,
            previous.1 as nat,
        ),
        previous == if pos.0 > 0 {
            ((pos.0 - 1) as u16, pos.1)
        } else {
            ((lines[pos.1 - 1].len() - 1) as u16, (pos.1 - 1) as u16)
        },
{
    let ghost all = view_lines(*lines);
    proof {
        if pos.0 == 0 {
            lemma_line_start_grows(all, 1, pos.1 as nat);
            assert(all[0].len() > 0);
            assert(all[pos.1 as int - 1].len() <= 0x1_0000);
        }
        lemma_previous_position(
            all,
            (line_start(all, pos.1 as nat) + pos.0) as nat,
            pos.0 as nat,
            pos.1 as nat,
        );
    }
    if pos.0 > 0 {
        (pos.0 - 1, pos.1)
    } else {
        ((lines[pos.1 as usize - 1].len() - 1) as u16, pos.1 - 1)
    }
}

} // verus!
