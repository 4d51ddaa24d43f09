use vstd::prelude::*;
use crate::types::{Board, Coordinate, Square};

pub mod directions;

verus! {

/// A step on the mailbox board, added to a coordinate with wrap-around.
pub type Direction = u8;

/// Whether the coordinate lies on the board: neither nibble has its high
/// bit set.
pub open spec fn in_bounds(coord: Coordinate) -> bool {
    coord & 0x88 == 0
}

/// A mailbox board without pieces.
pub fn empty_board() -> (board: Board)
    ensures
        forall|i: int| 0 <= i < 120 ==> #[trigger] board[i] == Square::Empty,
{
    [Square::Empty;120]
}

/// The squares on a line from a start, by steps in one direction.
pub struct Line {
    cur: Coordinate,
    dir: Direction,
}

impl Line {
    /// The coordinate on which the line stands.
    pub closed spec fn position(self) -> Coordinate {
        self.cur
    }

    /// The step of the line.
    pub closed spec fn direction(self) -> Direction {
        self.dir
    }

    /// The line that starts beyond `cur` and goes by steps of `dir`.
    pub fn new(cur: Coordinate, dir: Direction) -> (line: Line)
        ensures
            line.position() == cur,
            line.direction() == dir,
    {
        Line { cur, dir }
    }

    /// The next coordinate of the line, on which the line then stands;
    /// `None` where the step leaves the board, and the line stays.
    pub fn next(&mut self) -> (r: Option<Coordinate>)
        ensures
            final(self).direction() == old(self).direction(),
            in_bounds(old(self).position().wrapping_add(old(self).direction())) ==> r == Some(
                old(self).position().wrapping_add(old(self).direction()),
            ) && final(self).position() == old(self).position().wrapping_add(
                old(self).direction(),
            ),
            !in_bounds(old(self).position().wrapping_add(old(self).direction())) ==> r is None
                && final(self).position() == old(self).position(),
    {
        let next = self.cur.wrapping_add(self.dir);
        if !is_in_bounds(next) {
            None
        } else {
            self.cur = next;
            Some(next)
        }
    }
}

/// Whether the coordinate lies on the board.
pub fn is_in_bounds(coord: Coordinate) -> (r: bool)
    ensures
        r == in_bounds(coord),
{
    coord & 0x88 == 0
}

/// The rank of a coordinate: its low nibble.
pub fn rank(coord: Coordinate) -> (r: u8)
    ensures
        r == coord & 0xF,
        r < 16,
{
    assert(coord & 0xF < 16) by (bit_vector);
    coord & 0xF
}

/// The file of a coordinate: its high nibble.
pub fn file(coord: Coordinate) -> (f: u8)
    ensures
        f == (coord >> 4) & 0xF,
        f < 16,
{
    assert((coord >> 4) & 0xF < 16) by (bit_vector);
    (coord >> 4) & 0xF
}

/// The coordinate with the given file and rank, of each of which the low
/// nibble counts.
pub fn coord(file: u8, rank: u8) -> (c: Coordinate)
    ensures
        c == ((file & 0xF) << 4) | (rank & 0xF),
        file < 8 && rank < 8 ==> in_bounds(c) && (c >> 4) & 0xF == file && c & 0xF == rank,
{
    assert(file < 8 && rank < 8 ==> (((file & 0xF) << 4) | (rank & 0xF)) & 0x88 == 0 && ((((file
        & 0xF) << 4) | (rank & 0xF)) >> 4) & 0xF == file && (((file & 0xF) << 4) | (rank & 0xF))
        & 0xF == rank) by (bit_vector);
    ((file & 0xF) << 4) | (rank & 0xF)
}

} // verus!
