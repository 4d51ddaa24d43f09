use vstd::prelude::*;
use crate::board::Direction;

verus! {

pub const RIGHT: Direction = 0x10;

pub const LEFT: Direction = 0xF0;

pub const UP: Direction = 0x01;

pub const DOWN: Direction = 0xFF;

pub const UP_RIGHT: Direction = 0x11;

pub const UP_LEFT: Direction = 0xF1;

pub const DOWN_RIGHT: Direction = 0x0F;

pub const DOWN_LEFT: Direction = 0xEF;

/// The steps along ranks and files.
pub const STRAIGHTS: [Direction; 4] = [LEFT, RIGHT, UP, DOWN];

/// The steps along diagonals.
pub const DIAGONALS: [Direction; 4] = [UP_LEFT, UP_RIGHT, DOWN_LEFT, DOWN_RIGHT];

/// The steps in all eight directions.
pub const ALL: [Direction; 8] = [
    LEFT,
    RIGHT,
    UP,
    DOWN,
    UP_LEFT,
    UP_RIGHT,
    DOWN_LEFT,
    DOWN_RIGHT,
];

/// The jumps of a knight: one step one way and two steps across.
pub const KNIGHT: [Direction; 8] = [0x12, 0x0E, 0xF2, 0xEE, 0xE1, 0x21, 0xDF, 0x1F];

/// Whether the step goes along a rank or a file.
pub fn is_straight(dir: Direction) -> (r: bool)
    ensures
        r == (dir == RIGHT || dir == LEFT || dir == UP || dir == DOWN),
{
    dir == RIGHT || dir == LEFT || dir == UP || dir == DOWN
}

/// Whether the step goes along a diagonal.
pub fn is_diagonal(dir: Direction) -> (r: bool)
    ensures
        r == (dir == UP_RIGHT || dir == UP_LEFT || dir == DOWN_RIGHT || dir == DOWN_LEFT),
{
    dir == UP_RIGHT || dir == UP_LEFT || dir == DOWN_RIGHT || dir == DOWN_LEFT
}

/// The step the other way: the step that undoes `dir`.
pub fn reverse(dir: Direction) -> (r: Direction)
    ensures
        r == 0u8.wrapping_sub(dir),
        r.wrapping_add(dir) == 0,
{
    0u8.wrapping_sub(dir)
}

} // verus!
