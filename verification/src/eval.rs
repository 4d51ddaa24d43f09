use vstd::prelude::*;
use crate::chess::Chess;
use crate::types::{population, BitBoard, Colour, Pieces};

verus! {

/// The material of a side in centipawns: 900 for a queen, 500 for a rook,
/// 300 for a bishop or a knight, 100 for a pawn.
pub open spec fn material(pieces: Pieces) -> int {
    (900 * population(pieces.queens.0, 64) + 500 * population(pieces.rooks.0, 64) + 300
        * population(pieces.bishops.0, 64) + 300 * population(pieces.knights.0, 64) + 100
        * population(pieces.pawns.0, 64)) as int
}

/// The score of a position in centipawns for the side to move: its
/// material less that of the other side.
pub open spec fn material_balance(chess: Chess) -> int {
    match chess.state.active_colour {
        Colour::White => material(chess.state.white.pieces) - material(chess.state.black.pieces),
        Colour::Black => material(chess.state.black.pieces) - material(chess.state.white.pieces),
    }
}

/// The score of a position in centipawns for the side to move.
pub fn evaluate(chess: &Chess) -> (score: i64)
    ensures
        score == material_balance(*chess),
        -192_000 <= score <= 192_000,
{
    let (active_side, other_side) = match chess.state.active_colour {
        Colour::White => (&chess.state.white, &chess.state.black),
        Colour::Black => (&chess.state.black, &chess.state.white),
    };
    count_material(&active_side.pieces) - count_material(&other_side.pieces)
}

/// The material of a side in centipawns.
pub fn count_material(pieces: &Pieces) -> (value: i64)
    ensures
        value == material(*pieces),
        0 <= value <= 192_000,
{
    let mut material: i64 = 0;
    material += count_piece(pieces.queens, 900);
    material += count_piece(pieces.rooks, 500);
    material += count_piece(pieces.bishops, 300);
    material += count_piece(pieces.knights, 300);
    material += count_piece(pieces.pawns, 100);
    material
}

/// The value of the pieces of a set at `value` each.
pub fn count_piece(bb: BitBoard, value: i64) -> (total: i64)
    requires
        0 <= value <= 1_000_000,
    ensures
        total == population(bb.0, 64) * value,
        0 <= total <= 64 * value,
{
    let n = bb.count() as i64;
    assert(0 <= n * value <= 64 * value) by (nonlinear_arith)
        requires
            0 <= n <= 64,
            0 <= value,
    ;
    n * value
}

} // verus!
