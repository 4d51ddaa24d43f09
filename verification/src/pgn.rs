use vstd::prelude::*;
use crate::bits::lemma_low_index;
use crate::fmt::{file_letter, format_file, format_piece, format_rank, piece_letter, rank_digit};
use crate::magic::MagicBitBoards;
use crate::types::{BitCoord, GameState, Move, Piece};
use crate::zobrist::ZobristHasher;

verus! {

/// A move as a game record writes it.
pub enum PGNMove {
    Normal(PGNMoveData),
    /// Castling short, with whether it gives check and whether it mates.
    Castle(bool, bool),
    /// Castling long, with whether it gives check and whether it mates.
    LongCastle(bool, bool),
}

/// What a game record writes of a move other than castling.
pub struct PGNMoveData {
    pub piece: Piece,
    pub disambiguate_file: Option<u8>,
    pub disambiguate_rank: Option<u8>,
    pub to_square: BitCoord,
    pub is_capture: bool,
    pub is_check: bool,
    pub is_checkmate: bool,
    pub promote_to: Option<Piece>,
}

/// `text` followed by `+` for a check and then `#` for a mate.
pub open spec fn with_marks(text: Seq<char>, check: bool, mate: bool) -> Seq<char> {
    let with_check = if check {
        text.push('+')
    } else {
        text
    };
    if mate {
        with_check.push('#')
    } else {
        with_check
    }
}

/// The record of a move other than castling: the letter of the piece
/// unless it is a pawn, `x` for a capture, the destination, `=` and the
/// letter of the new piece for a promotion, and the marks for check and
/// mate.
pub open spec fn data_text(data: PGNMoveData) -> Seq<char> {
    let piece = if data.piece != Piece::Pawn {
        seq![piece_letter(data.piece)]
    } else {
        Seq::empty()
    };
    let capture = if data.is_capture {
        piece.push('x')
    } else {
        piece
    };
    let square = capture.push(file_letter(data.to_square.file_spec())).push(
        rank_digit(data.to_square.rank_spec()),
    );
    let promotion = match data.promote_to {
        Some(p) => square.push('=').push(piece_letter(p)),
        None => square,
    };
    with_marks(promotion, data.is_check, data.is_checkmate)
}

/// The record of a move.
pub open spec fn pgn_text(mv: PGNMove) -> Seq<char> {
    match mv {
        PGNMove::Normal(data) => data_text(data),
        PGNMove::Castle(check, mate) => with_marks(seq!['O', '-', 'O'], check, mate),
        PGNMove::LongCastle(check, mate) => with_marks(seq!['O', '-', 'O', '-', 'O'], check, mate),
    }
}

/// What a game record writes of a move from a position: the piece that
/// moves, its destination, whether a piece stands there, what a pawn is
/// promoted to, and whether the other side is in check after the move.
/// Mate and the source square are not worked out.
pub open spec fn pgn_of(state: GameState, mv: Move, hasher: &ZobristHasher) -> PGNMove {
    let is_check = state.after(mv, hasher).in_check();
    match mv {
        Move::Normal(piece, _, tgt) => PGNMove::Normal(
            PGNMoveData {
                piece,
                to_square: tgt,
                is_capture: state.occupancy() & tgt.0 != 0,
                is_check,
                is_checkmate: false,
                disambiguate_file: None,
                disambiguate_rank: None,
                promote_to: None,
            },
        ),
        Move::Promotion(_, tgt, promote_to) => PGNMove::Normal(
            PGNMoveData {
                piece: Piece::Pawn,
                to_square: tgt,
                is_capture: state.occupancy() & tgt.0 != 0,
                is_check,
                is_checkmate: false,
                disambiguate_file: None,
                disambiguate_rank: None,
                promote_to: Some(promote_to),
            },
        ),
        Move::Castle => PGNMove::Castle(is_check, false),
        Move::LongCastle => PGNMove::LongCastle(is_check, false),
    }
}

/// Appends the marks for check and mate.
fn push_marks(s: &mut String, check: bool, mate: bool)
    ensures
        final(s)@ == with_marks(old(s)@, check, mate),
{
    if check {
        s.push('+');
    }
    if mate {
        s.push('#');
    }
}

impl PGNMove {
    /// What a game record writes of the move `mv` from the position.
    pub fn from_internal(state: &GameState, mv: Move, mbb: &MagicBitBoards, hasher: &ZobristHasher) -> (r:
        PGNMove)
        requires
            state.wf(),
            state.hash_ok(hasher),
            state.admits(mv),
            state.fifty_move_clock < u8::MAX,
        ensures
            r == pgn_of(*state, mv, hasher),
    {
        let mut new_state = *state;
        new_state.make_move(mv, hasher);
        let is_check = new_state.is_in_check(mbb);
        let occupancy = state.white.pieces.all().0 | state.black.pieces.all().0;
        match mv {
            Move::Normal(piece, _, tgt) => {
                PGNMove::Normal(
                    PGNMoveData {
                        piece,
                        to_square: tgt,
                        is_capture: occupancy & tgt.0 != 0,
                        is_check,
                        is_checkmate: false,
                        disambiguate_file: None,
                        disambiguate_rank: None,
                        promote_to: None,
                    },
                )
            },
            Move::Promotion(_, tgt, promote_to) => {
                PGNMove::Normal(
                    PGNMoveData {
                        piece: Piece::Pawn,
                        to_square: tgt,
                        is_capture: occupancy & tgt.0 != 0,
                        is_check,
                        is_checkmate: false,
                        disambiguate_file: None,
                        disambiguate_rank: None,
                        promote_to: Some(promote_to),
                    },
                )
            },
            Move::Castle => PGNMove::Castle(is_check, false),
            Move::LongCastle => PGNMove::LongCastle(is_check, false),
        }
    }

    /// The record of the move.
    pub fn to_string(&self) -> (s: String)
        requires
            self matches PGNMove::Normal(data) ==> data.to_square.0 != 0,
        ensures
            s@ == pgn_text(*self),
    {
        match self {
            PGNMove::Normal(data) => {
                let mut s: String = String::new();
                if data.piece != Piece::Pawn {
                    s.push(format_piece(data.piece));
                }
                if data.is_capture {
                    s.push('x');
                }
                proof {
                    lemma_low_index(data.to_square.0);
                }
                s.push(format_file(data.to_square.file()));
                s.push(format_rank(data.to_square.rank()));
                match data.promote_to {
                    Some(p) => {
                        s.push('=');
                        s.push(format_piece(p));
                    },
                    None => (),
                }
                push_marks(&mut s, data.is_check, data.is_checkmate);
                assert(s@ =~= pgn_text(*self));
                s
            },
            PGNMove::Castle(check, checkmate) => {
                let mut s = String::new();
                s.push('O');
                s.push('-');
                s.push('O');
                assert(s@ =~= seq!['O', '-', 'O']);
                push_marks(&mut s, *check, *checkmate);
                s
            },
            PGNMove::LongCastle(check, checkmate) => {
                let mut s = String::new();
                s.push('O');
                s.push('-');
                s.push('O');
                s.push('-');
                s.push('O');
                assert(s@ =~= seq!['O', '-', 'O', '-', 'O']);
                push_marks(&mut s, *check, *checkmate);
                s
            },
        }
    }
}

} // verus!
