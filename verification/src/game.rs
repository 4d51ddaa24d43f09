use vstd::prelude::*;
use crate::bits::{bit, bit_set, low_index, single, lemma_bit_distinct, lemma_has_ops, lemma_single};
use crate::magic::MagicBitBoards;
use crate::moves::{attacked, king_square, lowest_square, square_under_attack};
use crate::types::{BitBoard, BitCoord, Colour, GameState, Move, Piece, Pieces, SideState, ZobristHash};
use crate::zobrist::{
    feature, hash_of, kind_at, kind_index, lemma_hash_same, lemma_hash_toggle, piece_key,
    side_pieces, ZobristHasher, BLACK_KINGSIDE, BLACK_QUEENSIDE, BLACK_TO_MOVE, EN_PASSANT,
    KEY_COUNT, WHITE_KINGSIDE, WHITE_QUEENSIDE,
};

verus! {

/// The square on which a side's king starts.
pub open spec fn king_home(colour: Colour) -> BitCoord {
    match colour {
        Colour::White => BitCoord(0x0000_0000_0000_0008),
        Colour::Black => BitCoord(0x0800_0000_0000_0000),
    }
}

/// The corner on which a side's kingside rook starts.
pub open spec fn kingside_corner(colour: Colour) -> BitCoord {
    match colour {
        Colour::White => BitCoord(0x0000_0000_0000_0001),
        Colour::Black => BitCoord(0x0100_0000_0000_0000),
    }
}

/// The corner on which a side's queenside rook starts.
pub open spec fn queenside_corner(colour: Colour) -> BitCoord {
    match colour {
        Colour::White => BitCoord(0x0000_0000_0000_0080),
        Colour::Black => BitCoord(0x8000_0000_0000_0000),
    }
}

/// The square on which a side's king lands when it castles short.
pub open spec fn kingside_king_target(colour: Colour) -> BitCoord {
    match colour {
        Colour::White => BitCoord(0x0000_0000_0000_0002),
        Colour::Black => BitCoord(0x0200_0000_0000_0000),
    }
}

/// The square on which a side's rook lands when it castles short.
pub open spec fn kingside_rook_target(colour: Colour) -> BitCoord {
    match colour {
        Colour::White => BitCoord(0x0000_0000_0000_0004),
        Colour::Black => BitCoord(0x0400_0000_0000_0000),
    }
}

/// The square on which a side's king lands when it castles long.
pub open spec fn queenside_king_target(colour: Colour) -> BitCoord {
    match colour {
        Colour::White => BitCoord(0x0000_0000_0000_0020),
        Colour::Black => BitCoord(0x2000_0000_0000_0000),
    }
}

/// The square on which a side's rook lands when it castles long.
pub open spec fn queenside_rook_target(colour: Colour) -> BitCoord {
    match colour {
        Colour::White => BitCoord(0x0000_0000_0000_0010),
        Colour::Black => BitCoord(0x1000_0000_0000_0000),
    }
}

/// The square of the pawn that a pawn of the given colour takes when it
/// captures en passant onto `target`.
pub open spec fn en_passant_victim(colour: Colour, target: BitCoord) -> BitCoord {
    match colour {
        Colour::White => BitCoord(target.0 >> 8),
        Colour::Black => BitCoord(target.0 << 8),
    }
}

impl GameState {
    /// The given side.
    pub open spec fn side(self, colour: Colour) -> SideState {
        match colour {
            Colour::White => self.white,
            Colour::Black => self.black,
        }
    }

    /// The position with the given side replaced.
    pub open spec fn with_side(self, colour: Colour, side: SideState) -> GameState {
        match colour {
            Colour::White => GameState { white: side, ..self },
            Colour::Black => GameState { black: side, ..self },
        }
    }

    /// Every occupied square.
    pub open spec fn occupancy(self) -> u64 {
        self.white.pieces.occupancy() | self.black.pieces.occupancy()
    }

    /// Whether the two values describe the same position, whatever their
    /// stored hashes.
    pub open spec fn same_position(self, other: GameState) -> bool {
        &&& self.active_colour == other.active_colour
        &&& self.white == other.white
        &&& self.black == other.black
        &&& self.en_passant == other.en_passant
        &&& self.fifty_move_clock == other.fifty_move_clock
    }

    /// The stored hash is the Zobrist key of the position.
    pub open spec fn hash_ok(self, hasher: &ZobristHasher) -> bool {
        self.zh.0 == hash_of(hasher.keys(), self)
    }

    /// Each side's piece sets are disjoint with at most one king, the two
    /// sides stand on different squares, and the en-passant target, if
    /// there is one, is a single square.
    pub open spec fn wf(self) -> bool {
        &&& self.white.pieces.wf()
        &&& self.black.pieces.wf()
        &&& self.white.pieces.occupancy() & self.black.pieces.occupancy() == 0
        &&& (self.en_passant matches Some(ep) ==> ep.wf())
    }

    /// The squares that a move which can be applied names hold a bit.
    pub proof fn lemma_admitted_squares(self, mv: Move)
        requires
            self.admits(mv),
        ensures
            mv matches Move::Normal(_, src, tgt) ==> src.0 != 0 && tgt.0 != 0,
            mv matches Move::Promotion(src, tgt, _) ==> src.0 != 0 && tgt.0 != 0,
    {
        match mv {
            Move::Normal(_, src, tgt) => {
                lemma_single(src.0);
                lemma_single(tgt.0);
            },
            Move::Promotion(src, tgt, _) => {
                lemma_single(src.0);
                lemma_single(tgt.0);
            },
            _ => {},
        }
    }

    /// The position with a piece added for the given side.
    pub open spec fn put(self, colour: Colour, piece: Piece, coord: BitCoord) -> GameState {
        self.with_side(
            colour,
            SideState { pieces: self.side(colour).pieces.with_piece(piece, coord), ..self.side(colour) },
        )
    }

    /// The position with a piece taken from the given side.
    pub open spec fn take(self, colour: Colour, piece: Piece, coord: BitCoord) -> GameState {
        self.with_side(
            colour,
            SideState {
                pieces: self.side(colour).pieces.without_piece(piece, coord),
                ..self.side(colour)
            },
        )
    }

    /// The position with the given side's castling rights replaced.
    pub open spec fn with_rights(self, colour: Colour, kingside: bool, queenside: bool) -> GameState {
        self.with_side(
            colour,
            SideState {
                can_castle_kingside: kingside,
                can_castle_queenside: queenside,
                ..self.side(colour)
            },
        )
    }

    /// Whether the move can be applied: the piece it names stands on its
    /// source square, no piece of the mover stands on its destination, a
    /// pawn is promoted to a queen, rook, bishop or knight, and a castling
    /// king and rook stand on their home squares with nothing between them.
    pub open spec fn admits(self, mv: Move) -> bool {
        let own = self.side(self.active_colour).pieces;
        match mv {
            Move::Normal(piece, src, tgt) => {
                &&& src.wf()
                &&& tgt.wf()
                &&& own.board(piece).0 & src.0 != 0
                &&& own.occupancy() & tgt.0 == 0
            },
            Move::Promotion(src, tgt, pc) => {
                &&& src.wf()
                &&& tgt.wf()
                &&& own.pawns.0 & src.0 != 0
                &&& own.occupancy() & tgt.0 == 0
                &&& pc != Piece::Pawn
                &&& pc != Piece::King
            },
            Move::Castle => {
                &&& own.king == BitBoard(king_home(self.active_colour).0)
                &&& own.rooks.0 & kingside_corner(self.active_colour).0 != 0
                &&& self.occupancy() & (kingside_king_target(self.active_colour).0
                    | kingside_rook_target(self.active_colour).0) == 0
            },
            Move::LongCastle => {
                &&& own.king == BitBoard(king_home(self.active_colour).0)
                &&& own.rooks.0 & queenside_corner(self.active_colour).0 != 0
                &&& self.occupancy() & (queenside_king_target(self.active_colour).0
                    | queenside_rook_target(self.active_colour).0) == 0
            },
        }
    }

    /// The position with the fifty-move clock one higher.
    pub open spec fn ticked(self) -> GameState {
        GameState { fifty_move_clock: (self.fifty_move_clock + 1) as u8, ..self }
    }

    /// The position with the other side to move.
    pub open spec fn passed(self) -> GameState {
        GameState { active_colour: Colour::other_spec(self.active_colour), ..self }
    }

    /// The position with whatever the side that is not to move has on
    /// `tgt` taken off the board.
    pub open spec fn captured(self, tgt: BitCoord) -> GameState {
        let you = Colour::other_spec(self.active_colour);
        match self.side(you).pieces.piece_at(tgt) {
            Some(pc) => self.take(you, pc, tgt),
            None => self,
        }
    }

    /// The position with the castling rights that lapse when `piece` of
    /// the side to move leaves `src` for `tgt`: both of the mover for a
    /// king, the mover's on the flank of a home corner that is left, and
    /// the other side's on the flank of a home corner where a piece was
    /// taken.
    pub open spec fn revoked(self, piece: Piece, src: BitCoord, tgt: BitCoord, capture: bool) -> GameState {
        let me = self.active_colour;
        let you = Colour::other_spec(me);
        let s = self.with_rights(
            me,
            self.side(me).can_castle_kingside && piece != Piece::King && src != kingside_corner(
                me,
            ),
            self.side(me).can_castle_queenside && piece != Piece::King && src != queenside_corner(
                me,
            ),
        );
        s.with_rights(
            you,
            s.side(you).can_castle_kingside && !(capture && tgt == kingside_corner(you)),
            s.side(you).can_castle_queenside && !(capture && tgt == queenside_corner(you)),
        )
    }

    /// Whether a pawn of the given colour that goes from `src` to `tgt`
    /// advances by two ranks.
    pub open spec fn double_step(colour: Colour, src: BitCoord, tgt: BitCoord) -> bool {
        match colour {
            Colour::White => src.0 == tgt.0 >> 16,
            Colour::Black => src.0 == tgt.0 << 16,
        }
    }

    /// The position after the mover's `piece` went from `src` to `tgt` and
    /// stands there as `placed`: what stood on `tgt` is taken, a pawn that
    /// lands on the en-passant target takes the pawn behind it, castling
    /// rights lapse, a pawn's double step makes the square it passed the
    /// en-passant target, and the clock restarts for a pawn move or a
    /// capture. The same side is still to move.
    pub open spec fn shifted(self, piece: Piece, src: BitCoord, tgt: BitCoord, placed: Piece) -> GameState {
        let me = self.active_colour;
        let you = Colour::other_spec(me);
        let taken = self.side(you).pieces.piece_at(tgt);
        let en_passant = piece == Piece::Pawn && self.en_passant == Some(tgt);
        let s1 = self.take(me, piece, src).put(me, placed, tgt).captured(tgt);
        let s2 = if en_passant {
            s1.take(you, Piece::Pawn, en_passant_victim(me, tgt))
        } else {
            s1
        };
        let s3 = s2.revoked(piece, src, tgt, taken is Some);
        GameState {
            en_passant: if piece == Piece::Pawn && Self::double_step(me, src, tgt) {
                Some(en_passant_victim(me, tgt))
            } else {
                None
            },
            fifty_move_clock: if piece == Piece::Pawn || taken is Some || en_passant {
                0
            } else {
                self.fifty_move_clock
            },
            ..s3
        }
    }

    /// The position after the mover castled with the rook from `corner`:
    /// king and rook stand on their targets, the mover has no castling
    /// right left and there is no en-passant target. The same side is
    /// still to move.
    pub open spec fn castled(
        self,
        corner: BitCoord,
        king_target: BitCoord,
        rook_target: BitCoord,
    ) -> GameState {
        let me = self.active_colour;
        let s = self.take(me, Piece::King, king_home(me)).take(me, Piece::Rook, corner).put(
            me,
            Piece::King,
            king_target,
        ).put(me, Piece::Rook, rook_target).with_rights(me, false, false);
        GameState { en_passant: None, ..s }
    }

    /// The position after the move, with the stored hash left as it was:
    /// the clock ticks, the pieces move, and the turn passes.
    pub open spec fn moved(self, mv: Move) -> GameState {
        let me = self.active_colour;
        match mv {
            Move::Normal(piece, src, tgt) => self.ticked().shifted(piece, src, tgt, piece).passed(),
            Move::Promotion(src, tgt, pc) => self.ticked().shifted(
                Piece::Pawn,
                src,
                tgt,
                pc,
            ).passed(),
            Move::Castle => self.ticked().castled(
                kingside_corner(me),
                kingside_king_target(me),
                kingside_rook_target(me),
            ).passed(),
            Move::LongCastle => self.ticked().castled(
                queenside_corner(me),
                queenside_king_target(me),
                queenside_rook_target(me),
            ).passed(),
        }
    }

    /// The position after the move, with its Zobrist key.
    pub open spec fn after(self, mv: Move, hasher: &ZobristHasher) -> GameState {
        GameState { zh: ZobristHash(hash_of(hasher.keys(), self.moved(mv))), ..self.moved(mv) }
    }

    /// A position from its parts, with its Zobrist key.
    pub fn new(
        active_colour: Colour,
        white: SideState,
        black: SideState,
        en_passant: Option<BitCoord>,
        fifty_move_clock: u8,
        hasher: &ZobristHasher,
    ) -> (state: GameState)
        requires
            en_passant matches Some(ep) ==> ep.0 != 0,
        ensures
            state.active_colour == active_colour,
            state.white == white,
            state.black == black,
            state.en_passant == en_passant,
            state.fifty_move_clock == fifty_move_clock,
            state.hash_ok(hasher),
    {
        let mut state = GameState {
            active_colour,
            white,
            black,
            en_passant,
            fifty_move_clock,
            zh: ZobristHash(0),
        };
        let zh = hasher.hash(&state);
        proof {
            lemma_hash_same(hasher.keys(), state, GameState { zh, ..state });
        }
        state.zh = zh;
        state
    }

    /// Whether the other side attacks the king of the side to move; a side
    /// without a king is not in check.
    pub open spec fn in_check(self) -> bool {
        let me = self.active_colour;
        match king_square(self.side(me).pieces) {
            Some(k) => attacked(
                self.side(me).pieces.occupancy() | self.side(Colour::other_spec(me)).pieces.occupancy(),
                self.side(Colour::other_spec(me)).pieces,
                k,
                me,
            ),
            None => false,
        }
    }

    /// Whether the side to move is in check.
    pub fn is_in_check(&self, mbb: &MagicBitBoards) -> (r: bool)
        ensures
            r == self.in_check(),
    {
        let (side, other_side) = match self.active_colour {
            Colour::White => (&self.white, &self.black),
            Colour::Black => (&self.black, &self.white),
        };
        if side.pieces.king.0 == 0 {
            return false;
        }
        let occupancy = BitBoard(side.pieces.all().0 | other_side.pieces.all().0);
        let king = lowest_square(side.pieces.king);
        square_under_attack(occupancy, &other_side.pieces, king, self.active_colour, mbb)
    }

    /// Whether the position is well formed.
    pub fn is_well_formed(&self) -> (r: bool)
        ensures
            r == self.wf(),
    {
        let target_ok = match self.en_passant {
            Some(ep) => {
                proof {
                    crate::bits::lemma_low_index(ep.0);
                    if ep.0 != 0 {
                        if single(ep.0) {
                            lemma_single(ep.0);
                        }
                        if ep.0 == bit(low_index(ep.0)) {
                            assert(single(ep.0));
                        }
                    } else if single(ep.0) {
                        lemma_single(ep.0);
                    }
                }
                ep.0 != 0 && ep.0 == 1u64 << (ep.0.trailing_zeros() as u64)
            },
            None => true,
        };
        self.white.pieces.is_well_formed() && self.black.pieces.is_well_formed()
            && self.white.pieces.all().0 & self.black.pieces.all().0 == 0 && target_ok
    }

    /// The colour and kind of the piece on `coord`, white looked up first.
    pub fn find_piece(&self, coord: BitCoord) -> (r: Option<(Colour, Piece)>)
        ensures
            r == match self.white.pieces.piece_at(coord) {
                Some(pc) => Some((Colour::White, pc)),
                None => match self.black.pieces.piece_at(coord) {
                    Some(pc) => Some((Colour::Black, pc)),
                    None => None,
                },
            },
    {
        match self.white.pieces.get_piece(coord) {
            Some(pc) => return Some((Colour::White, pc)),
            None => (),
        };
        match self.black.pieces.get_piece(coord) {
            Some(pc) => return Some((Colour::Black, pc)),
            None => (),
        };
        None
    }

    /// The side to move, to read or to change.
    pub fn active_side_mut(&mut self) -> (side: &mut SideState)
        ensures
            *side == old(self).side(old(self).active_colour),
            *final(self) == old(self).with_side(old(self).active_colour, *final(side)),
    {
        match self.active_colour {
            Colour::White => &mut self.white,
            Colour::Black => &mut self.black,
        }
    }

    /// The side that is not to move, to read or to change.
    pub fn other_side_mut(&mut self) -> (side: &mut SideState)
        ensures
            *side == old(self).side(Colour::other_spec(old(self).active_colour)),
            *final(self) == old(self).with_side(
                Colour::other_spec(old(self).active_colour),
                *final(side),
            ),
    {
        match self.active_colour {
            Colour::White => &mut self.black,
            Colour::Black => &mut self.white,
        }
    }

    /// Applies a move of the side to move.
    pub fn make_move(&mut self, mv: Move, hasher: &ZobristHasher)
        requires
            old(self).wf(),
            old(self).hash_ok(hasher),
            old(self).admits(mv),
            old(self).fifty_move_clock < u8::MAX,
        ensures
            *final(self) == old(self).after(mv, hasher),
            final(self).same_position(old(self).moved(mv)),
            final(self).hash_ok(hasher),
            final(self).wf(),
    {
        proof {
            lemma_moved_wf(*old(self), mv);
        }
        self.fifty_move_clock += 1;
        let colour = self.active_colour;
        proof {
            lemma_hash_same(hasher.keys(), *old(self), *self);
            lemma_home_squares();
            let own = self.side(colour).pieces.occupancy();
            let all = self.occupancy();
            let short = kingside_king_target(colour).0 | kingside_rook_target(colour).0;
            let long = queenside_king_target(colour).0 | queenside_rook_target(colour).0;
            bv_masks(self.white.pieces.occupancy(), self.black.pieces.occupancy(), short);
            bv_masks(self.white.pieces.occupancy(), self.black.pieces.occupancy(), long);
            lemma_bit_distinct(1, 2);
            lemma_bit_distinct(5, 4);
            lemma_bit_distinct(57, 58);
            lemma_bit_distinct(61, 60);
        }
        match mv {
            Move::Normal(piece, src, tgt) => {
                self.move_piece(piece, src, tgt, piece, hasher);
            },
            Move::Promotion(src, tgt, pc) => {
                self.move_piece(Piece::Pawn, src, tgt, pc, hasher);
            },
            Move::Castle => {
                match colour {
                    Colour::White => self.castle(
                        BitCoord(0x0000_0000_0000_0001),
                        BitCoord(0x0000_0000_0000_0002),
                        BitCoord(0x0000_0000_0000_0004),
                        hasher,
                    ),
                    Colour::Black => self.castle(
                        BitCoord(0x0100_0000_0000_0000),
                        BitCoord(0x0200_0000_0000_0000),
                        BitCoord(0x0400_0000_0000_0000),
                        hasher,
                    ),
                }
            },
            Move::LongCastle => {
                match colour {
                    Colour::White => self.castle(
                        BitCoord(0x0000_0000_0000_0080),
                        BitCoord(0x0000_0000_0000_0020),
                        BitCoord(0x0000_0000_0000_0010),
                        hasher,
                    ),
                    Colour::Black => self.castle(
                        BitCoord(0x8000_0000_0000_0000),
                        BitCoord(0x2000_0000_0000_0000),
                        BitCoord(0x1000_0000_0000_0000),
                        hasher,
                    ),
                }
            },
        }
        let ghost mid = *self;
        self.active_colour = Colour::other(self.active_colour);
        self.zh = hasher.toggle_active_colour(self.zh);
        proof {
            lemma_hash_toggle(hasher.keys(), mid, *self, BLACK_TO_MOVE as int);
            lemma_hash_same(hasher.keys(), *self, old(self).moved(mv));
        }
    }

    /// Moves the king of the side to move from its home square to
    /// `king_target` and the rook from `corner` to `rook_target`, and takes
    /// the side's castling rights and the en-passant target away.
    fn castle(
        &mut self,
        corner: BitCoord,
        king_target: BitCoord,
        rook_target: BitCoord,
        hasher: &ZobristHasher,
    )
        requires
            old(self).wf(),
            old(self).hash_ok(hasher),
            corner.wf(),
            king_target.wf(),
            rook_target.wf(),
            king_target != rook_target,
            old(self).side(old(self).active_colour).pieces.king == BitBoard(
                king_home(old(self).active_colour).0,
            ),
            old(self).side(old(self).active_colour).pieces.rooks.0 & corner.0 != 0,
            old(self).side(old(self).active_colour).pieces.occupancy() & (king_target.0
                | rook_target.0) == 0,
        ensures
            final(self).same_position(old(self).castled(corner, king_target, rook_target)),
            final(self).hash_ok(hasher),
    {
        let colour = self.active_colour;
        let home = match colour {
            Colour::White => BitCoord(0x0000_0000_0000_0008),
            Colour::Black => BitCoord(0x0800_0000_0000_0000),
        };
        proof {
            lemma_home_squares();
            let own = self.side(colour).pieces;
            assert(home == king_home(colour));
            lemma_single(home.0);
            lemma_two_squares_free(own, king_target.0, rook_target.0);
            bv_masks(home.0, 0, home.0);
            bv_masks(king_target.0, 0, 0);
            bv_masks(own.rooks.0, rook_target.0, corner.0);
            match self.en_passant {
                Some(ep) => lemma_single(ep.0),
                None => {},
            }
            assert(own.board(Piece::King).0 & king_target.0 == 0);
            assert(own.board(Piece::Rook).0 & rook_target.0 == 0);
        }
        self.remove_active_piece(Piece::King, home, hasher);
        self.remove_active_piece(Piece::Rook, corner, hasher);
        self.put_active_piece(Piece::King, king_target, hasher);
        self.put_active_piece(Piece::Rook, rook_target, hasher);
        self.disable_active_kingside_castle(hasher);
        self.disable_active_queenside_castle(hasher);
        self.clear_en_passant(hasher);
    }

    /// Moves `piece` of the side to move from `src` to `tgt`, where it
    /// stands as `placed`, with all that follows from it but the tick of
    /// the clock and the change of turn.
    fn move_piece(
        &mut self,
        piece: Piece,
        src: BitCoord,
        tgt: BitCoord,
        placed: Piece,
        hasher: &ZobristHasher,
    )
        requires
            old(self).wf(),
            old(self).hash_ok(hasher),
            src.wf(),
            tgt.wf(),
            old(self).side(old(self).active_colour).pieces.board(piece).0 & src.0 != 0,
            old(self).side(old(self).active_colour).pieces.occupancy() & tgt.0 == 0,
        ensures
            final(self).same_position(old(self).shifted(piece, src, tgt, placed)),
            final(self).hash_ok(hasher),
    {
        let colour = self.active_colour;
        let is_pawn = piece == Piece::Pawn;
        let is_en_passant = is_pawn && match self.en_passant {
            Some(ep) => ep == tgt,
            None => false,
        };
        proof {
            match self.en_passant {
                Some(ep) => lemma_single(ep.0),
                None => {},
            }
        }
        self.relocate(piece, src, tgt, placed, hasher);
        let captured = self.capture_on(tgt, hasher);
        if is_en_passant {
            self.capture_en_passant(tgt, hasher);
        }
        self.revoke_rights(piece, src, tgt, captured, hasher);
        self.mark_en_passant(is_pawn, src, tgt, hasher);
        if is_pawn || captured || is_en_passant {
            let ghost before = *self;
            self.fifty_move_clock = 0;
            proof {
                lemma_hash_same(hasher.keys(), before, *self);
            }
        }
    }

    /// Takes `piece` of the side to move off `src` and puts `placed` on
    /// `tgt`.
    fn relocate(
        &mut self,
        piece: Piece,
        src: BitCoord,
        tgt: BitCoord,
        placed: Piece,
        hasher: &ZobristHasher,
    )
        requires
            old(self).hash_ok(hasher),
            src.wf(),
            tgt.wf(),
            old(self).side(old(self).active_colour).pieces.board(piece).0 & src.0 != 0,
            old(self).side(old(self).active_colour).pieces.occupancy() & tgt.0 == 0,
        ensures
            final(self).same_position(
                old(self).take(old(self).active_colour, piece, src).put(
                    old(self).active_colour,
                    placed,
                    tgt,
                ),
            ),
            final(self).hash_ok(hasher),
    {
        proof {
            let own = self.side(self.active_colour).pieces;
            lemma_occupancy(own, tgt.0);
            assert(own.board(piece).0 & tgt.0 == 0);
            assert(own.board(placed).0 & tgt.0 == 0);
            bv_masks(own.board(piece).0, tgt.0, src.0);
        }
        self.remove_active_piece(piece, src, hasher);
        self.put_active_piece(placed, tgt, hasher);
    }

    /// Takes what the side that is not to move has on `tgt`, and says
    /// whether there was anything.
    fn capture_on(&mut self, tgt: BitCoord, hasher: &ZobristHasher) -> (captured: bool)
        requires
            old(self).hash_ok(hasher),
            tgt.wf(),
        ensures
            final(self).same_position(old(self).captured(tgt)),
            final(self).hash_ok(hasher),
            captured == (old(self).side(Colour::other_spec(old(self).active_colour)).pieces.piece_at(
                tgt,
            ) is Some),
    {
        let taken = match self.active_colour {
            Colour::White => self.black.pieces.get_piece(tgt),
            Colour::Black => self.white.pieces.get_piece(tgt),
        };
        match taken {
            Some(pc) => {
                self.remove_other_piece(pc, tgt, hasher);
                true
            },
            None => false,
        }
    }

    /// Takes the pawn that stands behind the en-passant target `tgt`, seen
    /// from the side to move.
    fn capture_en_passant(&mut self, tgt: BitCoord, hasher: &ZobristHasher)
        requires
            old(self).hash_ok(hasher),
            tgt.wf(),
        ensures
            final(self).same_position(
                old(self).take(
                    Colour::other_spec(old(self).active_colour),
                    Piece::Pawn,
                    en_passant_victim(old(self).active_colour, tgt),
                ),
            ),
            final(self).hash_ok(hasher),
    {
        let colour = self.active_colour;
        let taken_coord = match colour {
            Colour::White => tgt.shr(8),
            Colour::Black => tgt.shl(8),
        };
        let present = match colour {
            Colour::White => self.black.pieces.pawns.0 & taken_coord.0 != 0,
            Colour::Black => self.white.pieces.pawns.0 & taken_coord.0 != 0,
        };
        proof {
            lemma_rank_shift(tgt);
            let pawns = self.side(Colour::other_spec(colour)).pieces.pawns.0;
            bv_masks(pawns, 0, taken_coord.0);
            bv_masks(0, 0, pawns);
        }
        if present {
            self.remove_other_piece(Piece::Pawn, taken_coord, hasher);
        }
    }

    /// Takes away the castling rights that lapse when `piece` of the side
    /// to move leaves `src` for `tgt`.
    fn revoke_rights(
        &mut self,
        piece: Piece,
        src: BitCoord,
        tgt: BitCoord,
        capture: bool,
        hasher: &ZobristHasher,
    )
        requires
            old(self).hash_ok(hasher),
        ensures
            final(self).same_position(old(self).revoked(piece, src, tgt, capture)),
            final(self).hash_ok(hasher),
    {
        let (queenside_rook, kingside_rook, other_queenside_rook, other_kingside_rook) =
            match self.active_colour {
            Colour::White => (
                BitCoord(0x0000_0000_0000_0080),
                BitCoord(0x0000_0000_0000_0001),
                BitCoord(0x8000_0000_0000_0000),
                BitCoord(0x0100_0000_0000_0000),
            ),
            Colour::Black => (
                BitCoord(0x8000_0000_0000_0000),
                BitCoord(0x0100_0000_0000_0000),
                BitCoord(0x0000_0000_0000_0080),
                BitCoord(0x0000_0000_0000_0001),
            ),
        };
        if piece == Piece::King {
            self.disable_active_kingside_castle(hasher);
            self.disable_active_queenside_castle(hasher);
        }
        if src == queenside_rook {
            self.disable_active_queenside_castle(hasher);
        } else if src == kingside_rook {
            self.disable_active_kingside_castle(hasher);
        }
        if capture {
            if tgt == other_queenside_rook {
                self.disable_other_queenside_castle(hasher);
            } else if tgt == other_kingside_rook {
                self.disable_other_kingside_castle(hasher);
            }
        }
    }

    /// Makes the square that a pawn passed in a double step the en-passant
    /// target, and leaves the position without one after any other move.
    fn mark_en_passant(&mut self, is_pawn: bool, src: BitCoord, tgt: BitCoord, hasher: &ZobristHasher)
        requires
            old(self).hash_ok(hasher),
            src.wf(),
            tgt.wf(),
            old(self).en_passant matches Some(ep) ==> ep.0 != 0,
        ensures
            final(self).same_position(
                GameState {
                    en_passant: if is_pawn && Self::double_step(old(self).active_colour, src, tgt) {
                        Some(en_passant_victim(old(self).active_colour, tgt))
                    } else {
                        None
                    },
                    ..*old(self)
                },
            ),
            final(self).hash_ok(hasher),
    {
        let far = match self.active_colour {
            Colour::White => tgt.0 >> 16,
            Colour::Black => tgt.0 << 16,
        };
        if is_pawn && src.0 == far {
            let ep = match self.active_colour {
                Colour::White => tgt.shr(8),
                Colour::Black => tgt.shl(8),
            };
            proof {
                lemma_single(src.0);
                lemma_single(tgt.0);
                bv_double_step(src.index() as u64, tgt.index() as u64);
            }
            self.set_en_passant(ep, hasher);
        } else {
            self.clear_en_passant(hasher);
        }
    }

    /// Adds a piece of the side to move on an empty square.
    fn put_active_piece(&mut self, piece: Piece, coord: BitCoord, hasher: &ZobristHasher)
        requires
            coord.wf(),
            old(self).hash_ok(hasher),
            old(self).side(old(self).active_colour).pieces.board(piece).0 & coord.0 == 0,
        ensures
            final(self).same_position(old(self).put(old(self).active_colour, piece, coord)),
            final(self).hash_ok(hasher),
    {
        let colour = self.active_colour;
        self.active_side_mut().pieces.put_piece(piece, coord);
        self.zh = hasher.toggle_piece(self.zh, colour, piece, coord);
        proof {
            lemma_piece_feature(*old(self), *self, colour, piece, coord);
            lemma_hash_toggle(
                hasher.keys(),
                *old(self),
                *self,
                piece_key(colour, piece, coord.index()),
            );
        }
    }

    /// Takes a piece of the side to move off its square.
    fn remove_active_piece(&mut self, piece: Piece, coord: BitCoord, hasher: &ZobristHasher)
        requires
            coord.wf(),
            old(self).hash_ok(hasher),
            old(self).side(old(self).active_colour).pieces.board(piece).0 & coord.0 != 0,
        ensures
            final(self).same_position(old(self).take(old(self).active_colour, piece, coord)),
            final(self).hash_ok(hasher),
    {
        let colour = self.active_colour;
        self.active_side_mut().pieces.remove_piece(piece, coord);
        self.zh = hasher.toggle_piece(self.zh, colour, piece, coord);
        proof {
            lemma_piece_feature(*old(self), *self, colour, piece, coord);
            lemma_hash_toggle(
                hasher.keys(),
                *old(self),
                *self,
                piece_key(colour, piece, coord.index()),
            );
        }
    }

    /// Takes a piece of the side that is not to move off its square.
    fn remove_other_piece(&mut self, piece: Piece, coord: BitCoord, hasher: &ZobristHasher)
        requires
            coord.wf(),
            old(self).hash_ok(hasher),
            old(self).side(Colour::other_spec(old(self).active_colour)).pieces.board(piece).0
                & coord.0 != 0,
        ensures
            final(self).same_position(
                old(self).take(Colour::other_spec(old(self).active_colour), piece, coord),
            ),
            final(self).hash_ok(hasher),
    {
        let colour = Colour::other(self.active_colour);
        self.other_side_mut().pieces.remove_piece(piece, coord);
        self.zh = hasher.toggle_piece(self.zh, colour, piece, coord);
        proof {
            lemma_piece_feature(*old(self), *self, colour, piece, coord);
            lemma_hash_toggle(
                hasher.keys(),
                *old(self),
                *self,
                piece_key(colour, piece, coord.index()),
            );
        }
    }

    /// Makes `coord` the en-passant target.
    fn set_en_passant(&mut self, coord: BitCoord, hasher: &ZobristHasher)
        requires
            coord.0 != 0,
            old(self).hash_ok(hasher),
            old(self).en_passant matches Some(ep) ==> ep.0 != 0,
        ensures
            *final(self) == (GameState { en_passant: Some(coord), zh: final(self).zh, ..*old(self) }),
            final(self).hash_ok(hasher),
    {
        self.clear_en_passant(hasher);
        let ghost mid = *self;
        self.en_passant = Some(coord);
        self.zh = hasher.toggle_en_passant(self.zh, coord);
        proof {
            lemma_hash_toggle(hasher.keys(), mid, *self, EN_PASSANT + coord.file_spec());
        }
    }

    /// Leaves the position without an en-passant target.
    fn clear_en_passant(&mut self, hasher: &ZobristHasher)
        requires
            old(self).hash_ok(hasher),
            old(self).en_passant matches Some(ep) ==> ep.0 != 0,
        ensures
            *final(self) == (GameState { en_passant: None, zh: final(self).zh, ..*old(self) }),
            final(self).hash_ok(hasher),
    {
        match self.en_passant {
            Some(coord) => {
                self.en_passant = None;
                self.zh = hasher.toggle_en_passant(self.zh, coord);
                proof {
                    lemma_hash_toggle(
                        hasher.keys(),
                        *old(self),
                        *self,
                        EN_PASSANT + coord.file_spec(),
                    );
                }
            },
            None => (),
        };
    }

    /// Takes the queenside castling right from the side to move.
    fn disable_active_queenside_castle(&mut self, hasher: &ZobristHasher)
        requires
            old(self).hash_ok(hasher),
        ensures
            final(self).same_position(
                old(self).with_rights(
                    old(self).active_colour,
                    old(self).side(old(self).active_colour).can_castle_kingside,
                    false,
                ),
            ),
            final(self).hash_ok(hasher),
    {
        let colour = self.active_colour;
        self.disable_queenside_castle(colour, hasher);
    }

    /// Takes the kingside castling right from the side to move.
    fn disable_active_kingside_castle(&mut self, hasher: &ZobristHasher)
        requires
            old(self).hash_ok(hasher),
        ensures
            final(self).same_position(
                old(self).with_rights(
                    old(self).active_colour,
                    false,
                    old(self).side(old(self).active_colour).can_castle_queenside,
                ),
            ),
            final(self).hash_ok(hasher),
    {
        let colour = self.active_colour;
        self.disable_kingside_castle(colour, hasher);
    }

    /// Takes the queenside castling right from the side that is not to
    /// move.
    fn disable_other_queenside_castle(&mut self, hasher: &ZobristHasher)
        requires
            old(self).hash_ok(hasher),
        ensures
            final(self).same_position(
                old(self).with_rights(
                    Colour::other_spec(old(self).active_colour),
                    old(self).side(Colour::other_spec(old(self).active_colour)).can_castle_kingside,
                    false,
                ),
            ),
            final(self).hash_ok(hasher),
    {
        let colour = Colour::other(self.active_colour);
        self.disable_queenside_castle(colour, hasher);
    }

    /// Takes the kingside castling right from the side that is not to
    /// move.
    fn disable_other_kingside_castle(&mut self, hasher: &ZobristHasher)
        requires
            old(self).hash_ok(hasher),
        ensures
            final(self).same_position(
                old(self).with_rights(
                    Colour::other_spec(old(self).active_colour),
                    false,
                    old(self).side(Colour::other_spec(old(self).active_colour)).can_castle_queenside,
                ),
            ),
            final(self).hash_ok(hasher),
    {
        let colour = Colour::other(self.active_colour);
        self.disable_kingside_castle(colour, hasher);
    }

    /// Takes the queenside castling right from the given side; the hash
    /// changes only if the side had the right.
    fn disable_queenside_castle(&mut self, colour: Colour, hasher: &ZobristHasher)
        requires
            old(self).hash_ok(hasher),
        ensures
            final(self).same_position(
                old(self).with_rights(colour, old(self).side(colour).can_castle_kingside, false),
            ),
            final(self).hash_ok(hasher),
    {
        match colour {
            Colour::White => {
                if self.white.can_castle_queenside {
                    self.white.can_castle_queenside = false;
                    self.zh = hasher.toggle_white_queenside(self.zh);
                    proof {
                        lemma_hash_toggle(
                            hasher.keys(),
                            *old(self),
                            *self,
                            WHITE_QUEENSIDE as int,
                        );
                    }
                }
            },
            Colour::Black => {
                if self.black.can_castle_queenside {
                    self.black.can_castle_queenside = false;
                    self.zh = hasher.toggle_black_queenside(self.zh);
                    proof {
                        lemma_hash_toggle(
                            hasher.keys(),
                            *old(self),
                            *self,
                            BLACK_QUEENSIDE as int,
                        );
                    }
                }
            },
        }
    }

    /// Takes the kingside castling right from the given side; the hash
    /// changes only if the side had the right.
    fn disable_kingside_castle(&mut self, colour: Colour, hasher: &ZobristHasher)
        requires
            old(self).hash_ok(hasher),
        ensures
            final(self).same_position(
                old(self).with_rights(colour, false, old(self).side(colour).can_castle_queenside),
            ),
            final(self).hash_ok(hasher),
    {
        match colour {
            Colour::White => {
                if self.white.can_castle_kingside {
                    self.white.can_castle_kingside = false;
                    self.zh = hasher.toggle_white_kingside(self.zh);
                    proof {
                        lemma_hash_toggle(hasher.keys(), *old(self), *self, WHITE_KINGSIDE as int);
                    }
                }
            },
            Colour::Black => {
                if self.black.can_castle_kingside {
                    self.black.can_castle_kingside = false;
                    self.zh = hasher.toggle_black_kingside(self.zh);
                    proof {
                        lemma_hash_toggle(hasher.keys(), *old(self), *self, BLACK_KINGSIDE as int);
                    }
                }
            },
        }
    }
}

pub(crate) proof fn bv_masks(a: u64, b: u64, s: u64)
    by (bit_vector)
    ensures
        a & s == 0 ==> a & !s == a,
        a & s == 0 ==> (a | b) & s == b & s,
        (a & !s) & s == 0,
        (a | s) & s == s,
        (a | b) & s == 0 ==> a & s == 0 && b & s == 0,
        a & b == 0 ==> (a & !s) & b == 0,
        a & a == a,
        a & !a == 0,
        0 & a == 0,
        a & 0 == 0,
{
}

proof fn bv_occupancy(k: u64, q: u64, r: u64, b: u64, n: u64, p: u64, t: u64)
    by (bit_vector)
    ensures
        ((k | q | r | b | n | p) & t == 0) == (k & t == 0 && q & t == 0 && r & t == 0 && b & t == 0
            && n & t == 0 && p & t == 0),
{
}

/// A square is free of a side's pieces exactly when it is free of each of
/// the six sets.
pub proof fn lemma_occupancy(p: Pieces, t: u64)
    ensures
        (p.occupancy() & t == 0) == (forall|piece: Piece| (#[trigger] p.board(piece)).0 & t == 0),
{
    bv_occupancy(p.king.0, p.queens.0, p.rooks.0, p.bishops.0, p.knights.0, p.pawns.0, t);
    if p.occupancy() & t == 0 {
        assert forall|piece: Piece| (#[trigger] p.board(piece)).0 & t == 0 by {}
    } else {
        if forall|piece: Piece| (#[trigger] p.board(piece)).0 & t == 0 {
            assert(p.board(Piece::King).0 & t == 0);
            assert(p.board(Piece::Queen).0 & t == 0);
            assert(p.board(Piece::Rook).0 & t == 0);
            assert(p.board(Piece::Bishop).0 & t == 0);
            assert(p.board(Piece::Knight).0 & t == 0);
            assert(p.board(Piece::Pawn).0 & t == 0);
        }
    }
}

proof fn bv_rank_shift(i: u64)
    by (bit_vector)
    requires
        i < 64,
    ensures
        (1u64 << i) >> 8 == (if i >= 8 {
            1u64 << ((i - 8) as u64)
        } else {
            0
        }),
        (1u64 << i) << 8 == (if i < 56 {
            1u64 << ((i + 8) as u64)
        } else {
            0
        }),
{
}

proof fn bv_double_step(i: u64, j: u64)
    by (bit_vector)
    requires
        i < 64,
        j < 64,
    ensures
        (1u64 << i) == (1u64 << j) >> 16 ==> (1u64 << j) >> 8 != 0,
        (1u64 << i) == (1u64 << j) << 16 ==> (1u64 << j) << 8 != 0,
{
}

proof fn bv_home_squares()
    by (bit_vector)
    ensures
        0x0000_0000_0000_0001u64 == 1u64 << 0u64,
        0x0000_0000_0000_0002u64 == 1u64 << 1u64,
        0x0000_0000_0000_0004u64 == 1u64 << 2u64,
        0x0000_0000_0000_0008u64 == 1u64 << 3u64,
        0x0000_0000_0000_0010u64 == 1u64 << 4u64,
        0x0000_0000_0000_0020u64 == 1u64 << 5u64,
        0x0000_0000_0000_0080u64 == 1u64 << 7u64,
        0x0100_0000_0000_0000u64 == 1u64 << 56u64,
        0x0200_0000_0000_0000u64 == 1u64 << 57u64,
        0x0400_0000_0000_0000u64 == 1u64 << 58u64,
        0x0800_0000_0000_0000u64 == 1u64 << 59u64,
        0x1000_0000_0000_0000u64 == 1u64 << 60u64,
        0x2000_0000_0000_0000u64 == 1u64 << 61u64,
        0x8000_0000_0000_0000u64 == 1u64 << 63u64,
{
}

/// The home squares and castling targets of both sides, as single squares
/// by index.
pub proof fn lemma_home_squares()
    ensures
        kingside_corner(Colour::White) == BitCoord(bit(0)),
        kingside_king_target(Colour::White) == BitCoord(bit(1)),
        kingside_rook_target(Colour::White) == BitCoord(bit(2)),
        king_home(Colour::White) == BitCoord(bit(3)),
        queenside_rook_target(Colour::White) == BitCoord(bit(4)),
        queenside_king_target(Colour::White) == BitCoord(bit(5)),
        queenside_corner(Colour::White) == BitCoord(bit(7)),
        kingside_corner(Colour::Black) == BitCoord(bit(56)),
        kingside_king_target(Colour::Black) == BitCoord(bit(57)),
        kingside_rook_target(Colour::Black) == BitCoord(bit(58)),
        king_home(Colour::Black) == BitCoord(bit(59)),
        queenside_rook_target(Colour::Black) == BitCoord(bit(60)),
        queenside_king_target(Colour::Black) == BitCoord(bit(61)),
        queenside_corner(Colour::Black) == BitCoord(bit(63)),
        forall|c: Colour|
            #![trigger king_home(c)]
            #![trigger kingside_corner(c)]
            #![trigger queenside_corner(c)]
            #![trigger kingside_king_target(c)]
            #![trigger kingside_rook_target(c)]
            #![trigger queenside_king_target(c)]
            #![trigger queenside_rook_target(c)]
            king_home(c).wf() && kingside_corner(c).wf() && queenside_corner(c).wf()
                && kingside_king_target(c).wf() && kingside_rook_target(c).wf()
                && queenside_king_target(c).wf() && queenside_rook_target(c).wf(),
{
    bv_home_squares();
    assert(0x0000_0000_0000_0001u64 == bit(0));
    assert(0x0000_0000_0000_0002u64 == bit(1));
    assert(0x0000_0000_0000_0004u64 == bit(2));
    assert(0x0000_0000_0000_0008u64 == bit(3));
    assert(0x0000_0000_0000_0010u64 == bit(4));
    assert(0x0000_0000_0000_0020u64 == bit(5));
    assert(0x0000_0000_0000_0080u64 == bit(7));
    assert(0x0100_0000_0000_0000u64 == bit(56));
    assert(0x0200_0000_0000_0000u64 == bit(57));
    assert(0x0400_0000_0000_0000u64 == bit(58));
    assert(0x0800_0000_0000_0000u64 == bit(59));
    assert(0x1000_0000_0000_0000u64 == bit(60));
    assert(0x2000_0000_0000_0000u64 == bit(61));
    assert(0x8000_0000_0000_0000u64 == bit(63));
}

/// Where neither of two squares holds a piece of a side, none of the
/// side's six sets meets either.
proof fn lemma_two_squares_free(p: Pieces, a: u64, b: u64)
    requires
        p.occupancy() & (a | b) == 0,
    ensures
        forall|piece: Piece| (#[trigger] p.board(piece)).0 & a == 0 && p.board(piece).0 & b == 0,
{
    let occ = p.occupancy();
    assert(occ & a == 0 && occ & b == 0) by (bit_vector)
        requires
            occ & (a | b) == 0,
    ;
    lemma_occupancy(p, a);
    lemma_occupancy(p, b);
}

/// A single square moved by one rank is a single square or nothing.
pub proof fn lemma_rank_shift(c: BitCoord)
    requires
        c.wf(),
    ensures
        c.0 >> 8 == 0 || single(c.0 >> 8),
        c.0 << 8 == 0 || single(c.0 << 8),
        c.index() >= 8 ==> c.0 >> 8 == bit(c.index() - 8),
        c.index() < 56 ==> c.0 << 8 == bit(c.index() + 8),
{
    lemma_single(c.0);
    let i = c.index();
    bv_rank_shift(i as u64);
    if i >= 8 {
        assert(c.0 >> 8 == bit(i - 8));
    }
    if i < 56 {
        assert(c.0 << 8 == bit(i + 8));
    }
}

/// Adding or taking one piece on one square changes the one feature of
/// that piece on that square and no other.
proof fn lemma_piece_feature(s1: GameState, s2: GameState, colour: Colour, piece: Piece, coord: BitCoord)
    requires
        coord.wf(),
        (s2.same_position(s1.put(colour, piece, coord)) && s1.side(colour).pieces.board(piece).0
            & coord.0 == 0) || (s2.same_position(s1.take(colour, piece, coord)) && s1.side(
            colour,
        ).pieces.board(piece).0 & coord.0 != 0),
    ensures
        forall|i: int|
            0 <= i < KEY_COUNT && i != piece_key(colour, piece, coord.index()) ==> feature(s1, i)
                == feature(s2, i),
        feature(s1, piece_key(colour, piece, coord.index())) != feature(
            s2,
            piece_key(colour, piece, coord.index()),
        ),
        0 <= piece_key(colour, piece, coord.index()) < 768,
{
    lemma_single(coord.0);
    let sq = coord.index();
    let old_bb = s1.side(colour).pieces.board(piece).0;
    let new_bb = s2.side(colour).pieces.board(piece).0;
    assert(kind_at(kind_index(piece)) == piece);
    assert forall|k: int| 0 <= k < 64 implies (bit_set(new_bb, k) != bit_set(old_bb, k)) == (k
        == sq) by {
        lemma_has_ops(old_bb, coord.0, k);
        lemma_has_ops(old_bb, !coord.0, k);
        lemma_has_ops(coord.0, 0, k);
        lemma_bit_distinct(sq, k);
    }
    let j = piece_key(colour, piece, sq);
    assert forall|i: int| 0 <= i < KEY_COUNT && i != j implies feature(s1, i) == feature(
        s2,
        i,
    ) by {
        if i < 768 {
            let c = if i < 384 {
                Colour::White
            } else {
                Colour::Black
            };
            let k = kind_at((i % 384) / 64);
            if c == colour && k == piece {
                assert(i % 64 != sq);
            } else {
                assert(side_pieces(s1, c).board(k) == side_pieces(s2, c).board(k));
            }
        }
    }
}

pub(crate) proof fn bv_pair(a: u64, b: u64, c: u64, i: u64)
    by (bit_vector)
    ensures
        a & b == 0 ==> (a & !c) & b == 0 && a & (b & !c) == 0,
        a & b == 0 && c & b == 0 ==> (a | c) & b == 0,
        a & b == 0 && a & c == 0 ==> a & (b | c) == 0,
        i < 64 ==> ((1u64 << i) & !c == 0 || (1u64 << i) & !c == (1u64 << i)),
        0 | c == c,
        i < 64 && a & (1u64 << i) != 0 && a & b == 0 ==> b & (1u64 << i) == 0,
        (a | b) & c == 0 ==> a & c == 0 && b & c == 0,
        a & c == 0 && b & c == 0 ==> (a | b) & c == 0,
        a & b == 0 ==> b & a == 0,
        a & (b | c) == 0 ==> a & b == 0 && a & c == 0,
        a | b == b | a,
{
}

proof fn bv_occupancy_change(k: u64, q: u64, r: u64, b: u64, n: u64, p: u64, c: u64, x: u64)
    by (bit_vector)
    ensures
        (k | q | r | b | n | p) & x == 0 ==> ((k & !c) | q | r | b | n | p) & x == 0 && (k | (q
            & !c) | r | b | n | p) & x == 0 && (k | q | (r & !c) | b | n | p) & x == 0 && (k | q
            | r | (b & !c) | n | p) & x == 0 && (k | q | r | b | (n & !c) | p) & x == 0 && (k | q
            | r | b | n | (p & !c)) & x == 0,
        ((k | c) | q | r | b | n | p) == (k | q | r | b | n | p) | c,
        (k | (q | c) | r | b | n | p) == (k | q | r | b | n | p) | c,
        (k | q | (r | c) | b | n | p) == (k | q | r | b | n | p) | c,
        (k | q | r | (b | c) | n | p) == (k | q | r | b | n | p) | c,
        (k | q | r | b | (n | c) | p) == (k | q | r | b | n | p) | c,
        (k | q | r | b | n | (p | c)) == (k | q | r | b | n | p) | c,
{
}

/// Taking a piece off a square keeps a side's sets disjoint, and frees no
/// square that was free of the side.
pub proof fn lemma_take_wf(p: Pieces, piece: Piece, c: BitCoord, x: u64)
    requires
        p.wf(),
    ensures
        p.without_piece(piece, c).wf(),
        p.occupancy() & x == 0 ==> p.without_piece(piece, c).occupancy() & x == 0,
{
    bv_pair(p.king.0, p.queens.0, c.0, 0);
    bv_pair(p.king.0, p.rooks.0, c.0, 0);
    bv_pair(p.king.0, p.bishops.0, c.0, 0);
    bv_pair(p.king.0, p.knights.0, c.0, 0);
    bv_pair(p.king.0, p.pawns.0, c.0, 0);
    bv_pair(p.queens.0, p.rooks.0, c.0, 0);
    bv_pair(p.queens.0, p.bishops.0, c.0, 0);
    bv_pair(p.queens.0, p.knights.0, c.0, 0);
    bv_pair(p.queens.0, p.pawns.0, c.0, 0);
    bv_pair(p.rooks.0, p.bishops.0, c.0, 0);
    bv_pair(p.rooks.0, p.knights.0, c.0, 0);
    bv_pair(p.rooks.0, p.pawns.0, c.0, 0);
    bv_pair(p.bishops.0, p.knights.0, c.0, 0);
    bv_pair(p.bishops.0, p.pawns.0, c.0, 0);
    bv_pair(p.knights.0, p.pawns.0, c.0, 0);
    bv_occupancy_change(
        p.king.0,
        p.queens.0,
        p.rooks.0,
        p.bishops.0,
        p.knights.0,
        p.pawns.0,
        c.0,
        x,
    );
    if p.king.0 != 0 {
        lemma_single(p.king.0);
        let i = low_index(p.king.0);
        bv_pair(0, 0, c.0, i as u64);
        assert(p.king.0 & !c.0 == 0 || single(p.king.0 & !c.0));
    } else {
        bv_masks(!c.0, 0, 0);
    }
}

/// Putting a piece on a square that is free of a side keeps the side's
/// sets disjoint, and adds that square to the side's squares.
pub proof fn lemma_put_wf(p: Pieces, piece: Piece, c: BitCoord)
    requires
        p.wf(),
        c.wf(),
        p.occupancy() & c.0 == 0,
        piece == Piece::King ==> p.king.0 == 0,
    ensures
        p.with_piece(piece, c).wf(),
        p.with_piece(piece, c).occupancy() == p.occupancy() | c.0,
{
    lemma_occupancy(p, c.0);
    assert(p.board(Piece::King).0 & c.0 == 0);
    assert(p.board(Piece::Queen).0 & c.0 == 0);
    assert(p.board(Piece::Rook).0 & c.0 == 0);
    assert(p.board(Piece::Bishop).0 & c.0 == 0);
    assert(p.board(Piece::Knight).0 & c.0 == 0);
    assert(p.board(Piece::Pawn).0 & c.0 == 0);
    bv_pair(p.king.0, c.0, 0, 0);
    bv_pair(p.queens.0, c.0, 0, 0);
    bv_pair(p.rooks.0, c.0, 0, 0);
    bv_pair(p.bishops.0, c.0, 0, 0);
    bv_pair(p.knights.0, c.0, 0, 0);
    bv_pair(p.pawns.0, c.0, 0, 0);
    bv_pair(p.king.0, p.queens.0, c.0, 0);
    bv_pair(p.king.0, p.rooks.0, c.0, 0);
    bv_pair(p.king.0, p.bishops.0, c.0, 0);
    bv_pair(p.king.0, p.knights.0, c.0, 0);
    bv_pair(p.king.0, p.pawns.0, c.0, 0);
    bv_pair(p.queens.0, p.rooks.0, c.0, 0);
    bv_pair(p.queens.0, p.bishops.0, c.0, 0);
    bv_pair(p.queens.0, p.knights.0, c.0, 0);
    bv_pair(p.queens.0, p.pawns.0, c.0, 0);
    bv_pair(p.rooks.0, p.bishops.0, c.0, 0);
    bv_pair(p.rooks.0, p.knights.0, c.0, 0);
    bv_pair(p.rooks.0, p.pawns.0, c.0, 0);
    bv_pair(p.bishops.0, p.knights.0, c.0, 0);
    bv_pair(p.bishops.0, p.pawns.0, c.0, 0);
    bv_pair(p.knights.0, p.pawns.0, c.0, 0);
    bv_occupancy_change(
        p.king.0,
        p.queens.0,
        p.rooks.0,
        p.bishops.0,
        p.knights.0,
        p.pawns.0,
        c.0,
        0,
    );
}

/// Once what stands on a square is taken, the square is free of the side.
proof fn lemma_capture_frees(p: Pieces, c: BitCoord)
    requires
        p.wf(),
        c.wf(),
    ensures
        match p.piece_at(c) {
            Some(pc) => p.without_piece(pc, c).occupancy() & c.0 == 0,
            None => p.occupancy() & c.0 == 0,
        },
{
    lemma_single(c.0);
    let i = c.index() as u64;
    match p.piece_at(c) {
        Some(pc) => {
            let q = p.without_piece(pc, c);
            let b = p.board(pc).0;
            bv_masks(b, 0, c.0);
            bv_pair(b, p.king.0, 0, i);
            bv_pair(b, p.queens.0, 0, i);
            bv_pair(b, p.rooks.0, 0, i);
            bv_pair(b, p.bishops.0, 0, i);
            bv_pair(b, p.knights.0, 0, i);
            bv_pair(b, p.pawns.0, 0, i);
            bv_pair(p.king.0, b, 0, i);
            bv_pair(p.queens.0, b, 0, i);
            bv_pair(p.rooks.0, b, 0, i);
            bv_pair(p.bishops.0, b, 0, i);
            bv_pair(p.knights.0, b, 0, i);
            bv_pair(p.pawns.0, b, 0, i);
            assert forall|piece: Piece| (#[trigger] q.board(piece)).0 & c.0 == 0 by {}
            lemma_occupancy(q, c.0);
        },
        None => {
            assert forall|piece: Piece| (#[trigger] p.board(piece)).0 & c.0 == 0 by {}
            lemma_occupancy(p, c.0);
        },
    }
}

/// A move that can be applied leads from a well-formed position to a
/// well-formed position.
pub proof fn lemma_moved_wf(s: GameState, mv: Move)
    requires
        s.wf(),
        s.admits(mv),
    ensures
        s.moved(mv).wf(),
{
    let me = s.active_colour;
    let you = Colour::other_spec(me);
    let own = s.side(me).pieces;
    let enemy = s.side(you).pieces;
    lemma_home_squares();
    lemma_bit_distinct(1, 2);
    lemma_bit_distinct(5, 4);
    lemma_bit_distinct(57, 58);
    lemma_bit_distinct(61, 60);
    match mv {
        Move::Normal(piece, src, tgt) => {
            lemma_shifted_wf(s.ticked(), piece, src, tgt, piece);
        },
        Move::Promotion(src, tgt, pc) => {
            lemma_shifted_wf(s.ticked(), Piece::Pawn, src, tgt, pc);
        },
        Move::Castle => {
            lemma_castled_wf(
                s.ticked(),
                kingside_corner(me),
                kingside_king_target(me),
                kingside_rook_target(me),
            );
        },
        Move::LongCastle => {
            lemma_castled_wf(
                s.ticked(),
                queenside_corner(me),
                queenside_king_target(me),
                queenside_rook_target(me),
            );
        },
    }
}

/// A square that was free of both sides and is not the destination is
/// free of both sides after a piece went from `src` to `tgt`, and a pawn
/// that went to `tgt` stands there.
pub proof fn lemma_shifted_free(
    s: GameState,
    piece: Piece,
    src: BitCoord,
    tgt: BitCoord,
    placed: Piece,
    x: u64,
)
    requires
        s.wf(),
        src.wf(),
        tgt.wf(),
        s.side(s.active_colour).pieces.board(piece).0 & src.0 != 0,
        s.side(s.active_colour).pieces.occupancy() & tgt.0 == 0,
        placed == piece || (piece == Piece::Pawn && placed != Piece::King),
        s.occupancy() & x == 0,
        tgt.0 & x == 0,
    ensures
        s.shifted(piece, src, tgt, placed).occupancy() & x == 0,
        placed == Piece::Pawn ==> s.shifted(piece, src, tgt, placed).side(
            s.active_colour,
        ).pieces.pawns.0 & tgt.0 != 0,
{
    let me = s.active_colour;
    let you = Colour::other_spec(me);
    let own = s.side(me).pieces;
    let enemy = s.side(you).pieces;
    bv_pair(s.white.pieces.occupancy(), s.black.pieces.occupancy(), x, 0);
    assert(own.occupancy() & x == 0);
    assert(enemy.occupancy() & x == 0);
    let own1 = own.without_piece(piece, src);
    let own2 = own1.with_piece(placed, tgt);
    lemma_take_wf(own, piece, src, tgt.0);
    lemma_take_wf(own, piece, src, x);
    if placed == Piece::King {
        bv_masks(src.0, 0, 0);
        lemma_single(own.king.0);
        lemma_single(src.0);
        lemma_bit_distinct(low_index(own.king.0), src.index());
    }
    lemma_put_wf(own1, placed, tgt);
    bv_pair(own1.occupancy(), tgt.0, x, 0);
    assert(own2.occupancy() & x == 0);
    let enemy1 = match enemy.piece_at(tgt) {
        Some(pc) => enemy.without_piece(pc, tgt),
        None => enemy,
    };
    match enemy.piece_at(tgt) {
        Some(pc) => {
            lemma_take_wf(enemy, pc, tgt, x);
        },
        None => {},
    }
    let victim = en_passant_victim(me, tgt);
    let enemy2 = if piece == Piece::Pawn && s.en_passant == Some(tgt) {
        enemy1.without_piece(Piece::Pawn, victim)
    } else {
        enemy1
    };
    lemma_take_wf(enemy1, Piece::Pawn, victim, x);
    assert(enemy2.occupancy() & x == 0);
    let r = s.shifted(piece, src, tgt, placed);
    assert(r.side(me).pieces == own2);
    assert(r.side(you).pieces == enemy2);
    bv_pair(r.white.pieces.occupancy(), r.black.pieces.occupancy(), x, 0);
    lemma_single(tgt.0);
    bv_masks(own1.pawns.0, 0, tgt.0);
}

pub(crate) proof fn lemma_shifted_wf(s: GameState, piece: Piece, src: BitCoord, tgt: BitCoord, placed: Piece)
    requires
        s.wf(),
        src.wf(),
        tgt.wf(),
        s.side(s.active_colour).pieces.board(piece).0 & src.0 != 0,
        s.side(s.active_colour).pieces.occupancy() & tgt.0 == 0,
        placed == piece || (piece == Piece::Pawn && placed != Piece::King),
    ensures
        s.shifted(piece, src, tgt, placed).wf(),
{
    let me = s.active_colour;
    let you = Colour::other_spec(me);
    let own = s.side(me).pieces;
    let enemy = s.side(you).pieces;
    bv_pair(own.occupancy(), enemy.occupancy(), 0, 0);
    bv_pair(enemy.occupancy(), own.occupancy(), 0, 0);
    assert(own.occupancy() & enemy.occupancy() == 0);
    assert(enemy.occupancy() & own.occupancy() == 0);
    let own1 = own.without_piece(piece, src);
    let own2 = own1.with_piece(placed, tgt);
    lemma_take_wf(own, piece, src, tgt.0);
    lemma_take_wf(own, piece, src, enemy.occupancy());
    assert(own1.wf());
    assert(own1.occupancy() & tgt.0 == 0);
    assert(own1.occupancy() & enemy.occupancy() == 0);
    if placed == Piece::King {
        bv_masks(src.0, 0, 0);
        assert(own.king.0 != 0);
        lemma_single(own.king.0);
        lemma_single(src.0);
        lemma_bit_distinct(low_index(own.king.0), src.index());
        assert(own.king.0 == src.0);
        assert(own1.king.0 == 0);
    }
    lemma_put_wf(own1, placed, tgt);
    assert(own2.wf());
    let enemy1 = match enemy.piece_at(tgt) {
        Some(pc) => enemy.without_piece(pc, tgt),
        None => enemy,
    };
    lemma_capture_frees(enemy, tgt);
    bv_pair(own1.occupancy(), enemy.occupancy(), 0, 0);
    assert(enemy.occupancy() & own1.occupancy() == 0);
    match enemy.piece_at(tgt) {
        Some(pc) => {
            lemma_take_wf(enemy, pc, tgt, own1.occupancy());
        },
        None => {},
    }
    assert(enemy1.wf());
    assert(enemy1.occupancy() & tgt.0 == 0);
    assert(enemy1.occupancy() & own1.occupancy() == 0);
    let victim = en_passant_victim(me, tgt);
    let enemy2 = if piece == Piece::Pawn && s.en_passant == Some(tgt) {
        enemy1.without_piece(Piece::Pawn, victim)
    } else {
        enemy1
    };
    lemma_take_wf(enemy1, Piece::Pawn, victim, tgt.0);
    lemma_take_wf(enemy1, Piece::Pawn, victim, own1.occupancy());
    assert(enemy2.wf());
    assert(enemy2.occupancy() & tgt.0 == 0);
    assert(enemy2.occupancy() & own1.occupancy() == 0);
    bv_pair(enemy2.occupancy(), own1.occupancy(), tgt.0, 0);
    assert(enemy2.occupancy() & (own1.occupancy() | tgt.0) == 0);
    bv_pair(enemy2.occupancy(), own2.occupancy(), 0, 0);
    assert(own2.occupancy() & enemy2.occupancy() == 0);
    assert(enemy2.occupancy() & own2.occupancy() == 0);
    lemma_rank_shift(tgt);
    lemma_single(src.0);
    lemma_single(tgt.0);
    bv_double_step(src.index() as u64, tgt.index() as u64);
    let r = s.shifted(piece, src, tgt, placed);
    assert(r.side(me).pieces == own2);
    assert(r.side(you).pieces == enemy2);
}

proof fn lemma_castled_wf(s: GameState, corner: BitCoord, king_target: BitCoord, rook_target: BitCoord)
    requires
        s.wf(),
        corner.wf(),
        king_target.wf(),
        rook_target.wf(),
        king_target != rook_target,
        s.side(s.active_colour).pieces.king == BitBoard(king_home(s.active_colour).0),
        s.occupancy() & (king_target.0 | rook_target.0) == 0,
    ensures
        s.castled(corner, king_target, rook_target).wf(),
{
    let me = s.active_colour;
    let you = Colour::other_spec(me);
    let own = s.side(me).pieces;
    let enemy = s.side(you).pieces;
    let home = king_home(me);
    let kt = king_target.0;
    let rt = rook_target.0;
    let a = own.occupancy();
    let b = enemy.occupancy();
    lemma_home_squares();
    bv_pair(a, b, 0, 0);
    bv_pair(b, a, 0, 0);
    assert(a & b == 0);
    bv_pair(s.white.pieces.occupancy(), s.black.pieces.occupancy(), kt | rt, 0);
    assert(a & (kt | rt) == 0);
    assert(b & (kt | rt) == 0);
    bv_pair(a, kt, rt, 0);
    bv_pair(b, kt, rt, 0);
    assert(a & kt == 0 && a & rt == 0);
    assert(b & kt == 0 && b & rt == 0);
    let own1 = own.without_piece(Piece::King, home);
    let own2 = own1.without_piece(Piece::Rook, corner);
    let own3 = own2.with_piece(Piece::King, king_target);
    let own4 = own3.with_piece(Piece::Rook, rook_target);
    lemma_take_wf(own, Piece::King, home, kt);
    lemma_take_wf(own, Piece::King, home, rt);
    lemma_take_wf(own, Piece::King, home, b);
    lemma_take_wf(own1, Piece::Rook, corner, kt);
    lemma_take_wf(own1, Piece::Rook, corner, rt);
    lemma_take_wf(own1, Piece::Rook, corner, b);
    bv_masks(home.0, 0, 0);
    assert(own.king.0 == home.0);
    assert(own1.king.0 == own.king.0 & !home.0);
    assert(own2.king.0 == own1.king.0);
    assert(own2.king.0 == 0);
    assert(own2.occupancy() & kt == 0);
    lemma_put_wf(own2, Piece::King, king_target);
    lemma_single(kt);
    lemma_single(rt);
    lemma_bit_distinct(king_target.index(), rook_target.index());
    assert(kt & rt == 0);
    bv_pair(own2.occupancy(), rt, kt, 0);
    bv_pair(kt, rt, 0, 0);
    assert(own3.occupancy() & rt == 0);
    lemma_put_wf(own3, Piece::Rook, rook_target);
    bv_pair(b, kt, 0, 0);
    bv_pair(b, rt, 0, 0);
    bv_pair(own2.occupancy(), b, kt, 0);
    assert(own3.occupancy() & b == 0);
    bv_pair(own3.occupancy(), b, rt, 0);
    assert(own4.occupancy() & b == 0);
    bv_pair(own4.occupancy(), b, 0, 0);
    let r = s.castled(corner, king_target, rook_target);
    assert(r.side(me).pieces == own4);
    assert(r.side(you).pieces == enemy);
}

} // verus!
