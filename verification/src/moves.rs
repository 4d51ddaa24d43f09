use vstd::prelude::*;
use crate::bits::{bit, bit_set, low_index, lemma_bit_distinct, lemma_has_ops, lemma_low_index, lemma_single};
use crate::game::{
    en_passant_victim, king_home, kingside_corner, lemma_home_squares,
    queenside_corner,
};
use crate::magic::{
    bishop_attacks, king_attacks, knight_attacks, rook_attacks, step_move,
    step_ok, with_step, Line, MagicBitBoards,
};
use crate::legality::{
    en_passant_sound, is_legal, lemma_legal_moves_exact, lemma_legal_moves_safe,
};
use crate::types::{BitBoard, BitCoord, Colour, GameState, Move, Piece, Pieces};

verus! {

/// The squares from which a pawn of the side opposing `colour` attacks the
/// square `sq`.
pub open spec fn pawn_attackers(sq: int, colour: Colour) -> u64 {
    match colour {
        Colour::White => with_step(with_step(0, sq, 7), sq, 9),
        Colour::Black => with_step(with_step(0, sq, -7), sq, -9),
    }
}

/// The squares that a pawn of `colour` on `sq` attacks.
pub open spec fn pawn_attacks(sq: int, colour: Colour) -> u64 {
    match colour {
        Colour::White => with_step(with_step(0, sq, 7), sq, 9),
        Colour::Black => with_step(with_step(0, sq, -7), sq, -9),
    }
}

/// Whether a piece of `enemy` attacks the square `sq`, held by `colour`,
/// when `occ` is occupied: a rook or queen along a rank or file, a bishop
/// or queen along a diagonal, a knight, the king, or a pawn.
pub open spec fn attacked(occ: u64, enemy: Pieces, sq: int, colour: Colour) -> bool {
    ||| rook_attacks(sq, occ) & (enemy.rooks.0 | enemy.queens.0) != 0
    ||| bishop_attacks(sq, occ) & (enemy.bishops.0 | enemy.queens.0) != 0
    ||| knight_attacks(sq) & enemy.knights.0 != 0
    ||| king_attacks(sq) & enemy.king.0 != 0
    ||| pawn_attackers(sq, colour) & enemy.pawns.0 != 0
}

/// The squares from which a pawn of the side opposing `colour` attacks
/// `coord`.
fn pawn_attacker_squares(coord: BitCoord, colour: Colour) -> (r: u64)
    requires
        coord.wf(),
    ensures
        r == pawn_attackers(coord.index(), colour),
{
    match colour {
        Colour::White => step_move(step_move(0, coord, 7), coord, 9),
        Colour::Black => step_move(step_move(0, coord, -7), coord, -9),
    }
}

/// Whether a piece of `other` attacks the square `coord`, held by
/// `colour`, when `occupancy` is occupied.
pub fn square_under_attack(
    occupancy: BitBoard,
    other: &Pieces,
    coord: BitCoord,
    colour: Colour,
    mbb: &MagicBitBoards,
) -> (r: bool)
    requires
        coord.wf(),
    ensures
        r == attacked(occupancy.0, *other, coord.index(), colour),
{
    let straight_table = mbb.rook(coord);
            let straight = straight_table.lookup(occupancy);
    assert(straight == straight_table.lookup_spec(BitBoard(occupancy.0)));
    if straight.0 & (other.rooks.0 | other.queens.0) != 0 {
        return true;
    }
    let diagonal_table = mbb.bishop(coord);
            let diagonal = diagonal_table.lookup(occupancy);
    assert(diagonal == diagonal_table.lookup_spec(BitBoard(occupancy.0)));
    if diagonal.0 & (other.bishops.0 | other.queens.0) != 0 {
        return true;
    }
    if mbb.knight(coord).0 & other.knights.0 != 0 {
        return true;
    }
    if mbb.king(coord).0 & other.king.0 != 0 {
        return true;
    }
    pawn_attacker_squares(coord, colour) & other.pawns.0 != 0
}

/// The squares to which a pawn of `colour` on `coord` can advance: one
/// rank if that square is empty, and two from its home rank if both
/// squares are empty.
pub open spec fn pawn_pushes(occupancy: u64, coord: u64, colour: Colour) -> u64 {
    match colour {
        Colour::White => {
            let one = coord << 8;
            let both = if 0x0000_0000_0000_FF00u64 & coord != 0 && one & occupancy == 0 {
                one | (coord << 16)
            } else {
                one
            };
            both & !occupancy
        },
        Colour::Black => {
            let one = coord >> 8;
            let both = if 0x00FF_0000_0000_0000u64 & coord != 0 && one & occupancy == 0 {
                one | (coord >> 16)
            } else {
                one
            };
            both & !occupancy
        },
    }
}

/// The squares to which a pawn of `colour` on `coord` can advance.
fn magic_pawn_moves(
    active_occupancy: BitBoard,
    other_occupancy: BitBoard,
    coord: BitCoord,
    colour: Colour,
) -> (r: BitBoard)
    ensures
        r.0 == pawn_pushes(active_occupancy.0 | other_occupancy.0, coord.0, colour),
{
    let occupancy = active_occupancy.0 | other_occupancy.0;
    match colour {
        Colour::White => {
            let home_row: u64 = 0x0000_0000_0000_FF00;
            let mut moves: u64 = coord.0 << 8;
            if (home_row & coord.0 != 0) && (moves & occupancy == 0) {
                moves = moves | (coord.0 << 16);
            }
            BitBoard(moves & !occupancy)
        },
        Colour::Black => {
            let home_row: u64 = 0x00FF_0000_0000_0000;
            let mut moves: u64 = coord.0 >> 8;
            if (home_row & coord.0 != 0) && (moves & occupancy == 0) {
                moves = moves | (coord.0 >> 16);
            }
            BitBoard(moves & !occupancy)
        },
    }
}

/// The en-passant target as a set of squares: empty without one.
pub open spec fn en_passant_bit(state: GameState) -> u64 {
    match state.en_passant {
        Some(ep) => ep.0,
        None => 0,
    }
}

/// The squares that the piece of `own` on `sq` could go to if checks and
/// pins did not count: what it attacks, for a pawn its advances and the
/// captures onto a piece of `enemy` or onto `ep`, all without the squares
/// of `own`. No piece on `sq`: no square.
pub open spec fn piece_targets(own: Pieces, enemy: Pieces, ep: u64, sq: int, colour: Colour) -> u64 {
    let mine = own.occupancy();
    let occ = mine | enemy.occupancy();
    match own.piece_at(BitCoord(bit(sq))) {
        None => 0,
        Some(Piece::Queen) => (rook_attacks(sq, occ) | bishop_attacks(sq, occ)) & !mine,
        Some(Piece::Rook) => rook_attacks(sq, occ) & !mine,
        Some(Piece::Bishop) => bishop_attacks(sq, occ) & !mine,
        Some(Piece::Knight) => knight_attacks(sq) & !mine,
        Some(Piece::King) => king_attacks(sq) & !mine,
        Some(Piece::Pawn) => (pawn_pushes(occ, bit(sq), colour) | (pawn_attacks(sq, colour) & (
        enemy.occupancy() | ep))) & !mine,
    }
}

/// The squares that the piece of `active_pieces` on `coord` could go to if
/// checks and pins did not count.
fn magic_piece_movement(
    active_pieces: &Pieces,
    other_pieces: &Pieces,
    en_passant: u64,
    coord: BitCoord,
    colour: Colour,
    mbb: &MagicBitBoards,
) -> (r: BitBoard)
    requires
        coord.wf(),
    ensures
        r.0 == piece_targets(*active_pieces, *other_pieces, en_passant, coord.index(), colour),
{
    proof {
        lemma_single(coord.0);
    }
    let active_occupancy = active_pieces.all();
    let other_occupancy = other_pieces.all();
    let occupancy = BitBoard(active_occupancy.0 | other_occupancy.0);
    let piece = match active_pieces.get_piece(coord) {
        Some(p) => p,
        None => {
            return BitBoard(0);
        },
    };
    let moves: u64 = match piece {
        Piece::Queen => {
            let straight_table = mbb.rook(coord);
            let straight = straight_table.lookup(occupancy);
            let diagonal_table = mbb.bishop(coord);
            let diagonal = diagonal_table.lookup(occupancy);
            assert(straight == straight_table.lookup_spec(BitBoard(occupancy.0)));
            assert(diagonal == diagonal_table.lookup_spec(BitBoard(occupancy.0)));
            straight.0 | diagonal.0
        },
        Piece::Rook => {
            let straight_table = mbb.rook(coord);
            let straight = straight_table.lookup(occupancy);
            assert(straight == straight_table.lookup_spec(BitBoard(occupancy.0)));
            straight.0
        },
        Piece::Bishop => {
            let diagonal_table = mbb.bishop(coord);
            let diagonal = diagonal_table.lookup(occupancy);
            assert(diagonal == diagonal_table.lookup_spec(BitBoard(occupancy.0)));
            diagonal.0
        },
        Piece::Knight => mbb.knight(coord).0,
        Piece::King => mbb.king(coord).0,
        Piece::Pawn => {
            let pushes = magic_pawn_moves(active_occupancy, other_occupancy, coord, colour);
            let attacks = match colour {
                Colour::White => step_move(step_move(0, coord, 7), coord, 9),
                Colour::Black => step_move(step_move(0, coord, -7), coord, -9),
            };
            pushes.0 | (attacks & (other_occupancy.0 | en_passant))
        },
    };
    BitBoard(moves & !active_occupancy.0)
}

/// A threat to a king.
#[derive(Clone, Copy, Debug, PartialEq, Eq, Structural)]
pub enum Attack {
    /// The king is attacked. A piece other than the king answers the check
    /// only by going to one of these squares: the attacker's, or one
    /// between a sliding attacker and the king.
    Check(BitBoard),
    /// The piece on the given square shields the king from a slider, and
    /// may go only to these squares: up to and including the attacker's.
    Pin(BitCoord, BitBoard),
}

/// The number of bit positions of a step in each of the eight directions.
pub open spec fn direction(i: int) -> int {
    if i == 0 {
        1
    } else if i == 1 {
        -1
    } else if i == 2 {
        8
    } else if i == 3 {
        -8
    } else if i == 4 {
        9
    } else if i == 5 {
        -9
    } else if i == 6 {
        7
    } else {
        -7
    }
}

/// The pieces of `enemy` that attack along a line with the given step:
/// rooks and queens along ranks and files, bishops and queens along
/// diagonals.
pub open spec fn line_attackers(enemy: Pieces, shift: int) -> u64 {
    if shift == 1 || shift == -1 || shift == 8 || shift == -8 {
        enemy.rooks.0 | enemy.queens.0
    } else {
        enemy.bishops.0 | enemy.queens.0
    }
}

/// What threatens a king along the ray that goes on from `from` by steps
/// of `shift`, where `mask` holds the squares passed so far and `pinned`
/// the one piece of the king's side among them: a check where the first
/// piece on the ray is one of `attackers`, a pin where one piece of `own`
/// stands before it, and nothing otherwise.
pub open spec fn threat_from(
    from: int,
    shift: int,
    occ: u64,
    own: u64,
    attackers: u64,
    mask: u64,
    pinned: Option<int>,
) -> Option<Attack>
    decreases
        (if shift > 0 {
            64 - from
        } else {
            from + 1
        }),
{
    if shift == 0 || !step_ok(from, shift) {
        None
    } else {
        let to = from + shift;
        let passed = mask | bit(to);
        if !bit_set(occ, to) {
            threat_from(to, shift, occ, own, attackers, passed, pinned)
        } else if bit_set(own, to) {
            if pinned is Some {
                None
            } else {
                threat_from(to, shift, occ, own, attackers, passed, Some(to))
            }
        } else if bit_set(attackers, to) {
            match pinned {
                None => Some(Attack::Check(BitBoard(passed))),
                Some(p) => Some(Attack::Pin(BitCoord(bit(p)), BitBoard(passed))),
            }
        } else {
            None
        }
    }
}

/// The threats to a king on `sq` along the first `n` directions.
pub open spec fn line_threats(own: Pieces, enemy: Pieces, sq: int, n: int) -> Seq<Attack>
    decreases n,
{
    if n <= 0 {
        Seq::empty()
    } else {
        let prev = line_threats(own, enemy, sq, n - 1);
        match threat_from(
            sq,
            direction(n - 1),
            own.occupancy() | enemy.occupancy(),
            own.occupancy(),
            line_attackers(enemy, direction(n - 1)),
            0,
            None,
        ) {
            Some(a) => prev.push(a),
            None => prev,
        }
    }
}

/// The knights, pawns and king of `enemy` that attack the square `sq`,
/// held by `colour`.
pub open spec fn contact_checkers(enemy: Pieces, sq: int, colour: Colour) -> u64 {
    (knight_attacks(sq) & enemy.knights.0) | (king_attacks(sq) & enemy.king.0) | (pawn_attackers(
        sq,
        colour,
    ) & enemy.pawns.0)
}

/// A check for each square of `checkers` below index `n`, which only a
/// capture on that square answers.
pub open spec fn contact_checks(checkers: u64, n: int) -> Seq<Attack>
    decreases n,
{
    if n <= 0 {
        Seq::empty()
    } else if bit_set(checkers, n - 1) {
        contact_checks(checkers, n - 1).push(Attack::Check(BitBoard(bit(n - 1))))
    } else {
        contact_checks(checkers, n - 1)
    }
}

/// The checks and pins against a king of `colour` on `sq`.
pub open spec fn attacks_on(own: Pieces, enemy: Pieces, sq: int, colour: Colour) -> Seq<Attack> {
    line_threats(own, enemy, sq, 8) + contact_checks(contact_checkers(enemy, sq, colour), 64)
}

/// The squares that answer every check among the first `n` attacks.
pub open spec fn allowed_mask(attacks: Seq<Attack>, n: int) -> u64
    decreases n,
{
    if n <= 0 {
        0xFFFF_FFFF_FFFF_FFFF
    } else {
        match attacks[n - 1] {
            Attack::Check(m) => allowed_mask(attacks, n - 1) & m.0,
            Attack::Pin(_, _) => allowed_mask(attacks, n - 1),
        }
    }
}

/// The squares that every pin of the piece on `coord` among the first `n`
/// attacks leaves to it.
pub open spec fn pin_mask(attacks: Seq<Attack>, coord: BitCoord, n: int) -> u64
    decreases n,
{
    if n <= 0 {
        0xFFFF_FFFF_FFFF_FFFF
    } else {
        match attacks[n - 1] {
            Attack::Pin(c, m) => if c == coord {
                pin_mask(attacks, coord, n - 1) & m.0
            } else {
                pin_mask(attacks, coord, n - 1)
            },
            Attack::Check(_) => pin_mask(attacks, coord, n - 1),
        }
    }
}

/// What threatens a king on `king` along the ray by steps of `shift`.
fn ray_threat(king: BitCoord, shift: i32, occ: u64, own: u64, attackers: u64) -> (r: Option<Attack>)
    requires
        king.wf(),
        -64 < shift < 64,
        shift != 0,
    ensures
        r == threat_from(king.index(), shift as int, occ, own, attackers, 0, None),
{
    let mut line = Line::new(king, shift);
    let mut mask: u64 = 0;
    let mut pinned: Option<BitCoord> = None;
    let mut result: Option<Attack> = None;
    proof {
        lemma_single(king.0);
    }
    loop
        invariant_except_break
            threat_from(
                line.position(),
                shift as int,
                occ,
                own,
                attackers,
                mask,
                match pinned {
                    Some(c) => Some(c.index()),
                    None => None,
                },
            ) == threat_from(king.index(), shift as int, occ, own, attackers, 0, None),
        invariant
            line.wf(),
            line.step() == shift,
            shift != 0,
            0 <= line.position() < 64,
            pinned matches Some(c) ==> c.wf() && c.0 == bit(c.index()),
        ensures
            result == threat_from(king.index(), shift as int, occ, own, attackers, 0, None),
        decreases
            (if shift > 0 {
                64 - line.position()
            } else {
                line.position() + 1
            }),
    {
        match line.next() {
            Some(coord) => {
                mask = mask | coord.0;
                if occ & coord.0 != 0 {
                    if own & coord.0 != 0 {
                        if pinned.is_some() {
                            result = None;
                            break ;
                        }
                        pinned = Some(coord);
                    } else {
                        if attackers & coord.0 != 0 {
                            result = match pinned {
                                None => Some(Attack::Check(BitBoard(mask))),
                                Some(p) => Some(Attack::Pin(p, BitBoard(mask))),
                            };
                        } else {
                            result = None;
                        }
                        break ;
                    }
                }
            },
            None => {
                result = None;
                break ;
            },
        }
    }
    result
}

/// The checks and pins against the king of `colour` on `coord`, whose
/// side has the pieces `own` and faces `enemy`.
pub fn attacks_on_square(
    own: &Pieces,
    enemy: &Pieces,
    coord: BitCoord,
    colour: Colour,
    mbb: &MagicBitBoards,
) -> (attacks: Vec<Attack>)
    requires
        coord.wf(),
    ensures
        attacks@ == attacks_on(*own, *enemy, coord.index(), colour),
{
    let mine = own.all().0;
    let occ = mine | enemy.all().0;
    let straight = enemy.rooks.0 | enemy.queens.0;
    let diagonal = enemy.bishops.0 | enemy.queens.0;
    let shifts: [i32; 8] = [1, -1, 8, -8, 9, -9, 7, -7];
    let mut attacks: Vec<Attack> = Vec::new();
    let mut i: usize = 0;
    while i < 8
        invariant
            i <= 8,
            coord.wf(),
            mine == own.occupancy(),
            occ == own.occupancy() | enemy.occupancy(),
            straight == enemy.rooks.0 | enemy.queens.0,
            diagonal == enemy.bishops.0 | enemy.queens.0,
            forall|k: int| 0 <= k < 8 ==> #[trigger] shifts[k] == direction(k),
            attacks@ == line_threats(*own, *enemy, coord.index(), i as int),
        decreases 8 - i,
    {
        let attackers = if i < 4 {
            straight
        } else {
            diagonal
        };
        match ray_threat(coord, shifts[i], occ, mine, attackers) {
            Some(a) => attacks.push(a),
            None => {},
        }
        i = i + 1;
    }
    let checkers = (mbb.knight(coord).0 & enemy.knights.0) | (mbb.king(coord).0 & enemy.king.0) | (
    pawn_attacker_squares(coord, colour) & enemy.pawns.0);
    let ghost lines = attacks@;
    let mut k: u32 = 0;
    while k < 64
        invariant
            k <= 64,
            attacks@ == lines + contact_checks(checkers, k as int),
        decreases 64 - k,
    {
        if checkers & (1u64 << (k as u64)) != 0 {
            attacks.push(Attack::Check(BitBoard(1u64 << (k as u64))));
            assert(attacks@ =~= lines + contact_checks(checkers, k + 1));
        }
        k = k + 1;
    }
    attacks
}

/// The squares that answer every check among the attacks.
fn allowed_non_king_moves(attacks: &Vec<Attack>) -> (allowed: u64)
    ensures
        allowed == allowed_mask(attacks@, attacks@.len() as int),
{
    let mut allowed: u64 = 0xFFFF_FFFF_FFFF_FFFF;
    let mut i: usize = 0;
    while i < attacks.len()
        invariant
            i <= attacks.len(),
            allowed == allowed_mask(attacks@, i as int),
        decreases attacks.len() - i,
    {
        match attacks[i] {
            Attack::Check(m) => {
                allowed = allowed & m.0;
            },
            Attack::Pin(_, _) => {},
        }
        i = i + 1;
    }
    allowed
}

/// The squares that the pins among the attacks leave to the piece on
/// `coord`.
fn pinned_moves(attacks: &Vec<Attack>, coord: BitCoord) -> (allowed: u64)
    ensures
        allowed == pin_mask(attacks@, coord, attacks@.len() as int),
{
    let mut allowed: u64 = 0xFFFF_FFFF_FFFF_FFFF;
    let mut i: usize = 0;
    while i < attacks.len()
        invariant
            i <= attacks.len(),
            allowed == pin_mask(attacks@, coord, i as int),
        decreases attacks.len() - i,
    {
        match attacks[i] {
            Attack::Pin(c, m) => {
                if c == coord {
                    allowed = allowed & m.0;
                }
            },
            Attack::Check(_) => {},
        }
        i = i + 1;
    }
    allowed
}

/// The square of the king of `own`, by index: that of the lowest bit of
/// the king's set, if the side has a king.
pub open spec fn king_square(own: Pieces) -> Option<int> {
    if own.king.0 != 0 {
        Some(low_index(own.king.0))
    } else {
        None
    }
}

/// The checks and pins against the king of the side to move; none where
/// the side has no king.
pub open spec fn threats(state: GameState) -> Seq<Attack> {
    let me = state.active_colour;
    match king_square(state.side(me).pieces) {
        Some(k) => attacks_on(
            state.side(me).pieces,
            state.side(Colour::other_spec(me)).pieces,
            k,
            me,
        ),
        None => Seq::empty(),
    }
}

/// The squares of `targets` below index `n` that `enemy` does not attack
/// when `occ` is occupied.
pub open spec fn safe_squares(targets: u64, occ: u64, enemy: Pieces, colour: Colour, n: int) -> u64
    decreases n,
{
    if n <= 0 {
        0
    } else if bit_set(targets, n - 1) && !attacked(occ, enemy, n - 1, colour) {
        safe_squares(targets, occ, enemy, colour, n - 1) | bit(n - 1)
    } else {
        safe_squares(targets, occ, enemy, colour, n - 1)
    }
}

/// Whether the king of the side to move is not attacked once the pawn on
/// `sq` has captured en passant: the pawn stands on the en-passant target
/// and the pawn behind the target is gone. A side without a king is safe.
pub open spec fn en_passant_safe(state: GameState, sq: int) -> bool {
    let me = state.active_colour;
    let own = state.side(me).pieces;
    let enemy = state.side(Colour::other_spec(me)).pieces;
    let ep = en_passant_bit(state);
    let victim = en_passant_victim(me, BitCoord(ep));
    match king_square(own) {
        Some(k) => !attacked(
            ((own.occupancy() | enemy.occupancy()) & !bit(sq) & !victim.0) | ep,
            enemy.without_piece(Piece::Pawn, victim),
            k,
            me,
        ),
        None => true,
    }
}

/// The squares that the piece of the side to move on `sq` may go to. A
/// king may go where it could go without the squares that the other side
/// attacks once the king has left its square. Any other piece may go
/// where it could go, as far as that answers every check and keeps every
/// pin; and a pawn may capture en passant exactly when that leaves its
/// king safe.
pub open spec fn legal_targets(state: GameState, sq: int) -> u64 {
    let me = state.active_colour;
    let own = state.side(me).pieces;
    let enemy = state.side(Colour::other_spec(me)).pieces;
    let ep = en_passant_bit(state);
    let pseudo = piece_targets(own, enemy, ep, sq, me);
    match own.piece_at(BitCoord(bit(sq))) {
        None => 0,
        Some(Piece::King) => safe_squares(
            pseudo,
            (own.occupancy() | enemy.occupancy()) & !own.king.0,
            enemy,
            me,
            64,
        ),
        Some(piece) => {
            let restricted = pseudo & allowed_mask(threats(state), threats(state).len() as int)
                & pin_mask(threats(state), BitCoord(bit(sq)), threats(state).len() as int);
            if piece == Piece::Pawn && pseudo & ep != 0 {
                if en_passant_safe(state, sq) {
                    restricted | ep
                } else {
                    restricted & !ep
                }
            } else {
                restricted
            }
        },
    }
}

/// The moves of `piece` from `src` to the squares of `targets` below
/// index `n`, lowest first; a pawn that reaches the first or the last rank
/// is promoted to a queen, a rook, a bishop and a knight, in that order.
pub open spec fn expand(piece: Piece, src: int, targets: u64, n: int) -> Seq<Move>
    decreases n,
{
    if n <= 0 {
        Seq::empty()
    } else if !bit_set(targets, n - 1) {
        expand(piece, src, targets, n - 1)
    } else if piece == Piece::Pawn && ((n - 1) / 8 == 7 || (n - 1) / 8 == 0) {
        expand(piece, src, targets, n - 1) + seq![
            Move::Promotion(BitCoord(bit(src)), BitCoord(bit(n - 1)), Piece::Queen),
            Move::Promotion(BitCoord(bit(src)), BitCoord(bit(n - 1)), Piece::Rook),
            Move::Promotion(BitCoord(bit(src)), BitCoord(bit(n - 1)), Piece::Bishop),
            Move::Promotion(BitCoord(bit(src)), BitCoord(bit(n - 1)), Piece::Knight),
        ]
    } else {
        expand(piece, src, targets, n - 1).push(
            Move::Normal(piece, BitCoord(bit(src)), BitCoord(bit(n - 1))),
        )
    }
}

/// The legal moves of the piece on `sq`, if the side to move has one
/// there.
pub open spec fn moves_from(state: GameState, sq: int) -> Seq<Move> {
    match state.side(state.active_colour).pieces.piece_at(BitCoord(bit(sq))) {
        Some(piece) => expand(piece, sq, legal_targets(state, sq), 64),
        None => Seq::empty(),
    }
}

/// The legal moves of the pieces on the squares below index `n`.
pub open spec fn piece_moves(state: GameState, n: int) -> Seq<Move>
    decreases n,
{
    if n <= 0 {
        Seq::empty()
    } else {
        piece_moves(state, n - 1) + moves_from(state, n - 1)
    }
}

/// The index of the square on the h-file of a side's home rank.
pub open spec fn home_base(colour: Colour) -> int {
    match colour {
        Colour::White => 0,
        Colour::Black => 56,
    }
}

/// Whether the side to move may castle long: it has the right, king and
/// rook stand on their home squares with the three squares between them
/// empty, and the other side attacks neither the king's square nor the
/// two squares that the king crosses and lands on.
pub open spec fn may_castle_long(state: GameState) -> bool {
    let me = state.active_colour;
    let own = state.side(me).pieces;
    let enemy = state.side(Colour::other_spec(me)).pieces;
    let occ = own.occupancy() | enemy.occupancy();
    let base = home_base(me);
    &&& state.side(me).can_castle_queenside
    &&& own.king == BitBoard(king_home(me).0)
    &&& own.rooks.0 & queenside_corner(me).0 != 0
    &&& state.occupancy() & (bit(base + 6) | bit(base + 5) | bit(base + 4)) == 0
    &&& !attacked(occ & !own.king.0, enemy, base + 5, me)
    &&& !attacked(occ & !own.king.0, enemy, base + 4, me)
    &&& !attacked(occ & !own.king.0, enemy, base + 3, me)
}

/// Whether the side to move may castle short: it has the right, king and
/// rook stand on their home squares with the two squares between them
/// empty, and the other side attacks neither the king's square nor the
/// two squares that the king crosses and lands on.
pub open spec fn may_castle_short(state: GameState) -> bool {
    let me = state.active_colour;
    let own = state.side(me).pieces;
    let enemy = state.side(Colour::other_spec(me)).pieces;
    let occ = own.occupancy() | enemy.occupancy();
    let base = home_base(me);
    &&& state.side(me).can_castle_kingside
    &&& own.king == BitBoard(king_home(me).0)
    &&& own.rooks.0 & kingside_corner(me).0 != 0
    &&& state.occupancy() & (bit(base + 1) | bit(base + 2)) == 0
    &&& !attacked(occ & !own.king.0, enemy, base + 3, me)
    &&& !attacked(occ & !own.king.0, enemy, base + 2, me)
    &&& !attacked(occ & !own.king.0, enemy, base + 1, me)
}

/// The castling moves of the side to move, the long one first.
pub open spec fn castling_moves(state: GameState) -> Seq<Move> {
    (if may_castle_long(state) {
        seq![Move::LongCastle]
    } else {
        Seq::empty()
    }) + (if may_castle_short(state) {
        seq![Move::Castle]
    } else {
        Seq::empty()
    })
}

/// The legal moves of the side to move: those of its pieces, square by
/// square from the lowest index, then the castling moves.
pub open spec fn legal_moves_spec(state: GameState) -> Seq<Move> {
    piece_moves(state, 64) + castling_moves(state)
}

/// A safe square is one of the targets.
proof fn lemma_safe_subset(targets: u64, occ: u64, enemy: Pieces, colour: Colour, n: int, t: int)
    requires
        0 <= n <= 64,
        0 <= t < 64,
        bit_set(safe_squares(targets, occ, enemy, colour, n), t),
    ensures
        bit_set(targets, t),
    decreases n,
{
    if n > 0 {
        let prev = safe_squares(targets, occ, enemy, colour, n - 1);
        lemma_has_ops(prev, bit(n - 1), t);
        lemma_bit_distinct(n - 1, t);
        if bit_set(prev, t) {
            lemma_safe_subset(targets, occ, enemy, colour, n - 1, t);
        }
    } else {
        lemma_has_ops(0, 0, t);
    }
}

/// A square that a piece may go to is one that it could go to if checks
/// and pins did not count, and no piece of the side to move stands on it.
pub proof fn lemma_target_free(state: GameState, sq: int, t: int)
    requires
        state.wf(),
        0 <= sq < 64,
        0 <= t < 64,
        bit_set(legal_targets(state, sq), t),
    ensures
        state.side(state.active_colour).pieces.occupancy() & bit(t) == 0,
        bit_set(
            piece_targets(
                state.side(state.active_colour).pieces,
                state.side(Colour::other_spec(state.active_colour)).pieces,
                en_passant_bit(state),
                sq,
                state.active_colour,
            ),
            t,
        ),
{
    let me = state.active_colour;
    let own = state.side(me).pieces;
    let enemy = state.side(Colour::other_spec(me)).pieces;
    let ep = en_passant_bit(state);
    let mine = own.occupancy();
    let occ = mine | enemy.occupancy();
    let pseudo = piece_targets(own, enemy, ep, sq, me);
    let att = threats(state);
    let a = allowed_mask(att, att.len() as int);
    let b = pin_mask(att, BitCoord(bit(sq)), att.len() as int);
    let restricted = pseudo & a & b;
    lemma_has_ops(pseudo & a, b, t);
    lemma_has_ops(pseudo, a, t);
    lemma_has_ops(restricted, ep, t);
    lemma_has_ops(restricted, !ep, t);
    lemma_has_ops(mine, 0, t);
    if own.piece_at(BitCoord(bit(sq))) == Some(Piece::King) {
        lemma_safe_subset(pseudo, occ & !own.king.0, enemy, me, 64, t);
    }
    if bit_set(ep, t) && state.en_passant is Some {
        let e = state.en_passant.unwrap();
        lemma_single(e.0);
        lemma_bit_distinct(e.index(), t);
    }
    assert(bit_set(pseudo, t));
    let reach = match own.piece_at(BitCoord(bit(sq))) {
        None => 0,
        Some(Piece::Queen) => rook_attacks(sq, occ) | bishop_attacks(sq, occ),
        Some(Piece::Rook) => rook_attacks(sq, occ),
        Some(Piece::Bishop) => bishop_attacks(sq, occ),
        Some(Piece::Knight) => knight_attacks(sq),
        Some(Piece::King) => king_attacks(sq),
        Some(Piece::Pawn) => pawn_pushes(occ, bit(sq), me) | (pawn_attacks(sq, me) & (
        enemy.occupancy() | ep)),
    };
    lemma_has_ops(reach, !mine, t);
}

/// Appends the moves of `piece` from `src` to the squares of `targets`.
fn expand_moves(piece: Piece, src: BitCoord, targets: u64, moves: &mut Vec<Move>)
    requires
        src.wf(),
    ensures
        final(moves)@ == old(moves)@ + expand(piece, src.index(), targets, 64),
{
    proof {
        lemma_single(src.0);
    }
    let ghost before = moves@;
    let mut t: u32 = 0;
    while t < 64
        invariant
            t <= 64,
            src.0 == bit(src.index()),
            moves@ == before + expand(piece, src.index(), targets, t as int),
        decreases 64 - t,
    {
        let tgt = BitCoord(1u64 << (t as u64));
        if targets & tgt.0 != 0 {
            let ghost prev = expand(piece, src.index(), targets, t as int);
            if piece == Piece::Pawn && (t / 8 == 7 || t / 8 == 0) {
                moves.push(Move::Promotion(src, tgt, Piece::Queen));
                moves.push(Move::Promotion(src, tgt, Piece::Rook));
                moves.push(Move::Promotion(src, tgt, Piece::Bishop));
                moves.push(Move::Promotion(src, tgt, Piece::Knight));
                assert(moves@ =~= before + (prev + seq![
                    Move::Promotion(src, tgt, Piece::Queen),
                    Move::Promotion(src, tgt, Piece::Rook),
                    Move::Promotion(src, tgt, Piece::Bishop),
                    Move::Promotion(src, tgt, Piece::Knight),
                ]));
            } else {
                moves.push(Move::Normal(piece, src, tgt));
                assert(moves@ =~= before + prev.push(Move::Normal(piece, src, tgt)));
            }
        }
        t = t + 1;
    }
}

/// The squares of `targets` that `enemy` does not attack when `occupancy`
/// is occupied.
fn safe_targets(
    targets: u64,
    occupancy: BitBoard,
    enemy: &Pieces,
    colour: Colour,
    mbb: &MagicBitBoards,
) -> (safe: u64)
    ensures
        safe == safe_squares(targets, occupancy.0, *enemy, colour, 64),
{
    let mut safe: u64 = 0;
    let mut t: u32 = 0;
    while t < 64
        invariant
            t <= 64,
            safe == safe_squares(targets, occupancy.0, *enemy, colour, t as int),
        decreases 64 - t,
    {
        let tgt = BitCoord::from_index(t);
        if targets & tgt.0 != 0 && !square_under_attack(occupancy, enemy, tgt, colour, mbb) {
            safe = safe | tgt.0;
        }
        t = t + 1;
    }
    safe
}

/// The coordinate of the lowest square of a set that is not empty.
pub(crate) fn lowest_square(bb: BitBoard) -> (c: BitCoord)
    requires
        bb.0 != 0,
    ensures
        c.wf(),
        c.index() == low_index(bb.0),
{
    proof {
        lemma_low_index(bb.0);
    }
    BitCoord::from_index(bb.0.trailing_zeros())
}

/// The squares that the piece of the side to move on `coord` may go to.
fn legal_targets_of(
    state: &GameState,
    coord: BitCoord,
    piece: Piece,
    attacks: &Vec<Attack>,
    allowed: u64,
    mbb: &MagicBitBoards,
) -> (targets: u64)
    requires
        state.wf(),
        coord.wf(),
        state.side(state.active_colour).pieces.piece_at(coord) == Some(piece),
        attacks@ == threats(*state),
        allowed == allowed_mask(attacks@, attacks@.len() as int),
    ensures
        targets == legal_targets(*state, coord.index()),
{
    proof {
        lemma_single(coord.0);
    }
    let colour = state.active_colour;
    let (side, other_side) = match colour {
        Colour::White => (&state.white, &state.black),
        Colour::Black => (&state.black, &state.white),
    };
    let ep: u64 = match state.en_passant {
        Some(c) => c.0,
        None => 0,
    };
    let mine = side.pieces.all().0;
    let theirs = other_side.pieces.all().0;
    let pseudo = magic_piece_movement(&side.pieces, &other_side.pieces, ep, coord, colour, mbb).0;
    match piece {
        Piece::King => safe_targets(
            pseudo,
            BitBoard((mine | theirs) & !side.pieces.king.0),
            &other_side.pieces,
            colour,
            mbb,
        ),
        _ => {
            let restricted = pseudo & allowed & pinned_moves(attacks, coord);
            if piece == Piece::Pawn && pseudo & ep != 0 {
                if en_passant_keeps_king_safe(state, coord, ep, mbb) {
                    restricted | ep
                } else {
                    restricted & !ep
                }
            } else {
                restricted
            }
        },
    }
}

/// Whether the king of the side to move is not attacked once the pawn on
/// `coord` has captured en passant onto `ep`.
fn en_passant_keeps_king_safe(state: &GameState, coord: BitCoord, ep: u64, mbb: &MagicBitBoards) -> (r:
    bool)
    requires
        coord.wf(),
        ep == en_passant_bit(*state),
    ensures
        r == en_passant_safe(*state, coord.index()),
{
    proof {
        lemma_single(coord.0);
    }
    let colour = state.active_colour;
    let (side, other_side) = match colour {
        Colour::White => (&state.white, &state.black),
        Colour::Black => (&state.black, &state.white),
    };
    if side.pieces.king.0 == 0 {
        return true;
    }
    let king = lowest_square(side.pieces.king);
    let victim = match colour {
        Colour::White => BitCoord(ep >> 8),
        Colour::Black => BitCoord(ep << 8),
    };
    let occupancy = ((side.pieces.all().0 | other_side.pieces.all().0) & !coord.0 & !victim.0) | ep;
    let mut others = other_side.pieces;
    others.remove_piece(Piece::Pawn, victim);
    !square_under_attack(BitBoard(occupancy), &others, king, colour, mbb)
}

/// Every move that `expand` lists can be applied.
proof fn lemma_expand_admits(state: GameState, piece: Piece, sq: int, targets: u64, n: int, i: int)
    requires
        0 <= sq < 64,
        0 <= n <= 64,
        state.side(state.active_colour).pieces.piece_at(BitCoord(bit(sq))) == Some(piece),
        forall|t: int|
            0 <= t < 64 && bit_set(targets, t) ==> state.side(
                state.active_colour,
            ).pieces.occupancy() & bit(t) == 0,
        0 <= i < expand(piece, sq, targets, n).len(),
    ensures
        state.admits(expand(piece, sq, targets, n)[i]),
    decreases n,
{
    if n > 0 {
        let prev = expand(piece, sq, targets, n - 1);
        if i < prev.len() {
            lemma_expand_admits(state, piece, sq, targets, n - 1, i);
        } else {
            assert(BitCoord(bit(sq)).wf());
            assert(BitCoord(bit(n - 1)).wf());
        }
    }
}

/// Every legal move of the pieces can be applied.
proof fn lemma_piece_moves_admit(state: GameState, n: int, i: int)
    requires
        state.wf(),
        0 <= n <= 64,
        0 <= i < piece_moves(state, n).len(),
    ensures
        state.admits(piece_moves(state, n)[i]),
    decreases n,
{
    if n > 0 {
        let prev = piece_moves(state, n - 1);
        if i < prev.len() {
            lemma_piece_moves_admit(state, n - 1, i);
        } else {
            let sq = n - 1;
            let piece = state.side(state.active_colour).pieces.piece_at(BitCoord(bit(sq)))->0;
            let targets = legal_targets(state, sq);
            assert forall|t: int| 0 <= t < 64 && bit_set(targets, t) implies state.side(
                state.active_colour,
            ).pieces.occupancy() & bit(t) == 0 by {
                lemma_target_free(state, sq, t);
            }
            lemma_expand_admits(state, piece, sq, targets, 64, i - prev.len());
        }
    }
}

/// Every legal move can be applied to the position it is legal in.
pub proof fn lemma_legal_moves_admit(state: GameState, i: int)
    requires
        state.wf(),
        0 <= i < legal_moves_spec(state).len(),
    ensures
        state.admits(legal_moves_spec(state)[i]),
{
    let pieces = piece_moves(state, 64);
    if i < pieces.len() {
        lemma_piece_moves_admit(state, 64, i);
    } else {
        lemma_home_squares();
        let me = state.active_colour;
        let base = home_base(me);
        let occ = state.occupancy();
        let b = bit(base + 6);
        let c = bit(base + 5);
        let d = bit(base + 4);
        assert(occ & (b | c | d) == 0 ==> occ & (c | d) == 0) by (bit_vector);
    }
}

/// The legal moves of the side to move: every legal move once, and no
/// other.
pub fn legal_moves(state: &GameState, mbb: &MagicBitBoards) -> (moves: Vec<Move>)
    requires
        state.wf(),
    ensures
        moves@ == legal_moves_spec(*state),
        forall|m: Move| #[trigger] moves@.contains(m) == is_legal(*state, m),
        moves@.no_duplicates(),
        forall|i: int| 0 <= i < moves@.len() ==> state.admits(#[trigger] moves@[i]),
        en_passant_sound(*state) ==> forall|i: int|
            0 <= i < moves@.len() ==> !state.moved(#[trigger] moves@[i]).passed().in_check(),
{
    let colour = state.active_colour;
    let (side, other_side) = match colour {
        Colour::White => (&state.white, &state.black),
        Colour::Black => (&state.black, &state.white),
    };
    let attacks = if side.pieces.king.0 != 0 {
        let king = lowest_square(side.pieces.king);
        attacks_on_square(&side.pieces, &other_side.pieces, king, colour, mbb)
    } else {
        Vec::new()
    };
    let allowed = allowed_non_king_moves(&attacks);
    let mut moves: Vec<Move> = Vec::new();
    let mut sq: u32 = 0;
    while sq < 64
        invariant
            sq <= 64,
            state.wf(),
            colour == state.active_colour,
            *side == state.side(colour),
            attacks@ == threats(*state),
            allowed == allowed_mask(attacks@, attacks@.len() as int),
            moves@ == piece_moves(*state, sq as int),
        decreases 64 - sq,
    {
        let coord = BitCoord::from_index(sq);
        match side.pieces.get_piece(coord) {
            Some(piece) => {
                let targets = legal_targets_of(state, coord, piece, &attacks, allowed, mbb);
                expand_moves(piece, coord, targets, &mut moves);
            },
            None => {
                assert(moves@ =~= moves@ + Seq::<Move>::empty());
            },
        }
        sq = sq + 1;
    }
    let all = state.white.pieces.all().0 | state.black.pieces.all().0;
    let free = BitBoard((side.pieces.all().0 | other_side.pieces.all().0) & !side.pieces.king.0);
    let (base, home, long_corner, short_corner): (u32, u64, u64, u64) = match colour {
        Colour::White => (0, 0x0000_0000_0000_0008, 0x0000_0000_0000_0080, 0x0000_0000_0000_0001),
        Colour::Black => (56, 0x0800_0000_0000_0000, 0x8000_0000_0000_0000, 0x0100_0000_0000_0000),
    };
    let ghost pieces = moves@;
    if side.can_castle_queenside && side.pieces.king.0 == home && side.pieces.rooks.0
        & long_corner != 0 && all & ((1u64 << ((base + 6) as u64)) | (1u64 << ((base + 5) as u64))
        | (1u64 << ((base + 4) as u64))) == 0 && !square_under_attack(
        free,
        &other_side.pieces,
        BitCoord::from_index(base + 5),
        colour,
        mbb,
    ) && !square_under_attack(free, &other_side.pieces, BitCoord::from_index(base + 4), colour, mbb)
        && !square_under_attack(
        free,
        &other_side.pieces,
        BitCoord::from_index(base + 3),
        colour,
        mbb,
    ) {
        moves.push(Move::LongCastle);
    }
    let ghost with_long = moves@;
    if side.can_castle_kingside && side.pieces.king.0 == home && side.pieces.rooks.0 & short_corner
        != 0 && all & ((1u64 << ((base + 1) as u64)) | (1u64 << ((base + 2) as u64))) == 0
        && !square_under_attack(
        free,
        &other_side.pieces,
        BitCoord::from_index(base + 3),
        colour,
        mbb,
    ) && !square_under_attack(free, &other_side.pieces, BitCoord::from_index(base + 2), colour, mbb)
        && !square_under_attack(
        free,
        &other_side.pieces,
        BitCoord::from_index(base + 1),
        colour,
        mbb,
    ) {
        moves.push(Move::Castle);
    }
    proof {
        assert(with_long =~= pieces + (if may_castle_long(*state) {
            seq![Move::LongCastle]
        } else {
            Seq::empty()
        }));
        assert(moves@ =~= with_long + (if may_castle_short(*state) {
            seq![Move::Castle]
        } else {
            Seq::empty()
        }));
        assert(moves@ =~= legal_moves_spec(*state));
        assert forall|i: int| 0 <= i < moves@.len() implies state.admits(#[trigger] moves@[i]) by {
            lemma_legal_moves_admit(*state, i);
        }
        lemma_legal_moves_exact(*state);
        if en_passant_sound(*state) {
            lemma_legal_moves_safe(*state);
        }
    }
    moves
}

} // verus!
