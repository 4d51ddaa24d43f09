use vstd::prelude::*;
use crate::bits::{
    bit, bit_set, low_index, single, lemma_bit_distinct, lemma_has_ops, lemma_low_index,
    lemma_low_index_of_bit, lemma_same_bits, lemma_single,
};
use crate::game::{
    bv_masks, bv_pair, en_passant_victim, king_home, kingside_corner, kingside_king_target,
    kingside_rook_target, lemma_home_squares, lemma_occupancy, lemma_put_wf, lemma_rank_shift,
    lemma_shifted_free, lemma_shifted_wf, lemma_take_wf, queenside_corner,
    queenside_king_target, queenside_rook_target,
};
use crate::magic::{
    bishop_attacks, king_attacks, knight_attacks, lemma_shift, on_ray, ray_from, rook_attacks,
    step_ok, with_step,
};
use crate::moves::{
    Attack,
    allowed_mask,
    attacked,
    castling_moves,
    contact_checkers,
    contact_checks,
    direction,
    en_passant_bit,
    en_passant_safe,
    expand,
    home_base,
    king_square,
    legal_moves_spec,
    legal_targets,
    lemma_target_free,
    line_attackers,
    line_threats,
    may_castle_long,
    may_castle_short,
    moves_from,
    pawn_attackers,
    pawn_attacks,
    pawn_pushes,
    piece_moves,
    piece_targets,
    pin_mask,
    safe_squares,
    threat_from,
    threats,
};
use crate::types::{BitBoard, BitCoord, Colour, GameState, Move, Piece, Pieces};

verus! {

/// Whether a pawn that lands on the square `t` is promoted: the square is
/// on the first or the last rank.
pub open spec fn promotes(piece: Piece, t: int) -> bool {
    piece == Piece::Pawn && (t / 8 == 7 || t / 8 == 0)
}

/// Whether `m` is a legal move of the side to move. A move of a piece is
/// legal where the piece it names stands on its source and its
/// destination is one of the squares that the piece may go to; it is a
/// promotion, to a queen, rook, bishop or knight, exactly where a pawn
/// reaches the first or the last rank. A castling move is legal where
/// the side may castle that way.
pub open spec fn is_legal(state: GameState, m: Move) -> bool {
    let own = state.side(state.active_colour).pieces;
    match m {
        Move::Normal(piece, src, tgt) => {
            &&& src.wf()
            &&& tgt.wf()
            &&& own.piece_at(src) == Some(piece)
            &&& bit_set(legal_targets(state, src.index()), tgt.index())
            &&& !promotes(piece, tgt.index())
        },
        Move::Promotion(src, tgt, pc) => {
            &&& src.wf()
            &&& tgt.wf()
            &&& own.piece_at(src) == Some(Piece::Pawn)
            &&& bit_set(legal_targets(state, src.index()), tgt.index())
            &&& promotes(Piece::Pawn, tgt.index())
            &&& (pc == Piece::Queen || pc == Piece::Rook || pc == Piece::Bishop || pc
                == Piece::Knight)
        },
        Move::Castle => may_castle_short(state),
        Move::LongCastle => may_castle_long(state),
    }
}

/// Whether `expand` lists `m` for `piece` on `src` among the targets
/// below index `n`.
pub open spec fn expands_to(piece: Piece, src: int, targets: u64, n: int, m: Move) -> bool {
    match m {
        Move::Normal(p, s, t) => {
            &&& p == piece
            &&& s == BitCoord(bit(src))
            &&& t.wf()
            &&& t.index() < n
            &&& bit_set(targets, t.index())
            &&& !promotes(piece, t.index())
        },
        Move::Promotion(s, t, pc) => {
            &&& s == BitCoord(bit(src))
            &&& t.wf()
            &&& t.index() < n
            &&& bit_set(targets, t.index())
            &&& promotes(piece, t.index())
            &&& (pc == Piece::Queen || pc == Piece::Rook || pc == Piece::Bishop || pc
                == Piece::Knight)
        },
        _ => false,
    }
}

/// A coordinate is the square with index `i` exactly when it is a single
/// square whose index is `i`.
proof fn lemma_coord_of_index(c: BitCoord, i: int)
    requires
        0 <= i < 64,
    ensures
        (c == BitCoord(bit(i))) == (c.wf() && c.index() == i),
{
    lemma_low_index_of_bit(i);
    if c.wf() {
        lemma_single(c.0);
    }
    if c == BitCoord(bit(i)) {
        assert(single(c.0));
    }
}

/// The moves that `expand` adds for the target with index `t`.
spec fn expanded_at(piece: Piece, src: int, targets: u64, t: int) -> Seq<Move> {
    if !bit_set(targets, t) {
        Seq::empty()
    } else if promotes(piece, t) {
        seq![
            Move::Promotion(BitCoord(bit(src)), BitCoord(bit(t)), Piece::Queen),
            Move::Promotion(BitCoord(bit(src)), BitCoord(bit(t)), Piece::Rook),
            Move::Promotion(BitCoord(bit(src)), BitCoord(bit(t)), Piece::Bishop),
            Move::Promotion(BitCoord(bit(src)), BitCoord(bit(t)), Piece::Knight),
        ]
    } else {
        seq![Move::Normal(piece, BitCoord(bit(src)), BitCoord(bit(t)))]
    }
}

proof fn lemma_expanded_at(piece: Piece, src: int, targets: u64, t: int, m: Move)
    requires
        0 <= t < 64,
    ensures
        expanded_at(piece, src, targets, t).contains(m) == (expands_to(
            piece,
            src,
            targets,
            t + 1,
            m,
        ) && !expands_to(piece, src, targets, t, m)),
{
    let added = expanded_at(piece, src, targets, t);
    let c = BitCoord(bit(t));
    lemma_coord_of_index(c, t);
    match m {
        Move::Normal(_, _, tgt) => lemma_coord_of_index(tgt, t),
        Move::Promotion(_, tgt, _) => lemma_coord_of_index(tgt, t),
        _ => {},
    }
    if added.contains(m) {
        let k = choose|k: int| 0 <= k < added.len() && added[k] == m;
        assert(added[k] == m);
    }
    if expands_to(piece, src, targets, t + 1, m) && !expands_to(piece, src, targets, t, m) {
        match m {
            Move::Normal(_, _, _) => {
                assert(added[0] == m);
            },
            Move::Promotion(_, _, pc) => {
                if pc == Piece::Queen {
                    assert(added[0] == m);
                } else if pc == Piece::Rook {
                    assert(added[1] == m);
                } else if pc == Piece::Bishop {
                    assert(added[2] == m);
                } else {
                    assert(added[3] == m);
                }
            },
            _ => {},
        }
    }
}

/// `expand` lists exactly the moves to the targets.
proof fn lemma_expand_exact(piece: Piece, src: int, targets: u64, n: int, m: Move)
    requires
        0 <= n <= 64,
    ensures
        expand(piece, src, targets, n).contains(m) == expands_to(piece, src, targets, n, m),
    decreases n,
{
    let now = expand(piece, src, targets, n);
    if n > 0 {
        let t = n - 1;
        let prev = expand(piece, src, targets, t);
        let added = expanded_at(piece, src, targets, t);
        lemma_expand_exact(piece, src, targets, t, m);
        lemma_expanded_at(piece, src, targets, t, m);
        assert(now =~= prev + added);
        vstd::seq_lib::lemma_seq_concat_contains_all_elements(prev, added, m);
    } else {
        if now.contains(m) {
            let k = choose|k: int| 0 <= k < now.len() && now[k] == m;
            assert(now[k] == m);
        }
        match m {
            Move::Normal(_, _, tgt) => {
                if tgt.wf() {
                    lemma_single(tgt.0);
                }
            },
            Move::Promotion(_, tgt, _) => {
                if tgt.wf() {
                    lemma_single(tgt.0);
                }
            },
            _ => {},
        }
    }
}

/// `expand` lists no move twice.
proof fn lemma_expand_distinct(piece: Piece, src: int, targets: u64, n: int)
    requires
        0 <= n <= 64,
    ensures
        expand(piece, src, targets, n).no_duplicates(),
    decreases n,
{
    let now = expand(piece, src, targets, n);
    if n > 0 {
        let t = n - 1;
        let prev = expand(piece, src, targets, t);
        let added = expanded_at(piece, src, targets, t);
        lemma_expand_distinct(piece, src, targets, t);
        assert(now =~= prev + added);
        assert forall|i: int, j: int| 0 <= i < prev.len() && 0 <= j < added.len() implies prev[i]
            != added[j] by {
            assert(prev.contains(prev[i]));
            assert(added.contains(added[j]));
            lemma_expand_exact(piece, src, targets, t, prev[i]);
            lemma_expanded_at(piece, src, targets, t, added[j]);
        }
        vstd::seq_lib::lemma_no_dup_in_concat(prev, added);
    }
}

/// Whether the pieces on the squares below index `n` list `m`.
pub open spec fn piece_lists(state: GameState, n: int, m: Move) -> bool {
    let own = state.side(state.active_colour).pieces;
    match m {
        Move::Normal(piece, src, _) => src.wf() && src.index() < n && own.piece_at(src) == Some(
            piece,
        ) && expands_to(piece, src.index(), legal_targets(state, src.index()), 64, m),
        Move::Promotion(src, _, _) => src.wf() && src.index() < n && own.piece_at(src) == Some(
            Piece::Pawn,
        ) && expands_to(Piece::Pawn, src.index(), legal_targets(state, src.index()), 64, m),
        _ => false,
    }
}

proof fn lemma_moves_from(state: GameState, sq: int, m: Move)
    requires
        0 <= sq < 64,
    ensures
        moves_from(state, sq).contains(m) == (piece_lists(state, sq + 1, m) && !piece_lists(
            state,
            sq,
            m,
        )),
{
    let added = moves_from(state, sq);
    let own = state.side(state.active_colour).pieces;
    let here = BitCoord(bit(sq));
    lemma_coord_of_index(here, sq);
    match m {
        Move::Normal(_, src, _) => {
            lemma_coord_of_index(src, sq);
            if src.wf() {
                lemma_single(src.0);
            }
        },
        Move::Promotion(src, _, _) => {
            lemma_coord_of_index(src, sq);
            if src.wf() {
                lemma_single(src.0);
            }
        },
        _ => {},
    }
    match own.piece_at(here) {
        Some(piece) => {
            lemma_expand_exact(piece, sq, legal_targets(state, sq), 64, m);
        },
        None => {
            if added.contains(m) {
                let k = choose|k: int| 0 <= k < added.len() && added[k] == m;
                assert(added[k] == m);
            }
        },
    }
}

/// The moves of the pieces are exactly the moves from each piece to its
/// targets.
proof fn lemma_piece_moves_exact(state: GameState, n: int, m: Move)
    requires
        0 <= n <= 64,
    ensures
        piece_moves(state, n).contains(m) == piece_lists(state, n, m),
    decreases n,
{
    let now = piece_moves(state, n);
    if n > 0 {
        let sq = n - 1;
        let prev = piece_moves(state, sq);
        let added = moves_from(state, sq);
        lemma_piece_moves_exact(state, sq, m);
        lemma_moves_from(state, sq, m);
        vstd::seq_lib::lemma_seq_concat_contains_all_elements(prev, added, m);
    } else {
        if now.contains(m) {
            let k = choose|k: int| 0 <= k < now.len() && now[k] == m;
            assert(now[k] == m);
        }
        match m {
            Move::Normal(_, src, _) => {
                if src.wf() {
                    lemma_single(src.0);
                }
            },
            Move::Promotion(src, _, _) => {
                if src.wf() {
                    lemma_single(src.0);
                }
            },
            _ => {},
        }
    }
}

/// No move of a piece is listed twice.
proof fn lemma_piece_moves_distinct(state: GameState, n: int)
    requires
        0 <= n <= 64,
    ensures
        piece_moves(state, n).no_duplicates(),
    decreases n,
{
    if n > 0 {
        let sq = n - 1;
        let prev = piece_moves(state, sq);
        let added = moves_from(state, sq);
        lemma_piece_moves_distinct(state, sq);
        match state.side(state.active_colour).pieces.piece_at(BitCoord(bit(sq))) {
            Some(piece) => {
                lemma_expand_distinct(piece, sq, legal_targets(state, sq), 64);
            },
            None => {},
        }
        assert forall|i: int, j: int| 0 <= i < prev.len() && 0 <= j < added.len() implies prev[i]
            != added[j] by {
            assert(prev.contains(prev[i]));
            assert(added.contains(added[j]));
            lemma_piece_moves_exact(state, sq, prev[i]);
            lemma_moves_from(state, sq, added[j]);
        }
        vstd::seq_lib::lemma_no_dup_in_concat(prev, added);
    }
}

/// A castling move is listed exactly where the side may castle that way,
/// and no other move is a castling move.
proof fn lemma_castling_moves(state: GameState, m: Move)
    ensures
        castling_moves(state).contains(m) == (match m {
            Move::Castle => may_castle_short(state),
            Move::LongCastle => may_castle_long(state),
            _ => false,
        }),
        castling_moves(state).no_duplicates(),
{
    let long: Seq<Move> = if may_castle_long(state) {
        seq![Move::LongCastle]
    } else {
        Seq::empty()
    };
    let short: Seq<Move> = if may_castle_short(state) {
        seq![Move::Castle]
    } else {
        Seq::empty()
    };
    vstd::seq_lib::lemma_seq_concat_contains_all_elements(long, short, m);
    if long.contains(m) {
        let k = choose|k: int| 0 <= k < long.len() && long[k] == m;
        assert(long[k] == m);
    }
    if short.contains(m) {
        let k = choose|k: int| 0 <= k < short.len() && short[k] == m;
        assert(short[k] == m);
    }
    if may_castle_long(state) {
        assert(long[0] == Move::LongCastle);
    }
    if may_castle_short(state) {
        assert(short[0] == Move::Castle);
    }
    assert forall|i: int, j: int| 0 <= i < long.len() && 0 <= j < short.len() implies long[i]
        != short[j] by {}
    vstd::seq_lib::lemma_no_dup_in_concat(long, short);
}

/// A move is in the list of legal moves exactly when it is legal.
pub proof fn lemma_listed_iff_legal(state: GameState, m: Move)
    ensures
        legal_moves_spec(state).contains(m) == is_legal(state, m),
{
    let pieces = piece_moves(state, 64);
    let castles = castling_moves(state);
    lemma_piece_moves_exact(state, 64, m);
    lemma_castling_moves(state, m);
    vstd::seq_lib::lemma_seq_concat_contains_all_elements(pieces, castles, m);
    match m {
        Move::Normal(_, src, tgt) => {
            if src.wf() {
                lemma_single(src.0);
            }
            if tgt.wf() {
                lemma_single(tgt.0);
            }
        },
        Move::Promotion(src, tgt, _) => {
            if src.wf() {
                lemma_single(src.0);
            }
            if tgt.wf() {
                lemma_single(tgt.0);
            }
        },
        _ => {},
    }
}

/// The list of legal moves holds exactly the legal moves, each once.
pub proof fn lemma_legal_moves_exact(state: GameState)
    ensures
        forall|m: Move| #[trigger] legal_moves_spec(state).contains(m) == is_legal(state, m),
        legal_moves_spec(state).no_duplicates(),
{
    let pieces = piece_moves(state, 64);
    let castles = castling_moves(state);
    assert forall|m: Move| #[trigger] legal_moves_spec(state).contains(m) == is_legal(
        state,
        m,
    ) by {
        lemma_listed_iff_legal(state, m);
    }
    lemma_piece_moves_distinct(state, 64);
    lemma_castling_moves(state, Move::Castle);
    assert forall|i: int, j: int| 0 <= i < pieces.len() && 0 <= j < castles.len() implies pieces[i]
        != castles[j] by {
        assert(pieces.contains(pieces[i]));
        assert(castles.contains(castles[j]));
        lemma_piece_moves_exact(state, 64, pieces[i]);
        lemma_castling_moves(state, castles[j]);
    }
    vstd::seq_lib::lemma_no_dup_in_concat(pieces, castles);
}

/// The rank of an en-passant target when `colour` is to move: the sixth
/// rank for white and the third for black.
pub open spec fn target_rank(colour: Colour) -> u64 {
    match colour {
        Colour::White => 0x0000_FF00_0000_0000,
        Colour::Black => 0x0000_0000_00FF_0000,
    }
}

/// The en-passant target, if there is one, is an empty square on the
/// rank for such targets, and a pawn of the side that is not to move
/// stands right behind it, where a capture onto the target takes it.
pub open spec fn en_passant_sound(state: GameState) -> bool {
    match state.en_passant {
        None => true,
        Some(ep) => {
            &&& ep.wf()
            &&& ep.0 & target_rank(state.active_colour) != 0
            &&& state.occupancy() & ep.0 == 0
            &&& state.side(Colour::other_spec(state.active_colour)).pieces.pawns.0
                & en_passant_victim(state.active_colour, ep).0 != 0
        },
    }
}

proof fn bv_pawn_ranks(i: u64)
    by (bit_vector)
    requires
        i < 64,
    ensures
        (0x0000_0000_0000_FF00u64 & (1u64 << i) != 0) == (8 <= i && i < 16),
        (0x00FF_0000_0000_0000u64 & (1u64 << i) != 0) == (48 <= i && i < 56),
        ((1u64 << i) & 0x0000_0000_00FF_0000u64 != 0) == (16 <= i && i < 24),
        ((1u64 << i) & 0x0000_FF00_0000_0000u64 != 0) == (40 <= i && i < 48),
{
}

/// A step adds no square but the one it leads to.
proof fn lemma_with_step_bits(acc: u64, from: int, shift: int, k: int)
    requires
        0 <= k < 64,
        bit_set(with_step(acc, from, shift), k),
    ensures
        bit_set(acc, k) || k == from + shift,
{
    if step_ok(from, shift) {
        lemma_has_ops(acc, bit(from + shift), k);
        lemma_bit_distinct(from + shift, k);
    }
}

/// A pawn reaches the square two ranks ahead only from its home rank, and
/// only where the square it passes is empty.
proof fn lemma_double_step_origin(state: GameState, i: int, j: int)
    requires
        0 <= i < 64,
        0 <= j < 64,
        state.side(state.active_colour).pieces.piece_at(BitCoord(bit(i))) == Some(Piece::Pawn),
        bit_set(
            piece_targets(
                state.side(state.active_colour).pieces,
                state.side(Colour::other_spec(state.active_colour)).pieces,
                en_passant_bit(state),
                i,
                state.active_colour,
            ),
            j,
        ),
        GameState::double_step(state.active_colour, BitCoord(bit(i)), BitCoord(bit(j))),
    ensures
        match state.active_colour {
            Colour::White => 8 <= i < 16 && j == i + 16 && state.occupancy() & bit(i + 8) == 0,
            Colour::Black => 48 <= i < 56 && j == i - 16 && state.occupancy() & bit(i - 8) == 0,
        },
{
    let me = state.active_colour;
    let own = state.side(me).pieces;
    let enemy = state.side(Colour::other_spec(me)).pieces;
    let ep = en_passant_bit(state);
    let mine = own.occupancy();
    let occ = mine | enemy.occupancy();
    let pushes = pawn_pushes(occ, bit(i), me);
    let attacks = pawn_attacks(i, me);
    let caps = attacks & (enemy.occupancy() | ep);
    lemma_bit_distinct(i, i);
    lemma_shift(j, 16);
    lemma_has_ops(pushes | caps, !mine, j);
    lemma_has_ops(pushes, caps, j);
    lemma_has_ops(attacks, enemy.occupancy() | ep, j);
    lemma_has_ops(0, 0, j);
    bv_pawn_ranks(i as u64);
    bv_pair(state.white.pieces.occupancy(), state.black.pieces.occupancy(), 0, 0);
    match me {
        Colour::White => {
            lemma_bit_distinct(i, j - 16);
            assert(i == j - 16);
            lemma_shift(i, 8);
            lemma_shift(i, 16);
            if bit_set(attacks, j) {
                lemma_with_step_bits(with_step(0, i, 7), i, 9, j);
                lemma_with_step_bits(0, i, 7, j);
            }
            let one = bit(i) << 8;
            let both = if 0x0000_0000_0000_FF00u64 & bit(i) != 0 && one & occ == 0 {
                one | (bit(i) << 16)
            } else {
                one
            };
            lemma_has_ops(both, !occ, j);
            lemma_bit_distinct(i + 8, j);
            bv_pair(bit(i + 8), occ, 0, 0);
        },
        Colour::Black => {
            lemma_bit_distinct(i, j + 16);
            assert(i == j + 16);
            lemma_shift(i, 8);
            lemma_shift(i, 16);
            if bit_set(attacks, j) {
                lemma_with_step_bits(with_step(0, i, -7), i, -9, j);
                lemma_with_step_bits(0, i, -7, j);
            }
            let one = bit(i) >> 8;
            let both = if 0x00FF_0000_0000_0000u64 & bit(i) != 0 && one & occ == 0 {
                one | (bit(i) >> 16)
            } else {
                one
            };
            lemma_has_ops(both, !occ, j);
            lemma_bit_distinct(i - 8, j);
            bv_pair(bit(i - 8), occ, 0, 0);
        },
    }
}

/// After a legal move the en-passant target, if there is one, is an empty
/// square on the third or the sixth rank, and the pawn that passed it
/// stands right behind it.
pub proof fn lemma_en_passant_sound(state: GameState, m: Move)
    requires
        state.wf(),
        is_legal(state, m),
    ensures
        en_passant_sound(state.moved(m)),
{
    let me = state.active_colour;
    match m {
        Move::Normal(piece, src, tgt) => {
            if piece == Piece::Pawn && GameState::double_step(me, src, tgt) {
                lemma_pawn_double_step(state, src, tgt, Piece::Pawn);
            }
        },
        Move::Promotion(src, tgt, pc) => {
            if GameState::double_step(me, src, tgt) {
                lemma_single(src.0);
                lemma_single(tgt.0);
                lemma_target_free(state, src.index(), tgt.index());
                lemma_double_step_origin(state, src.index(), tgt.index());
            }
        },
        _ => {},
    }
}

proof fn lemma_pawn_double_step(state: GameState, src: BitCoord, tgt: BitCoord, placed: Piece)
    requires
        state.wf(),
        src.wf(),
        tgt.wf(),
        placed == Piece::Pawn,
        state.side(state.active_colour).pieces.piece_at(src) == Some(Piece::Pawn),
        bit_set(legal_targets(state, src.index()), tgt.index()),
        GameState::double_step(state.active_colour, src, tgt),
    ensures
        en_passant_sound(state.ticked().shifted(Piece::Pawn, src, tgt, placed).passed()),
{
    let me = state.active_colour;
    let i = src.index();
    let j = tgt.index();
    lemma_single(src.0);
    lemma_single(tgt.0);
    lemma_target_free(state, i, j);
    lemma_double_step_origin(state, i, j);
    let s = state.ticked();
    let passed: int = match me {
        Colour::White => i + 8,
        Colour::Black => i - 8,
    };
    let e = BitCoord(bit(passed));
    lemma_shift(j, 8);
    assert(en_passant_victim(me, tgt) == e);
    lemma_bit_distinct(j, passed);
    bv_pair(tgt.0, e.0, 0, 0);
    assert(tgt.0 & e.0 == 0);
    lemma_shifted_free(s, Piece::Pawn, src, tgt, placed, e.0);
    let r = s.shifted(Piece::Pawn, src, tgt, placed).passed();
    assert(r.en_passant == Some(e));
    assert(e.wf());
    bv_pawn_ranks(passed as u64);
    lemma_shift(passed, 8);
    assert(en_passant_victim(Colour::other_spec(me), e) == tgt);
}

/// A ray sees the same in two occupancies that differ at most on the
/// square `origin`, where `origin` does not lie ahead of the ray.
proof fn lemma_ray_ignores(acc: u64, from: int, shift: int, o1: u64, o2: u64, origin: int)
    requires
        shift > 0 ==> origin <= from,
        shift < 0 ==> origin >= from,
        forall|j: int| 0 <= j < 64 && j != origin ==> bit_set(o1, j) == bit_set(o2, j),
    ensures
        ray_from(acc, from, shift, o1) == ray_from(acc, from, shift, o2),
    decreases
        (if shift > 0 {
            64 - from
        } else {
            from + 1
        }),
{
    if shift != 0 && step_ok(from, shift) {
        lemma_ray_ignores(acc | bit(from + shift), from + shift, shift, o1, o2, origin);
    }
}

/// A square holds a piece of a side exactly when one of the side's six
/// sets holds it.
proof fn lemma_occupancy_bit(p: Pieces, j: int)
    requires
        0 <= j < 64,
    ensures
        bit_set(p.occupancy(), j) == (bit_set(p.king.0, j) || bit_set(p.queens.0, j) || bit_set(
            p.rooks.0,
            j,
        ) || bit_set(p.bishops.0, j) || bit_set(p.knights.0, j) || bit_set(p.pawns.0, j)),
{
    lemma_has_ops(p.king.0, p.queens.0, j);
    lemma_has_ops(p.king.0 | p.queens.0, p.rooks.0, j);
    lemma_has_ops(p.king.0 | p.queens.0 | p.rooks.0, p.bishops.0, j);
    lemma_has_ops(p.king.0 | p.queens.0 | p.rooks.0 | p.bishops.0, p.knights.0, j);
    lemma_has_ops(
        p.king.0 | p.queens.0 | p.rooks.0 | p.bishops.0 | p.knights.0,
        p.pawns.0,
        j,
    );
}

proof fn bv_fewer_attackers(x: u64, a: u64, b: u64, c: u64)
    by (bit_vector)
    ensures
        x & (a | b) == 0 ==> x & ((a & !c) | b) == 0 && x & (a | (b & !c)) == 0,
        x & a == 0 ==> x & (a & !c) == 0,
{
}

/// Taking a piece away from the attackers leaves no square attacked that
/// was not attacked.
proof fn lemma_fewer_attackers(
    occ: u64,
    enemy: Pieces,
    piece: Piece,
    gone: BitCoord,
    sq: int,
    colour: Colour,
)
    requires
        !attacked(occ, enemy, sq, colour),
    ensures
        !attacked(occ, enemy.without_piece(piece, gone), sq, colour),
{
    let c = gone.0;
    bv_fewer_attackers(rook_attacks(sq, occ), enemy.rooks.0, enemy.queens.0, c);
    bv_fewer_attackers(bishop_attacks(sq, occ), enemy.bishops.0, enemy.queens.0, c);
    bv_fewer_attackers(knight_attacks(sq), enemy.knights.0, 0, c);
    bv_fewer_attackers(king_attacks(sq), enemy.king.0, 0, c);
    bv_fewer_attackers(pawn_attackers(sq, colour), enemy.pawns.0, 0, c);
}

/// A safe square is a target that the other side does not attack.
proof fn lemma_safe_member(targets: u64, occ: u64, enemy: Pieces, colour: Colour, n: int, t: int)
    requires
        0 <= n <= 64,
        0 <= t < 64,
    ensures
        bit_set(safe_squares(targets, occ, enemy, colour, n), t) == (t < n && bit_set(targets, t)
            && !attacked(occ, enemy, t, colour)),
    decreases n,
{
    if n > 0 {
        let prev = safe_squares(targets, occ, enemy, colour, n - 1);
        lemma_has_ops(prev, bit(n - 1), t);
        lemma_bit_distinct(n - 1, t);
        lemma_safe_member(targets, occ, enemy, colour, n - 1, t);
    } else {
        lemma_has_ops(0, 0, t);
    }
}

/// A slider on `t` attacks the same squares in two occupancies that
/// differ at most on `t` itself.
proof fn lemma_attacks_ignore_origin(t: int, o1: u64, o2: u64)
    requires
        forall|j: int| 0 <= j < 64 && j != t ==> bit_set(o1, j) == bit_set(o2, j),
    ensures
        rook_attacks(t, o1) == rook_attacks(t, o2),
        bishop_attacks(t, o1) == bishop_attacks(t, o2),
{
    let r1 = ray_from(0, t, 1, o2);
    let r2 = ray_from(r1, t, 8, o2);
    let r3 = ray_from(r2, t, -1, o2);
    lemma_ray_ignores(0, t, 1, o1, o2, t);
    lemma_ray_ignores(r1, t, 8, o1, o2, t);
    lemma_ray_ignores(r2, t, -1, o1, o2, t);
    lemma_ray_ignores(r3, t, -8, o1, o2, t);
    let b1 = ray_from(0, t, 7, o2);
    let b2 = ray_from(b1, t, 9, o2);
    let b3 = ray_from(b2, t, -7, o2);
    lemma_ray_ignores(0, t, 7, o1, o2, t);
    lemma_ray_ignores(b1, t, 9, o1, o2, t);
    lemma_ray_ignores(b2, t, -7, o1, o2, t);
    lemma_ray_ignores(b3, t, -9, o1, o2, t);
}

/// Once the king has gone from `src` to `tgt`, every square but `tgt`
/// holds a piece exactly when it held one before and is not `src`.
proof fn lemma_king_step_occupancy(own: Pieces, enemy: Pieces, src: BitCoord, tgt: BitCoord, j: int)
    requires
        own.wf(),
        src.wf(),
        tgt.wf(),
        own.king.0 == src.0,
        own.occupancy() & enemy.occupancy() == 0,
        0 <= j < 64,
        j != tgt.index(),
    ensures
        bit_set(
            own.without_piece(Piece::King, src).with_piece(Piece::King, tgt).occupancy() | (
            match enemy.piece_at(tgt) {
                Some(pc) => enemy.without_piece(pc, tgt),
                None => enemy,
            }).occupancy(),
            j,
        ) == bit_set((own.occupancy() | enemy.occupancy()) & !own.king.0, j),
{
    let own2 = own.without_piece(Piece::King, src).with_piece(Piece::King, tgt);
    let enemy2 = match enemy.piece_at(tgt) {
        Some(pc) => enemy.without_piece(pc, tgt),
        None => enemy,
    };
    lemma_single(src.0);
    lemma_single(tgt.0);
    let k = src.index();
    let t = tgt.index();
    lemma_has_ops(own2.occupancy(), enemy2.occupancy(), j);
    lemma_has_ops(own.occupancy(), enemy.occupancy(), j);
    lemma_has_ops(own.occupancy() | enemy.occupancy(), !own.king.0, j);
    lemma_has_ops(own.king.0, 0, j);
    lemma_occupancy_bit(own, j);
    lemma_occupancy_bit(own2, j);
    lemma_occupancy_bit(enemy, j);
    lemma_occupancy_bit(enemy2, j);
    lemma_bit_distinct(k, j);
    lemma_bit_distinct(t, j);
    lemma_has_ops(own.king.0, !src.0, j);
    lemma_has_ops(src.0, 0, j);
    lemma_has_ops(own.king.0 & !src.0, tgt.0, j);
    lemma_has_ops(tgt.0, 0, j);
    lemma_has_ops(enemy.king.0, !tgt.0, j);
    lemma_has_ops(enemy.queens.0, !tgt.0, j);
    lemma_has_ops(enemy.rooks.0, !tgt.0, j);
    lemma_has_ops(enemy.bishops.0, !tgt.0, j);
    lemma_has_ops(enemy.knights.0, !tgt.0, j);
    lemma_has_ops(enemy.pawns.0, !tgt.0, j);
    lemma_has_ops(own.king.0, own.queens.0, j);
    lemma_has_ops(own.king.0, own.rooks.0, j);
    lemma_has_ops(own.king.0, own.bishops.0, j);
    lemma_has_ops(own.king.0, own.knights.0, j);
    lemma_has_ops(own.king.0, own.pawns.0, j);
}

/// A king never steps onto an attacked square: after a legal step of the
/// king, the other side does not attack the square on which it stands.
pub proof fn lemma_king_step_safe(state: GameState, src: BitCoord, tgt: BitCoord)
    requires
        state.wf(),
        is_legal(state, Move::Normal(Piece::King, src, tgt)),
    ensures
        !state.moved(Move::Normal(Piece::King, src, tgt)).passed().in_check(),
{
    let me = state.active_colour;
    let you = Colour::other_spec(me);
    let own = state.side(me).pieces;
    let enemy = state.side(you).pieces;
    let m = Move::Normal(Piece::King, src, tgt);
    let k = src.index();
    let t = tgt.index();
    lemma_single(src.0);
    lemma_single(tgt.0);
    bv_masks(src.0, 0, 0);
    lemma_single(own.king.0);
    lemma_bit_distinct(low_index(own.king.0), k);
    assert(own.king.0 == src.0);
    let pseudo = piece_targets(own, enemy, en_passant_bit(state), k, me);
    let free = (own.occupancy() | enemy.occupancy()) & !own.king.0;
    lemma_safe_member(pseudo, free, enemy, me, 64, t);
    let own2 = own.without_piece(Piece::King, src).with_piece(Piece::King, tgt);
    let enemy2 = match enemy.piece_at(tgt) {
        Some(pc) => enemy.without_piece(pc, tgt),
        None => enemy,
    };
    let occ2 = own2.occupancy() | enemy2.occupancy();
    bv_pair(state.white.pieces.occupancy(), state.black.pieces.occupancy(), 0, 0);
    assert forall|j: int| 0 <= j < 64 && j != t implies bit_set(occ2, j) == bit_set(free, j) by {
        lemma_king_step_occupancy(own, enemy, src, tgt, j);
    }
    lemma_attacks_ignore_origin(t, occ2, free);
    assert(!attacked(occ2, enemy, t, me));
    match enemy.piece_at(tgt) {
        Some(pc) => {
            lemma_fewer_attackers(occ2, enemy, pc, tgt, t, me);
        },
        None => {},
    }
    assert(!attacked(occ2, enemy2, t, me));
    lemma_king_step_lands(state, src, tgt);
}

/// After a step of the king from `src` to `tgt` the king stands on `tgt`,
/// and the other side has lost what stood there.
proof fn lemma_king_step_lands(state: GameState, src: BitCoord, tgt: BitCoord)
    requires
        src.wf(),
        tgt.wf(),
        state.side(state.active_colour).pieces.king.0 == src.0,
    ensures
        ({
            let after = state.moved(Move::Normal(Piece::King, src, tgt)).passed();
            let me = state.active_colour;
            let you = Colour::other_spec(me);
            &&& after.active_colour == me
            &&& after.side(me).pieces == state.side(me).pieces.without_piece(
                Piece::King,
                src,
            ).with_piece(Piece::King, tgt)
            &&& after.side(you).pieces == (match state.side(you).pieces.piece_at(tgt) {
                Some(pc) => state.side(you).pieces.without_piece(pc, tgt),
                None => state.side(you).pieces,
            })
            &&& king_square(after.side(me).pieces) == Some(tgt.index())
        }),
{
    let me = state.active_colour;
    let own = state.side(me).pieces;
    let t = tgt.index();
    lemma_single(tgt.0);
    bv_masks(src.0, tgt.0, 0);
    bv_pair(0, 0, tgt.0, 0);
    lemma_bit_distinct(t, t);
    lemma_low_index_of_bit(t);
    let own2 = own.without_piece(Piece::King, src).with_piece(Piece::King, tgt);
    assert(own2.king.0 == tgt.0);
}

/// Whether a threat is a check.
pub open spec fn is_check(threat: Option<Attack>) -> bool {
    threat matches Some(Attack::Check(_))
}

/// What threatens a king of the side `own` on `sq` along the direction
/// with number `i`.
pub open spec fn line_threat(own: Pieces, enemy: Pieces, sq: int, i: int) -> Option<Attack> {
    threat_from(
        sq,
        direction(i),
        own.occupancy() | enemy.occupancy(),
        own.occupancy(),
        line_attackers(enemy, direction(i)),
        0,
        None,
    )
}

/// Behind a piece of the king's side a ray holds a pin or nothing, never
/// a check.
proof fn lemma_shielded(
    from: int,
    shift: int,
    occ: u64,
    own: u64,
    attackers: u64,
    mask: u64,
    pinned: int,
)
    ensures
        !is_check(threat_from(from, shift, occ, own, attackers, mask, Some(pinned))),
    decreases
        (if shift > 0 {
            64 - from
        } else {
            from + 1
        }),
{
    if shift != 0 && step_ok(from, shift) {
        let to = from + shift;
        if !bit_set(occ, to) {
            lemma_shielded(to, shift, occ, own, attackers, mask | bit(to), pinned);
        }
    }
}

proof fn bv_meets(a: u64, b: u64, s: u64)
    by (bit_vector)
    ensures
        ((a | b) & s != 0) == (a & s != 0 || b & s != 0),
        (b & s != 0) == (s & b != 0),
        0u64 & s == 0,
        ((a | b | s) != 0) == (a != 0 || b != 0 || s != 0),
{
}

/// The squares that a ray reaches meet the attackers exactly where the
/// first piece on the ray is one of them, which is a check.
proof fn lemma_ray_meets_attackers(
    acc: u64,
    from: int,
    shift: int,
    occ: u64,
    own: u64,
    attackers: u64,
    mask: u64,
)
    requires
        forall|j: int|
            0 <= j < 64 && bit_set(attackers, j) ==> bit_set(occ, j) && !bit_set(own, j),
    ensures
        (ray_from(acc, from, shift, occ) & attackers != 0) == (acc & attackers != 0
            || is_check(threat_from(from, shift, occ, own, attackers, mask, None))),
    decreases
        (if shift > 0 {
            64 - from
        } else {
            from + 1
        }),
{
    if shift != 0 && step_ok(from, shift) {
        let to = from + shift;
        bv_meets(acc, bit(to), attackers);
        if !bit_set(occ, to) {
            lemma_ray_meets_attackers(
                acc | bit(to),
                to,
                shift,
                occ,
                own,
                attackers,
                mask | bit(to),
            );
        } else if bit_set(own, to) {
            lemma_shielded(to, shift, occ, own, attackers, mask | bit(to), to);
        }
    }
}

/// The sliders of a side stand on squares of that side, and on no square
/// of a side that stands elsewhere.
proof fn lemma_sliders_stand(own: Pieces, enemy: Pieces, i: int, j: int)
    requires
        own.occupancy() & enemy.occupancy() == 0,
        0 <= j < 64,
        bit_set(line_attackers(enemy, direction(i)), j),
    ensures
        bit_set(own.occupancy() | enemy.occupancy(), j),
        !bit_set(own.occupancy(), j),
{
    lemma_occupancy_bit(enemy, j);
    lemma_has_ops(own.occupancy(), enemy.occupancy(), j);
    lemma_has_ops(enemy.rooks.0, enemy.queens.0, j);
    lemma_has_ops(enemy.bishops.0, enemy.queens.0, j);
}

/// A square is attacked exactly where a line to it holds a check or a
/// knight, a king or a pawn of the other side stands in reach of it.
pub proof fn lemma_attacked_iff_checked(own: Pieces, enemy: Pieces, sq: int, colour: Colour)
    requires
        own.occupancy() & enemy.occupancy() == 0,
    ensures
        attacked(own.occupancy() | enemy.occupancy(), enemy, sq, colour) == (is_check(
            line_threat(own, enemy, sq, 0),
        ) || is_check(line_threat(own, enemy, sq, 1)) || is_check(line_threat(own, enemy, sq, 2))
            || is_check(line_threat(own, enemy, sq, 3)) || is_check(
            line_threat(own, enemy, sq, 4),
        ) || is_check(line_threat(own, enemy, sq, 5)) || is_check(line_threat(own, enemy, sq, 6))
            || is_check(line_threat(own, enemy, sq, 7)) || contact_checkers(enemy, sq, colour)
            != 0),
{
    let occ = own.occupancy() | enemy.occupancy();
    let mine = own.occupancy();
    let straight = enemy.rooks.0 | enemy.queens.0;
    let diagonal = enemy.bishops.0 | enemy.queens.0;
    assert forall|j: int| 0 <= j < 64 && bit_set(straight, j) implies bit_set(occ, j) && !bit_set(
        mine,
        j,
    ) by {
        lemma_sliders_stand(own, enemy, 0, j);
    }
    assert forall|j: int| 0 <= j < 64 && bit_set(diagonal, j) implies bit_set(occ, j) && !bit_set(
        mine,
        j,
    ) by {
        lemma_sliders_stand(own, enemy, 4, j);
    }
    let r1 = ray_from(0, sq, 1, occ);
    let r2 = ray_from(r1, sq, 8, occ);
    let r3 = ray_from(r2, sq, -1, occ);
    lemma_ray_meets_attackers(0, sq, 1, occ, mine, straight, 0);
    lemma_ray_meets_attackers(r1, sq, 8, occ, mine, straight, 0);
    lemma_ray_meets_attackers(r2, sq, -1, occ, mine, straight, 0);
    lemma_ray_meets_attackers(r3, sq, -8, occ, mine, straight, 0);
    let b1 = ray_from(0, sq, 7, occ);
    let b2 = ray_from(b1, sq, 9, occ);
    let b3 = ray_from(b2, sq, -7, occ);
    lemma_ray_meets_attackers(0, sq, 7, occ, mine, diagonal, 0);
    lemma_ray_meets_attackers(b1, sq, 9, occ, mine, diagonal, 0);
    lemma_ray_meets_attackers(b2, sq, -7, occ, mine, diagonal, 0);
    lemma_ray_meets_attackers(b3, sq, -9, occ, mine, diagonal, 0);
    bv_meets(0, 0, straight);
    bv_meets(0, 0, diagonal);
    bv_meets(
        knight_attacks(sq) & enemy.knights.0,
        king_attacks(sq) & enemy.king.0,
        pawn_attackers(sq, colour) & enemy.pawns.0,
    );
}

/// A move that answers the checks and keeps the pins along a line opens
/// no check along it. The scan of the line after the move, here with
/// `occ2`, `own2` and `att2`, finds no check where the move took a piece
/// of the king's side from the square `s` to the square `t`, where no
/// such piece stood, and where `t` lies among the squares of every check
/// and of every pin of the piece on `s` that the scan before the move
/// finds from here on.
proof fn lemma_line_stays_safe(
    from: int,
    shift: int,
    occ: u64,
    own: u64,
    att: u64,
    occ2: u64,
    own2: u64,
    att2: u64,
    s: int,
    t: int,
    mask: u64,
    po: Option<int>,
    pn: Option<int>,
)
    requires
        0 <= s < 64,
        0 <= t < 64,
        s != t,
        forall|j: int|
            0 <= j < 64 && j != s && j != t ==> bit_set(occ2, j) == bit_set(occ, j) && bit_set(
                own2,
                j,
            ) == bit_set(own, j) && bit_set(att2, j) == bit_set(att, j),
        bit_set(occ, s),
        bit_set(own, s),
        !bit_set(occ2, s),
        !bit_set(own, t),
        bit_set(occ2, t),
        bit_set(own2, t),
        pn is Some || (!bit_set(mask, t) && (po is None || (po == Some(s) && (shift > 0 ==> s
            <= from) && (shift < 0 ==> s >= from)))),
        match threat_from(from, shift, occ, own, att, mask, po) {
            Some(Attack::Check(m)) => bit_set(m.0, t),
            Some(Attack::Pin(p, m)) => p == BitCoord(bit(s)) ==> bit_set(m.0, t),
            None => true,
        },
    ensures
        !is_check(threat_from(from, shift, occ2, own2, att2, mask, pn)),
    decreases
        (if shift > 0 {
            64 - from
        } else {
            from + 1
        }),
{
    if pn is Some {
        lemma_shielded(from, shift, occ2, own2, att2, mask, pn->0);
    } else if shift != 0 && step_ok(from, shift) {
        let to = from + shift;
        let passed = mask | bit(to);
        lemma_has_ops(mask, bit(to), t);
        lemma_bit_distinct(to, t);
        if to == t {
            lemma_shielded(to, shift, occ2, own2, att2, passed, t);
        } else if to == s {
            lemma_line_stays_safe(
                to,
                shift,
                occ,
                own,
                att,
                occ2,
                own2,
                att2,
                s,
                t,
                passed,
                Some(s),
                None,
            );
        } else if !bit_set(occ, to) {
            lemma_line_stays_safe(
                to,
                shift,
                occ,
                own,
                att,
                occ2,
                own2,
                att2,
                s,
                t,
                passed,
                po,
                None,
            );
        } else if bit_set(own, to) {
            lemma_shielded(to, shift, occ2, own2, att2, passed, to);
        }
    }
}

/// A square that answers every check lies among the squares of each
/// check.
proof fn lemma_allowed_member(attacks: Seq<Attack>, n: int, i: int, t: int)
    requires
        0 <= i < n <= attacks.len(),
        0 <= t < 64,
        bit_set(allowed_mask(attacks, n), t),
    ensures
        attacks[i] matches Attack::Check(m) ==> bit_set(m.0, t),
    decreases n,
{
    let prev = allowed_mask(attacks, n - 1);
    match attacks[n - 1] {
        Attack::Check(m) => {
            lemma_has_ops(prev, m.0, t);
        },
        Attack::Pin(_, _) => {},
    }
    if i < n - 1 {
        lemma_allowed_member(attacks, n - 1, i, t);
    }
}

/// A square that keeps every pin of a piece lies among the squares of
/// each pin of that piece.
proof fn lemma_pin_member(attacks: Seq<Attack>, coord: BitCoord, n: int, i: int, t: int)
    requires
        0 <= i < n <= attacks.len(),
        0 <= t < 64,
        bit_set(pin_mask(attacks, coord, n), t),
    ensures
        attacks[i] matches Attack::Pin(c, m) ==> (c == coord ==> bit_set(m.0, t)),
    decreases n,
{
    let prev = pin_mask(attacks, coord, n - 1);
    match attacks[n - 1] {
        Attack::Pin(c, m) => {
            if c == coord {
                lemma_has_ops(prev, m.0, t);
            }
        },
        Attack::Check(_) => {},
    }
    if i < n - 1 {
        lemma_pin_member(attacks, coord, n - 1, i, t);
    }
}

/// The threat along a line is listed among the threats along the lines.
proof fn lemma_line_threat_listed(own: Pieces, enemy: Pieces, sq: int, n: int, i: int) -> (ix: int)
    requires
        0 <= i < n <= 8,
        line_threat(own, enemy, sq, i) is Some,
    ensures
        0 <= ix < line_threats(own, enemy, sq, n).len(),
        line_threats(own, enemy, sq, n)[ix] == line_threat(own, enemy, sq, i)->0,
    decreases n,
{
    let prev = line_threats(own, enemy, sq, n - 1);
    if i < n - 1 {
        lemma_line_threat_listed(own, enemy, sq, n - 1, i)
    } else {
        prev.len() as int
    }
}

/// A knight, king or pawn that attacks the king is listed as a check that
/// only its capture answers.
proof fn lemma_contact_check_listed(checkers: u64, n: int, j: int) -> (ix: int)
    requires
        0 <= j < n <= 64,
        bit_set(checkers, j),
    ensures
        0 <= ix < contact_checks(checkers, n).len(),
        contact_checks(checkers, n)[ix] == Attack::Check(BitBoard(bit(j))),
    decreases n,
{
    let prev = contact_checks(checkers, n - 1);
    if j < n - 1 {
        lemma_contact_check_listed(checkers, n - 1, j)
    } else {
        prev.len() as int
    }
}

/// The pieces of the side to move once `piece` has gone from `src` to
/// `tgt`, where it stands as `placed`.
pub open spec fn own_after(own: Pieces, piece: Piece, src: BitCoord, tgt: BitCoord, placed: Piece) -> Pieces {
    own.without_piece(piece, src).with_piece(placed, tgt)
}

/// The pieces of the other side once what stood on `tgt` is taken.
pub open spec fn enemy_after(enemy: Pieces, tgt: BitCoord) -> Pieces {
    match enemy.piece_at(tgt) {
        Some(pc) => enemy.without_piece(pc, tgt),
        None => enemy,
    }
}

/// No two sets of a side hold the same square.
proof fn lemma_disjoint_bits(p: Pieces, j: int)
    requires
        p.wf(),
        0 <= j < 64,
    ensures
        !(bit_set(p.king.0, j) && bit_set(p.queens.0, j)),
        !(bit_set(p.king.0, j) && bit_set(p.rooks.0, j)),
        !(bit_set(p.king.0, j) && bit_set(p.bishops.0, j)),
        !(bit_set(p.king.0, j) && bit_set(p.knights.0, j)),
        !(bit_set(p.king.0, j) && bit_set(p.pawns.0, j)),
        !(bit_set(p.queens.0, j) && bit_set(p.rooks.0, j)),
        !(bit_set(p.queens.0, j) && bit_set(p.bishops.0, j)),
        !(bit_set(p.queens.0, j) && bit_set(p.knights.0, j)),
        !(bit_set(p.queens.0, j) && bit_set(p.pawns.0, j)),
        !(bit_set(p.rooks.0, j) && bit_set(p.bishops.0, j)),
        !(bit_set(p.rooks.0, j) && bit_set(p.knights.0, j)),
        !(bit_set(p.rooks.0, j) && bit_set(p.pawns.0, j)),
        !(bit_set(p.bishops.0, j) && bit_set(p.knights.0, j)),
        !(bit_set(p.bishops.0, j) && bit_set(p.pawns.0, j)),
        !(bit_set(p.knights.0, j) && bit_set(p.pawns.0, j)),
{
    lemma_has_ops(p.king.0, p.queens.0, j);
    lemma_has_ops(p.king.0, p.rooks.0, j);
    lemma_has_ops(p.king.0, p.bishops.0, j);
    lemma_has_ops(p.king.0, p.knights.0, j);
    lemma_has_ops(p.king.0, p.pawns.0, j);
    lemma_has_ops(p.queens.0, p.rooks.0, j);
    lemma_has_ops(p.queens.0, p.bishops.0, j);
    lemma_has_ops(p.queens.0, p.knights.0, j);
    lemma_has_ops(p.queens.0, p.pawns.0, j);
    lemma_has_ops(p.rooks.0, p.bishops.0, j);
    lemma_has_ops(p.rooks.0, p.knights.0, j);
    lemma_has_ops(p.rooks.0, p.pawns.0, j);
    lemma_has_ops(p.bishops.0, p.knights.0, j);
    lemma_has_ops(p.bishops.0, p.pawns.0, j);
    lemma_has_ops(p.knights.0, p.pawns.0, j);
}

/// Taking the square with index `i` out of a set, bit by bit, for each of
/// the six sets of a side.
proof fn lemma_removal_bits(p: Pieces, c: BitCoord, j: int)
    requires
        c.wf(),
        0 <= j < 64,
    ensures
        bit_set(p.king.0 & !c.0, j) == (bit_set(p.king.0, j) && j != c.index()),
        bit_set(p.queens.0 & !c.0, j) == (bit_set(p.queens.0, j) && j != c.index()),
        bit_set(p.rooks.0 & !c.0, j) == (bit_set(p.rooks.0, j) && j != c.index()),
        bit_set(p.bishops.0 & !c.0, j) == (bit_set(p.bishops.0, j) && j != c.index()),
        bit_set(p.knights.0 & !c.0, j) == (bit_set(p.knights.0, j) && j != c.index()),
        bit_set(p.pawns.0 & !c.0, j) == (bit_set(p.pawns.0, j) && j != c.index()),
        bit_set(c.0, j) == (j == c.index()),
{
    lemma_single(c.0);
    lemma_bit_distinct(c.index(), j);
    lemma_has_ops(c.0, 0, j);
    lemma_has_ops(p.king.0, !c.0, j);
    lemma_has_ops(p.queens.0, !c.0, j);
    lemma_has_ops(p.rooks.0, !c.0, j);
    lemma_has_ops(p.bishops.0, !c.0, j);
    lemma_has_ops(p.knights.0, !c.0, j);
    lemma_has_ops(p.pawns.0, !c.0, j);
}

/// Once what stood on `tgt` is taken, a square holds a piece of a kind
/// exactly when it held that piece before and is not `tgt`.
proof fn lemma_capture_bits(enemy: Pieces, tgt: BitCoord, j: int)
    requires
        enemy.wf(),
        tgt.wf(),
        0 <= j < 64,
    ensures
        bit_set(enemy_after(enemy, tgt).occupancy(), j) == (bit_set(enemy.occupancy(), j) && j
            != tgt.index()),
        bit_set(enemy_after(enemy, tgt).king.0, j) == (bit_set(enemy.king.0, j) && j
            != tgt.index()),
        bit_set(enemy_after(enemy, tgt).queens.0, j) == (bit_set(enemy.queens.0, j) && j
            != tgt.index()),
        bit_set(enemy_after(enemy, tgt).rooks.0, j) == (bit_set(enemy.rooks.0, j) && j
            != tgt.index()),
        bit_set(enemy_after(enemy, tgt).bishops.0, j) == (bit_set(enemy.bishops.0, j) && j
            != tgt.index()),
        bit_set(enemy_after(enemy, tgt).knights.0, j) == (bit_set(enemy.knights.0, j) && j
            != tgt.index()),
        bit_set(enemy_after(enemy, tgt).pawns.0, j) == (bit_set(enemy.pawns.0, j) && j
            != tgt.index()),
{
    let t = tgt.index();
    lemma_single(tgt.0);
    lemma_removal_bits(enemy, tgt, j);
    lemma_disjoint_bits(enemy, j);
    lemma_occupancy_bit(enemy, j);
    lemma_occupancy_bit(enemy_after(enemy, tgt), j);
}

/// Once a piece has gone from `src` to `tgt`, a square holds a piece of
/// the mover exactly when it is `tgt` or held one before and is not
/// `src`.
proof fn lemma_mover_bits(own: Pieces, piece: Piece, src: BitCoord, tgt: BitCoord, placed: Piece, j: int)
    requires
        own.wf(),
        src.wf(),
        tgt.wf(),
        own.board(piece).0 & src.0 != 0,
        0 <= j < 64,
    ensures
        bit_set(own_after(own, piece, src, tgt, placed).occupancy(), j) == (j == tgt.index() || (
        bit_set(own.occupancy(), j) && j != src.index())),
        bit_set(own.occupancy(), src.index()),
{
    let s = src.index();
    let t = tgt.index();
    lemma_single(src.0);
    lemma_single(tgt.0);
    let own1 = own.without_piece(piece, src);
    let own2 = own_after(own, piece, src, tgt, placed);
    lemma_removal_bits(own, src, j);
    lemma_removal_bits(own, src, s);
    lemma_removal_bits(own, tgt, j);
    lemma_disjoint_bits(own, j);
    lemma_occupancy_bit(own, j);
    lemma_occupancy_bit(own, s);
    lemma_occupancy_bit(own2, j);
    lemma_bit_distinct(s, s);
    lemma_has_ops(own1.king.0, tgt.0, j);
    lemma_has_ops(own1.queens.0, tgt.0, j);
    lemma_has_ops(own1.rooks.0, tgt.0, j);
    lemma_has_ops(own1.bishops.0, tgt.0, j);
    lemma_has_ops(own1.knights.0, tgt.0, j);
    lemma_has_ops(own1.pawns.0, tgt.0, j);
}

/// Bit by bit, what a move changes for the scan of a line: the squares
/// that hold a piece, those that hold a piece of the mover, and those
/// that hold an attacker along the direction with number `i`.
proof fn lemma_after_bits(
    own: Pieces,
    enemy: Pieces,
    piece: Piece,
    src: BitCoord,
    tgt: BitCoord,
    placed: Piece,
    i: int,
    j: int,
)
    requires
        own.wf(),
        enemy.wf(),
        own.occupancy() & enemy.occupancy() == 0,
        src.wf(),
        tgt.wf(),
        own.board(piece).0 & src.0 != 0,
        own.occupancy() & tgt.0 == 0,
        0 <= j < 64,
    ensures
        bit_set(
            own_after(own, piece, src, tgt, placed).occupancy() | enemy_after(
                enemy,
                tgt,
            ).occupancy(),
            j,
        ) == (j == tgt.index() || (bit_set(own.occupancy() | enemy.occupancy(), j) && j
            != src.index())),
        bit_set(own_after(own, piece, src, tgt, placed).occupancy(), j) == (j == tgt.index() || (
        bit_set(own.occupancy(), j) && j != src.index())),
        bit_set(line_attackers(enemy_after(enemy, tgt), direction(i)), j) == (bit_set(
            line_attackers(enemy, direction(i)),
            j,
        ) && j != tgt.index()),
        bit_set(own.occupancy(), src.index()),
        bit_set(own.occupancy() | enemy.occupancy(), src.index()),
        !bit_set(own.occupancy(), tgt.index()),
        src.index() != tgt.index(),
        0 <= src.index() < 64,
        0 <= tgt.index() < 64,
{
    let own2 = own_after(own, piece, src, tgt, placed);
    let enemy2 = enemy_after(enemy, tgt);
    let s = src.index();
    let t = tgt.index();
    lemma_single(src.0);
    lemma_single(tgt.0);
    lemma_mover_bits(own, piece, src, tgt, placed, j);
    lemma_capture_bits(enemy, tgt, j);
    lemma_has_ops(own.occupancy(), enemy.occupancy(), j);
    lemma_has_ops(own2.occupancy(), enemy2.occupancy(), j);
    lemma_has_ops(enemy.rooks.0, enemy.queens.0, j);
    lemma_has_ops(enemy.bishops.0, enemy.queens.0, j);
    lemma_has_ops(enemy2.rooks.0, enemy2.queens.0, j);
    lemma_has_ops(enemy2.bishops.0, enemy2.queens.0, j);
    lemma_has_ops(own.occupancy(), enemy.occupancy(), s);
    lemma_has_ops(own.occupancy(), tgt.0, t);
    lemma_bit_distinct(t, t);
}

/// A square that answers every check and keeps every pin of the piece on
/// `src` lies among the squares of what threatens the king along each
/// line, where that is a check or a pin of that piece.
proof fn lemma_respects_line(state: GameState, src: BitCoord, tgt: BitCoord, i: int)
    requires
        tgt.wf(),
        king_square(state.side(state.active_colour).pieces) is Some,
        0 <= i < 8,
        bit_set(allowed_mask(threats(state), threats(state).len() as int), tgt.index()),
        bit_set(pin_mask(threats(state), src, threats(state).len() as int), tgt.index()),
    ensures
        match line_threat(
            state.side(state.active_colour).pieces,
            state.side(Colour::other_spec(state.active_colour)).pieces,
            king_square(state.side(state.active_colour).pieces)->0,
            i,
        ) {
            Some(Attack::Check(m)) => bit_set(m.0, tgt.index()),
            Some(Attack::Pin(p, m)) => p == src ==> bit_set(m.0, tgt.index()),
            None => true,
        },
{
    let me = state.active_colour;
    let own = state.side(me).pieces;
    let enemy = state.side(Colour::other_spec(me)).pieces;
    let k = king_square(own)->0;
    let t = tgt.index();
    lemma_single(tgt.0);
    let before = line_threat(own, enemy, k, i);
    let all = threats(state);
    if before is Some {
        let ix = lemma_line_threat_listed(own, enemy, k, 8, i);
        assert(all[ix] == before->0);
        lemma_allowed_member(all, all.len() as int, ix, t);
        lemma_pin_member(all, src, all.len() as int, ix, t);
    }
}

/// After a piece went to a square that lies among the squares of what
/// threatened the king along a line, where that was a check or a pin of
/// the piece, the line holds no check.
proof fn lemma_line_safe_after(
    own: Pieces,
    enemy: Pieces,
    piece: Piece,
    src: BitCoord,
    tgt: BitCoord,
    placed: Piece,
    k: int,
    i: int,
)
    requires
        own.wf(),
        enemy.wf(),
        own.occupancy() & enemy.occupancy() == 0,
        src.wf(),
        tgt.wf(),
        own.board(piece).0 & src.0 != 0,
        own.occupancy() & tgt.0 == 0,
        match line_threat(own, enemy, k, i) {
            Some(Attack::Check(m)) => bit_set(m.0, tgt.index()),
            Some(Attack::Pin(p, m)) => p == src ==> bit_set(m.0, tgt.index()),
            None => true,
        },
    ensures
        !is_check(
            line_threat(own_after(own, piece, src, tgt, placed), enemy_after(enemy, tgt), k, i),
        ),
{
    let own2 = own_after(own, piece, src, tgt, placed);
    let enemy2 = enemy_after(enemy, tgt);
    let s = src.index();
    let t = tgt.index();
    let d = direction(i);
    let occ = own.occupancy() | enemy.occupancy();
    let occ2 = own2.occupancy() | enemy2.occupancy();
    let mine = own.occupancy();
    let mine2 = own2.occupancy();
    let att = line_attackers(enemy, d);
    let att2 = line_attackers(enemy2, d);
    lemma_after_bits(own, enemy, piece, src, tgt, placed, i, 0);
    assert forall|j: int|
        0 <= j < 64 && j != s && j != t implies bit_set(occ2, j) == bit_set(occ, j) && bit_set(
        mine2,
        j,
    ) == bit_set(mine, j) && bit_set(att2, j) == bit_set(att, j) by {
        lemma_after_bits(own, enemy, piece, src, tgt, placed, i, j);
    }
    lemma_after_bits(own, enemy, piece, src, tgt, placed, i, s);
    lemma_after_bits(own, enemy, piece, src, tgt, placed, i, t);
    lemma_has_ops(0, 0, t);
    lemma_single(src.0);
    assert(src == BitCoord(bit(s)));
    lemma_line_stays_safe(k, d, occ, mine, att, occ2, mine2, att2, s, t, 0, None, None);
}

/// After a piece went to a square that answers every check, no knight,
/// king or pawn of the other side attacks the king.
proof fn lemma_contact_safe_after(state: GameState, tgt: BitCoord)
    requires
        state.wf(),
        tgt.wf(),
        king_square(state.side(state.active_colour).pieces) is Some,
        bit_set(allowed_mask(threats(state), threats(state).len() as int), tgt.index()),
    ensures
        contact_checkers(
            enemy_after(state.side(Colour::other_spec(state.active_colour)).pieces, tgt),
            king_square(state.side(state.active_colour).pieces)->0,
            state.active_colour,
        ) == 0,
{
    let me = state.active_colour;
    let own = state.side(me).pieces;
    let enemy = state.side(Colour::other_spec(me)).pieces;
    let enemy2 = enemy_after(enemy, tgt);
    let k = king_square(own)->0;
    let t = tgt.index();
    let before = contact_checkers(enemy, k, me);
    let after = contact_checkers(enemy2, k, me);
    lemma_single(tgt.0);
    if after != 0 {
        lemma_low_index(after);
        let j = low_index(after);
        lemma_capture_bits(enemy, tgt, j);
        let n = knight_attacks(k);
        let g = king_attacks(k);
        let p = pawn_attackers(k, me);
        lemma_has_ops(n & enemy2.knights.0, g & enemy2.king.0, j);
        lemma_has_ops((n & enemy2.knights.0) | (g & enemy2.king.0), p & enemy2.pawns.0, j);
        lemma_has_ops(n, enemy2.knights.0, j);
        lemma_has_ops(g, enemy2.king.0, j);
        lemma_has_ops(p, enemy2.pawns.0, j);
        lemma_has_ops(n & enemy.knights.0, g & enemy.king.0, j);
        lemma_has_ops((n & enemy.knights.0) | (g & enemy.king.0), p & enemy.pawns.0, j);
        lemma_has_ops(n, enemy.knights.0, j);
        lemma_has_ops(g, enemy.king.0, j);
        lemma_has_ops(p, enemy.pawns.0, j);
        assert(bit_set(before, j) && j != t);
        let lines = line_threats(own, enemy, k, 8);
        let ix = lemma_contact_check_listed(before, 64, j);
        let all = threats(state);
        assert(all[lines.len() + ix] == Attack::Check(BitBoard(bit(j))));
        lemma_allowed_member(all, all.len() as int, lines.len() + ix, t);
        lemma_bit_distinct(j, t);
    }
}

/// After a piece other than the king went to a square that answers every
/// check and keeps every pin of the piece, and took no pawn en passant,
/// the king of the side that moved is not attacked.
proof fn lemma_piece_move_safe(
    state: GameState,
    piece: Piece,
    src: BitCoord,
    tgt: BitCoord,
    placed: Piece,
)
    requires
        state.wf(),
        src.wf(),
        tgt.wf(),
        piece != Piece::King,
        placed != Piece::King,
        placed == piece || piece == Piece::Pawn,
        state.side(state.active_colour).pieces.board(piece).0 & src.0 != 0,
        state.side(state.active_colour).pieces.occupancy() & tgt.0 == 0,
        !(piece == Piece::Pawn && state.en_passant == Some(tgt)),
        bit_set(allowed_mask(threats(state), threats(state).len() as int), tgt.index()),
        bit_set(pin_mask(threats(state), src, threats(state).len() as int), tgt.index()),
    ensures
        !state.ticked().shifted(piece, src, tgt, placed).passed().passed().in_check(),
{
    let me = state.active_colour;
    let you = Colour::other_spec(me);
    let own = state.side(me).pieces;
    let enemy = state.side(you).pieces;
    let own2 = own_after(own, piece, src, tgt, placed);
    let enemy2 = enemy_after(enemy, tgt);
    let after = state.ticked().shifted(piece, src, tgt, placed).passed().passed();
    assert(after.active_colour == me);
    assert(after.side(me).pieces == own2);
    assert(after.side(you).pieces == enemy2);
    let own1 = own.without_piece(piece, src);
    assert(own1.king == own.king) by {
        match piece {
            Piece::King => {},
            Piece::Queen => {},
            Piece::Rook => {},
            Piece::Bishop => {},
            Piece::Knight => {},
            Piece::Pawn => {},
        }
    }
    assert(own2.king == own1.king) by {
        match placed {
            Piece::King => {},
            Piece::Queen => {},
            Piece::Rook => {},
            Piece::Bishop => {},
            Piece::Knight => {},
            Piece::Pawn => {},
        }
    }
    lemma_shifted_wf(state.ticked(), piece, src, tgt, placed);
    bv_pair(after.white.pieces.occupancy(), after.black.pieces.occupancy(), 0, 0);
    bv_pair(state.white.pieces.occupancy(), state.black.pieces.occupancy(), 0, 0);
    match king_square(own) {
        Some(k) => {
            lemma_respects_line(state, src, tgt, 0);
            lemma_respects_line(state, src, tgt, 1);
            lemma_respects_line(state, src, tgt, 2);
            lemma_respects_line(state, src, tgt, 3);
            lemma_respects_line(state, src, tgt, 4);
            lemma_respects_line(state, src, tgt, 5);
            lemma_respects_line(state, src, tgt, 6);
            lemma_respects_line(state, src, tgt, 7);
            lemma_line_safe_after(own, enemy, piece, src, tgt, placed, k, 0);
            lemma_line_safe_after(own, enemy, piece, src, tgt, placed, k, 1);
            lemma_line_safe_after(own, enemy, piece, src, tgt, placed, k, 2);
            lemma_line_safe_after(own, enemy, piece, src, tgt, placed, k, 3);
            lemma_line_safe_after(own, enemy, piece, src, tgt, placed, k, 4);
            lemma_line_safe_after(own, enemy, piece, src, tgt, placed, k, 5);
            lemma_line_safe_after(own, enemy, piece, src, tgt, placed, k, 6);
            lemma_line_safe_after(own, enemy, piece, src, tgt, placed, k, 7);
            lemma_contact_safe_after(state, tgt);
            lemma_attacked_iff_checked(own2, enemy2, k, me);
        },
        None => {},
    }
}

/// After a capture en passant the king of the side that moved is
/// attacked exactly where the capture is not safe.
proof fn lemma_en_passant_outcome(state: GameState, src: BitCoord, tgt: BitCoord)
    requires
        state.wf(),
        en_passant_sound(state),
        state.en_passant == Some(tgt),
        src.wf(),
        state.side(state.active_colour).pieces.pawns.0 & src.0 != 0,
    ensures
        state.moved(Move::Normal(Piece::Pawn, src, tgt)).passed().in_check() == !en_passant_safe(
            state,
            src.index(),
        ),
{
    let me = state.active_colour;
    let you = Colour::other_spec(me);
    let own = state.side(me).pieces;
    let enemy = state.side(you).pieces;
    let s = src.index();
    let ep = en_passant_bit(state);
    let victim = en_passant_victim(me, tgt);
    lemma_single(src.0);
    lemma_single(tgt.0);
    bv_pair(state.white.pieces.occupancy(), state.black.pieces.occupancy(), tgt.0, 0);
    bv_pair(state.white.pieces.occupancy(), state.black.pieces.occupancy(), 0, 0);
    lemma_occupancy(enemy, tgt.0);
    assert(enemy.board(Piece::King).0 & tgt.0 == 0);
    assert(enemy.board(Piece::Queen).0 & tgt.0 == 0);
    assert(enemy.board(Piece::Rook).0 & tgt.0 == 0);
    assert(enemy.board(Piece::Bishop).0 & tgt.0 == 0);
    assert(enemy.board(Piece::Knight).0 & tgt.0 == 0);
    assert(enemy.board(Piece::Pawn).0 & tgt.0 == 0);
    assert(enemy.piece_at(tgt) is None);
    let own2 = own_after(own, Piece::Pawn, src, tgt, Piece::Pawn);
    let enemy2 = enemy.without_piece(Piece::Pawn, victim);
    let after = state.moved(Move::Normal(Piece::Pawn, src, tgt)).passed();
    assert(after.active_colour == me);
    assert(after.side(me).pieces == own2);
    assert(after.side(you).pieces == enemy2);
    assert(own2.king == own.king);
    match king_square(own) {
        Some(k) => {
            let occ2 = own2.occupancy() | enemy2.occupancy();
            let sim = ((own.occupancy() | enemy.occupancy()) & !bit(s) & !victim.0) | ep;
            lemma_rank_shift(tgt);
            bv_masks(enemy.pawns.0, 0, 0);
            assert(victim.wf());
            assert forall|j: int| 0 <= j < 64 implies bit_set(occ2, j) == bit_set(sim, j) by {
                lemma_en_passant_bits(own, enemy, src, tgt, victim, j);
            }
            lemma_same_bits(occ2, sim);
        },
        None => {},
    }
}

/// A legal capture en passant leaves the king of the side that moved out
/// of check.
proof fn lemma_en_passant_capture_safe(state: GameState, src: BitCoord, tgt: BitCoord)
    requires
        state.wf(),
        en_passant_sound(state),
        state.en_passant == Some(tgt),
        is_legal(state, Move::Normal(Piece::Pawn, src, tgt)),
    ensures
        !state.moved(Move::Normal(Piece::Pawn, src, tgt)).passed().in_check(),
{
    let me = state.active_colour;
    let own = state.side(me).pieces;
    let enemy = state.side(Colour::other_spec(me)).pieces;
    let s = src.index();
    let t = tgt.index();
    let ep = en_passant_bit(state);
    lemma_single(src.0);
    lemma_single(tgt.0);
    lemma_target_free(state, s, t);
    let pseudo = piece_targets(own, enemy, ep, s, me);
    let att = threats(state);
    let restricted = pseudo & allowed_mask(att, att.len() as int) & pin_mask(
        att,
        BitCoord(bit(s)),
        att.len() as int,
    );
    lemma_has_ops(pseudo, ep, t);
    lemma_has_ops(restricted, !ep, t);
    lemma_has_ops(ep, 0, t);
    lemma_bit_distinct(t, t);
    assert(pseudo & ep != 0);
    assert(en_passant_safe(state, s));
    lemma_en_passant_outcome(state, src, tgt);
}

/// Bit by bit, the squares that hold a piece after a capture en passant:
/// those that held one before but for the squares of the two pawns, and
/// the target.
proof fn lemma_en_passant_bits(
    own: Pieces,
    enemy: Pieces,
    src: BitCoord,
    tgt: BitCoord,
    victim: BitCoord,
    j: int,
)
    requires
        own.wf(),
        enemy.wf(),
        own.occupancy() & enemy.occupancy() == 0,
        src.wf(),
        tgt.wf(),
        victim.wf(),
        own.pawns.0 & src.0 != 0,
        enemy.pawns.0 & victim.0 != 0,
        0 <= j < 64,
    ensures
        bit_set(
            own_after(own, Piece::Pawn, src, tgt, Piece::Pawn).occupancy() | enemy.without_piece(
                Piece::Pawn,
                victim,
            ).occupancy(),
            j,
        ) == bit_set(
            ((own.occupancy() | enemy.occupancy()) & !bit(src.index()) & !victim.0) | tgt.0,
            j,
        ),
{
    let s = src.index();
    let t = tgt.index();
    let v = victim.index();
    let own2 = own_after(own, Piece::Pawn, src, tgt, Piece::Pawn);
    let enemy2 = enemy.without_piece(Piece::Pawn, victim);
    let occ = own.occupancy() | enemy.occupancy();
    lemma_single(src.0);
    lemma_single(tgt.0);
    lemma_single(victim.0);
    lemma_mover_bits(own, Piece::Pawn, src, tgt, Piece::Pawn, j);
    lemma_removal_bits(enemy, victim, j);
    lemma_removal_bits(enemy, victim, v);
    lemma_removal_bits(own, src, j);
    lemma_removal_bits(own, tgt, j);
    lemma_disjoint_bits(enemy, j);
    lemma_disjoint_bits(enemy, v);
    lemma_occupancy_bit(enemy, j);
    lemma_occupancy_bit(enemy, v);
    lemma_occupancy_bit(enemy2, j);
    lemma_occupancy_bit(own, s);
    lemma_bit_distinct(v, v);
    lemma_bit_distinct(s, s);
    lemma_has_ops(enemy.pawns.0, victim.0, v);
    lemma_has_ops(own.pawns.0, src.0, s);
    lemma_has_ops(own.occupancy(), enemy.occupancy(), j);
    lemma_has_ops(own.occupancy(), enemy.occupancy(), s);
    lemma_has_ops(own.occupancy(), enemy.occupancy(), v);
    lemma_has_ops(own2.occupancy(), enemy2.occupancy(), j);
    lemma_has_ops(occ, !bit(s), j);
    lemma_has_ops(bit(s), 0, j);
    lemma_has_ops(occ & !bit(s), !victim.0, j);
    lemma_has_ops(victim.0, 0, j);
    lemma_has_ops(occ & !bit(s) & !victim.0, tgt.0, j);
    lemma_bit_distinct(s, j);
    lemma_bit_distinct(v, j);
    lemma_bit_distinct(t, j);
}

/// No move in the list of legal moves leaves the king of the side that
/// moved in check.
pub proof fn lemma_legal_moves_safe(state: GameState)
    requires
        state.wf(),
        en_passant_sound(state),
    ensures
        forall|i: int|
            0 <= i < legal_moves_spec(state).len() ==> !state.moved(
                #[trigger] legal_moves_spec(state)[i],
            ).passed().in_check(),
{
    let moves = legal_moves_spec(state);
    assert forall|i: int| 0 <= i < moves.len() implies !state.moved(
        #[trigger] moves[i],
    ).passed().in_check() by {
        assert(moves.contains(moves[i]));
        lemma_listed_iff_legal(state, moves[i]);
        lemma_legal_move_is_safe(state, moves[i]);
    }
}

/// No legal move leaves the king of the side that moved in check: in the
/// position after the move, seen again from the side that moved, the
/// other side does not attack its king.
pub proof fn lemma_legal_move_is_safe(state: GameState, m: Move)
    requires
        state.wf(),
        en_passant_sound(state),
        is_legal(state, m),
    ensures
        !state.moved(m).passed().in_check(),
{
    let me = state.active_colour;
    let own = state.side(me).pieces;
    let enemy = state.side(Colour::other_spec(me)).pieces;
    let ep = en_passant_bit(state);
    match m {
        Move::Normal(piece, src, tgt) => {
            if piece == Piece::King {
                lemma_king_step_safe(state, src, tgt);
            } else if piece == Piece::Pawn && state.en_passant == Some(tgt) {
                lemma_en_passant_capture_safe(state, src, tgt);
            } else {
                lemma_restricted(state, piece, src, tgt);
                lemma_piece_move_safe(state, piece, src, tgt, piece);
            }
        },
        Move::Promotion(src, tgt, pc) => {
            if state.en_passant == Some(tgt) {
                lemma_single(tgt.0);
                bv_pawn_ranks(tgt.index() as u64);
            }
            lemma_restricted(state, Piece::Pawn, src, tgt);
            lemma_piece_move_safe(state, Piece::Pawn, src, tgt, pc);
        },
        Move::Castle => {
            lemma_castle_short_safe(state);
        },
        Move::LongCastle => {
            lemma_castle_long_safe(state);
        },
    }
}

/// A square that a piece other than the king may go to, other than by a
/// capture en passant, answers every check and keeps every pin of the
/// piece; the piece stands on its square and none of its side on the
/// other.
proof fn lemma_restricted(state: GameState, piece: Piece, src: BitCoord, tgt: BitCoord)
    requires
        state.wf(),
        src.wf(),
        tgt.wf(),
        piece != Piece::King,
        state.side(state.active_colour).pieces.piece_at(src) == Some(piece),
        bit_set(legal_targets(state, src.index()), tgt.index()),
        !(piece == Piece::Pawn && state.en_passant == Some(tgt)),
    ensures
        bit_set(allowed_mask(threats(state), threats(state).len() as int), tgt.index()),
        bit_set(pin_mask(threats(state), src, threats(state).len() as int), tgt.index()),
        state.side(state.active_colour).pieces.board(piece).0 & src.0 != 0,
        state.side(state.active_colour).pieces.occupancy() & tgt.0 == 0,
{
    let me = state.active_colour;
    let own = state.side(me).pieces;
    let enemy = state.side(Colour::other_spec(me)).pieces;
    let s = src.index();
    let t = tgt.index();
    let ep = en_passant_bit(state);
    lemma_single(src.0);
    lemma_single(tgt.0);
    lemma_target_free(state, s, t);
    let pseudo = piece_targets(own, enemy, ep, s, me);
    let att = threats(state);
    let a = allowed_mask(att, att.len() as int);
    let b = pin_mask(att, BitCoord(bit(s)), att.len() as int);
    let restricted = pseudo & a & b;
    lemma_has_ops(pseudo & a, b, t);
    lemma_has_ops(pseudo, a, t);
    lemma_has_ops(restricted, ep, t);
    lemma_has_ops(restricted, !ep, t);
    match state.en_passant {
        Some(e) => {
            lemma_single(e.0);
            lemma_bit_distinct(e.index(), t);
        },
        None => {
            lemma_has_ops(0, 0, t);
        },
    }
}

/// A square on a ray lies at least one step ahead.
proof fn lemma_on_ray_bounds(from: int, shift: int, t: int)
    requires
        on_ray(from, shift, t),
    ensures
        shift > 0 ==> t >= from + shift,
        shift < 0 ==> t <= from + shift,
    decreases
        (if shift > 0 {
            64 - from
        } else {
            from + 1
        }),
{
    if t != from + shift {
        lemma_on_ray_bounds(from + shift, shift, t);
    }
}

/// No piece off a line is pinned along it.
proof fn lemma_no_pin_off_ray(
    from: int,
    shift: int,
    occ: u64,
    own: u64,
    attackers: u64,
    mask: u64,
    pinned: Option<int>,
    c: int,
)
    requires
        0 <= c < 64,
        !on_ray(from, shift, c),
        pinned matches Some(q) ==> q != c && 0 <= q < 64,
    ensures
        threat_from(from, shift, occ, own, attackers, mask, pinned) matches Some(
            Attack::Pin(p, _),
        ) ==> p != BitCoord(bit(c)),
    decreases
        (if shift > 0 {
            64 - from
        } else {
            from + 1
        }),
{
    if shift != 0 && step_ok(from, shift) {
        let to = from + shift;
        let passed = mask | bit(to);
        if !bit_set(occ, to) {
            lemma_no_pin_off_ray(to, shift, occ, own, attackers, passed, pinned, c);
        } else if bit_set(own, to) {
            if pinned is None {
                lemma_no_pin_off_ray(to, shift, occ, own, attackers, passed, Some(to), c);
            }
        } else if bit_set(attackers, to) {
            match pinned {
                Some(q) => {
                    lemma_bit_distinct(q, c);
                },
                None => {},
            }
        }
    }
}

/// The scan of a line from a square does not look at the square itself.
proof fn lemma_threat_ignores(
    from: int,
    shift: int,
    occ: u64,
    own: u64,
    occ2: u64,
    own2: u64,
    attackers: u64,
    mask: u64,
    pinned: Option<int>,
    origin: int,
)
    requires
        shift > 0 ==> origin <= from,
        shift < 0 ==> origin >= from,
        forall|j: int|
            0 <= j < 64 && j != origin ==> bit_set(occ, j) == bit_set(occ2, j) && bit_set(own, j)
                == bit_set(own2, j),
    ensures
        threat_from(from, shift, occ, own, attackers, mask, pinned) == threat_from(
            from,
            shift,
            occ2,
            own2,
            attackers,
            mask,
            pinned,
        ),
    decreases
        (if shift > 0 {
            64 - from
        } else {
            from + 1
        }),
{
    if shift != 0 && step_ok(from, shift) {
        let to = from + shift;
        let passed = mask | bit(to);
        lemma_threat_ignores(to, shift, occ, own, occ2, own2, attackers, passed, pinned, origin);
        lemma_threat_ignores(
            to,
            shift,
            occ,
            own,
            occ2,
            own2,
            attackers,
            passed,
            Some(to),
            origin,
        );
    }
}

/// The pieces of a side once it has castled: king and rook stand on their
/// targets.
pub open spec fn castled_pieces(
    own: Pieces,
    home: BitCoord,
    corner: BitCoord,
    king_target: BitCoord,
    rook_target: BitCoord,
) -> Pieces {
    own.without_piece(Piece::King, home).without_piece(Piece::Rook, corner).with_piece(
        Piece::King,
        king_target,
    ).with_piece(Piece::Rook, rook_target)
}

/// Bit by bit, the squares of a side without its king, and of both sides
/// once the king is taken off the board.
proof fn lemma_without_king_bits(own: Pieces, enemy: Pieces, home: BitCoord, j: int)
    requires
        own.wf(),
        own.occupancy() & enemy.occupancy() == 0,
        home.wf(),
        own.king.0 == home.0,
        0 <= j < 64,
    ensures
        bit_set(own.without_piece(Piece::King, home).occupancy() | enemy.occupancy(), j)
            == bit_set((own.occupancy() | enemy.occupancy()) & !own.king.0, j),
{
    let own1 = own.without_piece(Piece::King, home);
    lemma_single(home.0);
    lemma_removal_bits(own, home, j);
    lemma_disjoint_bits(own, j);
    lemma_occupancy_bit(own, j);
    lemma_occupancy_bit(own1, j);
    lemma_has_ops(own.occupancy(), enemy.occupancy(), j);
    lemma_has_ops(own1.occupancy(), enemy.occupancy(), j);
    lemma_has_ops(own.occupancy() | enemy.occupancy(), !own.king.0, j);
    lemma_has_ops(own.king.0, 0, j);
}

/// Bit by bit, the squares of a side once a king is put on a free square
/// of a side without king.
proof fn lemma_with_king_bits(p: Pieces, c: BitCoord, j: int)
    requires
        c.wf(),
        p.king.0 == 0,
        0 <= j < 64,
    ensures
        bit_set(p.with_piece(Piece::King, c).occupancy(), j) == (bit_set(p.occupancy(), j) || j
            == c.index()),
{
    lemma_single(c.0);
    lemma_bit_distinct(c.index(), j);
    lemma_has_ops(p.king.0, c.0, j);
    lemma_has_ops(0, 0, j);
    lemma_occupancy_bit(p, j);
    lemma_occupancy_bit(p.with_piece(Piece::King, c), j);
}

/// Whether a side can castle with the given squares as far as its own
/// pieces go: the king stands on its home square, the rook in its
/// corner, and the two targets are free of both sides.
pub open spec fn castle_ready(
    own: Pieces,
    enemy: Pieces,
    home: BitCoord,
    corner: BitCoord,
    king_target: BitCoord,
    rook_target: BitCoord,
) -> bool {
    &&& own.wf()
    &&& enemy.wf()
    &&& own.occupancy() & enemy.occupancy() == 0
    &&& home.wf()
    &&& corner.wf()
    &&& king_target.wf()
    &&& rook_target.wf()
    &&& king_target != rook_target
    &&& own.king.0 == home.0
    &&& own.rooks.0 & corner.0 != 0
    &&& (own.occupancy() | enemy.occupancy()) & (king_target.0 | rook_target.0) == 0
}

/// The steps of castling keep the sides apart: without the king, with the
/// rook moved, and with the king put on its target.
proof fn lemma_castle_steps(
    own: Pieces,
    enemy: Pieces,
    home: BitCoord,
    corner: BitCoord,
    king_target: BitCoord,
    rook_target: BitCoord,
)
    requires
        castle_ready(own, enemy, home, corner, king_target, rook_target),
    ensures
        ({
            let own1 = own.without_piece(Piece::King, home);
            let own2 = own_after(own1, Piece::Rook, corner, rook_target, Piece::Rook);
            let own4 = castled_pieces(own, home, corner, king_target, rook_target);
            &&& own1.wf()
            &&& own1.king.0 == 0
            &&& own1.occupancy() & enemy.occupancy() == 0
            &&& own1.occupancy() & rook_target.0 == 0
            &&& own1.rooks.0 & corner.0 != 0
            &&& own2.king.0 == 0
            &&& own4 == own2.with_piece(Piece::King, king_target)
            &&& own4.occupancy() & enemy.occupancy() == 0
            &&& own4.king.0 == king_target.0
            &&& enemy_after(enemy, rook_target) == enemy
        }),
{
    let kt = king_target.0;
    let rt = rook_target.0;
    let own1 = own.without_piece(Piece::King, home);
    let own1r = own1.without_piece(Piece::Rook, corner);
    let own2 = own_after(own1, Piece::Rook, corner, rook_target, Piece::Rook);
    let own4 = castled_pieces(own, home, corner, king_target, rook_target);
    lemma_single(kt);
    lemma_single(rt);
    bv_pair(own.occupancy(), enemy.occupancy(), kt | rt, 0);
    bv_pair(own.occupancy(), kt, rt, 0);
    bv_pair(enemy.occupancy(), kt, rt, 0);
    lemma_take_wf(own, Piece::King, home, enemy.occupancy());
    lemma_take_wf(own, Piece::King, home, rt);
    lemma_take_wf(own, Piece::King, home, kt);
    bv_masks(home.0, 0, 0);
    lemma_occupancy(enemy, rt);
    assert(enemy.board(Piece::King).0 & rt == 0);
    assert(enemy.board(Piece::Queen).0 & rt == 0);
    assert(enemy.board(Piece::Rook).0 & rt == 0);
    assert(enemy.board(Piece::Bishop).0 & rt == 0);
    assert(enemy.board(Piece::Knight).0 & rt == 0);
    assert(enemy.board(Piece::Pawn).0 & rt == 0);
    lemma_take_wf(own1, Piece::Rook, corner, enemy.occupancy());
    lemma_take_wf(own1, Piece::Rook, corner, rt);
    lemma_take_wf(own1, Piece::Rook, corner, kt);
    lemma_put_wf(own1r, Piece::Rook, rook_target);
    lemma_bit_distinct(king_target.index(), rook_target.index());
    bv_pair(enemy.occupancy(), rt, 0, 0);
    bv_pair(enemy.occupancy(), kt, 0, 0);
    bv_pair(rt, kt, 0, 0);
    bv_pair(kt, rt, 0, 0);
    bv_pair(own1r.occupancy(), kt, rt, 0);
    bv_pair(own1r.occupancy(), enemy.occupancy(), rt, 0);
    assert(own2.occupancy() & enemy.occupancy() == 0);
    assert(own2.occupancy() & kt == 0);
    lemma_put_wf(own2, Piece::King, king_target);
    bv_pair(own2.occupancy(), enemy.occupancy(), kt, 0);
    bv_pair(0, 0, kt, 0);
}

/// With the king off the board and the other side not attacking a
/// square, no line to the square holds a check and no knight, king or
/// pawn of the other side reaches it.
proof fn lemma_castle_target_safe(
    own: Pieces,
    enemy: Pieces,
    me: Colour,
    home: BitCoord,
    k: int,
)
    requires
        own.wf(),
        own.occupancy() & enemy.occupancy() == 0,
        home.wf(),
        own.king.0 == home.0,
        !attacked((own.occupancy() | enemy.occupancy()) & !own.king.0, enemy, k, me),
    ensures
        forall|i: int|
            0 <= i < 8 ==> !is_check(
                #[trigger] line_threat(own.without_piece(Piece::King, home), enemy, k, i),
            ),
        contact_checkers(enemy, k, me) == 0,
{
    let own1 = own.without_piece(Piece::King, home);
    let occ = own.occupancy() | enemy.occupancy();
    assert forall|j: int| 0 <= j < 64 implies bit_set(own1.occupancy() | enemy.occupancy(), j)
        == bit_set(occ & !own.king.0, j) by {
        lemma_without_king_bits(own, enemy, home, j);
    }
    lemma_same_bits(own1.occupancy() | enemy.occupancy(), occ & !own.king.0);
    lemma_take_wf(own, Piece::King, home, enemy.occupancy());
    lemma_attacked_iff_checked(own1, enemy, k, me);
}

/// After castling no line to the king holds a check, where none held one
/// with the king off the board and none pins the rook in its corner.
proof fn lemma_castle_line_safe(
    own: Pieces,
    enemy: Pieces,
    home: BitCoord,
    corner: BitCoord,
    king_target: BitCoord,
    rook_target: BitCoord,
    i: int,
)
    requires
        castle_ready(own, enemy, home, corner, king_target, rook_target),
        !is_check(
            line_threat(own.without_piece(Piece::King, home), enemy, king_target.index(), i),
        ),
        line_threat(
            own.without_piece(Piece::King, home),
            enemy,
            king_target.index(),
            i,
        ) matches Some(Attack::Pin(p, _)) ==> p != corner,
    ensures
        !is_check(
            line_threat(
                castled_pieces(own, home, corner, king_target, rook_target),
                enemy,
                king_target.index(),
                i,
            ),
        ),
{
    let k = king_target.index();
    let own1 = own.without_piece(Piece::King, home);
    let own2 = own_after(own1, Piece::Rook, corner, rook_target, Piece::Rook);
    let own4 = castled_pieces(own, home, corner, king_target, rook_target);
    lemma_castle_steps(own, enemy, home, corner, king_target, rook_target);
    lemma_line_safe_after(own1, enemy, Piece::Rook, corner, rook_target, Piece::Rook, k, i);
    let m2 = own2.occupancy();
    let m4 = own4.occupancy();
    let o2 = m2 | enemy.occupancy();
    let o4 = m4 | enemy.occupancy();
    assert forall|j: int| 0 <= j < 64 && j != k implies bit_set(o2, j) == bit_set(o4, j)
        && bit_set(m2, j) == bit_set(m4, j) by {
        lemma_with_king_bits(own2, king_target, j);
        lemma_has_ops(m2, enemy.occupancy(), j);
        lemma_has_ops(m4, enemy.occupancy(), j);
    }
    lemma_threat_ignores(
        k,
        direction(i),
        o2,
        m2,
        o4,
        m4,
        line_attackers(enemy, direction(i)),
        0,
        None,
        k,
    );
}

/// After castling the king is not attacked, where the other side did not
/// attack the king's target with the king off the board and no line from
/// the target pins the rook in its corner.
proof fn lemma_castle_safe_core(
    own: Pieces,
    enemy: Pieces,
    me: Colour,
    home: BitCoord,
    corner: BitCoord,
    king_target: BitCoord,
    rook_target: BitCoord,
)
    requires
        castle_ready(own, enemy, home, corner, king_target, rook_target),
        !attacked(
            (own.occupancy() | enemy.occupancy()) & !own.king.0,
            enemy,
            king_target.index(),
            me,
        ),
        forall|i: int|
            0 <= i < 8 ==> (#[trigger] line_threat(
                own.without_piece(Piece::King, home),
                enemy,
                king_target.index(),
                i,
            ) matches Some(Attack::Pin(p, _)) ==> p != corner),
    ensures
        !attacked(
            castled_pieces(own, home, corner, king_target, rook_target).occupancy()
                | enemy.occupancy(),
            enemy,
            king_target.index(),
            me,
        ),
{
    let k = king_target.index();
    let own1 = own.without_piece(Piece::King, home);
    let own4 = castled_pieces(own, home, corner, king_target, rook_target);
    lemma_castle_steps(own, enemy, home, corner, king_target, rook_target);
    lemma_castle_target_safe(own, enemy, me, home, k);
    assert forall|i: int| 0 <= i < 8 implies !is_check(#[trigger] line_threat(own4, enemy, k, i)) by {
        assert(!is_check(line_threat(own1, enemy, k, i)));
        assert(line_threat(own1, enemy, k, i) matches Some(Attack::Pin(p, _)) ==> p != corner);
        lemma_castle_line_safe(own, enemy, home, corner, king_target, rook_target, i);
    }
    assert(!is_check(line_threat(own4, enemy, k, 0)));
    assert(!is_check(line_threat(own4, enemy, k, 1)));
    assert(!is_check(line_threat(own4, enemy, k, 2)));
    assert(!is_check(line_threat(own4, enemy, k, 3)));
    assert(!is_check(line_threat(own4, enemy, k, 4)));
    assert(!is_check(line_threat(own4, enemy, k, 5)));
    assert(!is_check(line_threat(own4, enemy, k, 6)));
    assert(!is_check(line_threat(own4, enemy, k, 7)));
    lemma_attacked_iff_checked(own4, enemy, k, me);
}

/// No line from the square next to a corner of the home rank pins the
/// piece in that corner: the corner is the last square of its line.
proof fn lemma_short_corner_free(own: Pieces, enemy: Pieces, base: int, i: int)
    requires
        base == 0 || base == 56,
        0 <= i < 8,
        bit_set(own.occupancy(), base),
    ensures
        line_threat(own, enemy, base + 1, i) matches Some(Attack::Pin(p, _)) ==> p != BitCoord(
            bit(base),
        ),
{
    let k = base + 1;
    let c = base;
    let d = direction(i);
    let occ = own.occupancy() | enemy.occupancy();
    let mine = own.occupancy();
    let att = line_attackers(enemy, d);
    if i == 1 {
        lemma_has_ops(mine, enemy.occupancy(), c);
        assert(step_ok(k, -1));
        assert(!step_ok(c, -1));
        assert(threat_from(c, -1, occ, mine, att, 0 | bit(c), Some(c)) is None);
    } else {
        if on_ray(k, d, c) {
            lemma_on_ray_bounds(k, d, c);
        }
        lemma_no_pin_off_ray(k, d, occ, mine, att, 0, None, c);
    }
}

/// No line from the third square of the home rank, counted from the
/// queenside corner, pins the piece in that corner, where the square
/// between them is empty.
proof fn lemma_long_corner_free(own: Pieces, enemy: Pieces, base: int, i: int)
    requires
        base == 0 || base == 56,
        0 <= i < 8,
        bit_set(own.occupancy(), base + 7),
        !bit_set(own.occupancy() | enemy.occupancy(), base + 6),
    ensures
        line_threat(own, enemy, base + 5, i) matches Some(Attack::Pin(p, _)) ==> p != BitCoord(
            bit(base + 7),
        ),
{
    let k = base + 5;
    let c = base + 7;
    let d = direction(i);
    let occ = own.occupancy() | enemy.occupancy();
    let mine = own.occupancy();
    let att = line_attackers(enemy, d);
    if i == 0 {
        lemma_has_ops(mine, enemy.occupancy(), c);
        assert(step_ok(k, 1));
        assert(step_ok(k + 1, 1));
        assert(!step_ok(c, 1));
        let m1 = 0 | bit(k + 1);
        assert(threat_from(c, 1, occ, mine, att, m1 | bit(c), Some(c)) is None);
        assert(threat_from(k + 1, 1, occ, mine, att, m1, None) is None);
    } else {
        if on_ray(k, d, c) {
            lemma_on_ray_bounds(k, d, c);
        }
        lemma_no_pin_off_ray(k, d, occ, mine, att, 0, None, c);
    }
}

/// After castling short the king is not attacked.
proof fn lemma_castle_short_safe(state: GameState)
    requires
        state.wf(),
        may_castle_short(state),
    ensures
        !state.moved(Move::Castle).passed().in_check(),
{
    let me = state.active_colour;
    let you = Colour::other_spec(me);
    let own = state.side(me).pieces;
    let enemy = state.side(you).pieces;
    let base = home_base(me);
    let home = king_home(me);
    let corner = kingside_corner(me);
    let kt = kingside_king_target(me);
    let rt = kingside_rook_target(me);
    lemma_home_squares();
    assert(corner == BitCoord(bit(base)));
    assert(kt == BitCoord(bit(base + 1)));
    assert(rt == BitCoord(bit(base + 2)));
    lemma_low_index_of_bit(base + 1);
    lemma_bit_distinct(base + 1, base + 2);
    bv_pair(state.white.pieces.occupancy(), state.black.pieces.occupancy(), 0, 0);
    bv_pair(state.black.pieces.occupancy(), state.white.pieces.occupancy(), 0, 0);
    assert(own.occupancy() | enemy.occupancy() == state.occupancy());
    assert(castle_ready(own, enemy, home, corner, kt, rt));
    let own1 = own.without_piece(Piece::King, home);
    assert forall|i: int| 0 <= i < 8 implies (#[trigger] line_threat(own1, enemy, kt.index(), i) matches Some(
        Attack::Pin(p, _),
    ) ==> p != corner) by {
        lemma_occupancy_bit(own1, base);
        lemma_has_ops(own.rooks.0, corner.0, base);
        lemma_bit_distinct(base, base);
        lemma_short_corner_free(own1, enemy, base, i);
    }
    lemma_castle_safe_core(own, enemy, me, home, corner, kt, rt);
    lemma_castle_steps(own, enemy, home, corner, kt, rt);
    let after = state.moved(Move::Castle).passed();
    assert(after.active_colour == me);
    assert(after.side(me).pieces == castled_pieces(own, home, corner, kt, rt));
    assert(after.side(you).pieces == enemy);
    lemma_bit_distinct(base + 1, base + 1);
}

/// After castling long the king is not attacked.
proof fn lemma_castle_long_safe(state: GameState)
    requires
        state.wf(),
        may_castle_long(state),
    ensures
        !state.moved(Move::LongCastle).passed().in_check(),
{
    let me = state.active_colour;
    let you = Colour::other_spec(me);
    let own = state.side(me).pieces;
    let enemy = state.side(you).pieces;
    let base = home_base(me);
    let home = king_home(me);
    let corner = queenside_corner(me);
    let kt = queenside_king_target(me);
    let rt = queenside_rook_target(me);
    lemma_home_squares();
    assert(corner == BitCoord(bit(base + 7)));
    assert(kt == BitCoord(bit(base + 5)));
    assert(rt == BitCoord(bit(base + 4)));
    lemma_low_index_of_bit(base + 5);
    lemma_bit_distinct(base + 5, base + 4);
    bv_pair(state.white.pieces.occupancy(), state.black.pieces.occupancy(), 0, 0);
    bv_pair(state.black.pieces.occupancy(), state.white.pieces.occupancy(), 0, 0);
    let occ = own.occupancy() | enemy.occupancy();
    assert(occ == state.occupancy());
    let b = bit(base + 6);
    let c = bit(base + 5);
    let d = bit(base + 4);
    assert(occ & (b | c | d) == 0 ==> occ & (c | d) == 0 && occ & b == 0) by (bit_vector);
    assert(castle_ready(own, enemy, home, corner, kt, rt));
    let own1 = own.without_piece(Piece::King, home);
    lemma_take_wf(own, Piece::King, home, b);
    bv_pair(own.occupancy(), enemy.occupancy(), b, 0);
    bv_pair(own1.occupancy(), enemy.occupancy(), b, 0);
    assert(!bit_set(own1.occupancy() | enemy.occupancy(), base + 6));
    assert forall|i: int| 0 <= i < 8 implies (#[trigger] line_threat(own1, enemy, kt.index(), i) matches Some(
        Attack::Pin(p, _),
    ) ==> p != corner) by {
        lemma_occupancy_bit(own1, base + 7);
        lemma_has_ops(own.rooks.0, corner.0, base + 7);
        lemma_bit_distinct(base + 7, base + 7);
        lemma_long_corner_free(own1, enemy, base, i);
    }
    lemma_castle_safe_core(own, enemy, me, home, corner, kt, rt);
    lemma_castle_steps(own, enemy, home, corner, kt, rt);
    let after = state.moved(Move::LongCastle).passed();
    assert(after.active_colour == me);
    assert(after.side(me).pieces == castled_pieces(own, home, corner, kt, rt));
    assert(after.side(you).pieces == enemy);
    lemma_bit_distinct(base + 5, base + 5);
}

proof fn bv_all_ones(x: u64, c: u64, a: u64, b: u64)
    by (bit_vector)
    ensures
        0xFFFF_FFFF_FFFF_FFFFu64 == !0u64,
        x & c == 0 ==> x & ((a & !c) | b) == x & (a | b) && x & (a | (b & !c)) == x & (a | b) && x
            & (a & !c) == x & a,
{
}

/// Every square is among all squares.
proof fn lemma_all_squares(t: int)
    requires
        0 <= t < 64,
    ensures
        bit_set(0xFFFF_FFFF_FFFF_FFFF, t),
{
    bv_all_ones(0, 0, 0, 0);
    lemma_has_ops(0, 0, t);
}

/// A square that does not answer every check misses the squares of one
/// of the checks.
proof fn lemma_not_allowed(attacks: Seq<Attack>, n: int, t: int) -> (ix: int)
    requires
        0 <= n <= attacks.len(),
        0 <= t < 64,
        !bit_set(allowed_mask(attacks, n), t),
    ensures
        0 <= ix < n,
        attacks[ix] matches Attack::Check(m) && !bit_set(m.0, t),
    decreases n,
{
    if n <= 0 {
        lemma_all_squares(t);
        0
    } else {
        let prev = allowed_mask(attacks, n - 1);
        match attacks[n - 1] {
            Attack::Check(m) => {
                lemma_has_ops(prev, m.0, t);
                if !bit_set(m.0, t) {
                    n - 1
                } else {
                    lemma_not_allowed(attacks, n - 1, t)
                }
            },
            Attack::Pin(_, _) => lemma_not_allowed(attacks, n - 1, t),
        }
    }
}

/// A square that does not keep every pin of a piece misses the squares of
/// one of its pins.
proof fn lemma_not_kept(attacks: Seq<Attack>, coord: BitCoord, n: int, t: int) -> (ix: int)
    requires
        0 <= n <= attacks.len(),
        0 <= t < 64,
        !bit_set(pin_mask(attacks, coord, n), t),
    ensures
        0 <= ix < n,
        attacks[ix] matches Attack::Pin(c, m) && c == coord && !bit_set(m.0, t),
    decreases n,
{
    if n <= 0 {
        lemma_all_squares(t);
        0
    } else {
        let prev = pin_mask(attacks, coord, n - 1);
        match attacks[n - 1] {
            Attack::Pin(c, m) => {
                if c == coord {
                    lemma_has_ops(prev, m.0, t);
                    if !bit_set(m.0, t) {
                        n - 1
                    } else {
                        lemma_not_kept(attacks, coord, n - 1, t)
                    }
                } else {
                    lemma_not_kept(attacks, coord, n - 1, t)
                }
            },
            Attack::Check(_) => lemma_not_kept(attacks, coord, n - 1, t),
        }
    }
}

/// Each threat listed along the lines is the threat along one of them.
proof fn lemma_listed_threat(own: Pieces, enemy: Pieces, sq: int, n: int, ix: int) -> (i: int)
    requires
        0 <= n <= 8,
        0 <= ix < line_threats(own, enemy, sq, n).len(),
    ensures
        0 <= i < n,
        line_threat(own, enemy, sq, i) == Some(line_threats(own, enemy, sq, n)[ix]),
    decreases n,
{
    let prev = line_threats(own, enemy, sq, n - 1);
    if ix < prev.len() {
        lemma_listed_threat(own, enemy, sq, n - 1, ix)
    } else {
        n - 1
    }
}

/// Each check listed for a knight, king or pawn is the check of one that
/// attacks the king.
proof fn lemma_listed_contact(checkers: u64, n: int, ix: int) -> (j: int)
    requires
        0 <= n <= 64,
        0 <= ix < contact_checks(checkers, n).len(),
    ensures
        0 <= j < n,
        bit_set(checkers, j),
        contact_checks(checkers, n)[ix] == Attack::Check(BitBoard(bit(j))),
    decreases n,
{
    let prev = contact_checks(checkers, n - 1);
    if ix < prev.len() {
        lemma_listed_contact(checkers, n - 1, ix)
    } else {
        n - 1
    }
}

/// The squares of a check or a pin hold every square that the scan had
/// passed before.
proof fn lemma_mask_grows(
    from: int,
    shift: int,
    occ: u64,
    own: u64,
    attackers: u64,
    mask: u64,
    pinned: Option<int>,
    j: int,
)
    requires
        0 <= j < 64,
        bit_set(mask, j),
    ensures
        match threat_from(from, shift, occ, own, attackers, mask, pinned) {
            Some(Attack::Check(m)) => bit_set(m.0, j),
            Some(Attack::Pin(_, m)) => bit_set(m.0, j),
            None => true,
        },
    decreases
        (if shift > 0 {
            64 - from
        } else {
            from + 1
        }),
{
    if shift != 0 && step_ok(from, shift) {
        let to = from + shift;
        let passed = mask | bit(to);
        lemma_has_ops(mask, bit(to), j);
        lemma_mask_grows(to, shift, occ, own, attackers, passed, pinned, j);
        lemma_mask_grows(to, shift, occ, own, attackers, passed, Some(to), j);
    }
}

/// A pin names the piece that the scan has found to shield the king.
proof fn lemma_pin_names(
    from: int,
    shift: int,
    occ: u64,
    own: u64,
    attackers: u64,
    mask: u64,
    pinned: int,
)
    ensures
        threat_from(from, shift, occ, own, attackers, mask, Some(pinned)) matches Some(
            Attack::Pin(p, _),
        ) ==> p == BitCoord(bit(pinned)),
    decreases
        (if shift > 0 {
            64 - from
        } else {
            from + 1
        }),
{
    if shift != 0 && step_ok(from, shift) {
        let to = from + shift;
        lemma_pin_names(to, shift, occ, own, attackers, mask | bit(to), pinned);
    }
}

/// A move that misses the squares of a check along a line, or that takes
/// the pinned piece off the squares of its pin, leaves a check along the
/// line.
proof fn lemma_line_stays_checked(
    from: int,
    shift: int,
    occ: u64,
    own: u64,
    att: u64,
    occ2: u64,
    own2: u64,
    att2: u64,
    s: int,
    t: int,
    mask: u64,
    po: Option<int>,
)
    requires
        0 <= s < 64,
        0 <= t < 64,
        s != t,
        forall|j: int|
            0 <= j < 64 && j != s && j != t ==> bit_set(occ2, j) == bit_set(occ, j) && bit_set(
                own2,
                j,
            ) == bit_set(own, j) && bit_set(att2, j) == bit_set(att, j),
        bit_set(occ, s),
        bit_set(own, s),
        !bit_set(occ2, s),
        !bit_set(own, t),
        po is None || po == Some(s),
        match threat_from(from, shift, occ, own, att, mask, po) {
            Some(Attack::Check(m)) => po is None && !bit_set(m.0, t),
            Some(Attack::Pin(p, m)) => p == BitCoord(bit(s)) && !bit_set(m.0, t),
            None => false,
        },
    ensures
        is_check(threat_from(from, shift, occ2, own2, att2, mask, None)),
    decreases
        (if shift > 0 {
            64 - from
        } else {
            from + 1
        }),
{
    let to = from + shift;
    let passed = mask | bit(to);
    lemma_has_ops(mask, bit(to), t);
    lemma_bit_distinct(to, t);
    lemma_bit_distinct(to, s);
    lemma_bit_distinct(to, to);
    if to == t {
        lemma_mask_grows(to, shift, occ, own, att, passed, po, t);
        lemma_mask_grows(to, shift, occ, own, att, passed, Some(to), t);
    } else if to == s {
        lemma_shielded(to, shift, occ, own, att, passed, s);
        lemma_line_stays_checked(to, shift, occ, own, att, occ2, own2, att2, s, t, passed, Some(s));
    } else if !bit_set(occ, to) {
        lemma_line_stays_checked(to, shift, occ, own, att, occ2, own2, att2, s, t, passed, po);
    } else if bit_set(own, to) {
        lemma_shielded(to, shift, occ, own, att, passed, to);
        lemma_pin_names(to, shift, occ, own, att, passed, to);
    }
}

/// After a piece went to a square that misses the squares of a check
/// along a line, or off the squares of its pin along the line, the line
/// holds a check.
proof fn lemma_line_checked_after(
    own: Pieces,
    enemy: Pieces,
    piece: Piece,
    src: BitCoord,
    tgt: BitCoord,
    placed: Piece,
    k: int,
    i: int,
)
    requires
        own.wf(),
        enemy.wf(),
        own.occupancy() & enemy.occupancy() == 0,
        src.wf(),
        tgt.wf(),
        own.board(piece).0 & src.0 != 0,
        own.occupancy() & tgt.0 == 0,
        match line_threat(own, enemy, k, i) {
            Some(Attack::Check(m)) => !bit_set(m.0, tgt.index()),
            Some(Attack::Pin(p, m)) => p == src && !bit_set(m.0, tgt.index()),
            None => false,
        },
    ensures
        is_check(
            line_threat(own_after(own, piece, src, tgt, placed), enemy_after(enemy, tgt), k, i),
        ),
{
    let own2 = own_after(own, piece, src, tgt, placed);
    let enemy2 = enemy_after(enemy, tgt);
    let s = src.index();
    let t = tgt.index();
    let d = direction(i);
    let occ = own.occupancy() | enemy.occupancy();
    let occ2 = own2.occupancy() | enemy2.occupancy();
    let mine = own.occupancy();
    let mine2 = own2.occupancy();
    let att = line_attackers(enemy, d);
    let att2 = line_attackers(enemy2, d);
    lemma_after_bits(own, enemy, piece, src, tgt, placed, i, 0);
    assert forall|j: int|
        0 <= j < 64 && j != s && j != t implies bit_set(occ2, j) == bit_set(occ, j) && bit_set(
        mine2,
        j,
    ) == bit_set(mine, j) && bit_set(att2, j) == bit_set(att, j) by {
        lemma_after_bits(own, enemy, piece, src, tgt, placed, i, j);
    }
    lemma_after_bits(own, enemy, piece, src, tgt, placed, i, s);
    lemma_after_bits(own, enemy, piece, src, tgt, placed, i, t);
    lemma_single(src.0);
    assert(src == BitCoord(bit(s)));
    lemma_line_stays_checked(k, d, occ, mine, att, occ2, mine2, att2, s, t, 0, None);
}

/// After a piece went to a square other than that of a knight, king or
/// pawn that attacks the king, that piece still attacks the king.
proof fn lemma_contact_checked_after(enemy: Pieces, tgt: BitCoord, k: int, me: Colour, j: int)
    requires
        enemy.wf(),
        tgt.wf(),
        0 <= j < 64,
        j != tgt.index(),
        bit_set(contact_checkers(enemy, k, me), j),
    ensures
        contact_checkers(enemy_after(enemy, tgt), k, me) != 0,
{
    let enemy2 = enemy_after(enemy, tgt);
    let n = knight_attacks(k);
    let g = king_attacks(k);
    let p = pawn_attackers(k, me);
    lemma_capture_bits(enemy, tgt, j);
    lemma_has_ops(n & enemy2.knights.0, g & enemy2.king.0, j);
    lemma_has_ops((n & enemy2.knights.0) | (g & enemy2.king.0), p & enemy2.pawns.0, j);
    lemma_has_ops(n, enemy2.knights.0, j);
    lemma_has_ops(g, enemy2.king.0, j);
    lemma_has_ops(p, enemy2.pawns.0, j);
    lemma_has_ops(n & enemy.knights.0, g & enemy.king.0, j);
    lemma_has_ops((n & enemy.knights.0) | (g & enemy.king.0), p & enemy.pawns.0, j);
    lemma_has_ops(n, enemy.knights.0, j);
    lemma_has_ops(g, enemy.king.0, j);
    lemma_has_ops(p, enemy.pawns.0, j);
    lemma_has_ops(0, 0, j);
}

/// After a piece other than the king went to a square that does not
/// answer every check or does not keep every pin of the piece, and took
/// no pawn en passant, the king of the side that moved is attacked.
proof fn lemma_piece_move_unsafe(
    state: GameState,
    piece: Piece,
    src: BitCoord,
    tgt: BitCoord,
    placed: Piece,
)
    requires
        state.wf(),
        src.wf(),
        tgt.wf(),
        piece != Piece::King,
        placed != Piece::King,
        placed == piece || piece == Piece::Pawn,
        state.side(state.active_colour).pieces.board(piece).0 & src.0 != 0,
        state.side(state.active_colour).pieces.occupancy() & tgt.0 == 0,
        !(piece == Piece::Pawn && state.en_passant == Some(tgt)),
        !(bit_set(allowed_mask(threats(state), threats(state).len() as int), tgt.index())
            && bit_set(pin_mask(threats(state), src, threats(state).len() as int), tgt.index())),
    ensures
        state.ticked().shifted(piece, src, tgt, placed).passed().passed().in_check(),
{
    let me = state.active_colour;
    let you = Colour::other_spec(me);
    let own = state.side(me).pieces;
    let enemy = state.side(you).pieces;
    let own2 = own_after(own, piece, src, tgt, placed);
    let enemy2 = enemy_after(enemy, tgt);
    let t = tgt.index();
    lemma_single(tgt.0);
    let after = state.ticked().shifted(piece, src, tgt, placed).passed().passed();
    assert(after.active_colour == me);
    assert(after.side(me).pieces == own2);
    assert(after.side(you).pieces == enemy2);
    let own1 = own.without_piece(piece, src);
    assert(own1.king == own.king) by {
        match piece {
            Piece::King => {},
            Piece::Queen => {},
            Piece::Rook => {},
            Piece::Bishop => {},
            Piece::Knight => {},
            Piece::Pawn => {},
        }
    }
    assert(own2.king == own1.king) by {
        match placed {
            Piece::King => {},
            Piece::Queen => {},
            Piece::Rook => {},
            Piece::Bishop => {},
            Piece::Knight => {},
            Piece::Pawn => {},
        }
    }
    lemma_shifted_wf(state.ticked(), piece, src, tgt, placed);
    bv_pair(after.white.pieces.occupancy(), after.black.pieces.occupancy(), 0, 0);
    bv_pair(state.white.pieces.occupancy(), state.black.pieces.occupancy(), 0, 0);
    let all = threats(state);
    match king_square(own) {
        Some(k) => {
            let lines = line_threats(own, enemy, k, 8);
            let checkers = contact_checkers(enemy, k, me);
            if !bit_set(allowed_mask(all, all.len() as int), t) {
                let ix = lemma_not_allowed(all, all.len() as int, t);
                if ix < lines.len() {
                    let i = lemma_listed_threat(own, enemy, k, 8, ix);
                    assert(all[ix] == lines[ix]);
                    lemma_line_checked_after(own, enemy, piece, src, tgt, placed, k, i);
                } else {
                    let j = lemma_listed_contact(checkers, 64, ix - lines.len());
                    assert(all[ix] == contact_checks(checkers, 64)[ix - lines.len()]);
                    lemma_bit_distinct(j, t);
                    lemma_contact_checked_after(enemy, tgt, k, me, j);
                }
            } else {
                let ix = lemma_not_kept(all, src, all.len() as int, t);
                if ix < lines.len() {
                    let i = lemma_listed_threat(own, enemy, k, 8, ix);
                    assert(all[ix] == lines[ix]);
                    lemma_line_checked_after(own, enemy, piece, src, tgt, placed, k, i);
                } else {
                    let j = lemma_listed_contact(checkers, 64, ix - lines.len());
                    assert(all[ix] == contact_checks(checkers, 64)[ix - lines.len()]);
                }
            }
            lemma_attacked_iff_checked(own2, enemy2, k, me);
        },
        None => {
            lemma_all_squares(t);
        },
    }
}

/// The squares that a ray reaches are squares of the ray, or squares that
/// were reached before.
proof fn lemma_ray_members(acc: u64, from: int, shift: int, occ: u64, j: int)
    requires
        0 <= j < 64,
        bit_set(ray_from(acc, from, shift, occ), j),
    ensures
        bit_set(acc, j) || on_ray(from, shift, j),
    decreases
        (if shift > 0 {
            64 - from
        } else {
            from + 1
        }),
{
    if shift != 0 && step_ok(from, shift) {
        let to = from + shift;
        lemma_has_ops(acc, bit(to), j);
        lemma_bit_distinct(to, j);
        if !bit_set(occ, to) {
            lemma_ray_members(acc | bit(to), to, shift, occ, j);
        }
    }
}

/// One more ray from `t` does not reach `t` itself.
proof fn lemma_ray_misses_origin(acc: u64, t: int, shift: int, occ: u64)
    requires
        0 <= t < 64,
        !bit_set(acc, t),
    ensures
        !bit_set(ray_from(acc, t, shift, occ), t),
{
    if bit_set(ray_from(acc, t, shift, occ), t) {
        lemma_ray_members(acc, t, shift, occ, t);
        lemma_on_ray_bounds(t, shift, t);
    }
}

/// One more step from `t` does not lead to `t` itself.
proof fn lemma_step_misses_origin(acc: u64, t: int, shift: int)
    requires
        0 <= t < 64,
        shift != 0,
        !bit_set(acc, t),
    ensures
        !bit_set(with_step(acc, t, shift), t),
{
    if bit_set(with_step(acc, t, shift), t) {
        lemma_with_step_bits(acc, t, shift, t);
    }
}

/// No piece attacks the square on which it stands: the squares from which
/// a square is attacked do not hold the square itself.
proof fn lemma_attacks_miss_origin(t: int, occ: u64, colour: Colour)
    requires
        0 <= t < 64,
    ensures
        !bit_set(rook_attacks(t, occ), t),
        !bit_set(bishop_attacks(t, occ), t),
        !bit_set(knight_attacks(t), t),
        !bit_set(king_attacks(t), t),
        !bit_set(pawn_attackers(t, colour), t),
{
    lemma_has_ops(0, 0, t);
    let r1 = ray_from(0, t, 1, occ);
    let r2 = ray_from(r1, t, 8, occ);
    let r3 = ray_from(r2, t, -1, occ);
    lemma_ray_misses_origin(0, t, 1, occ);
    lemma_ray_misses_origin(r1, t, 8, occ);
    lemma_ray_misses_origin(r2, t, -1, occ);
    lemma_ray_misses_origin(r3, t, -8, occ);
    let b1 = ray_from(0, t, 7, occ);
    let b2 = ray_from(b1, t, 9, occ);
    let b3 = ray_from(b2, t, -7, occ);
    lemma_ray_misses_origin(0, t, 7, occ);
    lemma_ray_misses_origin(b1, t, 9, occ);
    lemma_ray_misses_origin(b2, t, -7, occ);
    lemma_ray_misses_origin(b3, t, -9, occ);
    let n1 = with_step(0, t, 17);
    let n2 = with_step(n1, t, -17);
    let n3 = with_step(n2, t, 15);
    let n4 = with_step(n3, t, -15);
    let n5 = with_step(n4, t, 10);
    let n6 = with_step(n5, t, -10);
    let n7 = with_step(n6, t, 6);
    lemma_step_misses_origin(0, t, 17);
    lemma_step_misses_origin(n1, t, -17);
    lemma_step_misses_origin(n2, t, 15);
    lemma_step_misses_origin(n3, t, -15);
    lemma_step_misses_origin(n4, t, 10);
    lemma_step_misses_origin(n5, t, -10);
    lemma_step_misses_origin(n6, t, 6);
    lemma_step_misses_origin(n7, t, -6);
    let k1 = with_step(0, t, 1);
    let k2 = with_step(k1, t, -1);
    let k3 = with_step(k2, t, 8);
    let k4 = with_step(k3, t, -8);
    let k5 = with_step(k4, t, 9);
    let k6 = with_step(k5, t, -9);
    let k7 = with_step(k6, t, 7);
    lemma_step_misses_origin(0, t, 1);
    lemma_step_misses_origin(k1, t, -1);
    lemma_step_misses_origin(k2, t, 8);
    lemma_step_misses_origin(k3, t, -8);
    lemma_step_misses_origin(k4, t, 9);
    lemma_step_misses_origin(k5, t, -9);
    lemma_step_misses_origin(k6, t, 7);
    lemma_step_misses_origin(k7, t, -7);
    lemma_step_misses_origin(0, t, 7);
    lemma_step_misses_origin(with_step(0, t, 7), t, 9);
    lemma_step_misses_origin(0, t, -7);
    lemma_step_misses_origin(with_step(0, t, -7), t, -9);
}

/// Whether a square is attacked does not depend on the piece that stands
/// on it.
proof fn lemma_same_attackers(occ: u64, enemy: Pieces, piece: Piece, gone: BitCoord, colour: Colour)
    requires
        gone.wf(),
    ensures
        attacked(occ, enemy.without_piece(piece, gone), gone.index(), colour) == attacked(
            occ,
            enemy,
            gone.index(),
            colour,
        ),
{
    let t = gone.index();
    let c = gone.0;
    lemma_single(c);
    lemma_attacks_miss_origin(t, occ, colour);
    bv_all_ones(rook_attacks(t, occ), c, enemy.rooks.0, enemy.queens.0);
    bv_all_ones(bishop_attacks(t, occ), c, enemy.bishops.0, enemy.queens.0);
    bv_all_ones(knight_attacks(t), c, enemy.knights.0, 0);
    bv_all_ones(king_attacks(t), c, enemy.king.0, 0);
    bv_all_ones(pawn_attackers(t, colour), c, enemy.pawns.0, 0);
}

/// After the king stepped onto a square that the other side attacks once
/// the king has left its square, the king is attacked.
proof fn lemma_king_step_unsafe(state: GameState, src: BitCoord, tgt: BitCoord)
    requires
        state.wf(),
        src.wf(),
        tgt.wf(),
        state.side(state.active_colour).pieces.king.0 == src.0,
        attacked(
            (state.side(state.active_colour).pieces.occupancy() | state.side(
                Colour::other_spec(state.active_colour),
            ).pieces.occupancy()) & !src.0,
            state.side(Colour::other_spec(state.active_colour)).pieces,
            tgt.index(),
            state.active_colour,
        ),
    ensures
        state.moved(Move::Normal(Piece::King, src, tgt)).passed().in_check(),
{
    let me = state.active_colour;
    let you = Colour::other_spec(me);
    let own = state.side(me).pieces;
    let enemy = state.side(you).pieces;
    let t = tgt.index();
    lemma_single(src.0);
    lemma_single(tgt.0);
    let free = (own.occupancy() | enemy.occupancy()) & !own.king.0;
    let own2 = own.without_piece(Piece::King, src).with_piece(Piece::King, tgt);
    let enemy2 = match enemy.piece_at(tgt) {
        Some(pc) => enemy.without_piece(pc, tgt),
        None => enemy,
    };
    let occ2 = own2.occupancy() | enemy2.occupancy();
    bv_pair(state.white.pieces.occupancy(), state.black.pieces.occupancy(), 0, 0);
    assert forall|j: int| 0 <= j < 64 && j != t implies bit_set(occ2, j) == bit_set(free, j) by {
        lemma_king_step_occupancy(own, enemy, src, tgt, j);
    }
    lemma_attacks_ignore_origin(t, occ2, free);
    assert(attacked(occ2, enemy, t, me));
    match enemy.piece_at(tgt) {
        Some(pc) => {
            lemma_same_attackers(occ2, enemy, pc, tgt, me);
        },
        None => {},
    }
    lemma_king_step_lands(state, src, tgt);
}

/// Whether `m` is a move that a piece could make if checks and pins did
/// not count: the piece it names stands on its source, its destination is
/// a square that the piece could go to, and it is a promotion, to a
/// queen, rook, bishop or knight, exactly where a pawn reaches the first
/// or the last rank.
pub open spec fn is_pseudo_legal(state: GameState, m: Move) -> bool {
    let me = state.active_colour;
    let own = state.side(me).pieces;
    let enemy = state.side(Colour::other_spec(me)).pieces;
    let ep = en_passant_bit(state);
    match m {
        Move::Normal(piece, src, tgt) => {
            &&& src.wf()
            &&& tgt.wf()
            &&& own.piece_at(src) == Some(piece)
            &&& bit_set(piece_targets(own, enemy, ep, src.index(), me), tgt.index())
            &&& !promotes(piece, tgt.index())
        },
        Move::Promotion(src, tgt, pc) => {
            &&& src.wf()
            &&& tgt.wf()
            &&& own.piece_at(src) == Some(Piece::Pawn)
            &&& bit_set(piece_targets(own, enemy, ep, src.index(), me), tgt.index())
            &&& promotes(Piece::Pawn, tgt.index())
            &&& (pc == Piece::Queen || pc == Piece::Rook || pc == Piece::Bishop || pc
                == Piece::Knight)
        },
        _ => false,
    }
}

/// A square that a piece could go to, and from which it leaves its king
/// out of check, is a square that the piece may go to.
proof fn lemma_safe_target_is_legal(state: GameState, piece: Piece, src: BitCoord, tgt: BitCoord, placed: Piece)
    requires
        state.wf(),
        en_passant_sound(state),
        src.wf(),
        tgt.wf(),
        state.side(state.active_colour).pieces.piece_at(src) == Some(piece),
        placed == piece || (piece == Piece::Pawn && placed != Piece::King
            && state.en_passant != Some(tgt)),
        bit_set(
            piece_targets(
                state.side(state.active_colour).pieces,
                state.side(Colour::other_spec(state.active_colour)).pieces,
                en_passant_bit(state),
                src.index(),
                state.active_colour,
            ),
            tgt.index(),
        ),
        !state.ticked().shifted(piece, src, tgt, placed).passed().passed().in_check(),
    ensures
        bit_set(legal_targets(state, src.index()), tgt.index()),
{
    let me = state.active_colour;
    let own = state.side(me).pieces;
    let enemy = state.side(Colour::other_spec(me)).pieces;
    let s = src.index();
    let t = tgt.index();
    let ep = en_passant_bit(state);
    lemma_single(src.0);
    lemma_single(tgt.0);
    let pseudo = piece_targets(own, enemy, ep, s, me);
    let mine = own.occupancy();
    let att = threats(state);
    let a = allowed_mask(att, att.len() as int);
    let b = pin_mask(att, BitCoord(bit(s)), att.len() as int);
    let restricted = pseudo & a & b;
    lemma_pseudo_free(own, enemy, ep, s, me, t);
    if piece == Piece::King {
        bv_masks(src.0, 0, 0);
        lemma_single(own.king.0);
        lemma_bit_distinct(low_index(own.king.0), s);
        assert(own.king.0 == src.0);
        let free = (mine | enemy.occupancy()) & !own.king.0;
        lemma_safe_member(pseudo, free, enemy, me, 64, t);
        if attacked(free, enemy, t, me) {
            lemma_king_step_unsafe(state, src, tgt);
        }
    } else if piece == Piece::Pawn && state.en_passant == Some(tgt) {
        lemma_en_passant_outcome(state, src, tgt);
        lemma_has_ops(pseudo, ep, t);
        lemma_has_ops(restricted, ep, t);
        lemma_bit_distinct(t, t);
    } else {
        if !(bit_set(a, t) && bit_set(b, t)) {
            lemma_piece_move_unsafe(state, piece, src, tgt, placed);
        }
        lemma_has_ops(pseudo & a, b, t);
        lemma_has_ops(pseudo, a, t);
        lemma_has_ops(restricted, ep, t);
        lemma_has_ops(restricted, !ep, t);
        match state.en_passant {
            Some(e) => {
                lemma_single(e.0);
                lemma_bit_distinct(e.index(), t);
                lemma_has_ops(ep, 0, t);
            },
            None => {
                lemma_has_ops(0, 0, t);
            },
        }
    }
}

/// No piece of the side to move stands on a square that one of its pieces
/// could go to.
proof fn lemma_pseudo_free(own: Pieces, enemy: Pieces, ep: u64, sq: int, colour: Colour, t: int)
    requires
        0 <= t < 64,
        bit_set(piece_targets(own, enemy, ep, sq, colour), t),
    ensures
        own.occupancy() & bit(t) == 0,
        own.piece_at(BitCoord(bit(sq))) is Some,
{
    let mine = own.occupancy();
    let occ = mine | enemy.occupancy();
    lemma_has_ops(0, 0, t);
    let reach = match own.piece_at(BitCoord(bit(sq))) {
        None => 0,
        Some(Piece::Queen) => rook_attacks(sq, occ) | bishop_attacks(sq, occ),
        Some(Piece::Rook) => rook_attacks(sq, occ),
        Some(Piece::Bishop) => bishop_attacks(sq, occ),
        Some(Piece::Knight) => knight_attacks(sq),
        Some(Piece::King) => king_attacks(sq),
        Some(Piece::Pawn) => pawn_pushes(occ, bit(sq), colour) | (pawn_attacks(sq, colour) & (
        enemy.occupancy() | ep)),
    };
    lemma_has_ops(reach, !mine, t);
    lemma_has_ops(mine, 0, t);
}

/// A move of a piece is legal exactly when the piece could make it if
/// checks and pins did not count and it leaves the king of the side that
/// moved out of check.
pub proof fn lemma_legal_iff_safe(state: GameState, m: Move)
    requires
        state.wf(),
        en_passant_sound(state),
        m is Normal || m is Promotion,
    ensures
        is_legal(state, m) == (is_pseudo_legal(state, m) && !state.moved(m).passed().in_check()),
{
    if is_legal(state, m) {
        lemma_legal_move_is_safe(state, m);
        match m {
            Move::Normal(_, src, tgt) => {
                lemma_single(src.0);
                lemma_single(tgt.0);
                lemma_target_free(state, src.index(), tgt.index());
            },
            Move::Promotion(src, tgt, _) => {
                lemma_single(src.0);
                lemma_single(tgt.0);
                lemma_target_free(state, src.index(), tgt.index());
            },
            _ => {},
        }
    }
    if is_pseudo_legal(state, m) && !state.moved(m).passed().in_check() {
        match m {
            Move::Normal(piece, src, tgt) => {
                lemma_safe_target_is_legal(state, piece, src, tgt, piece);
            },
            Move::Promotion(src, tgt, pc) => {
                if state.en_passant == Some(tgt) {
                    lemma_single(tgt.0);
                    bv_pawn_ranks(tgt.index() as u64);
                }
                lemma_safe_target_is_legal(state, Piece::Pawn, src, tgt, pc);
            },
            _ => {},
        }
    }
}

/// A legal move leads from a well-formed position to a well-formed
/// position whose en-passant target, if it has one, is sound.
pub proof fn lemma_legal_move_keeps_position(state: GameState, m: Move)
    requires
        state.wf(),
        is_legal(state, m),
    ensures
        state.admits(m),
        state.moved(m).wf(),
        en_passant_sound(state.moved(m)),
{
    lemma_listed_iff_legal(state, m);
    let moves = legal_moves_spec(state);
    let i = choose|i: int| 0 <= i < moves.len() && moves[i] == m;
    crate::moves::lemma_legal_moves_admit(state, i);
    crate::game::lemma_moved_wf(state, m);
    lemma_en_passant_sound(state, m);
}

} // verus!
