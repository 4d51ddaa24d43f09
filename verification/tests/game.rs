use chess_lib::fen::{load_fen, STARTING_POSITION};
use chess_lib::magic::MagicBitBoards;
use chess_lib::types::{BitBoard, BitCoord, Colour, GameState, Move, Piece, Pieces, SideState};
use chess_lib::zobrist::ZobristHasher;

fn sq(file: u32, rank: u32) -> BitCoord {
    BitCoord::from_file_rank(file, rank)
}

#[test]
fn double_step_sets_the_en_passant_target() {
    let hasher = ZobristHasher::default();
    let mut state = load_fen(STARTING_POSITION, &hasher).unwrap();
    state.make_move(Move::Normal(Piece::Pawn, sq(4, 1), sq(4, 3)), &hasher);
    assert_eq!(state.en_passant, Some(sq(4, 2)));
    assert_eq!(state.active_colour, Colour::Black);
    assert_eq!(state.fifty_move_clock, 0);
    assert_eq!(state.white.pieces.pawns, BitBoard(0x0000_0000_0800_F700));
    assert_eq!(state.zh, hasher.hash(&state));
    state.make_move(Move::Normal(Piece::Knight, sq(6, 7), sq(5, 5)), &hasher);
    assert_eq!(state.en_passant, None);
    assert_eq!(state.fifty_move_clock, 1);
    assert_eq!(state.zh, hasher.hash(&state));
}

#[test]
fn en_passant_capture_takes_the_pawn_behind_the_target() {
    let hasher = ZobristHasher::default();
    let mut state = load_fen("4k3/8/8/1Pp5/8/8/8/4K3 w - c6", &hasher).unwrap();
    state.make_move(Move::Normal(Piece::Pawn, sq(1, 4), sq(2, 5)), &hasher);
    assert_eq!(state.black.pieces.pawns, BitBoard(0));
    assert_eq!(state.white.pieces.pawns, BitBoard(sq(2, 5).0));
    assert_eq!(state.fifty_move_clock, 0);
    assert_eq!(state.zh, hasher.hash(&state));
}

#[test]
fn castling_moves_king_and_rook_and_takes_the_rights() {
    let hasher = ZobristHasher::default();
    let mut state = load_fen("r3k2r/8/8/8/8/8/8/R3K2R w KQkq -", &hasher).unwrap();
    state.make_move(Move::Castle, &hasher);
    assert_eq!(state.white.pieces.king, BitBoard(0x02));
    assert_eq!(state.white.pieces.rooks, BitBoard(0x84));
    assert!(!state.white.can_castle_kingside);
    assert!(!state.white.can_castle_queenside);
    assert!(state.black.can_castle_kingside);
    assert_eq!(state.fifty_move_clock, 1);
    assert_eq!(state.zh, hasher.hash(&state));
    state.make_move(Move::LongCastle, &hasher);
    assert_eq!(state.black.pieces.king, BitBoard(0x20 << 56));
    assert_eq!(state.black.pieces.rooks, BitBoard(0x11 << 56));
    assert!(!state.black.can_castle_kingside);
    assert!(!state.black.can_castle_queenside);
    assert_eq!(state.fifty_move_clock, 2);
    assert_eq!(state.zh, hasher.hash(&state));
}

#[test]
fn rights_lapse_for_rook_moves_and_captures_on_corners() {
    let hasher = ZobristHasher::default();
    let mut state = load_fen("r3k2r/8/8/8/8/8/8/R3K2R w KQkq -", &hasher).unwrap();
    // The rook on a1 takes the rook on a8.
    state.make_move(Move::Normal(Piece::Rook, sq(0, 0), sq(0, 7)), &hasher);
    assert!(state.white.can_castle_kingside);
    assert!(!state.white.can_castle_queenside);
    assert!(state.black.can_castle_kingside);
    assert!(!state.black.can_castle_queenside);
    assert_eq!(state.fifty_move_clock, 0);
    assert_eq!(state.zh, hasher.hash(&state));
    // The king steps aside.
    state.make_move(Move::Normal(Piece::King, sq(4, 7), sq(4, 6)), &hasher);
    assert!(!state.black.can_castle_kingside);
    assert_eq!(state.zh, hasher.hash(&state));
}

#[test]
fn promotion_replaces_the_pawn() {
    let hasher = ZobristHasher::default();
    let mut state = load_fen("1n2k3/P7/8/8/8/8/8/4K3 w - -", &hasher).unwrap();
    state.make_move(Move::Promotion(sq(0, 6), sq(1, 7), Piece::Queen), &hasher);
    assert_eq!(state.white.pieces.pawns, BitBoard(0));
    assert_eq!(state.white.pieces.queens, BitBoard(sq(1, 7).0));
    assert_eq!(state.black.pieces.knights, BitBoard(0));
    assert_eq!(state.zh, hasher.hash(&state));
}

#[test]
fn clones_are_independent() {
    let hasher = ZobristHasher::default();
    let state = load_fen(STARTING_POSITION, &hasher).unwrap();
    let mut copy = state.clone();
    copy.make_move(Move::Normal(Piece::Pawn, sq(4, 1), sq(4, 3)), &hasher);
    assert_ne!(copy, state);
    assert_eq!(state, load_fen(STARTING_POSITION, &hasher).unwrap());
}

#[test]
fn new_computes_the_hash_and_find_piece_looks_at_both_sides() {
    let hasher = ZobristHasher::default();
    let mut white = Pieces::empty();
    white.put_piece(Piece::King, sq(4, 0));
    let mut black = Pieces::empty();
    black.put_piece(Piece::King, sq(4, 7));
    black.put_piece(Piece::Rook, sq(4, 4));
    let side = |pieces| SideState { pieces, can_castle_kingside: false, can_castle_queenside: false };
    let state = GameState::new(Colour::White, side(white), side(black), None, 3, &hasher);
    assert_eq!(state.zh, hasher.hash(&state));
    assert_eq!(state.fifty_move_clock, 3);
    assert_eq!(state.find_piece(sq(4, 0)), Some((Colour::White, Piece::King)));
    assert_eq!(state.find_piece(sq(4, 4)), Some((Colour::Black, Piece::Rook)));
    assert_eq!(state.find_piece(sq(0, 0)), None);
    let mbb = MagicBitBoards::default().unwrap();
    assert!(state.is_in_check(&mbb));
}
