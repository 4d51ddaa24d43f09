use chess_lib::fen::{load_fen, STARTING_POSITION};
use chess_lib::types::{BitBoard, BitCoord, Colour};
use chess_lib::zobrist::ZobristHasher;

#[test]
fn starting_position() {
    let hasher = ZobristHasher::default();
    let state = load_fen(STARTING_POSITION, &hasher).unwrap();

    // Check pieces.
    assert_eq!(state.white.pieces.king, BitBoard(0x00_00_00_00_00_00_00_08));
    assert_eq!(state.white.pieces.queens, BitBoard(0x00_00_00_00_00_00_00_10));
    assert_eq!(state.white.pieces.rooks, BitBoard(0x00_00_00_00_00_00_00_81));
    assert_eq!(state.white.pieces.bishops, BitBoard(0x00_00_00_00_00_00_00_24));
    assert_eq!(state.white.pieces.knights, BitBoard(0x00_00_00_00_00_00_00_42));
    assert_eq!(state.white.pieces.pawns, BitBoard(0x00_00_00_00_00_00_FF_00));

    assert_eq!(state.black.pieces.king, BitBoard(0x08_00_00_00_00_00_00_00));
    assert_eq!(state.black.pieces.queens, BitBoard(0x10_00_00_00_00_00_00_00));
    assert_eq!(state.black.pieces.rooks, BitBoard(0x81_00_00_00_00_00_00_00));
    assert_eq!(state.black.pieces.bishops, BitBoard(0x24_00_00_00_00_00_00_00));
    assert_eq!(state.black.pieces.knights, BitBoard(0x42_00_00_00_00_00_00_00));
    assert_eq!(state.black.pieces.pawns, BitBoard(0x00_FF_00_00_00_00_00_00));

    assert_eq!(state.white.can_castle_kingside, true);
    assert_eq!(state.white.can_castle_queenside, true);
    assert_eq!(state.black.can_castle_kingside, true);
    assert_eq!(state.black.can_castle_queenside, true);
}

#[test]
fn fen_reads_colour_rights_and_target() {
    let hasher = ZobristHasher::default();
    let state = load_fen("8/8/8/KPp4r/8/8/8/6k1 b Kq c6", &hasher).unwrap();
    assert_eq!(state.active_colour, Colour::Black);
    assert!(state.white.can_castle_kingside);
    assert!(!state.white.can_castle_queenside);
    assert!(!state.black.can_castle_kingside);
    assert!(state.black.can_castle_queenside);
    assert_eq!(state.en_passant, Some(BitCoord::from_file_rank(2, 5)));
    assert_eq!(state.fifty_move_clock, 0);
    assert_eq!(state.white.pieces.king, BitBoard(0x00_00_00_80_00_00_00_00));
    assert_eq!(state.white.pieces.pawns, BitBoard(0x00_00_00_40_00_00_00_00));
    assert_eq!(state.black.pieces.pawns, BitBoard(0x00_00_00_20_00_00_00_00));
    assert_eq!(state.black.pieces.rooks, BitBoard(0x00_00_00_01_00_00_00_00));
    assert_eq!(state.black.pieces.king, BitBoard(0x00_00_00_00_00_00_00_02));
}

#[test]
fn fen_rejects_spoiled_fields() {
    let hasher = ZobristHasher::default();
    assert!(load_fen("", &hasher).is_none());
    assert!(load_fen("8/8/8/8/8/8/8/8 w -", &hasher).is_none());
    assert!(load_fen("8/8/8/8/8/8/8/8 x - -", &hasher).is_none());
    assert!(load_fen("8/8/8/8/8/8/8/8 w KX -", &hasher).is_none());
    assert!(load_fen("8/8/8/8/8/8/8/8 w - i3", &hasher).is_none());
    assert!(load_fen("8/8/8/8/8/8/8/8 w - a9", &hasher).is_none());
    assert!(load_fen("8/8/8/8/8/8/8/9 w - -", &hasher).is_none());
    assert!(load_fen("8/8/8/8/8/8/8/x w - -", &hasher).is_none());
    assert!(load_fen("  8/8/8/8/8/8/8/8\tw \n -   -  ", &hasher).is_some());
}
