use chess_lib::fmt::{
    format_coord, format_file, format_move, format_piece, format_rank, parse_coord, parse_file,
    parse_rank,
};
use chess_lib::magic::MagicBitBoards;
use chess_lib::fen::load_fen;
use chess_lib::pgn::{PGNMove, PGNMoveData};
use chess_lib::types::{BitCoord, Move, Piece};
use chess_lib::zobrist::ZobristHasher;

#[test]
fn moves_are_written_by_their_squares() {
    let e2 = BitCoord::from_file_rank(4, 1);
    let e4 = BitCoord::from_file_rank(4, 3);
    assert_eq!(format_move(Move::Normal(Piece::Pawn, e2, e4)), "e2e4");
    let a7 = BitCoord::from_file_rank(0, 6);
    let a8 = BitCoord::from_file_rank(0, 7);
    assert_eq!(format_move(Move::Promotion(a7, a8, Piece::Queen)), "a7a8Q");
    assert_eq!(format_move(Move::Promotion(a7, a8, Piece::Knight)), "a7a8N");
    assert_eq!(format_move(Move::Castle), "O-O");
    assert_eq!(format_move(Move::LongCastle), "O-O-O");
}

#[test]
fn squares_are_written_and_read() {
    assert_eq!(format_coord(BitCoord(0x0000_0000_0000_0080)), "a1");
    assert_eq!(format_coord(BitCoord(0x0100_0000_0000_0000)), "h8");
    assert_eq!(parse_coord("a1"), BitCoord(0x0000_0000_0000_0080));
    assert_eq!(parse_coord("h8"), BitCoord(0x0100_0000_0000_0000));
    assert_eq!(parse_coord("c6"), BitCoord::from_file_rank(2, 5));
    for file in 0..8 {
        assert_eq!(parse_file(format_file(file)), file);
        assert_eq!(parse_rank(format_rank(file)), file);
    }
    assert_eq!(format_file(0), 'a');
    assert_eq!(format_file(7), 'h');
    assert_eq!(format_rank(0), '1');
    assert_eq!(format_rank(8), '9');
    assert_eq!(format_piece(Piece::King), 'K');
    assert_eq!(format_piece(Piece::Queen), 'Q');
    assert_eq!(format_piece(Piece::Rook), 'R');
    assert_eq!(format_piece(Piece::Bishop), 'B');
    assert_eq!(format_piece(Piece::Knight), 'N');
    assert_eq!(format_piece(Piece::Pawn), 'P');
}

#[test]
fn game_records_mark_captures_checks_and_promotions() {
    let hasher = ZobristHasher::default();
    let mbb = MagicBitBoards::default().unwrap();
    let state = load_fen("1n2k3/P7/8/8/8/8/8/R3K2R w KQ -", &hasher).unwrap();
    let a7 = BitCoord::from_file_rank(0, 6);
    let take = PGNMove::from_internal(
        &state,
        Move::Promotion(a7, BitCoord::from_file_rank(1, 7), Piece::Queen),
        &mbb,
        &hasher,
    );
    assert_eq!(take.to_string(), "xb8=Q+");
    let quiet = PGNMove::from_internal(
        &state,
        Move::Normal(Piece::Rook, BitCoord::from_file_rank(0, 0), BitCoord::from_file_rank(0, 5)),
        &mbb,
        &hasher,
    );
    assert_eq!(quiet.to_string(), "Ra6");
    assert_eq!(PGNMove::from_internal(&state, Move::Castle, &mbb, &hasher).to_string(), "O-O");
    assert_eq!(PGNMove::from_internal(&state, Move::LongCastle, &mbb, &hasher).to_string(), "O-O-O");
    assert_eq!(PGNMove::Castle(true, false).to_string(), "O-O+");
    assert_eq!(PGNMove::LongCastle(true, true).to_string(), "O-O-O+#");
    let data = PGNMoveData {
        piece: Piece::Knight,
        disambiguate_file: None,
        disambiguate_rank: None,
        to_square: BitCoord::from_file_rank(5, 2),
        is_capture: true,
        is_check: false,
        is_checkmate: true,
        promote_to: None,
    };
    assert_eq!(PGNMove::Normal(data).to_string(), "Nxf3#");
}
