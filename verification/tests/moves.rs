use chess_lib::fen::load_fen;
use chess_lib::fmt::format_move;
use chess_lib::magic::MagicBitBoards;
use chess_lib::moves::{attacks_on_square, legal_moves, square_under_attack, Attack};
use chess_lib::types::{BitBoard, BitCoord, Colour, Move, Piece};
use chess_lib::zobrist::ZobristHasher;
use rand::seq::SliceRandom;
use rand::SeedableRng;

fn moves_of(fen: &str) -> Vec<String> {
    let hasher = ZobristHasher::default();
    let mbb = MagicBitBoards::default().unwrap();
    let state = load_fen(fen, &hasher).unwrap();
    let mut moves: Vec<String> = legal_moves(&state, &mbb).into_iter().map(format_move).collect();
    moves.sort();
    moves
}

#[test]
fn lone_pawn_advances_one_square() {
    assert_eq!(moves_of("8/8/8/8/3P4/8/8/8 w - -"), vec!["d4d5"]);
}

#[test]
fn pawn_captures_a_knight_diagonally() {
    assert_eq!(moves_of("8/8/8/4n3/3P4/8/8/8 w - -"), vec!["d4d5", "d4e5"]);
}

#[test]
fn pawn_on_its_home_rank_may_advance_twice() {
    assert_eq!(moves_of("8/8/8/8/8/8/4P3/8 w - -"), vec!["e2e3", "e2e4"]);
    assert_eq!(moves_of("8/8/8/8/8/4n3/4P3/8 w - -"), Vec::<String>::new());
    assert_eq!(moves_of("8/8/8/8/4n3/8/4P3/8 w - -"), vec!["e2e3"]);
}

#[test]
fn knight_in_the_corner_has_two_moves() {
    assert_eq!(moves_of("8/8/8/8/8/8/8/N7 w - -"), vec!["a1b3", "a1c2"]);
}

#[test]
fn king_in_the_corner_has_three_moves() {
    assert_eq!(moves_of("7K/8/8/8/8/8/8/8 w - -"), vec!["h8g7", "h8g8", "h8h7"]);
}

#[test]
fn rook_on_an_empty_board_has_fourteen_moves() {
    assert_eq!(moves_of("8/8/8/8/3R4/8/8/8 w - -").len(), 14);
}

#[test]
fn both_castles_are_legal_with_clear_home_rank() {
    let moves = moves_of("r3k2r/8/8/8/8/8/8/R3K2R w KQkq -");
    assert!(moves.contains(&"O-O".to_string()));
    assert!(moves.contains(&"O-O-O".to_string()));
}

#[test]
fn a_rook_on_the_e_file_forbids_both_castles() {
    let moves = moves_of("r3k2r/8/8/4r3/8/8/8/R3K2R w KQkq -");
    assert!(!moves.contains(&"O-O".to_string()));
    assert!(!moves.contains(&"O-O-O".to_string()));
}

#[test]
fn a_bishop_that_attacks_f1_forbids_castling_short_only() {
    let moves = moves_of("r3k2r/8/8/8/8/7b/8/R3K2R w KQkq -");
    assert!(!moves.contains(&"O-O".to_string()));
    assert!(moves.contains(&"O-O-O".to_string()));
}

#[test]
fn an_attack_on_b1_does_not_forbid_castling_long() {
    let moves = moves_of("4k3/8/8/8/8/8/8/Rr2K3 w Q -");
    assert!(!moves.contains(&"O-O-O".to_string()));
    let moves = moves_of("1r2k3/8/8/8/8/8/8/R3K3 w Q -");
    assert!(moves.contains(&"O-O-O".to_string()));
}

#[test]
fn castling_needs_the_right_and_the_rook() {
    let moves = moves_of("r3k2r/8/8/8/8/8/8/R3K2R w kq -");
    assert!(!moves.contains(&"O-O".to_string()));
    assert!(!moves.contains(&"O-O-O".to_string()));
    let moves = moves_of("4k3/8/8/8/8/8/8/4K3 w KQ -");
    assert!(!moves.contains(&"O-O".to_string()));
    assert!(!moves.contains(&"O-O-O".to_string()));
}

#[test]
fn en_passant_that_uncovers_the_king_is_left_out() {
    let moves = moves_of("8/8/8/KPp4r/8/8/8/6k1 w - c6");
    assert!(!moves.contains(&"b5c6".to_string()));
    assert!(moves.contains(&"b5b6".to_string()));
}

#[test]
fn en_passant_is_listed_where_it_is_safe() {
    let moves = moves_of("4k3/8/8/1Pp5/8/8/8/4K3 w - c6");
    assert!(moves.contains(&"b5c6".to_string()));
}

#[test]
fn en_passant_may_take_the_checking_pawn() {
    // The pawn on c5 has just advanced two squares and checks the king on d4.
    let moves = moves_of("4k3/8/8/1Pp5/3K4/8/8/8 w - c6");
    assert!(moves.contains(&"b5c6".to_string()));
    assert!(!moves.contains(&"b5b6".to_string()));
}

#[test]
fn a_pinned_piece_stays_on_the_line_of_the_pin() {
    // The rook on e2 is pinned by the rook on e8.
    let moves = moves_of("4r1k1/8/8/8/8/8/4R3/4K3 w - -");
    let rook: Vec<&String> = moves.iter().filter(|m| m.starts_with("e2")).collect();
    assert_eq!(rook.len(), 6);
    assert!(rook.iter().all(|m| m.as_bytes()[2] == b'e'));
}

#[test]
fn a_double_check_leaves_only_king_moves() {
    let moves = moves_of("4r1k1/8/8/8/8/3n4/8/R3K3 w - -");
    assert!(!moves.is_empty());
    assert!(moves.iter().all(|m| m.starts_with("e1")));
}

#[test]
fn a_pawn_on_the_seventh_rank_promotes_to_four_pieces() {
    assert_eq!(moves_of("8/P7/8/8/8/8/8/8 w - -"), vec!["a7a8B", "a7a8N", "a7a8Q", "a7a8R"]);
    assert_eq!(moves_of("8/8/8/8/8/8/p7/8 b - -"), vec!["a2a1B", "a2a1N", "a2a1Q", "a2a1R"]);
}

#[test]
fn a_king_does_not_step_back_along_the_line_of_a_check() {
    // The rook on a1 checks the king on e1 along the first rank.
    let moves = moves_of("4k3/8/8/8/8/8/8/r3K3 w - -");
    assert!(!moves.contains(&"e1f1".to_string()));
    assert!(!moves.contains(&"e1d1".to_string()));
    assert!(moves.contains(&"e1e2".to_string()));
}

#[test]
fn checkmate_and_stalemate_leave_no_move() {
    assert!(moves_of("R5k1/5ppp/8/8/8/8/8/6K1 b - -").is_empty());
    assert!(moves_of("7k/5Q2/6K1/8/8/8/8/8 b - -").is_empty());
}

#[test]
fn moves_name_the_piece_that_moves() {
    let hasher = ZobristHasher::default();
    let mbb = MagicBitBoards::default().unwrap();
    let state = load_fen("8/8/8/8/8/8/8/N7 w - -", &hasher).unwrap();
    let moves = legal_moves(&state, &mbb);
    assert_eq!(
        moves,
        vec![
            Move::Normal(Piece::Knight, BitCoord::from_file_rank(0, 0), BitCoord::from_file_rank(2, 1)),
            Move::Normal(Piece::Knight, BitCoord::from_file_rank(0, 0), BitCoord::from_file_rank(1, 2)),
        ]
    );
}

#[test]
fn attacks_list_checks_and_pins() {
    let hasher = ZobristHasher::default();
    let mbb = MagicBitBoards::default().unwrap();
    let state = load_fen("4r1k1/8/8/8/8/3n4/4R3/4K3 w - -", &hasher).unwrap();
    let king = BitCoord::from_file_rank(4, 0);
    let attacks = attacks_on_square(&state.white.pieces, &state.black.pieces, king, Colour::White, &mbb);
    let e_file_up_to_e8 = (1..8).fold(0u64, |acc, r| acc | BitCoord::from_file_rank(4, r).0);
    assert_eq!(
        attacks,
        vec![
            Attack::Pin(BitCoord::from_file_rank(4, 1), BitBoard(e_file_up_to_e8)),
            Attack::Check(BitBoard(BitCoord::from_file_rank(3, 2).0)),
        ]
    );
    assert!(state.is_in_check(&mbb));
    let occupancy = BitBoard(state.white.pieces.all().0 | state.black.pieces.all().0);
    assert!(square_under_attack(occupancy, &state.black.pieces, king, Colour::White, &mbb));
    assert!(!square_under_attack(
        occupancy,
        &state.black.pieces,
        BitCoord::from_file_rank(0, 0),
        Colour::White,
        &mbb
    ));
    // Black pawns attack downwards: the pawn on d5 attacks c4 and e4, not c6.
    let pawn = load_fen("8/8/8/3p4/8/8/8/8 w - -", &hasher).unwrap();
    let occupancy = BitBoard(pawn.black.pieces.all().0);
    assert!(square_under_attack(occupancy, &pawn.black.pieces, BitCoord::from_file_rank(2, 3), Colour::White, &mbb));
    assert!(square_under_attack(occupancy, &pawn.black.pieces, BitCoord::from_file_rank(4, 3), Colour::White, &mbb));
    assert!(!square_under_attack(occupancy, &pawn.black.pieces, BitCoord::from_file_rank(2, 5), Colour::White, &mbb));
}

#[test]
fn no_legal_move_leaves_the_own_king_in_check() {
    let mut rng = rand_chacha::ChaCha8Rng::seed_from_u64(2024);
    let hasher = ZobristHasher::default();
    let mbb = MagicBitBoards::default().unwrap();
    let start = "r3k2r/p1ppqpb1/bn2pnp1/3PN3/1p2P3/2N2Q1p/PPPBBPPP/R3K2R w KQkq -";
    let mut state = load_fen(start, &hasher).unwrap();
    let mut plies = 0;
    for _ in 0..3000 {
        assert!(state.is_well_formed());
        let moves = legal_moves(&state, &mbb);
        for m in moves.iter() {
            let mut next = state;
            next.make_move(*m, &hasher);
            next.active_colour = Colour::other(next.active_colour);
            assert!(!next.is_in_check(&mbb), "{} leaves the king in check", format_move(*m));
        }
        match moves.choose(&mut rng) {
            Some(m) if plies < 80 => {
                state.make_move(*m, &hasher);
                plies += 1;
            }
            _ => {
                state = load_fen(start, &hasher).unwrap();
                plies = 0;
            }
        }
    }
}

#[test]
fn en_passant_target_stands_behind_the_pawn_that_passed_it() {
    let hasher = ZobristHasher::default();
    let mut state = load_fen("4k3/3p4/8/8/8/8/4P3/4K3 w - -", &hasher).unwrap();
    state.make_move(
        Move::Normal(Piece::Pawn, BitCoord::from_file_rank(4, 1), BitCoord::from_file_rank(4, 3)),
        &hasher,
    );
    assert_eq!(state.en_passant, Some(BitCoord::from_file_rank(4, 2)));
    assert_eq!(state.find_piece(BitCoord::from_file_rank(4, 2)), None);
    assert_eq!(
        state.find_piece(BitCoord::from_file_rank(4, 3)),
        Some((Colour::White, Piece::Pawn))
    );
    state.make_move(
        Move::Normal(Piece::Pawn, BitCoord::from_file_rank(3, 6), BitCoord::from_file_rank(3, 4)),
        &hasher,
    );
    assert_eq!(state.en_passant, Some(BitCoord::from_file_rank(3, 5)));
    assert_eq!(
        state.find_piece(BitCoord::from_file_rank(3, 4)),
        Some((Colour::Black, Piece::Pawn))
    );
}

#[test]
fn well_formed_positions_are_told_apart() {
    let hasher = ZobristHasher::default();
    let mut state = load_fen("4k3/8/8/8/8/8/8/R3K3 w Q -", &hasher).unwrap();
    assert!(state.is_well_formed());
    assert!(state.white.pieces.is_well_formed());
    state.black.pieces.put_piece(Piece::Queen, BitCoord::from_file_rank(0, 0));
    assert!(!state.is_well_formed());
    assert!(state.black.pieces.is_well_formed());
    state.black.pieces.put_piece(Piece::King, BitCoord::from_file_rank(0, 0));
    assert!(!state.black.pieces.is_well_formed());
}
