use chess_lib::fen::{load_fen, STARTING_POSITION};
use chess_lib::magic::MagicBitBoards;
use chess_lib::moves::legal_moves;
use chess_lib::types::{BitCoord, Colour, Move, Piece, ZobristHash};
use chess_lib::zobrist::{
    ZobristHasher, BLACK_KINGSIDE, BLACK_QUEENSIDE, BLACK_TO_MOVE, DEFAULT_SEED, EN_PASSANT,
    KEY_COUNT, WHITE_KINGSIDE, WHITE_QUEENSIDE,
};
use rand::seq::SliceRandom;
use rand::Rng;
use rand::SeedableRng;
use rand_chacha::ChaCha8Rng;

fn keys(seed: u64) -> Vec<u64> {
    let mut rng = ChaCha8Rng::seed_from_u64(seed);
    (0..KEY_COUNT).map(|_| rng.gen::<u64>()).collect()
}

#[test]
fn from_scratch() {
    // Tests that the hasher does something, and remains deterministic.
    let hasher = ZobristHasher::default();
    let state = load_fen(STARTING_POSITION, &hasher).unwrap();
    let zh = hasher.hash(&state);
    assert_eq!(zh, ZobristHash(0x82c2a351a83b26ae));
    assert_eq!(state.zh, zh);
}

#[test]
fn hash_is_the_xor_of_the_keys_of_the_position() {
    let hasher = ZobristHasher::default();
    let keys = keys(DEFAULT_SEED);
    let state = load_fen("4k3/8/8/8/8/8/8/R3K3 b Q -", &hasher).unwrap();
    // White rook a1 (bit 7), white king e1 (bit 3), black king e8 (bit 59).
    let expected = keys[2 * 64 + 7] ^ keys[3] ^ keys[384 + 59] ^ keys[BLACK_TO_MOVE]
        ^ keys[WHITE_QUEENSIDE];
    assert_eq!(hasher.hash(&state), ZobristHash(expected));
}

#[test]
fn every_feature_has_a_key_of_its_own() {
    assert_eq!(KEY_COUNT, 781);
    let mut indices = vec![BLACK_TO_MOVE, WHITE_KINGSIDE, WHITE_QUEENSIDE, BLACK_KINGSIDE, BLACK_QUEENSIDE];
    for file in 0..8 {
        indices.push(EN_PASSANT + file);
    }
    indices.push(ZobristHasher::piece_index(Colour::Black, Piece::Pawn, BitCoord(1 << 63)));
    indices.sort();
    indices.dedup();
    assert_eq!(indices.len(), 14);
    assert_eq!(indices[0], 767);
    assert_eq!(indices[13], 780);
    assert_eq!(ZobristHasher::piece_index(Colour::White, Piece::King, BitCoord(1)), 0);
    assert_eq!(ZobristHasher::piece_index(Colour::White, Piece::Queen, BitCoord(2)), 65);
    assert_eq!(ZobristHasher::piece_index(Colour::Black, Piece::Knight, BitCoord(4)), 384 + 256 + 2);
}

#[test]
fn toggles_xor_one_key_each() {
    let hasher = ZobristHasher::from_seed(7);
    let keys = keys(7);
    let zh = ZobristHash(0x1234);
    assert_eq!(hasher.toggle_active_colour(zh).0, 0x1234 ^ keys[768]);
    assert_eq!(hasher.toggle_white_kingside(zh).0, 0x1234 ^ keys[769]);
    assert_eq!(hasher.toggle_white_queenside(zh).0, 0x1234 ^ keys[770]);
    assert_eq!(hasher.toggle_black_kingside(zh).0, 0x1234 ^ keys[771]);
    assert_eq!(hasher.toggle_black_queenside(zh).0, 0x1234 ^ keys[772]);
    // c6 is on file 2.
    assert_eq!(
        hasher.toggle_en_passant(zh, BitCoord::from_file_rank(2, 5)).0,
        0x1234 ^ keys[773 + 2]
    );
    assert_eq!(
        hasher.toggle_piece(zh, Colour::Black, Piece::Rook, BitCoord(1 << 56)).0,
        0x1234 ^ keys[384 + 128 + 56]
    );
    assert_eq!(hasher.identify_diff(zh, hasher.toggle_active_colour(zh)), Some(768));
    assert_eq!(hasher.identify_diff(zh, zh), None);
}

#[test]
fn zobrist_chaos() {
    // Tests that incrementally updated zobrist hash equals one computed from scratch.
    let mut rng = ChaCha8Rng::seed_from_u64(12345);
    let mbb = MagicBitBoards::default().unwrap();
    let hasher = ZobristHasher::default();
    let mut state = load_fen(STARTING_POSITION, &hasher).unwrap();
    let mut sequence: Vec<Move> = vec![];

    for _ in 0..100_000 {
        let moves = legal_moves(&state, &mbb);
        match moves.choose(&mut rng) {
            Some(mv) => {
                state.make_move(*mv, &hasher);
                sequence.push(*mv);
                let clean_hash = hasher.hash(&state);

                if state.zh != clean_hash {
                    println!("After these moves, the hash differs: {:?}", sequence);
                    println!("Hash difference: 0x{:16x}", state.zh.0 ^ clean_hash.0);
                    println!(
                        "Identified error index: {:?}",
                        hasher.identify_diff(state.zh, clean_hash)
                    );
                    panic!("Test failed");
                }
            }
            None => {
                // No legal moves, reset game.
                state = load_fen(STARTING_POSITION, &hasher).unwrap();
                sequence.clear();
            }
        }

        // Also reset after 50 moves.
        if sequence.len() >= 50 {
            state = load_fen(STARTING_POSITION, &hasher).unwrap();
            sequence.clear();
        }
    }
}
