use chess_lib::magic::{
    bishop_mask, bishop_moves, boards_for_mask, diff, generate_moves, king_moves, knight_moves,
    rook_mask, rook_moves, Line, Magic, MagicBitBoards,
};
use chess_lib::types::{BitBoard, BitCoord};
use rand::Rng;
use rand::SeedableRng;
use rand_chacha::ChaCha8Rng;

#[test]
fn test_rook_mask() {
    let actual = rook_mask(BitCoord(0x00_40_00_00_00_00_00_00));
    let expected = BitBoard(0x00_3E_40_40_40_40_40_00);
    assert_eq!(actual, expected);
}

#[test]
fn test_bishop_mask() {
    let actual = bishop_mask(BitCoord(0x00_00_20_00_00_00_00_00));
    let expected = BitBoard(0x00_50_00_50_08_04_02_00);
    assert_eq!(actual, expected);
}

#[test]
fn test_boards_for_mask() {
    let actual = boards_for_mask(BitBoard(0b101));
    let expected = vec![BitBoard(0b000), BitBoard(0b001), BitBoard(0b100), BitBoard(0b101)];
    assert_eq!(actual, expected);
}

#[test]
fn test_rook_moves() {
    let actual =
        rook_moves(BitCoord(0x00_40_00_00_00_00_00_00), BitBoard(0x00_00_00_40_00_00_00_00));
    let expected = BitBoard(0x40_BF_40_40_00_00_00_00);
    assert_eq!(actual, expected);
}

#[test]
fn test_generate_rook() {
    let mut rng = ChaCha8Rng::seed_from_u64(12345);
    // Test a few random configurations.
    for _ in 0..100 {
        let coord = BitCoord(1 << (rng.gen_range(0..64)));
        let moves = generate_moves(coord, rook_mask(coord), rook_moves);

        let magic: Magic = {
            let mut mm: Option<Magic> = None;
            while mm.is_none() {
                match Magic::generate(rand::random::<u64>(), rook_mask(coord), &moves, 1 << 15) {
                    Some(m) => {
                        mm = Some(m);
                    }
                    None => continue,
                }
            }
            mm.unwrap()
        };

        let board = BitBoard(rand::random::<u64>());
        let actual_moves = rook_moves(coord, board);
        let magic_moves = magic.lookup(board);
        if actual_moves != magic_moves {
            println!("Occupancy: {:?}", board);
            println!("Actual: {:?}", actual_moves);
            println!("Magic: {:?}", magic_moves);
            panic!("Test failed");
        }
    }
}

#[test]
fn test_generated_rook_magic() {
    let mut rng = ChaCha8Rng::seed_from_u64(12345);
    let magic_bbs = MagicBitBoards::default().unwrap();

    for _ in 0..100_000 {
        let coord = BitCoord(1 << (rng.gen_range(0..64)));
        let board = BitBoard(rng.gen::<u64>());
        let actual_moves = rook_moves(coord, board);
        let magic_moves = magic_bbs.rook(coord).lookup(board);

        if actual_moves != magic_moves {
            println!("Actual: {:?}", actual_moves);
            println!("Magic: {:?}", magic_moves);
            panic!("Test failed");
        }
    }
}

#[test]
fn test_generated_bishop_magic() {
    let mut rng = ChaCha8Rng::seed_from_u64(12345);
    let magic_bbs = MagicBitBoards::default().unwrap();

    for _ in 0..100_000 {
        let coord = BitCoord(1 << (rng.gen_range(0..64)));
        let board = BitBoard(rng.gen::<u64>());
        let actual_moves = bishop_moves(coord, board);
        let magic_moves = magic_bbs.bishop(coord).lookup(board);
        assert_eq!(actual_moves, magic_moves);
    }
}

#[test]
fn king_and_knight_tables_match_the_walks() {
    let magic_bbs = MagicBitBoards::default().unwrap();
    for c in 0..64 {
        let coord = BitCoord(1 << c);
        assert_eq!(magic_bbs.king(coord), king_moves(coord));
        assert_eq!(magic_bbs.knight(coord), knight_moves(coord));
    }
    // A knight on a1 reaches b3 and c2; a king on h8 reaches h7, g7 and g8.
    let a1 = BitCoord::from_file_rank(0, 0);
    let h8 = BitCoord::from_file_rank(7, 7);
    assert_eq!(
        knight_moves(a1).0,
        BitCoord::from_file_rank(1, 2).0 | BitCoord::from_file_rank(2, 1).0
    );
    assert_eq!(
        king_moves(h8).0,
        BitCoord::from_file_rank(7, 6).0
            | BitCoord::from_file_rank(6, 6).0
            | BitCoord::from_file_rank(6, 7).0
    );
}

#[test]
fn line_stops_at_the_edge_without_wrapping() {
    // h1 is bit 0: a step of -1 leaves the board, a step of +1 goes to g1.
    let mut down = Line::new(BitCoord(1), -1);
    assert_eq!(down.next(), None);
    let mut left = Line::new(BitCoord(1), 1);
    assert_eq!(left.next(), Some(BitCoord(2)));
    // a1 is bit 7: one more step to the left would wrap to h2.
    let mut wrap = Line::new(BitCoord(1 << 7), 1);
    assert_eq!(wrap.next(), None);
    // A diagonal from a1 towards h8 has seven squares.
    let mut diagonal = Line::new(BitCoord(1 << 7), 7);
    let mut n = 0;
    while diagonal.next().is_some() {
        n += 1;
    }
    assert_eq!(n, 7);
    assert_eq!(diff(3, 5), 2);
    assert_eq!(diff(5, 3), 2);
}

#[test]
fn generated_table_is_the_least_that_fits() {
    let coord = BitCoord(1);
    let mask = bishop_mask(coord);
    let moves = generate_moves(coord, mask, bishop_moves);
    assert_eq!(moves.len(), 64);
    let good = Magic::generate(0xc9e0b32f7efb37ff, mask, &moves, 1 << 10).unwrap();
    assert_eq!(good.magic(), 0xc9e0b32f7efb37ff);
    assert_eq!(good.size(), 64);
    assert_eq!(good.shift(), 58);
    assert!(Magic::generate(0xc9e0b32f7efb37ff, mask, &moves, 32).is_none());
    assert!(Magic::generate(0, mask, &moves, 1 << 10).is_none());
    assert_eq!(Magic::dummy().size(), 0);
    assert!(MagicBitBoards::generate([(0, 4); 64], [(0, 4); 64]).is_none());
}
